//! Immutable syntax trees: nodes with a kind and a list of children, and tokens
//! with a kind and a text.
//!
//! A node stores its children one after the other, each with the offset at which
//! its text starts. The first child, whose offset is zero, is kept apart from the
//! others. Of the others, the tag and the offset share one word.

pub mod address;
mod child;
pub mod children;
mod display;
pub mod edit;
mod element;
mod equality;
pub mod hashing;
mod head;
pub mod laws;
pub mod model;
mod node;
mod repr;
mod search;
mod shared;
pub mod tag;
mod text;
mod token;
mod untagged_element;

pub use child::{ChildEntry, GreenChild, GreenChildCompact, StoredChild};
pub use children::{Children, ChildrenExt};
pub use edit::{child_range, RangeEdge};
pub use element::{GreenElement, GreenElementRef, NodeOrToken, SyntaxKind};
pub use head::{GreenNodeHead, HeadTree};
pub use node::{GreenNode, GreenNodeData};
pub use tag::ElementTag;
pub use text::{Placement, TextRange, TextSize};
pub use token::{GreenToken, GreenTokenData};
pub use untagged_element::UntaggedElement;
