# green_tree

Immutable syntax trees, verified with Verus.

A tree has nodes, with a kind and a list of children, and tokens, with a kind and
a text. Nodes and tokens are shared: a clone is another handle to the same data,
and a node that is made from another one shares its children. The contracts
speak of values and not of where they are kept. That data is shared shows in
`share` (`src/shared.rs`), which copies handles only, and in the tests
`clones_share_one_node` and `edited_nodes_share_the_other_children`.

A node keeps its first child in its head, and each other child with the offset at
which its text starts. The tag of such a child (is it a node or a token?) and its
offset share one 32-bit word. So the offset of every child but the first has to be
below 2^30, and the text of a node has at most 2^32 - 1 bytes.

## Layout

- `src/model.rs`: the mathematical trees that all contracts speak of
- `src/node.rs`, `src/head.rs`, `src/token.rs`, `src/element.rs`: nodes, tokens and
  children; how a node is made, read and searched
- `src/edit.rs`: nodes that are made from other nodes
- `src/child.rs`, `src/untagged_element.rs`, `src/tag.rs`, `src/repr.rs`: how
  children are stored
- `src/search.rs`: the search for the child that covers a range of text
- `src/children.rs`: walks over children
- `src/equality.rs`, `src/hashing.rs`, `src/display.rs`: equality, hashing, text
- `src/address.rs`: addresses written as small offsets from a base address
- `src/laws/`: what holds of trees and of the operations on them as a whole
- `src/shared.rs`: what is taken from `std` and `countme` without proof
- `app/`: formatting, iterators and checked entry points, in ordinary Rust

Live nodes are counted by `countme`, under the type `GreenNode`.
