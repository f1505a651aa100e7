//! Tokens: the leaves of the tree.

use std::borrow::Borrow;
use std::ops::Deref;
use std::sync::Arc;
use vstd::prelude::*;
use crate::element::SyntaxKind;
use crate::model::TokenTree;
use crate::shared::share;
use crate::text::TextSize;

verus! {

pub(crate) struct TokenRepr {
    pub(crate) kind: SyntaxKind,
    pub(crate) text: String,
}

/// What is behind a [`GreenToken`]: a kind and a text whose length fits into a
/// [`TextSize`].
pub struct GreenTokenData {
    repr: Arc<TokenRepr>,
}

/// Leaf of the immutable tree. Clones of a token share one text.
pub struct GreenToken {
    data: GreenTokenData,
}

impl View for GreenTokenData {
    type V = TokenTree;

    closed spec fn view(&self) -> TokenTree {
        TokenTree { kind: self.repr.kind, text: self.repr.text@ }
    }
}

impl View for GreenToken {
    type V = TokenTree;

    closed spec fn view(&self) -> TokenTree {
        self.data@
    }
}

impl GreenTokenData {
    #[verifier::type_invariant]
    closed spec fn inv(self) -> bool {
        vstd::utf8::encode_utf8(self.repr.text@).len() <= u32::MAX
    }

    /// Kind of this token.
    pub fn kind(&self) -> (kind: SyntaxKind)
        ensures
            kind == self@.kind,
    {
        self.repr.kind
    }

    /// Text of this token.
    pub fn text(&self) -> (text: &str)
        ensures
            text@ == self@.text,
    {
        self.repr.text.as_str()
    }

    pub(crate) fn owned_text(&self) -> (text: &String)
        ensures
            text@ == self@.text,
    {
        &self.repr.text
    }

    /// Returns the length of the text of this token.
    pub fn text_len(&self) -> (len: TextSize)
        ensures
            len@ == vstd::utf8::encode_utf8(self@.text).len(),
    {
        proof {
            use_type_invariant(self);
        }
        TextSize::of(self.repr.text.as_str())
    }
}

impl ToOwned for GreenTokenData {
    type Owned = GreenToken;

    fn to_owned(&self) -> (token: GreenToken)
        ensures
            token@ == self@,
            token == GreenToken::handle(*self),
    {
        proof {
            use_type_invariant(self);
        }
        GreenToken { data: GreenTokenData { repr: share(&self.repr) } }
    }
}

impl Deref for GreenToken {
    type Target = GreenTokenData;

    fn deref(&self) -> (data: &GreenTokenData)
        ensures
            *data == self.behind(),
            data@ == self@,
    {
        &self.data
    }
}

impl Clone for GreenToken {
    fn clone(&self) -> (token: GreenToken)
        ensures
            token == *self,
    {
        self.data.to_owned()
    }
}

impl Borrow<GreenTokenData> for GreenToken {
    fn borrow(&self) -> &GreenTokenData
        returns
            &self.behind(),
    {
        &self.data
    }
}

impl GreenToken {
    /// The handle to `data`.
    pub closed spec fn handle(data: GreenTokenData) -> GreenToken {
        GreenToken { data }
    }

    /// What is behind this token.
    pub closed spec fn behind(self) -> GreenTokenData {
        self.data
    }

    /// A handle and what is behind it are the same leaf, and either one gives the
    /// other.
    pub proof fn lemma_behind(self)
        ensures
            self.behind()@ == self@,
            GreenToken::handle(self.behind()) == self,
            forall|data: GreenTokenData| #[trigger] GreenToken::handle(data).behind() == data,
            forall|data: GreenTokenData| #[trigger] GreenToken::handle(data)@ == data@,
    {
    }

    /// The data behind this token.
    pub(crate) fn as_data(&self) -> (data: &GreenTokenData)
        ensures
            *data == self.behind(),
            data@ == self@,
    {
        &self.data
    }

    /// Creates new Token.
    pub fn new(kind: SyntaxKind, text: &str) -> (token: GreenToken)
        requires
            vstd::utf8::encode_utf8(text@).len() <= u32::MAX,
        ensures
            token@ == (TokenTree { kind, text: text@ }),
    {
        let repr = TokenRepr { kind, text: text.to_owned() };
        GreenToken { data: GreenTokenData { repr: Arc::new(repr) } }
    }

    /// Gives up the handle and keeps what it handles.
    pub(crate) fn into_raw(this: GreenToken) -> (data: GreenTokenData)
        ensures
            data@ == this@,
            data == this.behind(),
    {
        this.data
    }

    /// The handle to `data`.
    pub(crate) fn from_raw(data: GreenTokenData) -> (token: GreenToken)
        ensures
            token@ == data@,
            token == GreenToken::handle(data),
            token.behind() == data,
    {
        GreenToken { data }
    }
}

} // verus!
