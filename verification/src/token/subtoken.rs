//! Subtokens: the atomic units within a [`Token`](super::main_token::Token).
use vstd::prelude::*;

verus! {

/// Classification state of a [`SubToken`].
#[derive(Debug, Clone, Copy, PartialEq, Eq, Structural)]
pub enum SubTokenCategory {
    /// Not yet classified; visible to title and release-group extraction.
    Unknow,
    /// A delimiter character (space, dot, hyphen, etc.).
    Delimiter,
    /// Structurally invalid; ignored by all passes.
    Invalid,
    /// Consumed by a parsing pass; no longer available to downstream passes.
    Found,
}

impl Default for SubTokenCategory {
    fn default() -> (r: SubTokenCategory)
        ensures
            r == SubTokenCategory::Unknow,
    {
        SubTokenCategory::Unknow
    }
}

/// The mathematical value of a subtoken: its text and its classification.
pub type SubTokenView = (Seq<char>, SubTokenCategory);

/// An atomic string fragment within a token, tagged with its classification state.
#[derive(Debug, Clone, PartialEq, Eq)]
pub struct SubToken {
    value: String,
    category: SubTokenCategory,
}

impl View for SubToken {
    type V = SubTokenView;

    closed spec fn view(&self) -> SubTokenView {
        (self.value@, self.category)
    }
}

impl SubToken {
    /// Creates an unclassified subtoken from the given string slice.
    pub fn new(v: &str) -> (r: SubToken)
        ensures
            r@ == (v@, SubTokenCategory::Unknow),
    {
        SubToken { value: v.to_owned(), category: SubTokenCategory::Unknow }
    }

    /// Sets the classification category of this subtoken.
    pub fn category(&mut self, c: SubTokenCategory) -> (r: &mut SubToken)
        ensures
            (*r)@ == (old(self)@.0, c),
            final(self)@ == (*final(r))@,
    {
        self.category = c;
        self
    }

    /// Sets the classification category of this subtoken (without handing it back).
    pub fn set_category(&mut self, c: SubTokenCategory)
        ensures
            final(self)@ == (old(self)@.0, c),
    {
        self.category = c;
    }

    /// Returns `true` if this subtoken's category matches `c`.
    pub fn is_category(&self, c: SubTokenCategory) -> (r: bool)
        ensures
            r == (self@.1 == c),
    {
        self.category == c
    }

    /// Returns the string value of this subtoken.
    pub fn value(&self) -> (r: &str)
        ensures
            r@ == self@.0,
    {
        self.value.as_str()
    }
}

} // verus!
