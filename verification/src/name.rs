//! Names: the identities of members within a universe.

use vstd::prelude::*;

verus! {

/// Name (key) of a member in a universe.
#[derive(Debug)]
pub enum Name {
    /// An explicitly chosen name, unique across all member types.
    Specific(String),
    /// An automatically assigned numeric name, never reused.
    Anonym(usize),
    /// Not yet assigned; replaced by a fresh `Anonym` upon insertion.
    Pending,
}

/// The mathematical value of a [`Name`]: the string is read as its character
/// sequence.
pub enum NameView {
    Specific(Seq<char>),
    Anonym(int),
    Pending,
}

impl View for Name {
    type V = NameView;

    open spec fn view(&self) -> NameView {
        match self {
            Name::Specific(s) => NameView::Specific(s@),
            Name::Anonym(n) => NameView::Anonym(*n as int),
            Name::Pending => NameView::Pending,
        }
    }
}

impl Clone for Name {
    /// Clones reproduce the name exactly.
    fn clone(&self) -> (r: Self)
        ensures
            r == *self,
    {
        match self {
            Name::Specific(s) => Name::Specific(s.clone()),
            Name::Anonym(n) => Name::Anonym(*n),
            Name::Pending => Name::Pending,
        }
    }
}

impl PartialEq for Name {
    /// Names are compared by value: two `Specific` names are equal exactly
    /// when their strings hold the same characters.
    fn eq(&self, other: &Self) -> (r: bool) {
        match (self, other) {
            (Name::Specific(a), Name::Specific(b)) => a.eq(b),
            (Name::Anonym(a), Name::Anonym(b)) => a == b,
            (Name::Pending, Name::Pending) => true,
            _ => false,
        }
    }
}

impl vstd::std_specs::cmp::PartialEqSpecImpl for Name {
    open spec fn obeys_eq_spec() -> bool {
        true
    }

    open spec fn eq_spec(&self, other: &Self) -> bool {
        self@ == other@
    }
}

} // verus!
