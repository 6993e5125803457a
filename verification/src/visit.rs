//! Finding the member references held inside values.
//!
//! Correct reporting matters: the garbage collector keeps a member alive
//! while any live member reports a reference to it, so a value that fails to
//! report a reference may see its referent collected.

use vstd::prelude::*;

use crate::character::Character;
use crate::inv::{Inventory, Slot};
use crate::uref::ErasedRef;

verus! {

/// Callback used by [`VisitRefs::visit_refs`].
pub trait RefVisitor: Sized {
    /// The references reported to this visitor so far, in order.
    spec fn seen(&self) -> Seq<ErasedRef>;

    /// Report one reference.
    fn visit(&mut self, r: &ErasedRef)
        ensures
            final(self).seen() == old(self).seen().push(*r),
    ;
}

/// Allows finding all of the member references inside a data structure.
pub trait VisitRefs {
    /// The references the value holds directly, in visiting order.
    spec fn refs_spec(&self) -> Seq<ErasedRef>;

    /// For each member reference contained in `self` that is reachable
    /// without traversing another member reference, call `visitor` with it.
    fn visit_refs<V: RefVisitor>(&self, visitor: &mut V)
        ensures
            final(visitor).seen() == old(visitor).seen() + self.refs_spec(),
    ;
}

/// A [`RefVisitor`] that collects every reported reference into a list.
pub struct ListRefs {
    list: Vec<ErasedRef>,
}

impl ListRefs {
    /// An empty collector.
    pub fn new() -> (r: ListRefs)
        ensures
            r.seen() == Seq::<ErasedRef>::empty(),
    {
        ListRefs { list: Vec::new() }
    }

    /// The collected references.
    pub fn into_list(self) -> (r: Vec<ErasedRef>)
        ensures
            r@ == self.seen(),
    {
        self.list
    }
}

impl RefVisitor for ListRefs {
    closed spec fn seen(&self) -> Seq<ErasedRef> {
        self.list@
    }

    fn visit(&mut self, r: &ErasedRef) {
        self.list.push(*r);
    }
}

impl VisitRefs for Slot {
    /// Slots hold tools, and no tool in this crate refers to a member.
    open spec fn refs_spec(&self) -> Seq<ErasedRef> {
        Seq::<ErasedRef>::empty()
    }

    fn visit_refs<V: RefVisitor>(&self, visitor: &mut V) {
        proof {
            assert(old(visitor).seen() + self.refs_spec() =~= old(visitor).seen());
        }
    }
}

impl VisitRefs for Inventory {
    /// No tool in this crate refers to a member, so inventories hold none.
    open spec fn refs_spec(&self) -> Seq<ErasedRef> {
        Seq::<ErasedRef>::empty()
    }

    fn visit_refs<V: RefVisitor>(&self, visitor: &mut V) {
        proof {
            assert(old(visitor).seen() + self.refs_spec() =~= old(visitor).seen());
        }
    }
}

impl VisitRefs for Character {
    /// A character refers to the space it stands in.
    open spec fn refs_spec(&self) -> Seq<ErasedRef> {
        seq![self.space]
    }

    fn visit_refs<V: RefVisitor>(&self, visitor: &mut V) {
        visitor.visit(&self.space);
        proof {
            assert(old(visitor).seen().push(self.space) =~= old(visitor).seen()
                + self.refs_spec());
        }
    }
}

} // verus!
