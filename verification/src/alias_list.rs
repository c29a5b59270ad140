//! The list of track aliases that a session hands out: a
//! `smallvec::SmallVec`, which keeps the first eight of them without an
//! allocation.

use crate::wire::TrackAlias;
use vstd::prelude::*;

verus! {

/// Track aliases in a `smallvec::SmallVec`.
#[verifier::external_body]
pub struct AliasList {
    items: smallvec::SmallVec<u64, 8>,
}

/// The aliases that the list holds, in their order.
pub uninterp spec fn alias_list_items(l: AliasList) -> Seq<u64>;

impl View for AliasList {
    type V = Seq<TrackAlias>;

    open spec fn view(&self) -> Seq<TrackAlias> {
        alias_list_items(*self)
    }
}

/// `SmallVec::new`: a list that holds nothing.
#[verifier::external_body]
fn alias_list_new() -> (l: AliasList)
    ensures
        alias_list_items(l) == Seq::<u64>::empty(),
{
    AliasList { items: smallvec::SmallVec::new() }
}

/// `SmallVec::push`: puts `value` behind the aliases of the list.
#[verifier::external_body]
fn alias_list_push(l: &mut AliasList, value: u64)
    ensures
        alias_list_items(*final(l)) == alias_list_items(*old(l)).push(value),
{
    l.items.push(value)
}

/// `SmallVec::as_ref`: the aliases of the list as a slice.
#[verifier::external_body]
fn alias_list_as_slice(l: &AliasList) -> (s: &[u64])
    ensures
        s@ == alias_list_items(*l),
{
    l.items.as_ref()
}

impl AliasList {
    /// The list of the aliases of `v`, in their order.
    pub fn from_aliases(v: &Vec<TrackAlias>) -> (l: Self)
        ensures
            l@ == v@,
    {
        let mut l = alias_list_new();
        let mut i: usize = 0;
        while i < v.len()
            invariant
                i <= v@.len(),
                l@ == v@.take(i as int),
            decreases v@.len() - i,
        {
            alias_list_push(&mut l, v[i]);
            assert(l@ =~= v@.take(i + 1));
            i += 1;
        }
        assert(l@ =~= v@);
        l
    }

    /// The aliases as a slice.
    pub fn as_slice(&self) -> (s: &[TrackAlias])
        ensures
            s@ == self@,
    {
        alias_list_as_slice(self)
    }

    /// How many aliases the list holds.
    pub fn len(&self) -> (r: usize)
        ensures
            r == self@.len(),
    {
        alias_list_as_slice(self).len()
    }

    /// The list holds no alias.
    pub fn is_empty(&self) -> (r: bool)
        ensures
            r == (self@.len() == 0),
    {
        alias_list_as_slice(self).len() == 0
    }
}

} // verus!
