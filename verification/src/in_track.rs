//! The state of a subscription that this endpoint has asked for: the streams
//! of the track that can be read, in ascending order. The smallest is read
//! first.

use crate::stream_id::StreamID;
use crate::wire::TrackAlias;
use vstd::prelude::*;

verus! {

/// Stream ids in a `smallvec::SmallVec`, which keeps the first ten of them
/// without an allocation.
#[verifier::external_body]
pub struct IdList {
    items: smallvec::SmallVec<u64, 10>,
}

/// The ids that the list holds, in their order.
pub uninterp spec fn id_list_items(l: IdList) -> Seq<u64>;

impl View for IdList {
    type V = Seq<u64>;

    open spec fn view(&self) -> Seq<u64> {
        id_list_items(*self)
    }
}

/// `SmallVec::new`: a list that holds nothing.
#[verifier::external_body]
pub(crate) fn id_list_new() -> (l: IdList)
    ensures
        id_list_items(l) == Seq::<u64>::empty(),
{
    IdList { items: smallvec::SmallVec::new() }
}

/// `SmallVec::as_ref`: the ids of the list as a slice.
#[verifier::external_body]
pub(crate) fn id_list_as_slice(l: &IdList) -> (s: &[u64])
    ensures
        s@ == id_list_items(*l),
{
    l.items.as_ref()
}

/// `SmallVec::insert`: puts `value` at `index` and moves the ids from there
/// on one place up.
#[verifier::external_body]
pub(crate) fn id_list_insert(l: &mut IdList, index: usize, value: u64)
    requires
        index <= id_list_items(*old(l)).len(),
    ensures
        id_list_items(*final(l)) == id_list_items(*old(l)).insert(index as int, value),
{
    l.items.insert(index, value)
}

/// `SmallVec::remove`: takes out the id at `index`, returns it, and moves
/// the ids behind it one place down.
#[verifier::external_body]
pub(crate) fn id_list_remove(l: &mut IdList, index: usize) -> (r: u64)
    requires
        index < id_list_items(*old(l)).len(),
    ensures
        r == id_list_items(*old(l))[index as int],
        id_list_items(*final(l)) == id_list_items(*old(l)).remove(index as int),
{
    l.items.remove(index)
}

/// Each id is smaller than the next.
pub open spec fn ascending(s: Seq<u64>) -> bool {
    forall|i: int, j: int| 0 <= i < j < s.len() ==> s[i] < s[j]
}

/// The ids of `s` and the id `v`, in ascending order.
pub open spec fn with_id(s: Seq<u64>, v: u64) -> Seq<u64>
    decreases s.len(),
{
    if s.len() == 0 {
        seq![v]
    } else if s.last() < v {
        s.push(v)
    } else if s.last() == v {
        s
    } else {
        with_id(s.drop_last(), v).push(s.last())
    }
}

/// The ids of `s` other than `v`.
pub open spec fn without_id(s: Seq<u64>, v: u64) -> Seq<u64> {
    s.filter(|x: u64| x != v)
}

pub struct InTrack {
    track_alias: TrackAlias,
    readable_streams: IdList,
}

/// What the state of such a subscription is in contracts.
pub struct InTrackView {
    pub track_alias: TrackAlias,
    /// The streams that can be read, in ascending order.
    pub readable_streams: Seq<u64>,
}

impl View for InTrack {
    type V = InTrackView;

    closed spec fn view(&self) -> InTrackView {
        InTrackView { track_alias: self.track_alias, readable_streams: self.readable_streams@ }
    }
}

impl InTrack {
    /// The streams are in ascending order, each once.
    pub open spec fn wf(&self) -> bool {
        ascending(self@.readable_streams)
    }

    pub fn new(track_alias: TrackAlias) -> (t: Self)
        ensures
            t@ == (InTrackView { track_alias, readable_streams: Seq::empty() }),
            t.wf(),
    {
        Self { track_alias, readable_streams: id_list_new() }
    }

    pub fn track_alias(&self) -> (r: TrackAlias)
        ensures
            r == self@.track_alias,
    {
        self.track_alias
    }

    /// A stream of the track can be read.
    pub fn readable(&self) -> (r: bool)
        ensures
            r == (self@.readable_streams.len() > 0),
    {
        id_list_as_slice(&self.readable_streams).len() > 0
    }

    /// The streams of the track that can be read, in ascending order.
    pub fn readable_streams(&self) -> (r: &[u64])
        ensures
            r@ == self@.readable_streams,
    {
        id_list_as_slice(&self.readable_streams)
    }

    /// The place of the first stream that is not smaller than `stream_id`.
    fn position(&self, stream_id: u64) -> (r: usize)
        requires
            self.wf(),
        ensures
            r <= self@.readable_streams.len(),
            forall|k: int| 0 <= k < r ==> self@.readable_streams[k] < stream_id,
            forall|k: int|
                r <= k < self@.readable_streams.len() ==> self@.readable_streams[k] >= stream_id,
    {
        let ids = id_list_as_slice(&self.readable_streams);
        let mut i: usize = 0;
        while i < ids.len() && ids[i] < stream_id
            invariant
                i <= ids@.len(),
                ids@ == self@.readable_streams,
                self.wf(),
                forall|k: int| 0 <= k < i ==> ids@[k] < stream_id,
            decreases ids@.len() - i,
        {
            i += 1;
        }
        assert forall|k: int| i <= k < ids@.len() implies ids@[k] >= stream_id by {
            if i < k {
                assert(ids@[i as int] < ids@[k]);
            }
        }
        i
    }

    /// No more objects will be read from the stream: it leaves the list.
    pub fn fin_stream(&mut self, stream_id: StreamID)
        requires
            old(self).wf(),
        ensures
            final(self).wf(),
            final(self)@.track_alias == old(self)@.track_alias,
            final(self)@.readable_streams == without_id(old(self)@.readable_streams, stream_id.0),
            !final(self)@.readable_streams.contains(stream_id.0),
            forall|x: u64|
                x != stream_id.0 ==> (final(self)@.readable_streams.contains(x) <==> old(
                    self,
                )@.readable_streams.contains(x)),
    {
        let pos = self.position(stream_id.0);
        let len = id_list_as_slice(&self.readable_streams).len();
        let ghost before = self@.readable_streams;
        if pos < len && id_list_as_slice(&self.readable_streams)[pos] == stream_id.0 {
            let _ = id_list_remove(&mut self.readable_streams, pos);
            proof {
                lemma_without_present(before, stream_id.0, pos as int);
            }
        } else {
            proof {
                lemma_without_absent(before, stream_id.0);
            }
        }
    }

    /// The stream can be read: it joins the list at its place in the order,
    /// unless it is in the list.
    pub fn mark_stream_readable(&mut self, stream_id: StreamID)
        requires
            old(self).wf(),
        ensures
            final(self).wf(),
            final(self)@.track_alias == old(self)@.track_alias,
            final(self)@.readable_streams == with_id(old(self)@.readable_streams, stream_id.0),
            final(self)@.readable_streams.contains(stream_id.0),
            forall|x: u64|
                x != stream_id.0 ==> (final(self)@.readable_streams.contains(x) <==> old(
                    self,
                )@.readable_streams.contains(x)),
    {
        let pos = self.position(stream_id.0);
        let len = id_list_as_slice(&self.readable_streams).len();
        let ghost before = self@.readable_streams;
        if pos < len && id_list_as_slice(&self.readable_streams)[pos] == stream_id.0 {
            proof {
                lemma_with_present(before, stream_id.0, pos as int);
            }
        } else {
            id_list_insert(&mut self.readable_streams, pos, stream_id.0);
            proof {
                lemma_with_absent(before, stream_id.0, pos as int);
            }
        }
    }

    /// The stream that is read now: the smallest of the list.
    pub fn current_stream(&self) -> (r: Option<StreamID>)
        ensures
            match r {
                Some(id) => self@.readable_streams.len() > 0 && id.0 == self@.readable_streams[0],
                None => self@.readable_streams.len() == 0,
            },
    {
        let ids = id_list_as_slice(&self.readable_streams);
        if ids.len() > 0 {
            Some(StreamID(ids[0]))
        } else {
            None
        }
    }
}

/// Taking out an id that is in an ascending list at `pos` leaves the ids
/// other than it.
pub proof fn lemma_without_present(s: Seq<u64>, v: u64, pos: int)
    requires
        ascending(s),
        0 <= pos < s.len(),
        s[pos] == v,
    ensures
        s.remove(pos) == without_id(s, v),
        ascending(s.remove(pos)),
        !s.remove(pos).contains(v),
        forall|x: u64| x != v ==> (s.remove(pos).contains(x) <==> s.contains(x)),
    decreases s.len(),
{
    let keep = |x: u64| x != v;
    let r = s.remove(pos);
    assert forall|x: u64| x != v implies (r.contains(x) <==> s.contains(x)) by {
        if r.contains(x) {
            let j = choose|j: int| 0 <= j < r.len() && r[j] == x;
            if j < pos {
                assert(s[j] == x);
            } else {
                assert(s[j + 1] == x);
            }
        }
        if s.contains(x) {
            let j = choose|j: int| 0 <= j < s.len() && s[j] == x;
            if j < pos {
                assert(r[j] == x);
            } else {
                assert(r[j - 1] == x);
            }
        }
    }
    assert(!r.contains(v)) by {
        if r.contains(v) {
            let j = choose|j: int| 0 <= j < r.len() && r[j] == v;
            if j < pos {
                assert(s[j] < s[pos]);
            } else {
                assert(s[pos] < s[j + 1]);
            }
        }
    }
    reveal(Seq::filter);
    if pos == s.len() - 1 {
        assert(r =~= s.drop_last());
        assert(!s.drop_last().contains(v));
        lemma_without_absent(s.drop_last(), v);
        assert(s.filter(keep) == s.drop_last().filter(keep));
    } else {
        lemma_without_present(s.drop_last(), v, pos);
        assert(r =~= s.drop_last().remove(pos).push(s.last()));
        assert(s[pos] < s[s.len() - 1]);
        assert(s.filter(keep) == s.drop_last().filter(keep).push(s.last()));
    }
}

/// An ascending list that does not hold an id holds the ids other than it.
pub proof fn lemma_without_absent(s: Seq<u64>, v: u64)
    requires
        !s.contains(v),
    ensures
        without_id(s, v) == s,
    decreases s.len(),
{
    let keep = |x: u64| x != v;
    reveal(Seq::filter);
    if s.len() > 0 {
        assert(s.drop_last().contains(v) ==> s.contains(v)) by {
            if s.drop_last().contains(v) {
                let j = choose|j: int| 0 <= j < s.drop_last().len() && s.drop_last()[j] == v;
                assert(s[j] == v);
            }
        }
        lemma_without_absent(s.drop_last(), v);
        assert(s[s.len() - 1] != v);
        assert(s.filter(keep) == s.drop_last().filter(keep).push(s.last()));
        assert(s.drop_last().push(s.last()) =~= s);
    }
}

/// An ascending list that holds an id stays as it is when the id joins.
pub proof fn lemma_with_present(s: Seq<u64>, v: u64, pos: int)
    requires
        ascending(s),
        0 <= pos < s.len(),
        s[pos] == v,
    ensures
        with_id(s, v) == s,
        s.contains(v),
    decreases s.len(),
{
    if pos < s.len() - 1 {
        assert(s[pos] < s[s.len() - 1]);
        lemma_with_present(s.drop_last(), v, pos);
        assert(s.drop_last().push(s.last()) =~= s);
    }
}

/// An id that joins an ascending list at the place of the first id that is
/// not smaller keeps the list ascending.
pub proof fn lemma_with_absent(s: Seq<u64>, v: u64, pos: int)
    requires
        ascending(s),
        0 <= pos <= s.len(),
        forall|k: int| 0 <= k < pos ==> s[k] < v,
        forall|k: int| pos <= k < s.len() ==> s[k] > v,
    ensures
        with_id(s, v) == s.insert(pos, v),
        ascending(s.insert(pos, v)),
        s.insert(pos, v).contains(v),
        forall|x: u64| x != v ==> (s.insert(pos, v).contains(x) <==> s.contains(x)),
    decreases s.len(),
{
    let r = s.insert(pos, v);
    assert(r[pos] == v);
    assert forall|x: u64| x != v implies (r.contains(x) <==> s.contains(x)) by {
        if r.contains(x) {
            let j = choose|j: int| 0 <= j < r.len() && r[j] == x;
            if j < pos {
                assert(s[j] == x);
            } else {
                assert(s[j - 1] == x);
            }
        }
        if s.contains(x) {
            let j = choose|j: int| 0 <= j < s.len() && s[j] == x;
            if j < pos {
                assert(r[j] == x);
            } else {
                assert(r[j + 1] == x);
            }
        }
    }
    assert(ascending(r)) by {
        assert forall|i: int, j: int| 0 <= i < j < r.len() implies r[i] < r[j] by {
            let a = if i < pos {
                i
            } else {
                i - 1
            };
            let b = if j < pos {
                j
            } else {
                j - 1
            };
            if i != pos && j != pos {
                assert(s[a] < s[b]);
            }
        }
    }
    if s.len() == 0 {
        assert(r =~= seq![v]);
    } else if pos == s.len() {
        assert(r =~= s.push(v));
    } else {
        lemma_with_absent(s.drop_last(), v, pos);
        assert(r =~= s.drop_last().insert(pos, v).push(s.last()));
    }
}

} // verus!
