//! The two traits of the codec. Each ties the executable function to a
//! specification function of the same type: what is read is `parse` of the
//! bytes, what is written is `serialized` of the value.

use super::error::Fault;
use super::error::Parsed;
use super::error::Result;
use super::octets::reads_view;
use super::varint::holds_at;
use super::varint::lemma_holds_at_split;
use super::octets::Reader;
use super::octets::Writer;
use super::version_known;
use super::Version;
use vstd::prelude::*;

verus! {

/// `a` is the start of `b`.
pub open spec fn is_prefix(a: Seq<u8>, b: Seq<u8>) -> bool {
    a.len() <= b.len() && b.subrange(0, a.len() as int) =~= a
}

/// What writing a value leaves behind. A value that is `invalid` is refused
/// before anything is written. One that does not fit the buffer is refused
/// with what fitted written. One that is `too_long` for its length field is
/// refused when all of it is written. Any other is written whole.
pub open spec fn encoded(
    before: Writer,
    after: Writer,
    r: Result<()>,
    invalid: bool,
    too_long: bool,
    part: Seq<u8>,
) -> bool {
    &&& after.capacity() == before.capacity()
    &&& is_prefix(before.written(), after.written())
    &&& if invalid {
        r is Err && r->Err_0.fault() == Fault::Violation && after.written() == before.written()
    } else if before.written().len() + part.len() > before.capacity() {
        r is Err && r->Err_0.fault() == Fault::TooShort
    } else if too_long {
        r is Err && r->Err_0.fault() == Fault::Violation
    } else {
        r is Ok && after.written() == before.written() + part
    }
}

/// The first step of a write in several steps, which writes `part` of
/// `whole`. Where the step fails the whole write has failed as [`encoded`]
/// says.
pub proof fn lemma_encoded_first(
    start: Writer,
    after: Writer,
    r: Result<()>,
    part: Seq<u8>,
    whole: Seq<u8>,
    too_long: bool,
)
    requires
        encoded(start, after, r, false, false, part),
        part.len() <= whole.len(),
    ensures
        r is Err ==> encoded(start, after, r, false, too_long, whole),
        r is Ok ==> after.capacity() == start.capacity() && after.written() == start.written()
            + part,
{
}

/// A later step of a write in several steps. The bytes `done` of `whole`
/// have been written since `start`, and the step writes `part`. Where the
/// step fails the whole write has failed as [`encoded`] says; where it
/// succeeds `done + part` has been written.
pub proof fn lemma_encoded_step(
    start: Writer,
    before: Writer,
    after: Writer,
    r: Result<()>,
    done: Seq<u8>,
    part: Seq<u8>,
    whole: Seq<u8>,
    too_long: bool,
)
    requires
        before.capacity() == start.capacity(),
        before.written() == start.written() + done,
        encoded(before, after, r, false, false, part),
        done.len() + part.len() <= whole.len(),
    ensures
        r is Err ==> encoded(start, after, r, false, too_long, whole),
        r is Ok ==> after.capacity() == start.capacity() && after.written() == start.written() + (
        done + part),
{
    assert(start.written() + done + part =~= start.written() + (done + part));
    assert(is_prefix(start.written(), before.written()));
    assert(is_prefix(start.written(), after.written()));
}

pub trait FromBytes: Sized + View {
    /// What reading a value at `off` yields on the given draft.
    spec fn parse(bytes: Seq<u8>, off: int, version: Version) -> Parsed<Self::V>;

    fn from_bytes(b: &mut Reader, version: Version) -> (r: Result<Self>)
        requires
            version_known(version),
        ensures
            reads_view(
                *old(b),
                *final(b),
                r,
                Self::parse(old(b).bytes(), old(b).pos(), version),
            ),
    ;
}

pub trait ToBytes: View {
    /// The value has a form on the given draft: it holds the fields that the
    /// draft has, and each of its integers fits its field.
    spec fn encodable(v: Self::V, version: Version) -> bool;

    /// The value breaks a rule that the encoder tests before it writes.
    spec fn invalid(v: Self::V, version: Version) -> bool;

    /// The value is longer than the length field of its frame can say.
    spec fn too_long(v: Self::V, version: Version) -> bool;

    /// The bytes of the value on the given draft.
    spec fn serialized(v: Self::V, version: Version) -> Seq<u8>;

    fn to_bytes(&self, b: &mut Writer, version: Version) -> (r: Result<()>)
        requires
            version_known(version),
            Self::encodable(self@, version),
        ensures
            encoded(
                *old(b),
                *final(b),
                r,
                Self::invalid(self@, version),
                Self::too_long(self@, version),
                Self::serialized(self@, version),
            ),
    ;
}

/// The views of the items of a sequence.
pub open spec fn views<T: View>(s: Seq<T>) -> Seq<T::V> {
    s.map_values(|t: T| t@)
}

/// Reading `n` items one after the other, each by `item`. The first item
/// that fails gives the error of the whole.
pub open spec fn parse_repeat<T>(
    item: spec_fn(Seq<u8>, int) -> Parsed<T>,
    bytes: Seq<u8>,
    off: int,
    n: nat,
) -> Parsed<Seq<T>>
    decreases n,
{
    if n == 0 {
        Ok((Seq::empty(), off))
    } else {
        match parse_repeat(item, bytes, off, (n - 1) as nat) {
            Err(f) => Err(f),
            Ok((init, o)) => match item(bytes, o) {
                Err(f) => Err(f),
                Ok((last, next)) => Ok((init.push(last), next)),
            },
        }
    }
}

/// The bytes of the items of a sequence, one after the other.
pub open spec fn repeat_bytes<T>(ser: spec_fn(T) -> Seq<u8>, items: Seq<T>) -> Seq<u8>
    decreases items.len(),
{
    if items.len() == 0 {
        Seq::empty()
    } else {
        repeat_bytes(ser, items.drop_last()) + ser(items.last())
    }
}

/// Once an item has failed, reading more items fails in the same way.
pub proof fn lemma_parse_repeat_stays_failed<T>(
    item: spec_fn(Seq<u8>, int) -> Parsed<T>,
    bytes: Seq<u8>,
    off: int,
    i: nat,
    n: nat,
)
    requires
        i <= n,
        parse_repeat(item, bytes, off, i) is Err,
    ensures
        parse_repeat(item, bytes, off, n) == parse_repeat(item, bytes, off, i),
    decreases n,
{
    if i < n {
        lemma_parse_repeat_stays_failed(item, bytes, off, i, (n - 1) as nat);
    }
}

/// Reading `n` items gives `n` items.
pub proof fn lemma_parse_repeat_len<T>(
    item: spec_fn(Seq<u8>, int) -> Parsed<T>,
    bytes: Seq<u8>,
    off: int,
    n: nat,
)
    requires
        parse_repeat(item, bytes, off, n) is Ok,
    ensures
        parse_repeat(item, bytes, off, n)->Ok_0.0.len() == n,
    decreases n,
{
    if n > 0 {
        lemma_parse_repeat_len(item, bytes, off, (n - 1) as nat);
    }
}

/// Items that were written one after the other read back as they were,
/// where each kind of item does: `item` reads any `t` that meets `good`
/// back from `ser(t)`.
pub proof fn lemma_repeat_roundtrip<T>(
    item: spec_fn(Seq<u8>, int) -> Parsed<T>,
    ser: spec_fn(T) -> Seq<u8>,
    good: spec_fn(T) -> bool,
    bytes: Seq<u8>,
    off: int,
    items: Seq<T>,
)
    requires
        forall|i: int| 0 <= i < items.len() ==> good(#[trigger] items[i]),
        forall|bs: Seq<u8>, o: int, t: T|
            good(t) && #[trigger] holds_at(bs, o, ser(t)) ==> item(bs, o) == Ok::<(T, int), Fault>(
                (t, o + ser(t).len()),
            ),
        holds_at(bytes, off, repeat_bytes(ser, items)),
    ensures
        parse_repeat(item, bytes, off, items.len()) == Ok::<(Seq<T>, int), Fault>(
            (items, off + repeat_bytes(ser, items).len()),
        ),
    decreases items.len(),
{
    if items.len() > 0 {
        let init = items.drop_last();
        let last = items.last();
        lemma_holds_at_split(bytes, off, repeat_bytes(ser, init), ser(last));
        lemma_repeat_roundtrip(item, ser, good, bytes, off, init);
        let o = off + repeat_bytes(ser, init).len();
        assert(good(last));
        assert(holds_at(bytes, o, ser(last)));
        assert(init.push(last) =~= items);
    } else {
        assert(items =~= Seq::<T>::empty());
    }
}

/// The bytes of one more item come behind those of the items before it.
pub proof fn lemma_repeat_bytes_step<T>(ser: spec_fn(T) -> Seq<u8>, items: Seq<T>, i: int)
    requires
        0 <= i < items.len(),
    ensures
        repeat_bytes(ser, items.take(i + 1)) == repeat_bytes(ser, items.take(i)) + ser(items[i]),
{
    assert(items.take(i + 1).drop_last() =~= items.take(i));
    assert(items.take(i + 1).last() == items[i]);
}

/// The bytes of the first items are no longer than the bytes of all.
pub proof fn lemma_repeat_bytes_grows<T>(ser: spec_fn(T) -> Seq<u8>, items: Seq<T>, i: int)
    requires
        0 <= i <= items.len(),
    ensures
        repeat_bytes(ser, items.take(i)).len() <= repeat_bytes(ser, items).len(),
    decreases items.len() - i,
{
    if i < items.len() {
        lemma_repeat_bytes_step(ser, items, i);
        lemma_repeat_bytes_grows(ser, items, i + 1);
    } else {
        assert(items.take(i) =~= items);
    }
}

/// The bytes of two sequences of items, one behind the other.
pub proof fn lemma_repeat_bytes_concat<T>(ser: spec_fn(T) -> Seq<u8>, a: Seq<T>, b: Seq<T>)
    ensures
        repeat_bytes(ser, a + b) == repeat_bytes(ser, a) + repeat_bytes(ser, b),
    decreases b.len(),
{
    if b.len() == 0 {
        assert(a + b =~= a);
        assert(repeat_bytes(ser, a) + repeat_bytes(ser, b) =~= repeat_bytes(ser, a));
    } else {
        lemma_repeat_bytes_concat(ser, a, b.drop_last());
        assert((a + b).drop_last() =~= a + b.drop_last());
        assert((a + b).last() == b.last());
        assert(repeat_bytes(ser, a + b) =~= repeat_bytes(ser, a) + repeat_bytes(ser, b));
    }
}

/// The bytes of a single item.
pub proof fn lemma_repeat_bytes_one<T>(ser: spec_fn(T) -> Seq<u8>, t: T)
    ensures
        repeat_bytes(ser, seq![t]) == ser(t),
{
    reveal_with_fuel(repeat_bytes, 2);
    assert(seq![t].drop_last() =~= Seq::<T>::empty());
    assert(seq![t].last() == t);
    assert(repeat_bytes(ser, seq![t]) =~= ser(t));
}

/// How a type that can be read reads one item.
pub open spec fn item_parser<T: FromBytes>(version: Version) -> spec_fn(Seq<u8>, int) -> Parsed<
    T::V,
> {
    |bs: Seq<u8>, o: int| T::parse(bs, o, version)
}

/// How a type that can be written writes one item.
pub open spec fn item_ser<T: ToBytes>(version: Version) -> spec_fn(T::V) -> Seq<u8> {
    |v: T::V| T::serialized(v, version)
}

/// What a read of several items leaves behind: as [`reads_view`], with the
/// items compared by their views.
pub open spec fn reads_items<T: View>(
    before: Reader,
    after: Reader,
    r: Result<Vec<T>>,
    p: Parsed<Seq<T::V>>,
) -> bool {
    &&& after.bytes() == before.bytes()
    &&& before.pos() <= after.pos() <= after.bytes().len()
    &&& match p {
        Ok((v, next)) => r is Ok && views(r->Ok_0@) == v && after.pos() == next,
        Err(f) => r is Err && r->Err_0.fault() == f,
    }
}

/// Reads `n` items one after the other.
pub fn read_repeat<T: FromBytes>(b: &mut Reader, n: u64, version: Version) -> (r: Result<Vec<T>>)
    requires
        version_known(version),
    ensures
        reads_items(
            *old(b),
            *final(b),
            r,
            parse_repeat(item_parser::<T>(version), old(b).bytes(), old(b).pos(), n as nat),
        ),
{
    let ghost bytes = b.bytes();
    let start = b.off();
    let mut items: Vec<T> = Vec::new();
    let mut i: u64 = 0;
    assert(views(items@) =~= Seq::<T::V>::empty());
    while i < n
        invariant
            i <= n,
            version_known(version),
            b.bytes() == bytes,
            bytes == old(b).bytes(),
            start == old(b).pos(),
            start <= b.pos() <= bytes.len(),
            parse_repeat(item_parser::<T>(version), bytes, start as int, i as nat) == Ok::<
                (Seq<T::V>, int),
                Fault,
            >((views(items@), b.pos())),
        decreases n - i,
    {
        let ghost before = views(items@);
        let ghost at = b.pos();
        assert(item_parser::<T>(version)(bytes, at) == T::parse(bytes, at, version));
        match T::from_bytes(b, version) {
            Ok(item) => {
                items.push(item);
                assert(views(items@) =~= before.push(item@));
            },
            Err(e) => {
                proof {
                    lemma_parse_repeat_stays_failed(
                        item_parser::<T>(version),
                        bytes,
                        start as int,
                        (i + 1) as nat,
                        n as nat,
                    );
                }
                return Err(e);
            },
        }
        i += 1;
    }
    Ok(items)
}

/// Writes the items one after the other.
pub fn write_all<T: ToBytes>(items: &Vec<T>, b: &mut Writer, version: Version) -> (r: Result<()>)
    requires
        version_known(version),
        forall|i: int|
            0 <= i < items@.len() ==> T::encodable(#[trigger] items@[i]@, version) && !T::invalid(
                items@[i]@,
                version,
            ) && !T::too_long(items@[i]@, version),
    ensures
        encoded(
            *old(b),
            *final(b),
            r,
            false,
            false,
            repeat_bytes(item_ser::<T>(version), views(items@)),
        ),
{
    let ghost all = views(items@);
    let ghost ser = item_ser::<T>(version);
    let mut i: usize = 0;
    assert(all.take(0) =~= Seq::<T::V>::empty());
    while i < items.len()
        invariant
            i <= items@.len(),
            version_known(version),
            all == views(items@),
            ser == item_ser::<T>(version),
            forall|k: int|
                0 <= k < items@.len() ==> T::encodable(#[trigger] items@[k]@, version)
                    && !T::invalid(items@[k]@, version) && !T::too_long(items@[k]@, version),
            b.capacity() == old(b).capacity(),
            b.written() == old(b).written() + repeat_bytes(ser, all.take(i as int)),
        decreases items@.len() - i,
    {
        proof {
            lemma_repeat_bytes_step(ser, all, i as int);
            lemma_repeat_bytes_grows(ser, all, i + 1);
            assert(all[i as int] == items@[i as int]@);
        }
        let ghost before = b.written();
        match items[i].to_bytes(b, version) {
            Ok(()) => {
                assert(b.written() =~= old(b).written() + repeat_bytes(
                    ser,
                    all.take(i as int + 1),
                ));
            },
            Err(e) => {
                assert(is_prefix(old(b).written(), before));
                assert(is_prefix(old(b).written(), b.written()));
                return Err(e);
            },
        }
        i += 1;
    }
    assert(all.take(i as int) =~= all);
    let _end = b.off();
    Ok(())
}

} // verus!
