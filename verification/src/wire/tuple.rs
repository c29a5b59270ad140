//! Tuples: a count, then that many byte strings.

use super::bytes::encoded;
use super::bytes::is_prefix;
use super::bytes::lemma_parse_repeat_stays_failed;
use super::bytes::lemma_repeat_bytes_grows;
use super::bytes::lemma_repeat_bytes_step;
use super::bytes::lemma_repeat_roundtrip;
use super::bytes::parse_repeat;
use super::bytes::reads_items;
use super::bytes::repeat_bytes;
use super::bytes::views;
use super::bytes::FromBytes;
use super::bytes::ToBytes;
use super::error::Fault;
use super::error::Parsed;
use super::error::Result;
use super::octets::Reader;
use super::octets::Writer;
use super::varint::holds_at;
use super::varint::lemma_holds_at_split;
use super::varint::lemma_lp_bytes_roundtrip;
use super::varint::lemma_parse_varint_roundtrip;
use super::varint::lp_bytes;
use super::varint::parse_lp_bytes;
use super::varint::parse_varint;
use super::varint::varint_bytes;
use super::varint::MAX_VAR_INT;
use super::Version;
use vstd::prelude::*;

verus! {

#[derive(Debug)]
pub struct Tuple(pub Vec<Vec<u8>>);

impl View for Tuple {
    type V = Seq<Seq<u8>>;

    open spec fn view(&self) -> Seq<Seq<u8>> {
        views(self.0@)
    }
}

/// How one field of a tuple is read.
pub open spec fn field_parser() -> spec_fn(Seq<u8>, int) -> Parsed<Seq<u8>> {
    |bs: Seq<u8>, o: int| parse_lp_bytes(bs, o)
}

/// How one field of a tuple is written.
pub open spec fn field_ser() -> spec_fn(Seq<u8>) -> Seq<u8> {
    |v: Seq<u8>| lp_bytes(v)
}

/// Reading a tuple: the count, then that many byte strings.
pub open spec fn parse_tuple(bytes: Seq<u8>, off: int) -> Parsed<Seq<Seq<u8>>> {
    match parse_varint(bytes, off) {
        Err(f) => Err(f),
        Ok((n, o)) => parse_repeat(field_parser(), bytes, o, n as nat),
    }
}

pub open spec fn tuple_bytes(t: Seq<Seq<u8>>) -> Seq<u8> {
    varint_bytes(t.len() as u64) + repeat_bytes(field_ser(), t)
}

/// The count and the length of each field fit 62 bits.
pub open spec fn tuple_encodable(t: Seq<Seq<u8>>) -> bool {
    &&& t.len() <= MAX_VAR_INT
    &&& forall|i: int| 0 <= i < t.len() ==> (#[trigger] t[i]).len() <= MAX_VAR_INT
}

/// Reads a tuple.
pub fn read_tuple(b: &mut Reader) -> (r: Result<Vec<Vec<u8>>>)
    ensures
        reads_items(*old(b), *final(b), r, parse_tuple(old(b).bytes(), old(b).pos())),
{
    let ghost bytes = b.bytes();
    let n = b.get_varint()?;
    let start = b.off();
    let mut fields: Vec<Vec<u8>> = Vec::new();
    let mut i: u64 = 0;
    assert(views(fields@) =~= Seq::<Seq<u8>>::empty());
    while i < n
        invariant
            i <= n,
            b.bytes() == bytes,
            bytes == old(b).bytes(),
            old(b).pos() <= start <= b.pos() <= bytes.len(),
            parse_varint(bytes, old(b).pos()) == Ok::<(u64, int), Fault>((n, start as int)),
            parse_repeat(field_parser(), bytes, start as int, i as nat) == Ok::<
                (Seq<Seq<u8>>, int),
                Fault,
            >((views(fields@), b.pos())),
        decreases n - i,
    {
        let ghost before = views(fields@);
        let ghost at = b.pos();
        assert(field_parser()(bytes, at) == parse_lp_bytes(bytes, at));
        match b.get_bytes_with_varint_length() {
            Ok(field) => {
                fields.push(field);
                assert(views(fields@) =~= before.push(field@));
            },
            Err(e) => {
                proof {
                    lemma_parse_repeat_stays_failed(
                        field_parser(),
                        bytes,
                        start as int,
                        (i + 1) as nat,
                        n as nat,
                    );
                }
                return Err(e);
            },
        }
        i += 1;
    }
    Ok(fields)
}

/// Writes a tuple.
pub fn write_tuple(fields: &Vec<Vec<u8>>, b: &mut Writer) -> (r: Result<()>)
    requires
        tuple_encodable(views(fields@)),
    ensures
        encoded(*old(b), *final(b), r, false, false, tuple_bytes(views(fields@))),
{
    let ghost all = views(fields@);
    let ghost ser = field_ser();
    b.put_varint(fields.len() as u64)?;
    let ghost head = b.written();
    let mut i: usize = 0;
    assert(all.take(0) =~= Seq::<Seq<u8>>::empty());
    while i < fields.len()
        invariant
            i <= fields@.len(),
            all == views(fields@),
            ser == field_ser(),
            tuple_encodable(all),
            b.capacity() == old(b).capacity(),
            head == old(b).written() + varint_bytes(fields@.len() as u64),
            b.written() == head + repeat_bytes(ser, all.take(i as int)),
        decreases fields@.len() - i,
    {
        proof {
            lemma_repeat_bytes_step(ser, all, i as int);
            lemma_repeat_bytes_grows(ser, all, i + 1);
            assert(all[i as int] == fields@[i as int]@);
        }
        let ghost before = b.written();
        match b.put_bytes_with_varint_length(fields[i].as_slice()) {
            Ok(()) => {
                assert(b.written() =~= head + repeat_bytes(ser, all.take(i as int + 1)));
            },
            Err(e) => {
                assert(is_prefix(old(b).written(), before));
                assert(is_prefix(old(b).written(), b.written()));
                return Err(e);
            },
        }
        i += 1;
    }
    assert(all.take(i as int) =~= all);
    assert(b.written() =~= old(b).written() + tuple_bytes(all));
    let _end = b.off();
    Ok(())
}

impl FromBytes for Tuple {
    open spec fn parse(bytes: Seq<u8>, off: int, version: Version) -> Parsed<Seq<Seq<u8>>> {
        parse_tuple(bytes, off)
    }

    fn from_bytes(b: &mut Reader, version: Version) -> (r: Result<Self>) {
        proof {
            let _ = Self::parse(b.bytes(), b.pos(), version);
        }
        let fields = read_tuple(b)?;
        Ok(Tuple(fields))
    }
}

impl ToBytes for Tuple {
    open spec fn encodable(v: Seq<Seq<u8>>, version: Version) -> bool {
        tuple_encodable(v)
    }

    open spec fn invalid(v: Seq<Seq<u8>>, version: Version) -> bool {
        false
    }

    open spec fn too_long(v: Seq<Seq<u8>>, version: Version) -> bool {
        false
    }

    open spec fn serialized(v: Seq<Seq<u8>>, version: Version) -> Seq<u8> {
        tuple_bytes(v)
    }

    fn to_bytes(&self, b: &mut Writer, version: Version) -> (r: Result<()>) {
        proof {
            let _ = Self::encodable(self@, version);
            let _ = Self::invalid(self@, version);
            let _ = Self::too_long(self@, version);
            let _ = Self::serialized(self@, version);
        }
        write_tuple(&self.0, b)
    }
}

/// A tuple that was written reads back as it was.
pub proof fn lemma_tuple_roundtrip(bytes: Seq<u8>, off: int, t: Seq<Seq<u8>>)
    requires
        tuple_encodable(t),
        holds_at(bytes, off, tuple_bytes(t)),
    ensures
        parse_tuple(bytes, off) == Ok::<(Seq<Seq<u8>>, int), Fault>(
            (t, off + tuple_bytes(t).len()),
        ),
{
    let item = field_parser();
    let ser = field_ser();
    let good = |v: Seq<u8>| v.len() <= MAX_VAR_INT;
    lemma_holds_at_split(bytes, off, varint_bytes(t.len() as u64), repeat_bytes(ser, t));
    lemma_parse_varint_roundtrip(bytes, off, t.len() as u64);
    assert forall|bs: Seq<u8>, o: int, v: Seq<u8>|
        good(v) && #[trigger] holds_at(bs, o, ser(v)) implies item(bs, o) == Ok::<
        (Seq<u8>, int),
        Fault,
    >((v, o + ser(v).len())) by {
        lemma_lp_bytes_roundtrip(bs, o, v);
    }
    lemma_repeat_roundtrip(item, ser, good, bytes, off + varint_bytes(t.len() as u64).len(), t);
}

/// Whether the count and the length of each field fit 62 bits.
pub fn tuple_fits(fields: &Vec<Vec<u8>>) -> (r: bool)
    ensures
        r == tuple_encodable(views(fields@)),
{
    if fields.len() as u64 > MAX_VAR_INT {
        return false;
    }
    let mut i: usize = 0;
    while i < fields.len()
        invariant
            i <= fields@.len(),
            forall|k: int| 0 <= k < i ==> (#[trigger] views(fields@)[k]).len() <= MAX_VAR_INT,
        decreases fields@.len() - i,
    {
        if fields[i].len() as u64 > MAX_VAR_INT {
            assert(views(fields@)[i as int].len() > MAX_VAR_INT);
            return false;
        }
        assert(views(fields@)[i as int] == fields@[i as int]@);
        i += 1;
    }
    true
}

} // verus!
