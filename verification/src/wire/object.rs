//! The header of an object on a subgroup stream.

use super::bytes::encoded;
use super::bytes::item_ser;
use super::bytes::lemma_encoded_first;
use super::bytes::lemma_encoded_step;
use super::bytes::lemma_repeat_bytes_concat;
use super::bytes::lemma_repeat_bytes_one;
use super::bytes::repeat_bytes;
use super::bytes::views;
use super::bytes::write_all;
use super::bytes::FromBytes;
use super::bytes::ToBytes;
use super::control_message::get_optional_varint;
use super::control_message::lemma_optional_varint_roundtrip;
use super::control_message::only_if;
use super::control_message::optional_varint_bytes;
use super::control_message::parse_optional_varint;
use super::control_message::put_optional_varint;
use super::error::Error;
use super::error::Fault;
use super::error::Parsed;
use super::error::Result;
use super::key_value_pair::lemma_pair_roundtrip;
use super::key_value_pair::pair_bytes;
use super::key_value_pair::pair_fits;
use super::key_value_pair::parity_holds;
use super::key_value_pair::parse_pair;
use super::key_value_pair::KeyValuePair;
use super::key_value_pair::PairView;
use super::bytes::reads_items;
use super::octets::reads_view;
use super::octets::Reader;
use super::octets::Writer;
use super::subgroup::extensions_present;
use super::subgroup::lemma_subgroup_header_roundtrip;
use super::subgroup::parse_subgroup_header;
use super::subgroup::subgroup_header_bytes;
use super::subgroup::subgroup_header_canonical;
use super::subgroup::SubgroupHeader;
use super::varint::holds_at;
use super::varint::lemma_holds_at_split;
use super::varint::lemma_parse_varint_bounds;
use super::varint::lemma_parse_varint_roundtrip;
use super::varint::lemma_varint_bytes_len;
use super::varint::varint_len;
use super::varint::lp_bytes;
use super::varint::parse_varint;
use super::varint::varint_bytes;
use super::varint::MAX_VAR_INT;
use super::version_known;
use super::SubgroupType;
use super::Version;
use super::MOQ_VERSION_DRAFT_13;
use vstd::prelude::*;

verus! {

#[derive(Debug, Clone)]
pub struct ObjectHeader {
    pub id: u64,
    /// The type of the subgroup stream that carries the object.
    pub subgroup_ty: SubgroupType,
    pub extension_headers: Vec<KeyValuePair>,
    pub payload_len: u64,
    pub status: Option<u64>,
}

/// What an object header is in contracts.
pub struct ObjectHeaderView {
    pub id: u64,
    pub subgroup_ty: SubgroupType,
    pub extension_headers: Seq<PairView>,
    pub payload_len: u64,
    pub status: Option<u64>,
}

impl View for ObjectHeader {
    type V = ObjectHeaderView;

    open spec fn view(&self) -> ObjectHeaderView {
        ObjectHeaderView {
            id: self.id,
            subgroup_ty: self.subgroup_ty,
            extension_headers: views(self.extension_headers@),
            payload_len: self.payload_len,
            status: self.status,
        }
    }
}

/// The items `first`, and behind them what `p` read.
pub open spec fn behind(first: Seq<PairView>, p: Parsed<Seq<PairView>>) -> Parsed<Seq<PairView>> {
    match p {
        Err(f) => Err(f),
        Ok((rest, o)) => Ok((first + rest, o)),
    }
}

/// Reading key-value pairs from `off` up to `end`. The last pair must end
/// at `end`.
pub open spec fn parse_pairs_until(bytes: Seq<u8>, off: int, end: int) -> Parsed<Seq<PairView>>
    decreases
            (if end > off {
                end - off
            } else {
                0
            }),
{
    if off >= end {
        if off == end {
            Ok((Seq::empty(), off))
        } else {
            Err(Fault::Violation)
        }
    } else {
        match parse_pair(bytes, off) {
            Err(f) => Err(f),
            Ok((p, o)) => if o > off {
                behind(seq![p], parse_pairs_until(bytes, o, end))
            } else {
                Err(Fault::Violation)
            },
        }
    }
}

/// Reading the extension headers of an object: their length in bytes, then
/// key-value pairs that fill that length. All of them must lie in the bytes.
pub open spec fn parse_extension_headers(bytes: Seq<u8>, off: int) -> Parsed<Seq<PairView>> {
    match parse_varint(bytes, off) {
        Err(f) => Err(f),
        Ok((len, o)) => if o + len <= bytes.len() {
            parse_pairs_until(bytes, o, o + len)
        } else {
            Err(Fault::TooShort)
        },
    }
}

/// Reading the header of an object on a stream of the type `subgroup_ty`:
/// the object id, the extension headers where the type has them, the length
/// of the payload, and the status where the payload is empty.
pub open spec fn parse_object_header(bytes: Seq<u8>, off: int, subgroup_ty: SubgroupType) -> Parsed<
    ObjectHeaderView,
> {
    match parse_varint(bytes, off) {
        Err(f) => Err(f),
        Ok((id, o1)) => match (if extensions_present(subgroup_ty) {
            parse_extension_headers(bytes, o1)
        } else {
            Ok((Seq::empty(), o1))
        }) {
            Err(f) => Err(f),
            Ok((extension_headers, o2)) => match parse_varint(bytes, o2) {
                Err(f) => Err(f),
                Ok((payload_len, o3)) => match parse_optional_varint(bytes, o3, payload_len == 0) {
                    Err(f) => Err(f),
                    Ok((status, o4)) => Ok(
                        (
                            ObjectHeaderView {
                                id,
                                subgroup_ty,
                                extension_headers,
                                payload_len,
                                status,
                            },
                            o4,
                        ),
                    ),
                },
            },
        },
    }
}

/// Key-value pairs have one form on all drafts; where a draft must be
/// named to write them, this one is.
pub const PAIR_DRAFT: Version = MOQ_VERSION_DRAFT_13;

/// The bytes of the extension headers, without their length.
pub open spec fn extension_pairs_bytes(hs: Seq<PairView>) -> Seq<u8> {
    repeat_bytes(item_ser::<KeyValuePair>(PAIR_DRAFT), hs)
}

/// The bytes of the extension headers where the type of the stream has
/// them: their length in bytes, then the pairs.
pub open spec fn extension_headers_bytes(h: ObjectHeaderView) -> Seq<u8> {
    if extensions_present(h.subgroup_ty) {
        lp_bytes(extension_pairs_bytes(h.extension_headers))
    } else {
        Seq::empty()
    }
}

/// The bytes of the header of an object.
pub open spec fn object_header_bytes(h: ObjectHeaderView) -> Seq<u8> {
    varint_bytes(h.id) + extension_headers_bytes(h) + varint_bytes(h.payload_len)
        + optional_varint_bytes(only_if(h.payload_len == 0, h.status))
}

/// The header holds a status where the payload is empty, its extension
/// headers keep the parity rule, and its integers fit 62 bits.
pub open spec fn object_header_encodable(h: ObjectHeaderView) -> bool {
    &&& h.id <= MAX_VAR_INT
    &&& h.payload_len <= MAX_VAR_INT
    &&& h.payload_len == 0 ==> h.status is Some
    &&& h.status matches Some(s) ==> s <= MAX_VAR_INT
    &&& forall|i: int|
        0 <= i < h.extension_headers.len() ==> pair_fits(#[trigger] h.extension_headers[i])
            && parity_holds(h.extension_headers[i])
    &&& extension_pairs_bytes(h.extension_headers).len() <= MAX_VAR_INT
}

impl ObjectHeader {
    /// The header of an object with a payload of `payload_len` bytes and no
    /// extension headers.
    pub fn new(id: u64, payload_len: u64, subgroup_ty: SubgroupType) -> (h: Self)
        ensures
            h@ == (ObjectHeaderView {
                id,
                subgroup_ty,
                extension_headers: Seq::empty(),
                payload_len,
                status: None,
            }),
    {
        let h = Self { id, subgroup_ty, extension_headers: Vec::new(), payload_len, status: None };
        assert(h@.extension_headers =~= Seq::<PairView>::empty());
        h
    }

    pub fn payload_len(&self) -> (r: u64)
        ensures
            r == self@.payload_len,
    {
        self.payload_len
    }

    /// Reads the extension headers of an object.
    pub fn read_extension_headers(b: &mut Reader, version: Version) -> (r: Result<
        Vec<KeyValuePair>,
    >)
        requires
            version_known(version),
        ensures
            reads_items(
                *old(b),
                *final(b),
                r,
                parse_extension_headers(old(b).bytes(), old(b).pos()),
            ),
    {
        let ghost bytes = b.bytes();
        let len = b.get_varint()?;
        if len > b.cap() as u64 {
            return Err(Error::Octets(crate::wire::octets::buffer_too_short()));
        }
        let start = b.off();
        let end = start + len as usize;
        let mut headers: Vec<KeyValuePair> = Vec::new();
        assert(views(headers@) =~= Seq::<PairView>::empty());
        assert(behind(views(headers@), parse_pairs_until(bytes, start as int, end as int))
            == parse_pairs_until(bytes, start as int, end as int)) by {
            let p = parse_pairs_until(bytes, start as int, end as int);
            if p is Ok {
                assert(Seq::<PairView>::empty() + p->Ok_0.0 =~= p->Ok_0.0);
            }
        }
        while b.off() < end
            invariant
                version_known(version),
                b.bytes() == bytes,
                bytes == old(b).bytes(),
                old(b).pos() <= start <= b.pos() <= bytes.len(),
                end <= bytes.len(),
                end == start + len,
                parse_varint(bytes, old(b).pos()) == Ok::<(u64, int), Fault>((len, start as int)),
                parse_pairs_until(bytes, start as int, end as int) == behind(
                    views(headers@),
                    parse_pairs_until(bytes, b.pos(), end as int),
                ),
            decreases bytes.len() - b.pos(),
        {
            let ghost before = views(headers@);
            let ghost at = b.pos();
            proof {
                assert(KeyValuePair::parse(bytes, at, version) == parse_pair(bytes, at));
                if parse_pair(bytes, at) is Ok {
                    lemma_parse_varint_bounds(bytes, at);
                }
            }
            let header = KeyValuePair::from_bytes(b, version)?;
            headers.push(header);
            proof {
                assert(views(headers@) =~= before.push(header@));
                let rest = parse_pairs_until(bytes, b.pos(), end as int);
                if rest is Ok {
                    assert(before + (seq![header@] + rest->Ok_0.0) =~= before.push(header@)
                        + rest->Ok_0.0);
                }
            }
        }
        if b.off() != end {
            return Err(Error::violation("extension headers overrun their length"));
        }
        proof {
            assert(views(headers@) + Seq::<PairView>::empty() =~= views(headers@));
        }
        Ok(headers)
    }

    /// Reads the header of an object on the stream that `subgroup` heads.
    pub fn from_bytes(b: &mut Reader, version: Version, subgroup: &SubgroupHeader) -> (r: Result<
        Self,
    >)
        requires
            version_known(version),
        ensures
            reads_view(
                *old(b),
                *final(b),
                r,
                parse_object_header(old(b).bytes(), old(b).pos(), subgroup.ty),
            ),
    {
        let subgroup_ty = subgroup.ty();
        let id = b.get_varint()?;
        let extension_headers = if SubgroupHeader::extensions_present(subgroup_ty) {
            Self::read_extension_headers(b, version)?
        } else {
            let _at = b.off();
            let none: Vec<KeyValuePair> = Vec::new();
            assert(views(none@) =~= Seq::<PairView>::empty());
            none
        };
        let payload_len = b.get_varint()?;
        let status = get_optional_varint(b, payload_len == 0)?;
        Ok(Self { id, subgroup_ty, extension_headers, payload_len, status })
    }

    /// Writes the extension headers where the type of the stream has them.
    fn write_extension_headers(&self, b: &mut Writer) -> (r: Result<()>)
        requires
            object_header_encodable(self@),
        ensures
            encoded(*old(b), *final(b), r, false, false, extension_headers_bytes(self@)),
    {
        if !SubgroupHeader::extensions_present(self.subgroup_ty) {
            let _end = b.off();
            assert(b.written() =~= old(b).written() + Seq::<u8>::empty());
            return Ok(());
        }
        let room = b.cap();
        let mut pairs = Writer::with_capacity(room);
        assert forall|i: int| 0 <= i < self.extension_headers@.len() implies KeyValuePair::encodable(
            #[trigger] self.extension_headers@[i]@,
            PAIR_DRAFT,
        ) && !KeyValuePair::invalid(self.extension_headers@[i]@, PAIR_DRAFT)
            && !KeyValuePair::too_long(self.extension_headers@[i]@, PAIR_DRAFT) by {
            assert(self@.extension_headers[i] == self.extension_headers@[i]@);
        }
        match write_all::<KeyValuePair>(&self.extension_headers, &mut pairs, PAIR_DRAFT) {
            Ok(()) => {},
            Err(e) => {
                assert(b.written().subrange(0, b.written().len() as int) =~= b.written());
                return Err(e);
            },
        }
        assert(pairs.written() =~= extension_pairs_bytes(self@.extension_headers));
        b.put_bytes_with_varint_length(pairs.as_slice())
    }
}

impl ToBytes for ObjectHeader {
    open spec fn encodable(v: ObjectHeaderView, version: Version) -> bool {
        object_header_encodable(v)
    }

    open spec fn invalid(v: ObjectHeaderView, version: Version) -> bool {
        false
    }

    open spec fn too_long(v: ObjectHeaderView, version: Version) -> bool {
        false
    }

    open spec fn serialized(v: ObjectHeaderView, version: Version) -> Seq<u8> {
        object_header_bytes(v)
    }

    fn to_bytes(&self, b: &mut Writer, version: Version) -> (r: Result<()>) {
        proof {
            let _ = Self::encodable(self@, version);
            let _ = Self::invalid(self@, version);
            let _ = Self::too_long(self@, version);
            let _ = Self::serialized(self@, version);
        }
        let ghost h = self@;
        let ghost s0 = varint_bytes(h.id);
        let ghost s1 = extension_headers_bytes(h);
        let ghost s2 = varint_bytes(h.payload_len);
        let ghost s3 = optional_varint_bytes(only_if(h.payload_len == 0, h.status));
        let ghost whole = object_header_bytes(h);

        let r = b.put_varint(self.id);
        proof {
            lemma_encoded_first(*old(b), *b, r, s0, whole, false);
        }
        r?;

        let ghost w = *b;
        let r = self.write_extension_headers(b);
        proof {
            lemma_encoded_step(*old(b), w, *b, r, s0, s1, whole, false);
        }
        r?;

        let ghost w = *b;
        let r = b.put_varint(self.payload_len);
        proof {
            lemma_encoded_step(*old(b), w, *b, r, s0 + s1, s2, whole, false);
        }
        r?;

        let ghost w = *b;
        let status = if self.payload_len == 0 {
            self.status
        } else {
            None
        };
        let r = put_optional_varint(b, status);
        proof {
            lemma_encoded_step(*old(b), w, *b, r, s0 + s1 + s2, s3, whole, false);
        }
        r?;
        Ok(())
    }
}

/// The header is one that reading can yield: it holds a status where the
/// payload is empty and only there, and extension headers only where the
/// type of the stream has them.
pub open spec fn object_header_canonical(h: ObjectHeaderView) -> bool {
    &&& object_header_encodable(h)
    &&& h.status is Some <==> h.payload_len == 0
    &&& !extensions_present(h.subgroup_ty) ==> h.extension_headers.len() == 0
}

/// A pair takes at least one byte.
pub proof fn lemma_pair_bytes_nonempty(p: PairView)
    requires
        pair_fits(p),
    ensures
        pair_bytes(p).len() > 0,
{
    lemma_varint_bytes_len(p.ty, varint_len(p.ty));
}

/// Key-value pairs that were written one after the other read back as they
/// were, up to the end of their bytes.
pub proof fn lemma_pairs_until_roundtrip(bytes: Seq<u8>, off: int, hs: Seq<PairView>)
    requires
        forall|i: int| 0 <= i < hs.len() ==> pair_fits(#[trigger] hs[i]) && parity_holds(hs[i]),
        holds_at(bytes, off, extension_pairs_bytes(hs)),
    ensures
        parse_pairs_until(bytes, off, off + extension_pairs_bytes(hs).len()) == Ok::<
            (Seq<PairView>, int),
            Fault,
        >((hs, off + extension_pairs_bytes(hs).len())),
    decreases hs.len(),
{
    let ser = item_ser::<KeyValuePair>(PAIR_DRAFT);
    let end = off + extension_pairs_bytes(hs).len();
    if hs.len() == 0 {
        assert(extension_pairs_bytes(hs).len() == 0);
        assert(hs =~= Seq::<PairView>::empty());
    } else {
        let first = hs[0];
        let rest = hs.drop_first();
        assert(seq![first] + rest =~= hs);
        lemma_repeat_bytes_concat(ser, seq![first], rest);
        lemma_repeat_bytes_one(ser, first);
        assert(ser(first) == pair_bytes(first));
        assert(extension_pairs_bytes(hs) == pair_bytes(first) + extension_pairs_bytes(rest));
        lemma_holds_at_split(bytes, off, pair_bytes(first), extension_pairs_bytes(rest));
        lemma_pair_bytes_nonempty(first);
        lemma_pair_roundtrip(bytes, off, first);
        let o = off + pair_bytes(first).len();
        assert forall|i: int| 0 <= i < rest.len() implies pair_fits(#[trigger] rest[i])
            && parity_holds(rest[i]) by {
            assert(rest[i] == hs[i + 1]);
        }
        lemma_pairs_until_roundtrip(bytes, o, rest);
        assert(o + extension_pairs_bytes(rest).len() == end);
        assert(off < end);
        assert(parse_pair(bytes, off) == Ok::<(PairView, int), Fault>((first, o)));
        assert(parse_pairs_until(bytes, o, end) == Ok::<(Seq<PairView>, int), Fault>((rest, end)));
        assert(parse_pairs_until(bytes, off, end) == behind(
            seq![first],
            parse_pairs_until(bytes, o, end),
        ));
    }
}

/// The header of an object that reading can yield, once written, reads back
/// as it was.
pub proof fn lemma_object_header_roundtrip(bytes: Seq<u8>, off: int, h: ObjectHeaderView)
    requires
        object_header_canonical(h),
        holds_at(bytes, off, object_header_bytes(h)),
    ensures
        parse_object_header(bytes, off, h.subgroup_ty) == Ok::<(ObjectHeaderView, int), Fault>(
            (h, off + object_header_bytes(h).len()),
        ),
{
    let s0 = varint_bytes(h.id);
    let s1 = extension_headers_bytes(h);
    let s2 = varint_bytes(h.payload_len);
    let s3 = optional_varint_bytes(only_if(h.payload_len == 0, h.status));
    lemma_holds_at_split(bytes, off, s0 + s1 + s2, s3);
    lemma_holds_at_split(bytes, off, s0 + s1, s2);
    lemma_holds_at_split(bytes, off, s0, s1);
    lemma_parse_varint_roundtrip(bytes, off, h.id);
    let o1 = off + s0.len();
    if extensions_present(h.subgroup_ty) {
        let pairs = extension_pairs_bytes(h.extension_headers);
        lemma_holds_at_split(bytes, o1, varint_bytes(pairs.len() as u64), pairs);
        lemma_parse_varint_roundtrip(bytes, o1, pairs.len() as u64);
        lemma_pairs_until_roundtrip(
            bytes,
            o1 + varint_bytes(pairs.len() as u64).len(),
            h.extension_headers,
        );
    } else {
        assert(h.extension_headers =~= Seq::<PairView>::empty());
    }
    let o2 = o1 + s1.len();
    lemma_parse_varint_roundtrip(bytes, o2, h.payload_len);
    let o3 = o2 + s2.len();
    lemma_optional_varint_roundtrip(bytes, o3, h.payload_len == 0, h.status);
}

/// The header of an object without extension headers and with a payload
/// takes no more than 17 bytes.
pub proof fn lemma_plain_object_header_short(h: ObjectHeaderView)
    requires
        h.id <= MAX_VAR_INT,
        0 < h.payload_len <= MAX_VAR_INT,
        h.extension_headers.len() == 0,
        h.status is None,
    ensures
        object_header_encodable(h),
        object_header_bytes(h).len() <= 17,
{
    lemma_varint_bytes_len(h.id, varint_len(h.id));
    lemma_varint_bytes_len(h.payload_len, varint_len(h.payload_len));
    lemma_varint_bytes_len(0, varint_len(0));
    assert(extension_pairs_bytes(h.extension_headers) =~= Seq::<u8>::empty());
}

/// What is sent on a subgroup stream for its first object reads back: the
/// header of the subgroup, then the header of the object, and behind them
/// the payload, byte for byte.
pub proof fn lemma_object_on_stream_roundtrip(
    bytes: Seq<u8>,
    h: SubgroupHeader,
    o: ObjectHeaderView,
    payload: Seq<u8>,
    version: Version,
)
    requires
        version_known(version),
        subgroup_header_canonical(h, version),
        object_header_canonical(o),
        o.subgroup_ty == h.ty,
        o.payload_len == payload.len(),
        holds_at(bytes, 0, subgroup_header_bytes(h, version) + object_header_bytes(o) + payload),
    ensures
        parse_subgroup_header(bytes, 0, version) == Ok::<(SubgroupHeader, int), Fault>(
            (h, subgroup_header_bytes(h, version).len() as int),
        ),
        parse_object_header(bytes, subgroup_header_bytes(h, version).len() as int, h.ty) == Ok::<
            (ObjectHeaderView, int),
            Fault,
        >((o, (subgroup_header_bytes(h, version).len() + object_header_bytes(o).len()) as int)),
        bytes.subrange(
            (subgroup_header_bytes(h, version).len() + object_header_bytes(o).len()) as int,
            subgroup_header_bytes(h, version).len() + object_header_bytes(o).len() + o.payload_len,
        ) == payload,
{
    let first = subgroup_header_bytes(h, version);
    let second = object_header_bytes(o);
    lemma_holds_at_split(bytes, 0, first + second, payload);
    lemma_holds_at_split(bytes, 0, first, second);
    lemma_subgroup_header_roundtrip(bytes, 0, h, version);
    lemma_object_header_roundtrip(bytes, first.len() as int, o);
    let at = (first.len() + second.len()) as int;
    assert(bytes.subrange(at, at + payload.len()) =~= payload);
}

} // verus!
