//! Key-value pairs: a type, and a value whose form the type decides. An even
//! type has a variable-length integer as its value, an odd type a byte
//! string.

use super::bytes::FromBytes;
use super::bytes::ToBytes;
use super::error::Fault;
use super::error::Parsed;
use super::error::Result;
use super::octets::Reader;
use super::octets::Writer;
use super::varint::holds_at;
use super::varint::lemma_holds_at_split;
use super::varint::lemma_lp_bytes_roundtrip;
use super::varint::lemma_parse_varint_bounds;
use super::varint::lemma_parse_varint_roundtrip;
use super::varint::lp_bytes;
use super::varint::parse_lp_bytes;
use super::varint::parse_varint;
use super::varint::varint_bytes;
use super::varint::MAX_VAR_INT;
use super::Version;
use vstd::prelude::*;

verus! {

/// What a value is in contracts: the integer, or the bytes as a sequence.
pub enum ValueView {
    Varint(u64),
    Bytes(Seq<u8>),
}

/// What a pair is in contracts.
pub struct PairView {
    pub ty: u64,
    pub value: ValueView,
}

#[derive(Debug, Clone, PartialEq, Eq)]
pub struct KeyValuePair {
    pub ty: u64,
    pub value: KeyValuePairValue,
}

#[derive(Debug, Clone, PartialEq, Eq)]
pub enum KeyValuePairValue {
    Varint(u64),
    Bytes(Vec<u8>),
}

impl View for KeyValuePairValue {
    type V = ValueView;

    open spec fn view(&self) -> ValueView {
        match self {
            KeyValuePairValue::Varint(v) => ValueView::Varint(*v),
            KeyValuePairValue::Bytes(b) => ValueView::Bytes(b@),
        }
    }
}

impl View for KeyValuePair {
    type V = PairView;

    open spec fn view(&self) -> PairView {
        PairView { ty: self.ty, value: self.value@ }
    }
}

/// The form of the value is the one that the type asks for.
pub open spec fn parity_holds(p: PairView) -> bool {
    if p.ty % 2 == 0 {
        p.value is Varint
    } else {
        p.value is Bytes
    }
}

/// The integers of the pair fit 62 bits, and so does the length of its bytes.
pub open spec fn pair_fits(p: PairView) -> bool {
    &&& p.ty <= MAX_VAR_INT
    &&& match p.value {
        ValueView::Varint(v) => v <= MAX_VAR_INT,
        ValueView::Bytes(b) => b.len() <= MAX_VAR_INT,
    }
}

/// Reading a pair: the type, then the value in the form of the type.
pub open spec fn parse_pair(bytes: Seq<u8>, off: int) -> Parsed<PairView> {
    match parse_varint(bytes, off) {
        Err(f) => Err(f),
        Ok((ty, o1)) => if ty % 2 == 0 {
            match parse_varint(bytes, o1) {
                Err(f) => Err(f),
                Ok((v, o2)) => Ok((PairView { ty, value: ValueView::Varint(v) }, o2)),
            }
        } else {
            match parse_lp_bytes(bytes, o1) {
                Err(f) => Err(f),
                Ok((b, o2)) => Ok((PairView { ty, value: ValueView::Bytes(b) }, o2)),
            }
        },
    }
}

/// The bytes of a value: the integer, or the byte string with its length.
pub open spec fn value_bytes(v: ValueView) -> Seq<u8> {
    match v {
        ValueView::Varint(v) => varint_bytes(v),
        ValueView::Bytes(b) => lp_bytes(b),
    }
}

/// The bytes of a pair: the type, then the value.
pub open spec fn pair_bytes(p: PairView) -> Seq<u8> {
    varint_bytes(p.ty) + value_bytes(p.value)
}

impl KeyValuePair {
    pub fn new_varint(ty: u64, value: u64) -> (p: Self)
        requires
            ty % 2 == 0,
        ensures
            p@ == (PairView { ty, value: ValueView::Varint(value) }),
            parity_holds(p@),
    {
        Self { ty, value: KeyValuePairValue::Varint(value) }
    }

    pub fn new_bytes(ty: u64, value: Vec<u8>) -> (p: Self)
        requires
            ty % 2 == 1,
        ensures
            p@ == (PairView { ty, value: ValueView::Bytes(value@) }),
            parity_holds(p@),
    {
        Self { ty, value: KeyValuePairValue::Bytes(value) }
    }

    pub fn ty(&self) -> (r: u64)
        ensures
            r == self@.ty,
    {
        self.ty
    }

    pub fn value(&self) -> (r: &KeyValuePairValue)
        ensures
            r@ == self@.value,
    {
        &self.value
    }
}

impl KeyValuePairValue {
    /// The integer, where the value is one.
    pub fn try_into_varint(self) -> (r: core::result::Result<u64, ()>)
        ensures
            match self@ {
                ValueView::Varint(v) => r == Ok::<u64, ()>(v),
                ValueView::Bytes(_) => r is Err,
            },
    {
        match self {
            KeyValuePairValue::Varint(v) => Ok(v),
            KeyValuePairValue::Bytes(_) => Err(()),
        }
    }

    /// The bytes, where the value is a byte string.
    pub fn try_into_bytes(self) -> (r: core::result::Result<Vec<u8>, ()>)
        ensures
            match self@ {
                ValueView::Bytes(b) => r is Ok && r->Ok_0@ == b,
                ValueView::Varint(_) => r is Err,
            },
    {
        match self {
            KeyValuePairValue::Bytes(b) => Ok(b),
            KeyValuePairValue::Varint(_) => Err(()),
        }
    }
}

impl FromBytes for KeyValuePair {
    open spec fn parse(bytes: Seq<u8>, off: int, version: Version) -> Parsed<PairView> {
        parse_pair(bytes, off)
    }

    fn from_bytes(b: &mut Reader, version: Version) -> (r: Result<Self>) {
        proof {
            let _ = Self::parse(b.bytes(), b.pos(), version);
        }
        let ty = b.get_varint()?;
        let value = if ty % 2 == 0 {
            KeyValuePairValue::Varint(b.get_varint()?)
        } else {
            KeyValuePairValue::Bytes(b.get_bytes_with_varint_length()?)
        };
        Ok(Self { ty, value })
    }
}

impl ToBytes for KeyValuePair {
    open spec fn encodable(v: PairView, version: Version) -> bool {
        pair_fits(v) && parity_holds(v)
    }

    open spec fn invalid(v: PairView, version: Version) -> bool {
        false
    }

    open spec fn too_long(v: PairView, version: Version) -> bool {
        false
    }

    open spec fn serialized(v: PairView, version: Version) -> Seq<u8> {
        pair_bytes(v)
    }

    fn to_bytes(&self, b: &mut Writer, version: Version) -> (r: Result<()>) {
        proof {
            let _ = Self::encodable(self@, version);
            let _ = Self::invalid(self@, version);
            let _ = Self::too_long(self@, version);
            let _ = Self::serialized(self@, version);
        }
        b.put_varint(self.ty)?;
        match &self.value {
            KeyValuePairValue::Varint(v) => {
                b.put_varint(*v)?;
            },
            KeyValuePairValue::Bytes(v) => {
                b.put_bytes_with_varint_length(v.as_slice())?;
            },
        }
        assert(b.written() =~= old(b).written() + pair_bytes(self@));
        Ok(())
    }
}

/// Every pair that is read has the value in the form that its type asks
/// for: an integer under an even type, a byte string under an odd one.
pub proof fn lemma_parsed_pair_parity(bytes: Seq<u8>, off: int)
    requires
        parse_pair(bytes, off) is Ok,
    ensures
        parity_holds(parse_pair(bytes, off)->Ok_0.0),
        pair_fits(parse_pair(bytes, off)->Ok_0.0),
{
    lemma_parse_varint_bounds(bytes, off);
    let o1 = parse_varint(bytes, off)->Ok_0.1;
    let ty = parse_varint(bytes, off)->Ok_0.0;
    if ty % 2 == 0 {
        lemma_parse_varint_bounds(bytes, o1);
    } else {
        lemma_parse_varint_bounds(bytes, o1);
    }
}

/// A pair that was written reads back as it was.
pub proof fn lemma_pair_roundtrip(bytes: Seq<u8>, off: int, p: PairView)
    requires
        pair_fits(p),
        parity_holds(p),
        holds_at(bytes, off, pair_bytes(p)),
    ensures
        parse_pair(bytes, off) == Ok::<(PairView, int), Fault>((p, off + pair_bytes(p).len())),
{
    lemma_holds_at_split(bytes, off, varint_bytes(p.ty), value_bytes(p.value));
    lemma_parse_varint_roundtrip(bytes, off, p.ty);
    let o1 = off + varint_bytes(p.ty).len();
    match p.value {
        ValueView::Varint(v) => {
            lemma_parse_varint_roundtrip(bytes, o1, v);
        },
        ValueView::Bytes(b) => {
            lemma_lp_bytes_roundtrip(bytes, o1, b);
        },
    }
}

} // verus!
