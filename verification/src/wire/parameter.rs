//! Parameters of control messages. Drafts 07 to 10 carry every value as
//! bytes behind a length; drafts 11 to 13 carry a key-value pair.

use super::bytes::encoded;
use super::bytes::FromBytes;
use super::bytes::ToBytes;
use super::error::Fault;
use super::error::Parsed;
use super::error::Result;
use super::key_value_pair::lemma_pair_roundtrip;
use super::key_value_pair::pair_bytes;
use super::key_value_pair::pair_fits;
use super::key_value_pair::parity_holds;
use super::key_value_pair::parse_pair;
use super::key_value_pair::KeyValuePair;
use super::key_value_pair::KeyValuePairValue;
use super::key_value_pair::PairView;
use super::key_value_pair::ValueView;
use super::octets::Reader;
use super::octets::Writer;
use super::varint::holds_at;
use super::varint::lemma_holds_at_split;
use super::varint::lemma_lp_bytes_roundtrip;
use super::varint::lemma_parse_varint_roundtrip;
use super::varint::lp_bytes;
use super::varint::parse_lp_bytes;
use super::varint::parse_varint;
use super::varint::varint_bytes;
use super::is_version_until_10;
use super::version_until_10;
use super::Version;
use vstd::prelude::*;

verus! {

#[derive(Debug, Clone, PartialEq, Eq)]
pub struct Parameter {
    pub ty: u64,
    pub value: ParameterValue,
}

#[derive(Debug, Clone, PartialEq, Eq)]
pub enum ParameterValue {
    Bytes(Vec<u8>),
    Varint(u64),
}

impl View for ParameterValue {
    type V = ValueView;

    open spec fn view(&self) -> ValueView {
        match self {
            ParameterValue::Varint(v) => ValueView::Varint(*v),
            ParameterValue::Bytes(b) => ValueView::Bytes(b@),
        }
    }
}

impl View for Parameter {
    type V = PairView;

    open spec fn view(&self) -> PairView {
        PairView { ty: self.ty, value: self.value@ }
    }
}

/// Reading a parameter on the given draft.
pub open spec fn parse_parameter(bytes: Seq<u8>, off: int, version: Version) -> Parsed<PairView> {
    if version_until_10(version) {
        match parse_varint(bytes, off) {
            Err(f) => Err(f),
            Ok((ty, o1)) => match parse_lp_bytes(bytes, o1) {
                Err(f) => Err(f),
                Ok((b, o2)) => Ok((PairView { ty, value: ValueView::Bytes(b) }, o2)),
            },
        }
    } else {
        parse_pair(bytes, off)
    }
}

/// The bytes of a parameter on the given draft. On drafts 07 to 10 an
/// integer is written as one byte behind the length 1.
pub open spec fn parameter_bytes(p: PairView, version: Version) -> Seq<u8> {
    if version_until_10(version) {
        varint_bytes(p.ty) + match p.value {
            ValueView::Varint(v) => varint_bytes(1) + seq![v as u8],
            ValueView::Bytes(b) => lp_bytes(b),
        }
    } else {
        pair_bytes(p)
    }
}

/// The parameter has a form on the given draft. On drafts 07 to 10 an
/// integer must fit one byte; on drafts 11 to 13 the value must have the
/// form that the type asks for.
pub open spec fn parameter_encodable(p: PairView, version: Version) -> bool {
    &&& pair_fits(p)
    &&& if version_until_10(version) {
        p.value matches ValueView::Varint(v) ==> v <= 255
    } else {
        parity_holds(p)
    }
}

/// The parameter is one that reading can yield on the given draft.
pub open spec fn parameter_canonical(p: PairView, version: Version) -> bool {
    &&& parameter_encodable(p, version)
    &&& version_until_10(version) ==> p.value is Bytes
}

impl Parameter {
    pub fn ty(&self) -> (r: u64)
        ensures
            r == self@.ty,
    {
        self.ty
    }

    pub fn value(&self) -> (r: &ParameterValue)
        ensures
            r@ == self@.value,
    {
        &self.value
    }

    pub fn new_bytes(ty: u64, value: Vec<u8>) -> (p: Self)
        ensures
            p@ == (PairView { ty, value: ValueView::Bytes(value@) }),
    {
        Self { ty, value: ParameterValue::Bytes(value) }
    }

    /// Writes the parameter of type `ty` whose value is the bytes `value`,
    /// which has the same form on every draft.
    pub fn to_bytes_parts(ty: u64, value: &[u8], b: &mut Writer) -> (r: Result<()>)
        requires
            pair_fits(PairView { ty, value: ValueView::Bytes(value@) }),
        ensures
            encoded(
                *old(b),
                *final(b),
                r,
                false,
                false,
                varint_bytes(ty) + lp_bytes(value@),
            ),
    {
        b.put_varint(ty)?;
        b.put_bytes_with_varint_length(value)?;
        assert(b.written() =~= old(b).written() + (varint_bytes(ty) + lp_bytes(value@)));
        Ok(())
    }

    pub fn new_varint(ty: u64, value: u64) -> (p: Self)
        ensures
            p@ == (PairView { ty, value: ValueView::Varint(value) }),
    {
        Self { ty, value: ParameterValue::Varint(value) }
    }
}

impl FromBytes for Parameter {
    open spec fn parse(bytes: Seq<u8>, off: int, version: Version) -> Parsed<PairView> {
        parse_parameter(bytes, off, version)
    }

    fn from_bytes(b: &mut Reader, version: Version) -> (r: Result<Self>) {
        proof {
            let _ = Self::parse(b.bytes(), b.pos(), version);
        }
        if is_version_until_10(version) {
            let ty = b.get_varint()?;
            let value = b.get_bytes_with_varint_length()?;
            Ok(Self { ty, value: ParameterValue::Bytes(value) })
        } else {
            let kvp = KeyValuePair::from_bytes(b, version)?;
            let ty = kvp.ty;
            let value = match kvp.value {
                KeyValuePairValue::Bytes(v) => ParameterValue::Bytes(v),
                KeyValuePairValue::Varint(v) => ParameterValue::Varint(v),
            };
            Ok(Self { ty, value })
        }
    }
}

impl ToBytes for Parameter {
    open spec fn encodable(v: PairView, version: Version) -> bool {
        parameter_encodable(v, version)
    }

    open spec fn invalid(v: PairView, version: Version) -> bool {
        false
    }

    open spec fn too_long(v: PairView, version: Version) -> bool {
        false
    }

    open spec fn serialized(v: PairView, version: Version) -> Seq<u8> {
        parameter_bytes(v, version)
    }

    fn to_bytes(&self, b: &mut Writer, version: Version) -> (r: Result<()>) {
        proof {
            let _ = Self::encodable(self@, version);
            let _ = Self::invalid(self@, version);
            let _ = Self::too_long(self@, version);
            let _ = Self::serialized(self@, version);
        }
        b.put_varint(self.ty)?;
        match &self.value {
            ParameterValue::Varint(v) => {
                if is_version_until_10(version) {
                    b.put_varint(1)?;
                    b.put_u8(*v as u8)?;
                } else {
                    b.put_varint(*v)?;
                }
            },
            ParameterValue::Bytes(v) => {
                b.put_bytes_with_varint_length(v.as_slice())?;
            },
        }
        assert(b.written() =~= old(b).written() + parameter_bytes(self@, version));
        Ok(())
    }
}

/// A parameter that reading can yield, once written, reads back as it was.
pub proof fn lemma_parameter_roundtrip(bytes: Seq<u8>, off: int, p: PairView, version: Version)
    requires
        parameter_canonical(p, version),
        holds_at(bytes, off, parameter_bytes(p, version)),
    ensures
        parse_parameter(bytes, off, version) == Ok::<(PairView, int), Fault>(
            (p, off + parameter_bytes(p, version).len()),
        ),
{
    if version_until_10(version) {
        let b = p.value->Bytes_0;
        lemma_holds_at_split(bytes, off, varint_bytes(p.ty), lp_bytes(b));
        lemma_parse_varint_roundtrip(bytes, off, p.ty);
        lemma_lp_bytes_roundtrip(bytes, off + varint_bytes(p.ty).len(), b);
    } else {
        lemma_pair_roundtrip(bytes, off, p);
    }
}

/// The parameter as it reads back. On drafts 07 to 10 an integer reads back
/// as the one byte that it was written as.
pub open spec fn parameter_as_read(p: PairView, version: Version) -> PairView {
    match p.value {
        ValueView::Varint(v) => if version_until_10(version) {
            PairView { ty: p.ty, value: ValueView::Bytes(seq![v as u8]) }
        } else {
            p
        },
        ValueView::Bytes(_) => p,
    }
}

/// A parameter that was written reads back as [`parameter_as_read`] says.
pub proof fn lemma_parameter_reads_back(bytes: Seq<u8>, off: int, p: PairView, version: Version)
    requires
        parameter_encodable(p, version),
        holds_at(bytes, off, parameter_bytes(p, version)),
    ensures
        parse_parameter(bytes, off, version) == Ok::<(PairView, int), Fault>(
            (parameter_as_read(p, version), off + parameter_bytes(p, version).len()),
        ),
{
    if version_until_10(version) {
        match p.value {
            ValueView::Varint(v) => {
                let b = seq![v as u8];
                assert(varint_bytes(1) == varint_bytes(b.len() as u64));
                assert(parameter_bytes(p, version) == varint_bytes(p.ty) + lp_bytes(b));
                lemma_holds_at_split(bytes, off, varint_bytes(p.ty), lp_bytes(b));
                lemma_parse_varint_roundtrip(bytes, off, p.ty);
                lemma_lp_bytes_roundtrip(bytes, off + varint_bytes(p.ty).len(), b);
            },
            ValueView::Bytes(_) => {
                lemma_parameter_roundtrip(bytes, off, p, version);
            },
        }
    } else {
        lemma_pair_roundtrip(bytes, off, p);
    }
}

} // verus!
