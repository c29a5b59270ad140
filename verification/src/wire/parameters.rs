use super::bytes::item_parser;
use super::bytes::item_ser;
use super::bytes::lemma_repeat_roundtrip;
use super::bytes::parse_repeat;
use super::bytes::read_repeat;
use super::bytes::repeat_bytes;
use super::bytes::views;
use super::bytes::write_all;
use super::bytes::FromBytes;
use super::bytes::ToBytes;
use super::error::Fault;
use super::error::Parsed;
use super::error::Result;
use super::key_value_pair::PairView;
use super::octets::Reader;
use super::octets::Writer;
use super::parameter::lemma_parameter_roundtrip;
use super::parameter::parameter_canonical;
use super::parameter::parameter_encodable;
use super::parameter::Parameter;
use super::varint::holds_at;
use super::varint::lemma_holds_at_split;
use super::varint::lemma_parse_varint_roundtrip;
use super::varint::parse_varint;
use super::varint::varint_bytes;
use super::varint::MAX_VAR_INT;
use super::Version;
use vstd::prelude::*;

verus! {

/// A list of parameters, written behind its count.
#[derive(Debug, Clone, PartialEq, Eq)]
pub struct Parameters(pub Vec<Parameter>);

impl View for Parameters {
    type V = Seq<PairView>;

    open spec fn view(&self) -> Seq<PairView> {
        views(self.0@)
    }
}

/// Reading a list of parameters: the count, then that many parameters.
pub open spec fn parse_parameters(bytes: Seq<u8>, off: int, version: Version) -> Parsed<
    Seq<PairView>,
> {
    match parse_varint(bytes, off) {
        Err(f) => Err(f),
        Ok((n, o)) => parse_repeat(item_parser::<Parameter>(version), bytes, o, n as nat),
    }
}

pub open spec fn parameters_bytes(ps: Seq<PairView>, version: Version) -> Seq<u8> {
    varint_bytes(ps.len() as u64) + repeat_bytes(item_ser::<Parameter>(version), ps)
}

pub open spec fn parameters_encodable(ps: Seq<PairView>, version: Version) -> bool {
    &&& ps.len() <= MAX_VAR_INT
    &&& forall|i: int| 0 <= i < ps.len() ==> parameter_encodable(#[trigger] ps[i], version)
}

/// Each parameter of the list is one that reading can yield.
pub open spec fn parameters_canonical(ps: Seq<PairView>, version: Version) -> bool {
    &&& ps.len() <= MAX_VAR_INT
    &&& forall|i: int| 0 <= i < ps.len() ==> parameter_canonical(#[trigger] ps[i], version)
}

impl Parameters {
    pub fn len(&self) -> (r: usize)
        ensures
            r == self@.len(),
    {
        self.0.len()
    }
}

impl FromBytes for Parameters {
    open spec fn parse(bytes: Seq<u8>, off: int, version: Version) -> Parsed<Seq<PairView>> {
        parse_parameters(bytes, off, version)
    }

    fn from_bytes(b: &mut Reader, version: Version) -> (r: Result<Self>) {
        proof {
            let _ = Self::parse(b.bytes(), b.pos(), version);
        }
        let n = b.get_varint()?;
        let params = read_repeat::<Parameter>(b, n, version)?;
        Ok(Self(params))
    }
}

impl ToBytes for Parameters {
    open spec fn encodable(v: Seq<PairView>, version: Version) -> bool {
        parameters_encodable(v, version)
    }

    open spec fn invalid(v: Seq<PairView>, version: Version) -> bool {
        false
    }

    open spec fn too_long(v: Seq<PairView>, version: Version) -> bool {
        false
    }

    open spec fn serialized(v: Seq<PairView>, version: Version) -> Seq<u8> {
        parameters_bytes(v, version)
    }

    fn to_bytes(&self, b: &mut Writer, version: Version) -> (r: Result<()>) {
        proof {
            let _ = Self::encodable(self@, version);
            let _ = Self::invalid(self@, version);
            let _ = Self::too_long(self@, version);
            let _ = Self::serialized(self@, version);
        }
        b.put_varint(self.0.len() as u64)?;
        assert forall|i: int| 0 <= i < self.0@.len() implies Parameter::encodable(
            #[trigger] self.0@[i]@,
            version,
        ) by {
            assert(self@[i] == self.0@[i]@);
        }
        write_all::<Parameter>(&self.0, b, version)?;
        assert(b.written() =~= old(b).written() + parameters_bytes(self@, version));
        Ok(())
    }
}

/// Parameters that reading can yield, once written, read back as they were.
pub proof fn lemma_parameters_roundtrip(
    bytes: Seq<u8>,
    off: int,
    ps: Seq<PairView>,
    version: Version,
)
    requires
        parameters_canonical(ps, version),
        holds_at(bytes, off, parameters_bytes(ps, version)),
    ensures
        parse_parameters(bytes, off, version) == Ok::<(Seq<PairView>, int), Fault>(
            (ps, off + parameters_bytes(ps, version).len()),
        ),
{
    let item = item_parser::<Parameter>(version);
    let ser = item_ser::<Parameter>(version);
    let good = |p: PairView| parameter_canonical(p, version);
    lemma_holds_at_split(bytes, off, varint_bytes(ps.len() as u64), repeat_bytes(ser, ps));
    lemma_parse_varint_roundtrip(bytes, off, ps.len() as u64);
    assert forall|bs: Seq<u8>, o: int, t: PairView|
        good(t) && #[trigger] holds_at(bs, o, ser(t)) implies item(bs, o) == Ok::<
        (PairView, int),
        Fault,
    >((t, o + ser(t).len())) by {
        lemma_parameter_roundtrip(bs, o, t, version);
    }
    lemma_repeat_roundtrip(
        item,
        ser,
        good,
        bytes,
        off + varint_bytes(ps.len() as u64).len(),
        ps,
    );
}

} // verus!
