//! The parameters of the two setup messages. Three of them have a name and a
//! field of their own; the others are kept as they came.

use super::bytes::encoded;
use super::bytes::lemma_encoded_first;
use super::bytes::lemma_encoded_step;
use super::bytes::item_ser;
use super::bytes::repeat_bytes;
use super::bytes::views;
use super::bytes::write_all;
use super::bytes::FromBytes;
use super::bytes::ToBytes;
use super::error::Error;
use super::error::Fault;
use super::error::Parsed;
use super::error::Result;
use super::is_version_until_10;
use super::key_value_pair::PairView;
use super::key_value_pair::ValueView;
use super::octets::Reader;
use super::octets::Writer;
use super::parameter::lemma_parameter_reads_back;
use super::parameter::parameter_as_read;
use super::parameter::parameter_bytes;
use super::parameter::parameter_canonical;
use super::parameter::parameter_encodable;
use super::parameter::parse_parameter;
use super::parameter::Parameter;
use super::parameter::ParameterValue;
use super::role::parse_role;
use super::role::role_id;
use super::role::Role;
use super::varint::holds_at;
use super::varint::lemma_holds_at_split;
use super::varint::lemma_parse_varint_roundtrip;
use super::varint::parse_varint;
use super::varint::varint_bytes;
use super::varint::MAX_VAR_INT;
use super::version_known;
use super::version_until_10;
use super::RequestId;
use super::Version;
use super::MAX_REQUEST_ID_SETUP_PARAMETER_ID;
use super::MOQ_VERSION_DRAFT_07;
use super::PATH_SETUP_PARAMETER_ID;
use super::ROLE_SETUP_PARAMETER_ID;
use vstd::prelude::*;

verus! {

#[derive(Debug, Clone, PartialEq, Eq)]
pub struct SetupParameters {
    pub path: Option<Vec<u8>>,
    pub max_request_id: Option<RequestId>,
    pub role: Option<Role>,
    pub extra_parameters: Vec<Parameter>,
}

/// What setup parameters are in contracts.
pub struct SetupParametersView {
    pub path: Option<Seq<u8>>,
    pub max_request_id: Option<RequestId>,
    pub role: Option<Role>,
    pub extra_parameters: Seq<PairView>,
}

impl View for SetupParameters {
    type V = SetupParametersView;

    open spec fn view(&self) -> SetupParametersView {
        SetupParametersView {
            path: match self.path {
                Some(p) => Some(p@),
                None => None,
            },
            max_request_id: self.max_request_id,
            role: self.role,
            extra_parameters: views(self.extra_parameters@),
        }
    }
}

/// Setup parameters with nothing set.
pub open spec fn setup_empty() -> SetupParametersView {
    SetupParametersView {
        path: None,
        max_request_id: None,
        role: None,
        extra_parameters: Seq::empty(),
    }
}

/// The setup parameters `s` with the parameter `p` taken in: into the field
/// that its type names, where its value has the form that the draft gives
/// that field, and among the other parameters where not.
pub open spec fn absorb(s: SetupParametersView, p: PairView, version: Version) -> core::result::Result<
    SetupParametersView,
    Fault,
> {
    match p.value {
        ValueView::Bytes(b) => if p.ty == MAX_REQUEST_ID_SETUP_PARAMETER_ID && version_until_10(
            version,
        ) {
            if b.len() == 1 {
                Ok(SetupParametersView { max_request_id: Some(b[0] as u64), ..s })
            } else {
                Err(Fault::Violation)
            }
        } else if p.ty == PATH_SETUP_PARAMETER_ID {
            Ok(SetupParametersView { path: Some(b), ..s })
        } else if p.ty == ROLE_SETUP_PARAMETER_ID && version == MOQ_VERSION_DRAFT_07 {
            match parse_role(b, 0) {
                Ok((role, _)) => Ok(SetupParametersView { role: Some(role), ..s }),
                Err(f) => Err(f),
            }
        } else {
            Ok(SetupParametersView { extra_parameters: s.extra_parameters.push(p), ..s })
        },
        ValueView::Varint(v) => if p.ty == MAX_REQUEST_ID_SETUP_PARAMETER_ID && !version_until_10(
            version,
        ) {
            Ok(SetupParametersView { max_request_id: Some(v), ..s })
        } else {
            Ok(SetupParametersView { extra_parameters: s.extra_parameters.push(p), ..s })
        },
    }
}

/// Reading `n` parameters and taking each in as it is read.
pub open spec fn parse_setup_fold(bytes: Seq<u8>, off: int, version: Version, n: nat) -> Parsed<
    SetupParametersView,
>
    decreases n,
{
    if n == 0 {
        Ok((setup_empty(), off))
    } else {
        match parse_setup_fold(bytes, off, version, (n - 1) as nat) {
            Err(f) => Err(f),
            Ok((s, o)) => match parse_parameter(bytes, o, version) {
                Err(f) => Err(f),
                Ok((p, next)) => match absorb(s, p, version) {
                    Err(f) => Err(f),
                    Ok(t) => Ok((t, next)),
                },
            },
        }
    }
}

/// Reading setup parameters: the count, then that many parameters.
pub open spec fn parse_setup_parameters(bytes: Seq<u8>, off: int, version: Version) -> Parsed<
    SetupParametersView,
> {
    match parse_varint(bytes, off) {
        Err(f) => Err(f),
        Ok((n, o)) => parse_setup_fold(bytes, o, version, n as nat),
    }
}

/// Once a parameter has failed, reading more fails in the same way.
pub proof fn lemma_setup_fold_stays_failed(
    bytes: Seq<u8>,
    off: int,
    version: Version,
    i: nat,
    n: nat,
)
    requires
        i <= n,
        parse_setup_fold(bytes, off, version, i) is Err,
    ensures
        parse_setup_fold(bytes, off, version, n) == parse_setup_fold(bytes, off, version, i),
    decreases n,
{
    if i < n {
        lemma_setup_fold_stays_failed(bytes, off, version, i, (n - 1) as nat);
    }
}

/// The number of parameters that are written: one for each named field
/// that is set, and the others.
pub open spec fn setup_count(s: SetupParametersView) -> nat {
    (if s.path is Some {
        1nat
    } else {
        0nat
    }) + (if s.max_request_id is Some {
        1nat
    } else {
        0nat
    }) + (if s.role is Some {
        1nat
    } else {
        0nat
    }) + s.extra_parameters.len()
}

/// The parameter that carries the path.
pub open spec fn path_parameter(path: Seq<u8>) -> PairView {
    PairView { ty: PATH_SETUP_PARAMETER_ID, value: ValueView::Bytes(path) }
}

/// The parameter that carries the largest request id.
pub open spec fn max_request_id_parameter(m: RequestId) -> PairView {
    PairView { ty: MAX_REQUEST_ID_SETUP_PARAMETER_ID, value: ValueView::Varint(m) }
}

/// The parameter that carries the role.
pub open spec fn role_parameter(r: Role) -> PairView {
    PairView { ty: ROLE_SETUP_PARAMETER_ID, value: ValueView::Varint(role_id(r)) }
}

/// The bytes of the parameter of an optional field: none where it is not set.
pub open spec fn optional_bytes(p: Option<PairView>, version: Version) -> Seq<u8> {
    match p {
        Some(p) => parameter_bytes(p, version),
        None => Seq::empty(),
    }
}

pub open spec fn optional_encodable(p: Option<PairView>, version: Version) -> bool {
    match p {
        Some(p) => parameter_encodable(p, version),
        None => true,
    }
}

/// The three named fields as parameters, where they are set.
pub open spec fn setup_path(s: SetupParametersView) -> Option<PairView> {
    match s.path {
        Some(p) => Some(path_parameter(p)),
        None => None,
    }
}

pub open spec fn setup_max_request_id(s: SetupParametersView) -> Option<PairView> {
    match s.max_request_id {
        Some(m) => Some(max_request_id_parameter(m)),
        None => None,
    }
}

pub open spec fn setup_role(s: SetupParametersView) -> Option<PairView> {
    match s.role {
        Some(r) => Some(role_parameter(r)),
        None => None,
    }
}

/// The bytes of setup parameters: the count, the path, the largest request
/// id, the role, then the other parameters.
pub open spec fn setup_parameters_bytes(s: SetupParametersView, version: Version) -> Seq<u8> {
    varint_bytes(setup_count(s) as u64) + optional_bytes(setup_path(s), version) + optional_bytes(
        setup_max_request_id(s),
        version,
    ) + optional_bytes(setup_role(s), version) + repeat_bytes(
        item_ser::<Parameter>(version),
        s.extra_parameters,
    )
}

pub open spec fn setup_parameters_encodable(s: SetupParametersView, version: Version) -> bool {
    &&& setup_count(s) <= MAX_VAR_INT
    &&& optional_encodable(setup_path(s), version)
    &&& optional_encodable(setup_max_request_id(s), version)
    &&& optional_encodable(setup_role(s), version)
    &&& forall|i: int|
        0 <= i < s.extra_parameters.len() ==> parameter_encodable(
            #[trigger] s.extra_parameters[i],
            version,
        )
}

/// Writes the parameter of an optional field, where it is set.
pub fn write_optional(p: Option<Parameter>, b: &mut Writer, version: Version) -> (r: Result<()>)
    requires
        version_known(version),
        p matches Some(q) ==> parameter_encodable(q@, version),
    ensures
        encoded(
            *old(b),
            *final(b),
            r,
            false,
            false,
            optional_bytes(
                match p {
                    Some(q) => Some(q@),
                    None => None,
                },
                version,
            ),
        ),
{
    match p {
        Some(q) => q.to_bytes(b, version),
        None => {
            let _end = b.off();
            assert(b.written() =~= old(b).written() + Seq::<u8>::empty());
            Ok(())
        },
    }
}

impl SetupParameters {
    /// Setup parameters with nothing set.
    pub fn new() -> (s: Self)
        ensures
            s@ == setup_empty(),
    {
        let s = Self { path: None, max_request_id: None, role: None, extra_parameters: Vec::new() };
        assert(s@.extra_parameters =~= Seq::<PairView>::empty());
        s
    }

    /// The number of parameters that are written.
    pub fn number_of_parameters(&self) -> (r: u64)
        requires
            setup_count(self@) <= u64::MAX,
        ensures
            r == setup_count(self@),
    {
        let a: u64 = if self.path.is_some() {
            1
        } else {
            0
        };
        let b: u64 = if self.max_request_id.is_some() {
            1
        } else {
            0
        };
        let c: u64 = if self.role.is_some() {
            1
        } else {
            0
        };
        a + b + c + self.extra_parameters.len() as u64
    }

    /// Takes the parameter in: into the field that its type names, or among
    /// the other parameters.
    pub fn absorb(&mut self, p: Parameter, version: Version) -> (r: Result<()>)
        requires
            version_known(version),
        ensures
            match absorb(old(self)@, p@, version) {
                Ok(t) => r is Ok && final(self)@ == t,
                Err(f) => r is Err && r->Err_0.fault() == f,
            },
    {
        let ty = p.ty;
        match p.value {
            ParameterValue::Bytes(v) => {
                if ty == MAX_REQUEST_ID_SETUP_PARAMETER_ID && is_version_until_10(version) {
                    if v.len() != 1 {
                        return Err(Error::violation("max request id must be one byte"));
                    }
                    self.max_request_id = Some(v[0] as u64);
                } else if ty == PATH_SETUP_PARAMETER_ID {
                    self.path = Some(v);
                } else if ty == ROLE_SETUP_PARAMETER_ID && version == MOQ_VERSION_DRAFT_07 {
                    let mut inner = Reader::with_slice(v.as_slice());
                    let role = Role::from_bytes(&mut inner, version)?;
                    self.role = Some(role);
                } else {
                    let ghost before = views(self.extra_parameters@);
                    let q = Parameter { ty, value: ParameterValue::Bytes(v) };
                    self.extra_parameters.push(q);
                    assert(views(self.extra_parameters@) =~= before.push(q@));
                }
            },
            ParameterValue::Varint(v) => {
                if ty == MAX_REQUEST_ID_SETUP_PARAMETER_ID && !is_version_until_10(version) {
                    self.max_request_id = Some(v);
                } else {
                    let ghost before = views(self.extra_parameters@);
                    let q = Parameter { ty, value: ParameterValue::Varint(v) };
                    self.extra_parameters.push(q);
                    assert(views(self.extra_parameters@) =~= before.push(q@));
                }
            },
        }
        Ok(())
    }
}

impl FromBytes for SetupParameters {
    open spec fn parse(bytes: Seq<u8>, off: int, version: Version) -> Parsed<SetupParametersView> {
        parse_setup_parameters(bytes, off, version)
    }

    fn from_bytes(b: &mut Reader, version: Version) -> (r: Result<Self>) {
        proof {
            let _ = Self::parse(b.bytes(), b.pos(), version);
        }
        let ghost bytes = b.bytes();
        let n = b.get_varint()?;
        let start = b.off();
        let mut s = Self::new();
        let mut i: u64 = 0;
        while i < n
            invariant
                i <= n,
                version_known(version),
                b.bytes() == bytes,
                bytes == old(b).bytes(),
                old(b).pos() <= start <= b.pos() <= bytes.len(),
                parse_varint(bytes, old(b).pos()) == Ok::<(u64, int), Fault>((n, start as int)),
                parse_setup_fold(bytes, start as int, version, i as nat) == Ok::<
                    (SetupParametersView, int),
                    Fault,
                >((s@, b.pos())),
            decreases n - i,
        {
            let p = match Parameter::from_bytes(b, version) {
                Ok(p) => p,
                Err(e) => {
                    proof {
                        lemma_setup_fold_stays_failed(
                            bytes,
                            start as int,
                            version,
                            (i + 1) as nat,
                            n as nat,
                        );
                    }
                    return Err(e);
                },
            };
            match s.absorb(p, version) {
                Ok(()) => {},
                Err(e) => {
                    proof {
                        lemma_setup_fold_stays_failed(
                            bytes,
                            start as int,
                            version,
                            (i + 1) as nat,
                            n as nat,
                        );
                    }
                    return Err(e);
                },
            }
            i += 1;
        }
        Ok(s)
    }
}

impl ToBytes for SetupParameters {
    open spec fn encodable(v: SetupParametersView, version: Version) -> bool {
        setup_parameters_encodable(v, version)
    }

    open spec fn invalid(v: SetupParametersView, version: Version) -> bool {
        false
    }

    open spec fn too_long(v: SetupParametersView, version: Version) -> bool {
        false
    }

    open spec fn serialized(v: SetupParametersView, version: Version) -> Seq<u8> {
        setup_parameters_bytes(v, version)
    }

    fn to_bytes(&self, b: &mut Writer, version: Version) -> (r: Result<()>) {
        proof {
            let _ = Self::encodable(self@, version);
            let _ = Self::invalid(self@, version);
            let _ = Self::too_long(self@, version);
            let _ = Self::serialized(self@, version);
        }
        let ghost v = self@;
        let ghost s0 = varint_bytes(setup_count(v) as u64);
        let ghost s1 = optional_bytes(setup_path(v), version);
        let ghost s2 = optional_bytes(setup_max_request_id(v), version);
        let ghost s3 = optional_bytes(setup_role(v), version);
        let ghost s4 = repeat_bytes(item_ser::<Parameter>(version), v.extra_parameters);
        let ghost whole = setup_parameters_bytes(v, version);

        let r = b.put_varint(self.number_of_parameters());
        proof {
            lemma_encoded_first(*old(b), *b, r, s0, whole, false);
        }
        r?;

        let ghost w = *b;
        let r = match &self.path {
            Some(path) => Parameter::to_bytes_parts(PATH_SETUP_PARAMETER_ID, path.as_slice(), b),
            None => write_optional(None, b, version),
        };
        proof {
            lemma_encoded_step(*old(b), w, *b, r, s0, s1, whole, false);
        }
        r?;

        let ghost w = *b;
        let max_request_id = match self.max_request_id {
            Some(m) => Some(Parameter::new_varint(MAX_REQUEST_ID_SETUP_PARAMETER_ID, m)),
            None => None,
        };
        let r = write_optional(max_request_id, b, version);
        proof {
            lemma_encoded_step(*old(b), w, *b, r, s0 + s1, s2, whole, false);
        }
        r?;

        let ghost w = *b;
        let role = match &self.role {
            Some(r) => Some(Parameter::new_varint(ROLE_SETUP_PARAMETER_ID, r.to_id())),
            None => None,
        };
        let r = write_optional(role, b, version);
        proof {
            lemma_encoded_step(*old(b), w, *b, r, s0 + s1 + s2, s3, whole, false);
        }
        r?;

        let ghost w = *b;
        assert forall|i: int| 0 <= i < self.extra_parameters@.len() implies Parameter::encodable(
            #[trigger] self.extra_parameters@[i]@,
            version,
        ) by {
            assert(v.extra_parameters[i] == self.extra_parameters@[i]@);
        }
        let r = write_all::<Parameter>(&self.extra_parameters, b, version);
        proof {
            lemma_encoded_step(*old(b), w, *b, r, s0 + s1 + s2 + s3, s4, whole, false);
        }
        r?;
        let _end = b.off();
        Ok(())
    }
}

/// A parameter that stays among the other parameters when it is read: its
/// type and the form of its value name no field.
pub open spec fn setup_extra_plain(p: PairView, version: Version) -> bool {
    match p.value {
        ValueView::Bytes(_) => !(p.ty == MAX_REQUEST_ID_SETUP_PARAMETER_ID && version_until_10(
            version,
        )) && p.ty != PATH_SETUP_PARAMETER_ID && !(p.ty == ROLE_SETUP_PARAMETER_ID && version
            == MOQ_VERSION_DRAFT_07),
        ValueView::Varint(_) => !(p.ty == MAX_REQUEST_ID_SETUP_PARAMETER_ID && !version_until_10(
            version,
        )),
    }
}

/// The setup parameters are such as reading can yield on the given draft:
/// the role is set on draft 07 alone, and each of the other parameters is
/// one that reading yields and that names no field.
pub open spec fn setup_parameters_canonical(s: SetupParametersView, version: Version) -> bool {
    &&& setup_parameters_encodable(s, version)
    &&& s.role is Some ==> version == MOQ_VERSION_DRAFT_07
    &&& forall|i: int|
        0 <= i < s.extra_parameters.len() ==> parameter_canonical(
            #[trigger] s.extra_parameters[i],
            version,
        ) && setup_extra_plain(s.extra_parameters[i], version)
}

/// Reading one more parameter that was written, and taking it in.
pub proof fn lemma_setup_fold_step(
    bytes: Seq<u8>,
    off: int,
    version: Version,
    k: nat,
    s: SetupParametersView,
    o: int,
    p: PairView,
)
    requires
        parse_setup_fold(bytes, off, version, k) == Ok::<(SetupParametersView, int), Fault>(
            (s, o),
        ),
        parameter_encodable(p, version),
        holds_at(bytes, o, parameter_bytes(p, version)),
        absorb(s, parameter_as_read(p, version), version) is Ok,
    ensures
        parse_setup_fold(bytes, off, version, k + 1) == Ok::<(SetupParametersView, int), Fault>(
            (
                absorb(s, parameter_as_read(p, version), version)->Ok_0,
                o + parameter_bytes(p, version).len(),
            ),
        ),
{
    lemma_parameter_reads_back(bytes, o, p, version);
    assert((k + 1 - 1) as nat == k);
}

/// Reading an optional named parameter that was written, and taking it in.
pub proof fn lemma_setup_fold_optional(
    bytes: Seq<u8>,
    off: int,
    version: Version,
    k: nat,
    s: SetupParametersView,
    o: int,
    p: Option<PairView>,
    t: SetupParametersView,
)
    requires
        parse_setup_fold(bytes, off, version, k) == Ok::<(SetupParametersView, int), Fault>(
            (s, o),
        ),
        optional_encodable(p, version),
        holds_at(bytes, o, optional_bytes(p, version)),
        match p {
            Some(q) => absorb(s, parameter_as_read(q, version), version) == Ok::<
                SetupParametersView,
                Fault,
            >(t),
            None => t == s,
        },
    ensures
        parse_setup_fold(
            bytes,
            off,
            version,
            k + if p is Some {
                1nat
            } else {
                0nat
            },
        ) == Ok::<(SetupParametersView, int), Fault>((t, o + optional_bytes(p, version).len())),
{
    if p is Some {
        lemma_setup_fold_step(bytes, off, version, k, s, o, p->Some_0);
    }
}

/// Reading the other parameters that were written: each stays among the
/// other parameters.
pub proof fn lemma_setup_fold_extras(
    bytes: Seq<u8>,
    off: int,
    version: Version,
    k: nat,
    s: SetupParametersView,
    o: int,
    es: Seq<PairView>,
)
    requires
        parse_setup_fold(bytes, off, version, k) == Ok::<(SetupParametersView, int), Fault>(
            (s, o),
        ),
        forall|i: int|
            0 <= i < es.len() ==> parameter_canonical(#[trigger] es[i], version)
                && setup_extra_plain(es[i], version),
        holds_at(bytes, o, repeat_bytes(item_ser::<Parameter>(version), es)),
    ensures
        parse_setup_fold(bytes, off, version, k + es.len()) == Ok::<
            (SetupParametersView, int),
            Fault,
        >(
            (
                SetupParametersView { extra_parameters: s.extra_parameters + es, ..s },
                o + repeat_bytes(item_ser::<Parameter>(version), es).len(),
            ),
        ),
    decreases es.len(),
{
    let ser = item_ser::<Parameter>(version);
    if es.len() == 0 {
        assert(s.extra_parameters + es =~= s.extra_parameters);
    } else {
        let init = es.drop_last();
        let last = es.last();
        lemma_holds_at_split(bytes, o, repeat_bytes(ser, init), ser(last));
        lemma_setup_fold_extras(bytes, off, version, k, s, o, init);
        let mid = SetupParametersView { extra_parameters: s.extra_parameters + init, ..s };
        let o1 = o + repeat_bytes(ser, init).len();
        assert(ser(last) == parameter_bytes(last, version));
        assert(parameter_as_read(last, version) == last);
        lemma_setup_fold_step(bytes, off, version, k + init.len(), mid, o1, last);
        assert((s.extra_parameters + init).push(last) =~= s.extra_parameters + es);
        assert(k + init.len() + 1 == k + es.len());
    }
}

/// Taking in the parameter that carries the largest request id sets that
/// field.
pub proof fn lemma_absorb_max_request_id(s: SetupParametersView, m: RequestId, version: Version)
    requires
        version_known(version),
        parameter_encodable(max_request_id_parameter(m), version),
    ensures
        absorb(s, parameter_as_read(max_request_id_parameter(m), version), version) == Ok::<
            SetupParametersView,
            Fault,
        >(SetupParametersView { max_request_id: Some(m), ..s }),
{
    if version_until_10(version) {
        assert(seq![m as u8][0] == m as u8);
    }
}

/// Taking in the parameter that carries the role sets that field, on draft
/// 07.
pub proof fn lemma_absorb_role(s: SetupParametersView, r: Role)
    ensures
        absorb(
            s,
            parameter_as_read(role_parameter(r), MOQ_VERSION_DRAFT_07),
            MOQ_VERSION_DRAFT_07,
        ) == Ok::<SetupParametersView, Fault>(SetupParametersView { role: Some(r), ..s }),
{
    let id = role_id(r);
    let raw = seq![id as u8];
    assert(varint_bytes(id) =~= raw) by {
        reveal_with_fuel(crate::wire::varint::be_bytes, 2);
    }
    crate::wire::varint::lemma_holds_at_self(raw, Seq::<u8>::empty());
    assert(raw + Seq::<u8>::empty() =~= raw);
    lemma_parse_varint_roundtrip(raw, 0, id);
}

/// The named fields of setup parameters, set and nothing else.
pub open spec fn setup_named_only(s: SetupParametersView) -> SetupParametersView {
    SetupParametersView { extra_parameters: Seq::empty(), ..s }
}

/// The number of named fields that are set.
pub open spec fn setup_named_count(s: SetupParametersView) -> nat {
    (if s.path is Some {
        1nat
    } else {
        0nat
    }) + (if s.max_request_id is Some {
        1nat
    } else {
        0nat
    }) + (if s.role is Some {
        1nat
    } else {
        0nat
    })
}

/// The named parameters that were written read back into their fields.
pub proof fn lemma_setup_named_roundtrip(
    bytes: Seq<u8>,
    off: int,
    s: SetupParametersView,
    version: Version,
)
    requires
        version_known(version),
        setup_parameters_canonical(s, version),
        holds_at(
            bytes,
            off,
            optional_bytes(setup_path(s), version) + optional_bytes(
                setup_max_request_id(s),
                version,
            ) + optional_bytes(setup_role(s), version),
        ),
    ensures
        parse_setup_fold(bytes, off, version, setup_named_count(s)) == Ok::<
            (SetupParametersView, int),
            Fault,
        >(
            (
                setup_named_only(s),
                off + optional_bytes(setup_path(s), version).len() + optional_bytes(
                    setup_max_request_id(s),
                    version,
                ).len() + optional_bytes(setup_role(s), version).len(),
            ),
        ),
{
    let s1 = optional_bytes(setup_path(s), version);
    let s2 = optional_bytes(setup_max_request_id(s), version);
    let s3 = optional_bytes(setup_role(s), version);
    lemma_holds_at_split(bytes, off, s1 + s2, s3);
    lemma_holds_at_split(bytes, off, s1, s2);

    let e = setup_empty();
    let t1 = SetupParametersView { path: s.path, ..e };
    lemma_setup_fold_optional(bytes, off, version, 0, e, off, setup_path(s), t1);
    let k1: nat = if s.path is Some {
        1
    } else {
        0
    };
    let o1 = off + s1.len();

    let t2 = SetupParametersView { max_request_id: s.max_request_id, ..t1 };
    if s.max_request_id is Some {
        lemma_absorb_max_request_id(t1, s.max_request_id->Some_0, version);
    }
    lemma_setup_fold_optional(bytes, off, version, k1, t1, o1, setup_max_request_id(s), t2);
    let k2: nat = k1 + if s.max_request_id is Some {
        1nat
    } else {
        0nat
    };
    let o2 = o1 + s2.len();

    let t3 = SetupParametersView { role: s.role, ..t2 };
    if s.role is Some {
        lemma_absorb_role(t2, s.role->Some_0);
    }
    lemma_setup_fold_optional(bytes, off, version, k2, t2, o2, setup_role(s), t3);
    assert(t3 == setup_named_only(s));
}

/// Setup parameters that reading can yield, once written, read back as they
/// were.
pub proof fn lemma_setup_parameters_roundtrip(
    bytes: Seq<u8>,
    off: int,
    s: SetupParametersView,
    version: Version,
)
    requires
        version_known(version),
        setup_parameters_canonical(s, version),
        holds_at(bytes, off, setup_parameters_bytes(s, version)),
    ensures
        parse_setup_parameters(bytes, off, version) == Ok::<(SetupParametersView, int), Fault>(
            (s, off + setup_parameters_bytes(s, version).len()),
        ),
{
    let s0 = varint_bytes(setup_count(s) as u64);
    let s1 = optional_bytes(setup_path(s), version);
    let s2 = optional_bytes(setup_max_request_id(s), version);
    let s3 = optional_bytes(setup_role(s), version);
    let s4 = repeat_bytes(item_ser::<Parameter>(version), s.extra_parameters);
    assert(setup_parameters_bytes(s, version) =~= s0 + (s1 + s2 + s3) + s4);
    lemma_holds_at_split(bytes, off, s0 + (s1 + s2 + s3), s4);
    lemma_holds_at_split(bytes, off, s0, s1 + s2 + s3);
    lemma_parse_varint_roundtrip(bytes, off, setup_count(s) as u64);
    let o0 = off + s0.len();
    lemma_setup_named_roundtrip(bytes, o0, s, version);
    let o3 = o0 + (s1 + s2 + s3).len();
    lemma_setup_fold_extras(
        bytes,
        o0,
        version,
        setup_named_count(s),
        setup_named_only(s),
        o3,
        s.extra_parameters,
    );
    assert(Seq::<PairView>::empty() + s.extra_parameters =~= s.extra_parameters);
    assert(setup_named_count(s) + s.extra_parameters.len() == setup_count(s));
}

} // verus!
