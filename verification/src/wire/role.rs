use super::error::Error;
use super::error::Fault;
use super::error::Parsed;
use super::error::Result;
use super::octets::reads;
use super::octets::wrote;
use super::octets::Reader;
use super::octets::Writer;
use super::varint::parse_varint;
use super::varint::varint_bytes;
use super::Version;
use super::MOQ_VERSION_DRAFT_07;
use vstd::prelude::*;

verus! {

/// What an endpoint does in a session. Only draft 07 has it.
#[derive(Debug, Clone, Copy, PartialEq, Eq, Structural)]
pub enum Role {
    Publisher,
    Subscriber,
    PubSub,
}

/// The role that a number stands for, where it stands for one.
pub open spec fn role_of_id(v: u64) -> Option<Role> {
    if v == 0x01 {
        Some(Role::Publisher)
    } else if v == 0x02 {
        Some(Role::Subscriber)
    } else if v == 0x03 {
        Some(Role::PubSub)
    } else {
        None
    }
}

/// The number that stands for a role.
pub open spec fn role_id(r: Role) -> u64 {
    match r {
        Role::Publisher => 0x01,
        Role::Subscriber => 0x02,
        Role::PubSub => 0x03,
    }
}

/// Reading a role: a variable-length integer that stands for one.
pub open spec fn parse_role(bytes: Seq<u8>, off: int) -> Parsed<Role> {
    match parse_varint(bytes, off) {
        Err(f) => Err(f),
        Ok((v, o)) => match role_of_id(v) {
            Some(r) => Ok((r, o)),
            None => Err(Fault::Violation),
        },
    }
}

impl Role {
    pub fn from_id(v: u64) -> (r: Result<Self>)
        ensures
            match role_of_id(v) {
                Some(role) => r == Ok::<Role, Error>(role),
                None => r is Err && r->Err_0.fault() == Fault::Violation,
            },
    {
        if v == 0x01 {
            Ok(Self::Publisher)
        } else if v == 0x02 {
            Ok(Self::Subscriber)
        } else if v == 0x03 {
            Ok(Self::PubSub)
        } else {
            Err(Error::violation("unexpected role"))
        }
    }

    pub fn to_id(&self) -> (r: u64)
        ensures
            r == role_id(*self),
            role_of_id(r) == Some(*self),
    {
        match self {
            Role::Publisher => 0x01,
            Role::Subscriber => 0x02,
            Role::PubSub => 0x03,
        }
    }

    pub fn from_bytes(b: &mut Reader, version: Version) -> (r: Result<Self>)
        requires
            version == MOQ_VERSION_DRAFT_07,
        ensures
            reads(*old(b), *final(b), r, parse_role(old(b).bytes(), old(b).pos())),
    {
        let v = b.get_varint()?;
        Self::from_id(v)
    }

    pub fn to_bytes(&self, b: &mut Writer, version: Version) -> (r: Result<()>)
        requires
            version == MOQ_VERSION_DRAFT_07,
        ensures
            wrote(*old(b), *final(b), r, varint_bytes(role_id(*self))),
    {
        b.put_varint(self.to_id())
    }
}

} // verus!
