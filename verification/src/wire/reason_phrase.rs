use super::error::Error;
use super::error::Fault;
use super::error::Parsed;
use super::error::Result;
use super::octets::reads_view;
use super::octets::Reader;
use super::varint::parse_lp_bytes;
use vstd::prelude::*;
use vstd::utf8::decode_utf8;
use vstd::utf8::valid_utf8;

verus! {

/// `String::from_utf8`: the string that the bytes encode, where they are
/// valid UTF-8, and an error where they are not.
#[verifier::external_body]
pub(crate) fn string_from_utf8(v: Vec<u8>) -> (r: core::result::Result<
    String,
    std::string::FromUtf8Error,
>)
    ensures
        r is Ok <==> valid_utf8(v@),
        r is Ok ==> r->Ok_0@ == decode_utf8(v@),
{
    String::from_utf8(v)
}

/// The words that come with an error or with the end of a subscription.
#[derive(Debug)]
pub struct ReasonPhrase(pub String);

impl View for ReasonPhrase {
    type V = Seq<char>;

    open spec fn view(&self) -> Seq<char> {
        self.0@
    }
}

/// Reading a reason phrase: a byte string that must be UTF-8.
pub open spec fn parse_reason_phrase(bytes: Seq<u8>, off: int) -> Parsed<Seq<char>> {
    match parse_lp_bytes(bytes, off) {
        Err(f) => Err(f),
        Ok((raw, o)) => if valid_utf8(raw) {
            Ok((decode_utf8(raw), o))
        } else {
            Err(Fault::Utf8)
        },
    }
}

impl ReasonPhrase {
    pub fn from_bytes(b: &mut Reader) -> (r: Result<Self>)
        ensures
            reads_view(*old(b), *final(b), r, parse_reason_phrase(old(b).bytes(), old(b).pos())),
    {
        let raw = b.get_bytes_with_varint_length()?;
        match string_from_utf8(raw) {
            Ok(value) => Ok(Self(value)),
            Err(e) => Err(Error::FromUtf8Error(e)),
        }
    }
}

} // verus!
