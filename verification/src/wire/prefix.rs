//! Reading from the start of a stream. Bytes arrive piece by piece, so a
//! reader sees a start of what the peer has sent. Each reader of this
//! library decides on the bytes that it has read and on no others: once it
//! has ended without running out of bytes, more bytes behind them change
//! nothing, and it never moves backwards.

use super::bytes::item_parser;
use super::bytes::parse_repeat;
use super::control_message::header::parse_header;
use super::control_message::parse_header_of;
use super::control_message::parse_header_with_payload;
use super::control_message::parse_optional_location;
use super::control_message::parse_optional_u8;
use super::control_message::parse_optional_varint;
use super::control_message::announce::parse_announce;
use super::control_message::announce_ok::parse_announce_ok;
use super::control_message::announce_ok::parse_announce_ok_name;
use super::control_message::client_setup::client_setup_type;
use super::control_message::client_setup::parse_client_setup;
use super::control_message::client_setup::parse_versions;
use super::control_message::client_setup::varint_parser;
use super::control_message::parse_control_message;
use super::control_message::request_blocked::parse_request_blocked;
use super::control_message::server_setup::parse_server_setup;
use super::control_message::server_setup::server_setup_type;
use super::control_message::subscribe::filter_has_end;
use super::control_message::subscribe::filter_has_start;
use super::control_message::subscribe::parse_filter_type;
use super::control_message::subscribe::parse_subscribe;
use super::control_message::subscribe::parse_subscribe_names;
use super::control_message::subscribe::parse_subscribe_terms;
use super::control_message::subscribe_done::parse_subscribe_done;
use super::control_message::subscribe_error::parse_subscribe_error;
use super::control_message::subscribe_ok::parse_group_order;
use super::control_message::subscribe_ok::parse_largest_location;
use super::control_message::subscribe_ok::parse_subscribe_ok;
use super::control_message::unsubscribe_namespace::parse_unsubscribe_namespace;
use super::version_until_10;
use super::version_until_11;
use super::ANNOUNCE_CONTROL_MESSAGE_ID;
use super::ANNOUNCE_OK_CONTROL_MESSAGE_ID;
use super::REQUEST_BLOCKED_CONTROL_MESSAGE_ID;
use super::SUBSCRIBE_CONTROL_MESSAGE_ID;
use super::SUBSCRIBE_DONE_CONTROL_MESSAGE_ID;
use super::SUBSCRIBE_ERROR_CONTROL_MESSAGE_ID;
use super::SUBSCRIBE_OK_CONTROL_MESSAGE_ID;
use super::UNSUBSCRIBE_NAMESPACE_MESSAGE_ID;
use super::control_message::announce::AnnounceView;
use super::control_message::announce_ok::AnnounceOkView;
use super::control_message::client_setup::ClientSetupView;
use super::control_message::request_blocked::RequestBlockedMessage;
use super::control_message::server_setup::ServerSetupView;
use super::control_message::subscribe::SubscribeView;
use super::control_message::subscribe_done::SubscribeDoneView;
use super::control_message::subscribe_error::SubscribeErrorView;
use super::control_message::subscribe_ok::SubscribeOkView;
use super::control_message::unsubscribe_namespace::UnsubscribeNamespaceMessage;
use super::control_message::wrapped;
use super::control_message::ControlMessageView;
use super::CLIENT_SETUP_CONTROL_MESSAGE_ID;
use super::CLIENT_SETUP_CONTROL_MESSAGE_ID_VERSION_UNTIL_10;
use super::SERVER_SETUP_CONTROL_MESSAGE_ID;
use super::SERVER_SETUP_CONTROL_MESSAGE_ID_VERSION_UNTIL_10;
use super::subgroup::extensions_present;
use super::object::parse_extension_headers;
use super::object::parse_object_header;
use super::object::parse_pairs_until;
use super::subgroup::parse_subgroup_header;
use super::subgroup::parse_subgroup_type;
use super::subgroup::subgroup_id_written;
use super::SubgroupType;
use super::MOQ_VERSION_DRAFT_07;
use super::error::Fault;
use super::error::Parsed;
use super::key_value_pair::parse_pair;
use super::location::parse_location;
use super::parameter::parse_parameter;
use super::parameter::Parameter;
use super::parameters::parse_parameters;
use super::reason_phrase::parse_reason_phrase;
use super::setup_parameters::parse_setup_fold;
use super::setup_parameters::parse_setup_parameters;
use super::tuple::field_parser;
use super::tuple::parse_tuple;
use super::varint::begins;
use super::varint::lemma_parse_lp_bytes_prefix;
use super::varint::lemma_parse_varint_bounds;
use super::varint::lemma_parse_varint_prefix;
use super::varint::lemma_take_begins;
use super::varint::parse_lp_bytes;
use super::varint::parse_u16;
use super::varint::parse_u8;
use super::varint::parse_varint;
use super::Version;
use vstd::prelude::*;

verus! {

/// The read did not run out of bytes: it has a value or has found a fault
/// in what it read.
pub open spec fn decided<T>(p: Parsed<T>) -> bool {
    !(p matches Err(Fault::TooShort))
}

/// What a read from `off` on a start of some bytes says of the same read
/// on all of them: where `short` is decided, `long` is the same; and a read
/// that has a value has not moved backwards.
pub open spec fn carries<T>(short: Parsed<T>, long: Parsed<T>, off: int) -> bool {
    &&& decided(short) ==> long == short
    &&& short matches Ok((_, o)) ==> off <= o
}

/// The reader `item` carries from `a` to `b` wherever it starts.
pub open spec fn item_carries<T>(
    item: spec_fn(Seq<u8>, int) -> Parsed<T>,
    a: Seq<u8>,
    b: Seq<u8>,
) -> bool {
    forall|o: int| carries(#[trigger] item(a, o), item(b, o), o)
}

pub proof fn lemma_varint_carries(a: Seq<u8>, b: Seq<u8>, off: int)
    requires
        begins(b, a),
    ensures
        carries(parse_varint(a, off), parse_varint(b, off), off),
        parse_varint(a, off) matches Ok((_, o)) ==> off < o,
{
    if parse_varint(a, off) is Ok {
        lemma_parse_varint_prefix(a, b, off);
        lemma_parse_varint_bounds(a, off);
    }
}

pub proof fn lemma_u8_carries(a: Seq<u8>, b: Seq<u8>, off: int)
    requires
        begins(b, a),
    ensures
        carries(parse_u8(a, off), parse_u8(b, off), off),
{
}

pub proof fn lemma_u16_carries(a: Seq<u8>, b: Seq<u8>, off: int)
    requires
        begins(b, a),
    ensures
        carries(parse_u16(a, off), parse_u16(b, off), off),
{
}

pub proof fn lemma_lp_bytes_carries(a: Seq<u8>, b: Seq<u8>, off: int)
    requires
        begins(b, a),
    ensures
        carries(parse_lp_bytes(a, off), parse_lp_bytes(b, off), off),
{
    lemma_varint_carries(a, b, off);
    if parse_lp_bytes(a, off) is Ok {
        lemma_parse_lp_bytes_prefix(a, b, off);
    }
}

pub proof fn lemma_optional_varint_carries(a: Seq<u8>, b: Seq<u8>, off: int, present: bool)
    requires
        begins(b, a),
    ensures
        carries(
            parse_optional_varint(a, off, present),
            parse_optional_varint(b, off, present),
            off,
        ),
{
    lemma_varint_carries(a, b, off);
}

pub proof fn lemma_optional_u8_carries(a: Seq<u8>, b: Seq<u8>, off: int, present: bool)
    requires
        begins(b, a),
    ensures
        carries(parse_optional_u8(a, off, present), parse_optional_u8(b, off, present), off),
{
}

pub proof fn lemma_location_carries(a: Seq<u8>, b: Seq<u8>, off: int)
    requires
        begins(b, a),
    ensures
        carries(parse_location(a, off), parse_location(b, off), off),
{
    lemma_varint_carries(a, b, off);
    let o1 = parse_varint(a, off)->Ok_0.1;
    lemma_varint_carries(a, b, o1);
}

pub proof fn lemma_optional_location_carries(a: Seq<u8>, b: Seq<u8>, off: int, present: bool)
    requires
        begins(b, a),
    ensures
        carries(
            parse_optional_location(a, off, present),
            parse_optional_location(b, off, present),
            off,
        ),
{
    lemma_location_carries(a, b, off);
}

pub proof fn lemma_reason_phrase_carries(a: Seq<u8>, b: Seq<u8>, off: int)
    requires
        begins(b, a),
    ensures
        carries(parse_reason_phrase(a, off), parse_reason_phrase(b, off), off),
{
    lemma_lp_bytes_carries(a, b, off);
}

pub proof fn lemma_pair_carries(a: Seq<u8>, b: Seq<u8>, off: int)
    requires
        begins(b, a),
    ensures
        carries(parse_pair(a, off), parse_pair(b, off), off),
{
    lemma_varint_carries(a, b, off);
    let o1 = parse_varint(a, off)->Ok_0.1;
    lemma_varint_carries(a, b, o1);
    lemma_lp_bytes_carries(a, b, o1);
}

pub proof fn lemma_parameter_carries(a: Seq<u8>, b: Seq<u8>, off: int, version: Version)
    requires
        begins(b, a),
    ensures
        carries(parse_parameter(a, off, version), parse_parameter(b, off, version), off),
{
    lemma_pair_carries(a, b, off);
    lemma_varint_carries(a, b, off);
    let o1 = parse_varint(a, off)->Ok_0.1;
    lemma_lp_bytes_carries(a, b, o1);
}

/// Items that are read one after the other carry where one item does.
pub proof fn lemma_repeat_carries<T>(
    item: spec_fn(Seq<u8>, int) -> Parsed<T>,
    a: Seq<u8>,
    b: Seq<u8>,
    off: int,
    n: nat,
)
    requires
        item_carries(item, a, b),
    ensures
        carries(parse_repeat(item, a, off, n), parse_repeat(item, b, off, n), off),
    decreases n,
{
    if n > 0 {
        lemma_repeat_carries(item, a, b, off, (n - 1) as nat);
        let o = parse_repeat(item, a, off, (n - 1) as nat)->Ok_0.1;
        assert(carries(item(a, o), item(b, o), o));
    }
}

pub proof fn lemma_tuple_carries(a: Seq<u8>, b: Seq<u8>, off: int)
    requires
        begins(b, a),
    ensures
        carries(parse_tuple(a, off), parse_tuple(b, off), off),
{
    lemma_varint_carries(a, b, off);
    assert forall|o: int| carries(#[trigger] field_parser()(a, o), field_parser()(b, o), o) by {
        lemma_lp_bytes_carries(a, b, o);
    }
    if parse_varint(a, off) is Ok {
        let (n, o) = parse_varint(a, off)->Ok_0;
        lemma_repeat_carries(field_parser(), a, b, o, n as nat);
    }
}

pub proof fn lemma_parameters_carries(a: Seq<u8>, b: Seq<u8>, off: int, version: Version)
    requires
        begins(b, a),
    ensures
        carries(parse_parameters(a, off, version), parse_parameters(b, off, version), off),
{
    lemma_varint_carries(a, b, off);
    let item = item_parser::<Parameter>(version);
    assert forall|o: int| carries(#[trigger] item(a, o), item(b, o), o) by {
        lemma_parameter_carries(a, b, o, version);
    }
    if parse_varint(a, off) is Ok {
        let (n, o) = parse_varint(a, off)->Ok_0;
        lemma_repeat_carries(item, a, b, o, n as nat);
    }
}

pub proof fn lemma_setup_fold_carries(a: Seq<u8>, b: Seq<u8>, off: int, version: Version, n: nat)
    requires
        begins(b, a),
    ensures
        carries(
            parse_setup_fold(a, off, version, n),
            parse_setup_fold(b, off, version, n),
            off,
        ),
    decreases n,
{
    if n > 0 {
        lemma_setup_fold_carries(a, b, off, version, (n - 1) as nat);
        let o = parse_setup_fold(a, off, version, (n - 1) as nat)->Ok_0.1;
        lemma_parameter_carries(a, b, o, version);
    }
}

pub proof fn lemma_setup_parameters_carries(a: Seq<u8>, b: Seq<u8>, off: int, version: Version)
    requires
        begins(b, a),
    ensures
        carries(
            parse_setup_parameters(a, off, version),
            parse_setup_parameters(b, off, version),
            off,
        ),
{
    lemma_varint_carries(a, b, off);
    if parse_varint(a, off) is Ok {
        let (n, o) = parse_varint(a, off)->Ok_0;
        lemma_setup_fold_carries(a, b, o, version, n as nat);
    }
}

pub proof fn lemma_header_carries(a: Seq<u8>, b: Seq<u8>, off: int, version: Version)
    requires
        begins(b, a),
    ensures
        carries(parse_header(a, off, version), parse_header(b, off, version), off),
        parse_header(a, off, version) matches Ok((_, o)) ==> off < o,
{
    lemma_varint_carries(a, b, off);
    let o1 = parse_varint(a, off)->Ok_0.1;
    lemma_varint_carries(a, b, o1);
    lemma_u16_carries(a, b, o1);
}

pub proof fn lemma_header_of_carries(a: Seq<u8>, b: Seq<u8>, off: int, version: Version, ty: u64)
    requires
        begins(b, a),
    ensures
        carries(parse_header_of(a, off, version, ty), parse_header_of(b, off, version, ty), off),
        parse_header_of(a, off, version, ty) matches Ok((_, o)) ==> off < o,
{
    lemma_header_carries(a, b, off, version);
}

pub proof fn lemma_header_with_payload_carries(
    a: Seq<u8>,
    b: Seq<u8>,
    off: int,
    version: Version,
    ty: u64,
)
    requires
        begins(b, a),
    ensures
        carries(
            parse_header_with_payload(a, off, version, ty),
            parse_header_with_payload(b, off, version, ty),
            off,
        ),
        parse_header_with_payload(a, off, version, ty) matches Ok((_, o)) ==> off < o,
{
    lemma_header_of_carries(a, b, off, version, ty);
}

pub proof fn lemma_announce_carries(a: Seq<u8>, b: Seq<u8>, off: int, version: Version)
    requires
        begins(b, a),
    ensures
        carries(parse_announce(a, off, version), parse_announce(b, off, version), off),
        parse_announce(a, off, version) matches Ok((_, o)) ==> off < o,
{
    lemma_header_of_carries(a, b, off, version, ANNOUNCE_CONTROL_MESSAGE_ID);
    let o0 = parse_header_of(a, off, version, ANNOUNCE_CONTROL_MESSAGE_ID)->Ok_0.1;
    lemma_optional_varint_carries(a, b, o0, !version_until_10(version));
    let o1 = parse_optional_varint(a, o0, !version_until_10(version))->Ok_0.1;
    lemma_tuple_carries(a, b, o1);
    let o2 = parse_tuple(a, o1)->Ok_0.1;
    lemma_parameters_carries(a, b, o2, version);
}

pub proof fn lemma_announce_ok_carries(a: Seq<u8>, b: Seq<u8>, off: int, version: Version)
    requires
        begins(b, a),
    ensures
        carries(parse_announce_ok(a, off, version), parse_announce_ok(b, off, version), off),
        parse_announce_ok(a, off, version) matches Ok((_, o)) ==> off < o,
{
    lemma_header_with_payload_carries(a, b, off, version, ANNOUNCE_OK_CONTROL_MESSAGE_ID);
    let o0 = parse_header_with_payload(a, off, version, ANNOUNCE_OK_CONTROL_MESSAGE_ID)->Ok_0.1;
    lemma_tuple_carries(a, b, o0);
    lemma_varint_carries(a, b, o0);
    assert(carries(
        parse_announce_ok_name(a, o0, version),
        parse_announce_ok_name(b, o0, version),
        o0,
    ));
}

pub proof fn lemma_versions_carries(a: Seq<u8>, b: Seq<u8>, off: int)
    requires
        begins(b, a),
    ensures
        carries(parse_versions(a, off), parse_versions(b, off), off),
{
    lemma_varint_carries(a, b, off);
    assert forall|o: int| carries(#[trigger] varint_parser()(a, o), varint_parser()(b, o), o) by {
        lemma_varint_carries(a, b, o);
    }
    if parse_varint(a, off) is Ok {
        let (n, o) = parse_varint(a, off)->Ok_0;
        lemma_repeat_carries(varint_parser(), a, b, o, n as nat);
    }
}

pub proof fn lemma_client_setup_carries(a: Seq<u8>, b: Seq<u8>, off: int, version: Version)
    requires
        begins(b, a),
    ensures
        carries(parse_client_setup(a, off, version), parse_client_setup(b, off, version), off),
        parse_client_setup(a, off, version) matches Ok((_, o)) ==> off < o,
{
    lemma_header_of_carries(a, b, off, version, client_setup_type(version));
    let o0 = parse_header_of(a, off, version, client_setup_type(version))->Ok_0.1;
    lemma_versions_carries(a, b, o0);
    let o1 = parse_versions(a, o0)->Ok_0.1;
    lemma_setup_parameters_carries(a, b, o1, version);
}

pub proof fn lemma_server_setup_carries(a: Seq<u8>, b: Seq<u8>, off: int, version: Version)
    requires
        begins(b, a),
    ensures
        carries(parse_server_setup(a, off, version), parse_server_setup(b, off, version), off),
        parse_server_setup(a, off, version) matches Ok((_, o)) ==> off < o,
{
    lemma_header_with_payload_carries(a, b, off, version, server_setup_type(version));
    let o0 = parse_header_with_payload(a, off, version, server_setup_type(version))->Ok_0.1;
    lemma_varint_carries(a, b, o0);
    let o1 = parse_varint(a, o0)->Ok_0.1;
    lemma_setup_parameters_carries(a, b, o1, version);
}

pub proof fn lemma_request_blocked_carries(a: Seq<u8>, b: Seq<u8>, off: int, version: Version)
    requires
        begins(b, a),
    ensures
        carries(
            parse_request_blocked(a, off, version),
            parse_request_blocked(b, off, version),
            off,
        ),
        parse_request_blocked(a, off, version) matches Ok((_, o)) ==> off < o,
{
    lemma_header_with_payload_carries(a, b, off, version, REQUEST_BLOCKED_CONTROL_MESSAGE_ID);
    let o0 = parse_header_with_payload(
        a,
        off,
        version,
        REQUEST_BLOCKED_CONTROL_MESSAGE_ID,
    )->Ok_0.1;
    lemma_varint_carries(a, b, o0);
}

pub proof fn lemma_unsubscribe_namespace_carries(
    a: Seq<u8>,
    b: Seq<u8>,
    off: int,
    version: Version,
)
    requires
        begins(b, a),
    ensures
        carries(
            parse_unsubscribe_namespace(a, off, version),
            parse_unsubscribe_namespace(b, off, version),
            off,
        ),
        parse_unsubscribe_namespace(a, off, version) matches Ok((_, o)) ==> off < o,
{
    lemma_header_of_carries(a, b, off, version, UNSUBSCRIBE_NAMESPACE_MESSAGE_ID);
}

pub proof fn lemma_subscribe_done_carries(a: Seq<u8>, b: Seq<u8>, off: int, version: Version)
    requires
        begins(b, a),
    ensures
        carries(
            parse_subscribe_done(a, off, version),
            parse_subscribe_done(b, off, version),
            off,
        ),
        parse_subscribe_done(a, off, version) matches Ok((_, o)) ==> off < o,
{
    lemma_header_of_carries(a, b, off, version, SUBSCRIBE_DONE_CONTROL_MESSAGE_ID);
    let o0 = parse_header_of(a, off, version, SUBSCRIBE_DONE_CONTROL_MESSAGE_ID)->Ok_0.1;
    lemma_varint_carries(a, b, o0);
    let o1 = parse_varint(a, o0)->Ok_0.1;
    lemma_varint_carries(a, b, o1);
    let o2 = parse_varint(a, o1)->Ok_0.1;
    lemma_varint_carries(a, b, o2);
    let o3 = parse_varint(a, o2)->Ok_0.1;
    lemma_reason_phrase_carries(a, b, o3);
}

pub proof fn lemma_subscribe_error_carries(a: Seq<u8>, b: Seq<u8>, off: int, version: Version)
    requires
        begins(b, a),
    ensures
        carries(
            parse_subscribe_error(a, off, version),
            parse_subscribe_error(b, off, version),
            off,
        ),
        parse_subscribe_error(a, off, version) matches Ok((_, o)) ==> off < o,
{
    lemma_header_of_carries(a, b, off, version, SUBSCRIBE_ERROR_CONTROL_MESSAGE_ID);
    let o0 = parse_header_of(a, off, version, SUBSCRIBE_ERROR_CONTROL_MESSAGE_ID)->Ok_0.1;
    lemma_varint_carries(a, b, o0);
    let o1 = parse_varint(a, o0)->Ok_0.1;
    lemma_varint_carries(a, b, o1);
    let o2 = parse_varint(a, o1)->Ok_0.1;
    lemma_reason_phrase_carries(a, b, o2);
    let o3 = parse_reason_phrase(a, o2)->Ok_0.1;
    lemma_optional_varint_carries(a, b, o3, version_until_11(version));
}

pub proof fn lemma_subscribe_names_carries(a: Seq<u8>, b: Seq<u8>, off: int, version: Version)
    requires
        begins(b, a),
    ensures
        carries(
            parse_subscribe_names(a, off, version),
            parse_subscribe_names(b, off, version),
            off,
        ),
{
    lemma_varint_carries(a, b, off);
    let o1 = parse_varint(a, off)->Ok_0.1;
    lemma_optional_varint_carries(a, b, o1, version_until_11(version));
    let o2 = parse_optional_varint(a, o1, version_until_11(version))->Ok_0.1;
    lemma_tuple_carries(a, b, o2);
    let o3 = parse_tuple(a, o2)->Ok_0.1;
    lemma_lp_bytes_carries(a, b, o3);
}

pub proof fn lemma_filter_type_carries(a: Seq<u8>, b: Seq<u8>, off: int)
    requires
        begins(b, a),
    ensures
        carries(parse_filter_type(a, off), parse_filter_type(b, off), off),
{
    lemma_varint_carries(a, b, off);
}

pub proof fn lemma_subscribe_terms_carries(a: Seq<u8>, b: Seq<u8>, off: int, version: Version)
    requires
        begins(b, a),
    ensures
        carries(
            parse_subscribe_terms(a, off, version),
            parse_subscribe_terms(b, off, version),
            off,
        ),
{
    lemma_u8_carries(a, b, off);
    let o1 = parse_u8(a, off)->Ok_0.1;
    lemma_u8_carries(a, b, o1);
    let o2 = parse_u8(a, o1)->Ok_0.1;
    lemma_optional_u8_carries(a, b, o2, !version_until_10(version));
    let o3 = parse_optional_u8(a, o2, !version_until_10(version))->Ok_0.1;
    lemma_filter_type_carries(a, b, o3);
    let (filter, o4) = parse_filter_type(a, o3)->Ok_0;
    lemma_optional_location_carries(a, b, o4, filter_has_start(filter));
    let o5 = parse_optional_location(a, o4, filter_has_start(filter))->Ok_0.1;
    lemma_optional_varint_carries(a, b, o5, filter_has_end(filter));
}

pub proof fn lemma_subscribe_carries(a: Seq<u8>, b: Seq<u8>, off: int, version: Version)
    requires
        begins(b, a),
    ensures
        carries(parse_subscribe(a, off, version), parse_subscribe(b, off, version), off),
        parse_subscribe(a, off, version) matches Ok((_, o)) ==> off < o,
{
    lemma_header_of_carries(a, b, off, version, SUBSCRIBE_CONTROL_MESSAGE_ID);
    let o0 = parse_header_of(a, off, version, SUBSCRIBE_CONTROL_MESSAGE_ID)->Ok_0.1;
    lemma_subscribe_names_carries(a, b, o0, version);
    let o1 = parse_subscribe_names(a, o0, version)->Ok_0.1;
    lemma_subscribe_terms_carries(a, b, o1, version);
    let o2 = parse_subscribe_terms(a, o1, version)->Ok_0.1;
    lemma_parameters_carries(a, b, o2, version);
}

pub proof fn lemma_group_order_carries(a: Seq<u8>, b: Seq<u8>, off: int)
    requires
        begins(b, a),
    ensures
        carries(parse_group_order(a, off), parse_group_order(b, off), off),
{
}

pub proof fn lemma_largest_location_carries(a: Seq<u8>, b: Seq<u8>, off: int)
    requires
        begins(b, a),
    ensures
        carries(parse_largest_location(a, off), parse_largest_location(b, off), off),
{
    let (exists, o) = parse_u8(a, off)->Ok_0;
    lemma_optional_location_carries(a, b, o, exists == 1);
}

pub proof fn lemma_subscribe_ok_carries(a: Seq<u8>, b: Seq<u8>, off: int, version: Version)
    requires
        begins(b, a),
    ensures
        carries(parse_subscribe_ok(a, off, version), parse_subscribe_ok(b, off, version), off),
        parse_subscribe_ok(a, off, version) matches Ok((_, o)) ==> off < o,
{
    lemma_header_with_payload_carries(a, b, off, version, SUBSCRIBE_OK_CONTROL_MESSAGE_ID);
    let o0 = parse_header_with_payload(a, off, version, SUBSCRIBE_OK_CONTROL_MESSAGE_ID)->Ok_0.1;
    lemma_varint_carries(a, b, o0);
    let o1 = parse_varint(a, o0)->Ok_0.1;
    lemma_optional_varint_carries(a, b, o1, !version_until_11(version));
    let o2 = parse_optional_varint(a, o1, !version_until_11(version))->Ok_0.1;
    lemma_varint_carries(a, b, o2);
    let o3 = parse_varint(a, o2)->Ok_0.1;
    lemma_group_order_carries(a, b, o3);
    let o4 = parse_group_order(a, o3)->Ok_0.1;
    lemma_largest_location_carries(a, b, o4);
    let o5 = parse_largest_location(a, o4)->Ok_0.1;
    lemma_parameters_carries(a, b, o5, version);
}

/// Wrapping the value of a read changes nothing of how it carries.
pub proof fn lemma_wrapped_carries<T, U>(
    short: Parsed<T>,
    long: Parsed<T>,
    wrap: spec_fn(T) -> U,
    off: int,
)
    requires
        carries(short, long, off),
        short matches Ok((_, o)) ==> off < o,
    ensures
        carries(wrapped(short, wrap), wrapped(long, wrap), off),
        wrapped(short, wrap) matches Ok((_, o)) ==> off < o,
{
}

/// A control message that is read from a start of some bytes without
/// running out of them is read the same from all of them, as is a fault
/// that is found in it; and a control message takes at least one byte.
#[verifier::rlimit(50)]
pub proof fn lemma_control_message_carries(a: Seq<u8>, b: Seq<u8>, off: int, version: Version)
    requires
        begins(b, a),
    ensures
        carries(
            parse_control_message(a, off, version),
            parse_control_message(b, off, version),
            off,
        ),
        parse_control_message(a, off, version) matches Ok((_, o)) ==> off < o,
{
    reveal(parse_control_message);
    lemma_varint_carries(a, b, off);
    if parse_varint(a, off) is Ok {
        let ty = parse_varint(a, off)->Ok_0.0;
        assert(parse_varint(b, off)->Ok_0.0 == ty);
        if ty == SERVER_SETUP_CONTROL_MESSAGE_ID_VERSION_UNTIL_10 || ty
            == SERVER_SETUP_CONTROL_MESSAGE_ID {
            lemma_server_setup_carries(a, b, off, version);
            lemma_wrapped_carries(
                parse_server_setup(a, off, version),
                parse_server_setup(b, off, version),
                |m: ServerSetupView| ControlMessageView::ServerSetup(m),
                off,
            );
        } else if ty == SUBSCRIBE_OK_CONTROL_MESSAGE_ID {
            lemma_subscribe_ok_carries(a, b, off, version);
            lemma_wrapped_carries(
                parse_subscribe_ok(a, off, version),
                parse_subscribe_ok(b, off, version),
                |m: SubscribeOkView| ControlMessageView::SubscribeOk(m),
                off,
            );
        } else if ty == REQUEST_BLOCKED_CONTROL_MESSAGE_ID {
            lemma_request_blocked_carries(a, b, off, version);
            lemma_wrapped_carries(
                parse_request_blocked(a, off, version),
                parse_request_blocked(b, off, version),
                |m: RequestBlockedMessage| ControlMessageView::RequestBlocked(m),
                off,
            );
        } else if ty == SUBSCRIBE_DONE_CONTROL_MESSAGE_ID {
            lemma_subscribe_done_carries(a, b, off, version);
            lemma_wrapped_carries(
                parse_subscribe_done(a, off, version),
                parse_subscribe_done(b, off, version),
                |m: SubscribeDoneView| ControlMessageView::SubscribeDone(m),
                off,
            );
        } else if ty == SUBSCRIBE_ERROR_CONTROL_MESSAGE_ID {
            lemma_subscribe_error_carries(a, b, off, version);
            lemma_wrapped_carries(
                parse_subscribe_error(a, off, version),
                parse_subscribe_error(b, off, version),
                |m: SubscribeErrorView| ControlMessageView::SubscribeError(m),
                off,
            );
        } else if ty == ANNOUNCE_CONTROL_MESSAGE_ID {
            lemma_announce_carries(a, b, off, version);
            lemma_wrapped_carries(
                parse_announce(a, off, version),
                parse_announce(b, off, version),
                |m: AnnounceView| ControlMessageView::Announce(m),
                off,
            );
        } else if ty == ANNOUNCE_OK_CONTROL_MESSAGE_ID {
            lemma_announce_ok_carries(a, b, off, version);
            lemma_wrapped_carries(
                parse_announce_ok(a, off, version),
                parse_announce_ok(b, off, version),
                |m: AnnounceOkView| ControlMessageView::AnnounceOk(m),
                off,
            );
        } else if ty == CLIENT_SETUP_CONTROL_MESSAGE_ID_VERSION_UNTIL_10 || ty
            == CLIENT_SETUP_CONTROL_MESSAGE_ID {
            lemma_client_setup_carries(a, b, off, version);
            lemma_wrapped_carries(
                parse_client_setup(a, off, version),
                parse_client_setup(b, off, version),
                |m: ClientSetupView| ControlMessageView::ClientSetup(m),
                off,
            );
        } else if ty == SUBSCRIBE_CONTROL_MESSAGE_ID {
            lemma_subscribe_carries(a, b, off, version);
            lemma_wrapped_carries(
                parse_subscribe(a, off, version),
                parse_subscribe(b, off, version),
                |m: SubscribeView| ControlMessageView::Subscribe(m),
                off,
            );
        } else if ty == UNSUBSCRIBE_NAMESPACE_MESSAGE_ID {
            lemma_unsubscribe_namespace_carries(a, b, off, version);
            lemma_wrapped_carries(
                parse_unsubscribe_namespace(a, off, version),
                parse_unsubscribe_namespace(b, off, version),
                |m: UnsubscribeNamespaceMessage| ControlMessageView::UnsubscribeNamespace(m),
                off,
            );
        }
    }
}

/// A control message that is read from the first `k` bytes without running
/// out of them is read the same from all the bytes.
pub proof fn lemma_control_message_take(bytes: Seq<u8>, k: int, version: Version)
    requires
        0 <= k <= bytes.len(),
    ensures
        carries(
            parse_control_message(bytes.take(k), 0, version),
            parse_control_message(bytes, 0, version),
            0,
        ),
        parse_control_message(bytes.take(k), 0, version) matches Ok((_, o)) ==> 0 < o,
{
    lemma_take_begins(bytes, k);
    lemma_control_message_carries(bytes.take(k), bytes, 0, version);
}

pub proof fn lemma_subgroup_header_carries(a: Seq<u8>, b: Seq<u8>, off: int, version: Version)
    requires
        begins(b, a),
    ensures
        carries(
            parse_subgroup_header(a, off, version),
            parse_subgroup_header(b, off, version),
            off,
        ),
        parse_subgroup_header(a, off, version) matches Ok((_, o)) ==> off < o,
{
    lemma_varint_carries(a, b, off);
    let (ty, o0) = parse_subgroup_type(a, off, version)->Ok_0;
    lemma_optional_varint_carries(a, b, o0, version == MOQ_VERSION_DRAFT_07);
    let o1 = parse_optional_varint(a, o0, version == MOQ_VERSION_DRAFT_07)->Ok_0.1;
    lemma_varint_carries(a, b, o1);
    let o2 = parse_varint(a, o1)->Ok_0.1;
    lemma_varint_carries(a, b, o2);
    let o3 = parse_varint(a, o2)->Ok_0.1;
    lemma_optional_varint_carries(a, b, o3, subgroup_id_written(ty, version));
    let o4 = parse_optional_varint(a, o3, subgroup_id_written(ty, version))->Ok_0.1;
    lemma_u8_carries(a, b, o4);
}

/// The header of a subgroup stream that is read from the first `k` bytes
/// without running out of them is read the same from all the bytes.
pub proof fn lemma_subgroup_header_take(bytes: Seq<u8>, k: int, version: Version)
    requires
        0 <= k <= bytes.len(),
    ensures
        carries(
            parse_subgroup_header(bytes.take(k), 0, version),
            parse_subgroup_header(bytes, 0, version),
            0,
        ),
        parse_subgroup_header(bytes.take(k), 0, version) matches Ok((_, o)) ==> 0 < o,
{
    lemma_take_begins(bytes, k);
    lemma_subgroup_header_carries(bytes.take(k), bytes, 0, version);
}

pub proof fn lemma_pairs_until_carries(a: Seq<u8>, b: Seq<u8>, off: int, end: int)
    requires
        begins(b, a),
    ensures
        carries(parse_pairs_until(a, off, end), parse_pairs_until(b, off, end), off),
    decreases
            (if end > off {
                end - off
            } else {
                0
            }),
{
    if off < end {
        lemma_pair_carries(a, b, off);
        if parse_pair(a, off) is Ok {
            let o = parse_pair(a, off)->Ok_0.1;
            if o > off {
                lemma_pairs_until_carries(a, b, o, end);
            }
        }
    }
}

pub proof fn lemma_extension_headers_carries(a: Seq<u8>, b: Seq<u8>, off: int)
    requires
        begins(b, a),
    ensures
        carries(parse_extension_headers(a, off), parse_extension_headers(b, off), off),
{
    lemma_varint_carries(a, b, off);
    if parse_varint(a, off) is Ok {
        let (len, o) = parse_varint(a, off)->Ok_0;
        lemma_pairs_until_carries(a, b, o, o + len);
    }
}

pub proof fn lemma_object_header_carries(
    a: Seq<u8>,
    b: Seq<u8>,
    off: int,
    subgroup_ty: SubgroupType,
)
    requires
        begins(b, a),
    ensures
        carries(
            parse_object_header(a, off, subgroup_ty),
            parse_object_header(b, off, subgroup_ty),
            off,
        ),
        parse_object_header(a, off, subgroup_ty) matches Ok((_, o)) ==> off < o,
{
    lemma_varint_carries(a, b, off);
    let o1 = parse_varint(a, off)->Ok_0.1;
    lemma_extension_headers_carries(a, b, o1);
    let o2 = if extensions_present(subgroup_ty) {
        parse_extension_headers(a, o1)->Ok_0.1
    } else {
        o1
    };
    lemma_varint_carries(a, b, o2);
    let (payload_len, o3) = parse_varint(a, o2)->Ok_0;
    lemma_optional_varint_carries(a, b, o3, payload_len == 0);
}

/// The header of an object that is read from the first `k` bytes without
/// running out of them is read the same from all the bytes.
pub proof fn lemma_object_header_take(bytes: Seq<u8>, k: int, subgroup_ty: SubgroupType)
    requires
        0 <= k <= bytes.len(),
    ensures
        carries(
            parse_object_header(bytes.take(k), 0, subgroup_ty),
            parse_object_header(bytes, 0, subgroup_ty),
            0,
        ),
        parse_object_header(bytes.take(k), 0, subgroup_ty) matches Ok((_, o)) ==> 0 < o,
{
    lemma_take_begins(bytes, k);
    lemma_object_header_carries(bytes.take(k), bytes, 0, subgroup_ty);
}

/// A variable-length integer takes no more than eight bytes: reading one
/// runs out of bytes only where fewer are left, and moves forward by no
/// more.
pub proof fn lemma_varint_needs_few_bytes(bytes: Seq<u8>, off: int)
    requires
        0 <= off,
    ensures
        parse_varint(bytes, off) is Err ==> bytes.len() < off + 8,
        parse_varint(bytes, off) matches Ok((_, o)) ==> off < o <= off + 8,
{
}

/// The header of a subgroup stream takes no more than 41 bytes: reading
/// it from that many bytes or more never runs out of bytes.
pub proof fn lemma_subgroup_header_needs_few_bytes(bytes: Seq<u8>, version: Version)
    requires
        bytes.len() >= 41,
    ensures
        decided(parse_subgroup_header(bytes, 0, version)),
{
    lemma_varint_needs_few_bytes(bytes, 0);
    if parse_subgroup_type(bytes, 0, version) is Ok {
        let (ty, o0) = parse_subgroup_type(bytes, 0, version)->Ok_0;
        lemma_varint_needs_few_bytes(bytes, o0);
        if parse_optional_varint(bytes, o0, version == MOQ_VERSION_DRAFT_07) is Ok {
            let o1 = parse_optional_varint(bytes, o0, version == MOQ_VERSION_DRAFT_07)->Ok_0.1;
            lemma_varint_needs_few_bytes(bytes, o1);
            if parse_varint(bytes, o1) is Ok {
                let o2 = parse_varint(bytes, o1)->Ok_0.1;
                lemma_varint_needs_few_bytes(bytes, o2);
                if parse_varint(bytes, o2) is Ok {
                    let o3 = parse_varint(bytes, o2)->Ok_0.1;
                    lemma_varint_needs_few_bytes(bytes, o3);
                }
            }
        }
    }
}

} // verus!
