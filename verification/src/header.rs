//! Header maps: the `http` crate's `HeaderMap`, seen through the sequence of
//! fields that it yields when iterated, and the typed headers of the `headers`
//! crate that decide how a message is framed.
//!
//! Nothing in this file is proved: each function here makes one call into
//! those crates and states what the call is trusted to do.

use headers::HeaderMapExt;
use vstd::prelude::*;

verus! {

/// `http::HeaderValue`, carried as an opaque value.
#[verifier::external_type_specification]
#[verifier::external_body]
pub struct ExHeaderValue(http::HeaderValue);

/// `http::HeaderMap`, carried as an opaque collection.
#[verifier::external_type_specification]
#[verifier::external_body]
#[verifier::reject_recursive_types(T)]
pub struct ExHeaderMap<T>(http::HeaderMap<T>);

/// What looking for a typed header in a map gives.
#[derive(Debug)]
pub enum Lookup<T> {
    /// The map holds no field of that name.
    Absent,
    /// The map holds fields of that name, and they do not decode.
    Invalid,
    /// The decoded header.
    Found(T),
}

/// The number of fields up to which a header map is known to take one more.
///
/// `http::HeaderMap` panics when it would have to grow past 32768 slots. It
/// grows when three quarters of its slots are used, or, after long probe
/// sequences, when a fifth of them are: with 6000 fields or fewer it never
/// asks for more than 32768.
pub const MAX_FIELDS: usize = 6000;

/// The last second that `httpdate` formats: the end of the year 9998.
pub const LAST_SECOND: u64 = 253402300799;

/// The fields of a header map, each with its name in lower case, in the order
/// in which iterating the map yields them.
pub uninterp spec fn header_fields(map: http::HeaderMap) -> Seq<(Seq<u8>, Seq<u8>)>;

/// What `typed_try_get::<ContentLength>` finds in a map of these fields.
pub uninterp spec fn content_length_in(fields: Seq<(Seq<u8>, Seq<u8>)>) -> Lookup<u64>;

/// What `typed_try_get::<TransferEncoding>` finds in a map of these fields;
/// for a header that decodes, whether its last coding is `chunked`.
pub uninterp spec fn chunked_coding_in(fields: Seq<(Seq<u8>, Seq<u8>)>) -> Lookup<bool>;

/// Whether a map of these fields has a `Connection` header that decodes, and
/// if so whether `token` is among its options.
pub uninterp spec fn connection_option_in(
    fields: Seq<(Seq<u8>, Seq<u8>)>,
    token: Seq<char>,
) -> Option<bool>;

/// The name of the `Content-Length` header as a map holds it:
/// `content-length`.
pub open spec fn content_length_name() -> Seq<u8> {
    seq![99u8, 111, 110, 116, 101, 110, 116, 45, 108, 101, 110, 103, 116, 104]
}

/// The name of the `Transfer-Encoding` header as a map holds it:
/// `transfer-encoding`.
pub open spec fn transfer_encoding_name() -> Seq<u8> {
    seq![116u8, 114, 97, 110, 115, 102, 101, 114, 45, 101, 110, 99, 111, 100, 105, 110, 103]
}

/// The name of the `Connection` header as a map holds it: `connection`.
pub open spec fn connection_name() -> Seq<u8> {
    seq![99u8, 111, 110, 110, 101, 99, 116, 105, 111, 110]
}

/// The value of a `Transfer-Encoding` header that says `chunked`.
pub open spec fn chunked_token() -> Seq<u8> {
    seq![99u8, 104, 117, 110, 107, 101, 100]
}

/// The value of a `Connection` header that says `close`.
pub open spec fn close_token() -> Seq<u8> {
    seq![99u8, 108, 111, 115, 101]
}

/// Whether no field has this name.
pub open spec fn absent(fields: Seq<(Seq<u8>, Seq<u8>)>, name: Seq<u8>) -> bool {
    values_of(fields, name).len() == 0
}

/// The name of the `Expect` header as a map holds it: `expect`.
pub open spec fn expect_name() -> Seq<u8> {
    seq![101u8, 120, 112, 101, 99, 116]
}

/// The one expectation that is known: `100-continue`.
pub open spec fn continue_token() -> Seq<u8> {
    seq![49u8, 48, 48, 45, 99, 111, 110, 116, 105, 110, 117, 101]
}

/// The values of the fields of this name, in their order.
pub open spec fn values_of(fields: Seq<(Seq<u8>, Seq<u8>)>, name: Seq<u8>) -> Seq<Seq<u8>> {
    fields.filter(|field: (Seq<u8>, Seq<u8>)| field.0 == name).map_values(
        |field: (Seq<u8>, Seq<u8>)| field.1,
    )
}

/// Whether a map of these fields has an `Expect` header that decodes, and
/// that it is `100-continue` then: the header decodes where the map holds
/// one field of that name, and its value is `100-continue`.
pub open spec fn expectation_in(fields: Seq<(Seq<u8>, Seq<u8>)>) -> Option<bool> {
    if values_of(fields, expect_name()) == seq![continue_token()] {
        Some(true)
    } else {
        None
    }
}

/// Whether a map of these fields has a `Date` header that decodes.
pub uninterp spec fn date_in(fields: Seq<(Seq<u8>, Seq<u8>)>) -> bool;

/// Whether `http` takes `name` as a header name and `value` as a header
/// value.
pub uninterp spec fn field_accepted(name: Seq<u8>, value: Seq<u8>) -> bool;

/// The fields of a map after `append` of an accepted name and value.
pub uninterp spec fn fields_appended(
    fields: Seq<(Seq<u8>, Seq<u8>)>,
    name: Seq<u8>,
    value: Seq<u8>,
) -> Seq<(Seq<u8>, Seq<u8>)>;

/// The fields of a map after `typed_insert` of `ContentLength(len)`.
pub uninterp spec fn fields_with_content_length(
    fields: Seq<(Seq<u8>, Seq<u8>)>,
    len: u64,
) -> Seq<(Seq<u8>, Seq<u8>)>;

/// The fields of a map after `typed_insert` of `TransferEncoding::chunked()`.
pub uninterp spec fn fields_with_chunked_coding(fields: Seq<(Seq<u8>, Seq<u8>)>) -> Seq<
    (Seq<u8>, Seq<u8>),
>;

/// The fields of a map after `typed_insert` of `Connection::close()`.
pub uninterp spec fn fields_with_connection_close(fields: Seq<(Seq<u8>, Seq<u8>)>) -> Seq<
    (Seq<u8>, Seq<u8>),
>;

/// The fields of a map after `typed_insert` of the `Date` that is `secs`
/// seconds after the epoch.
pub uninterp spec fn fields_with_date(fields: Seq<(Seq<u8>, Seq<u8>)>, secs: u64) -> Seq<
    (Seq<u8>, Seq<u8>),
>;

/// The fields of a map after `remove` of `transfer-encoding`.
pub uninterp spec fn fields_without_transfer_encoding(fields: Seq<(Seq<u8>, Seq<u8>)>) -> Seq<
    (Seq<u8>, Seq<u8>),
>;

/// The fields of a map after `extend` with a map of the fields `more`.
pub uninterp spec fn fields_extended(
    fields: Seq<(Seq<u8>, Seq<u8>)>,
    more: Seq<(Seq<u8>, Seq<u8>)>,
) -> Seq<(Seq<u8>, Seq<u8>)>;

/// What a list of copied fields holds.
pub open spec fn pairs_view(list: Seq<(Vec<u8>, Vec<u8>)>) -> Seq<(Seq<u8>, Seq<u8>)> {
    list.map_values(|pair: (Vec<u8>, Vec<u8>)| (pair.0@, pair.1@))
}

/// Whether a map has room for `extra` fields more: the framing of a message
/// adds one, answering a request up to three.
pub open spec fn room_for(map: http::HeaderMap, extra: nat) -> bool {
    header_fields(map).len() + extra <= MAX_FIELDS + 1
}

/// Whether a map has room for the one field that framing a message adds.
pub open spec fn fits(map: http::HeaderMap) -> bool {
    room_for(map, 1)
}

/// Says whether a map has room for `extra` fields more.
pub fn has_room(map: &http::HeaderMap, extra: usize) -> (room: bool)
    ensures
        room == room_for(*map, extra as nat),
{
    let count = field_count(map);
    count <= MAX_FIELDS + 1 && extra <= MAX_FIELDS + 1 - count
}

/// Calls `http::HeaderMap::new`. Claimed: the new map has no field.
#[verifier::external_body]
pub(crate) fn new_headers() -> (map: http::HeaderMap)
    ensures
        header_fields(map) == Seq::<(Seq<u8>, Seq<u8>)>::empty(),
{
    http::HeaderMap::new()
}

/// Calls `http::HeaderMap::len`. Claimed: it counts the values that the map
/// holds, which are as many as iterating the map yields.
#[verifier::external_body]
pub(crate) fn field_count(map: &http::HeaderMap) -> (count: usize)
    ensures
        count == header_fields(*map).len(),
{
    map.len()
}

/// Calls `http::HeaderMap::iter` and copies what it yields: each name as
/// `HeaderName::as_str` gives it, each value as `HeaderValue::as_bytes` does.
/// Claimed: the copies are the fields of the map, in its order.
#[verifier::external_body]
pub(crate) fn field_list(map: &http::HeaderMap) -> (list: Vec<(Vec<u8>, Vec<u8>)>)
    ensures
        pairs_view(list@) == header_fields(*map),
{
    map.iter().map(|(name, value)| (name.as_str().as_bytes().to_vec(), value.as_bytes().to_vec()))
        .collect()
}

/// Calls `headers::HeaderMapExt::typed_try_get` for `ContentLength`.
/// Claimed: what it finds goes by the fields of the map alone, and without a
/// field named `content-length` it finds none.
#[verifier::external_body]
pub(crate) fn content_length(map: &http::HeaderMap) -> (found: Lookup<u64>)
    ensures
        found == content_length_in(header_fields(*map)),
        absent(header_fields(*map), content_length_name()) ==> found is Absent,
{
    match map.typed_try_get::<headers::ContentLength>() {
        Ok(Some(len)) => Lookup::Found(len.0),
        Ok(None) => Lookup::Absent,
        Err(_) => Lookup::Invalid,
    }
}

/// Calls `headers::HeaderMapExt::typed_try_get` for `TransferEncoding`, and
/// `TransferEncoding::is_chunked` on a header that decodes. Claimed: both go
/// by the fields of the map alone, and without a field named
/// `transfer-encoding` no header is found.
#[verifier::external_body]
pub(crate) fn chunked_coding(map: &http::HeaderMap) -> (found: Lookup<bool>)
    ensures
        found == chunked_coding_in(header_fields(*map)),
        absent(header_fields(*map), transfer_encoding_name()) ==> found is Absent,
{
    match map.typed_try_get::<headers::TransferEncoding>() {
        Ok(Some(coding)) => Lookup::Found(coding.is_chunked()),
        Ok(None) => Lookup::Absent,
        Err(_) => Lookup::Invalid,
    }
}

/// Calls `headers::HeaderMapExt::typed_get` for `Connection`, and
/// `Connection::contains` with `token` on a header that decodes. Claimed:
/// both go by the fields of the map and the token alone, and without a field
/// named `connection` no header is found.
#[verifier::external_body]
pub(crate) fn connection_option(map: &http::HeaderMap, token: &str) -> (found: Option<bool>)
    ensures
        found == connection_option_in(header_fields(*map), token@),
        absent(header_fields(*map), connection_name()) ==> found is None,
{
    map.typed_get::<headers::Connection>().map(|connection| connection.contains(token))
}

/// Calls `headers::HeaderMapExt::typed_get` for `Expect` and compares a header
/// that decodes with `Expect::CONTINUE`. Claimed: a header comes back where
/// the map holds one field named `expect` and its value is `100-continue`,
/// and it is equal to `Expect::CONTINUE` then.
#[verifier::external_body]
pub(crate) fn expectation(map: &http::HeaderMap) -> (found: Option<bool>)
    ensures
        found == expectation_in(header_fields(*map)),
{
    map.typed_get::<headers::Expect>().map(|expect| expect == headers::Expect::CONTINUE)
}

/// Calls `headers::HeaderMapExt::typed_get` for `Date` and says whether a
/// header came back. Claimed: that goes by the fields of the map alone.
#[verifier::external_body]
pub(crate) fn has_date(map: &http::HeaderMap) -> (found: bool)
    ensures
        found == date_in(header_fields(*map)),
{
    map.typed_get::<headers::Date>().is_some()
}

/// Converts `name` with `http::header::HeaderName::from_bytes` and `value`
/// with `http::HeaderValue::from_bytes`, and where both are taken calls
/// `http::HeaderMap::append`. Claimed: whether they are taken goes by the
/// two alone; the fields after the call go by the fields before and the two,
/// and are one more; where one is refused the map stays as it was; and a map
/// of no more than `MAX_FIELDS` fields does not panic.
#[verifier::external_body]
pub(crate) fn append_field(map: &mut http::HeaderMap, name: &[u8], value: &[u8]) -> (accepted:
    bool)
    requires
        header_fields(*old(map)).len() <= MAX_FIELDS,
    ensures
        accepted == field_accepted(name@, value@),
        accepted ==> header_fields(*final(map)) == fields_appended(
            header_fields(*old(map)),
            name@,
            value@,
        ),
        accepted ==> header_fields(*final(map)).len() == header_fields(*old(map)).len() + 1,
        !accepted ==> header_fields(*final(map)) == header_fields(*old(map)),
{
    match (http::header::HeaderName::from_bytes(name), http::HeaderValue::from_bytes(value)) {
        (Ok(name), Ok(value)) => {
            map.append(name, value);
            true
        },
        _ => false,
    }
}

/// Calls `headers::HeaderMapExt::typed_insert` with `ContentLength(len)`.
/// Claimed: the fields after the call go by the fields before and `len`,
/// and are at most one more; the header that was put in is found again;
/// where no field had the name, the field `content-length` with `len` in
/// decimal comes last, after the fields that were there; a map of no more
/// than `MAX_FIELDS` fields does not panic.
#[verifier::external_body]
pub(crate) fn set_content_length(map: &mut http::HeaderMap, len: u64)
    requires
        header_fields(*old(map)).len() <= MAX_FIELDS,
    ensures
        header_fields(*final(map)) == fields_with_content_length(header_fields(*old(map)), len),
        header_fields(*final(map)).len() <= header_fields(*old(map)).len() + 1,
        content_length_in(header_fields(*final(map))) == Lookup::Found(len),
        absent(header_fields(*old(map)), content_length_name()) ==> header_fields(*final(map))
            == header_fields(*old(map)).push(
            (content_length_name(), crate::bytes::decimal_digits(len as nat)),
        ),
{
    map.typed_insert(headers::ContentLength(len));
}

/// Calls `headers::HeaderMapExt::typed_insert` with
/// `TransferEncoding::chunked()`. Claimed: the fields after the call go by
/// the fields before, and are at most one more; the header that was put in
/// is found again, and is chunked; where no field had the name, the field
/// `transfer-encoding: chunked` comes last, after the fields that were
/// there; a map of no more than `MAX_FIELDS` fields does not panic.
#[verifier::external_body]
pub(crate) fn set_chunked_coding(map: &mut http::HeaderMap)
    requires
        header_fields(*old(map)).len() <= MAX_FIELDS,
    ensures
        header_fields(*final(map)) == fields_with_chunked_coding(header_fields(*old(map))),
        header_fields(*final(map)).len() <= header_fields(*old(map)).len() + 1,
        chunked_coding_in(header_fields(*final(map))) == Lookup::Found(true),
        absent(header_fields(*old(map)), transfer_encoding_name()) ==> header_fields(*final(map))
            == header_fields(*old(map)).push((transfer_encoding_name(), chunked_token())),
{
    map.typed_insert(headers::TransferEncoding::chunked());
}

/// Calls `headers::HeaderMapExt::typed_insert` with `Connection::close()`.
/// Claimed: the fields after the call go by the fields before, and are at
/// most one more; the header that was put in is found again, with `close`
/// among its options; where no field had the name, the field
/// `connection: close` comes last, after the fields that were there; a map
/// of no more than `MAX_FIELDS` fields does not panic.
#[verifier::external_body]
pub(crate) fn set_connection_close(map: &mut http::HeaderMap)
    requires
        header_fields(*old(map)).len() <= MAX_FIELDS,
    ensures
        header_fields(*final(map)) == fields_with_connection_close(header_fields(*old(map))),
        header_fields(*final(map)).len() <= header_fields(*old(map)).len() + 1,
        connection_option_in(header_fields(*final(map)), "close"@) == Some(true),
        absent(header_fields(*old(map)), connection_name()) ==> header_fields(*final(map))
            == header_fields(*old(map)).push((connection_name(), close_token())),
{
    map.typed_insert(headers::Connection::close());
}

/// Calls `headers::HeaderMapExt::typed_insert` with the `Date` of the moment
/// `secs` seconds after the epoch. Claimed: the fields after the call go by
/// the fields before and `secs`, and are at most one more; a map of no more
/// than `MAX_FIELDS` fields does not panic, nor does `httpdate` before the
/// year 9999.
#[verifier::external_body]
pub(crate) fn set_date(map: &mut http::HeaderMap, secs: u64)
    requires
        header_fields(*old(map)).len() <= MAX_FIELDS,
        secs <= LAST_SECOND,
    ensures
        header_fields(*final(map)) == fields_with_date(header_fields(*old(map)), secs),
        header_fields(*final(map)).len() <= header_fields(*old(map)).len() + 1,
{
    let moment = std::time::UNIX_EPOCH + std::time::Duration::from_secs(secs);
    map.typed_insert(headers::Date::from(moment));
}

/// Calls `http::HeaderMap::remove` with `transfer-encoding`. Claimed: the
/// fields after the call go by the fields before, and are no more; what is
/// found of `Content-Length` and of `Connection` is what was found before.
#[verifier::external_body]
pub(crate) fn remove_transfer_encoding(map: &mut http::HeaderMap)
    ensures
        header_fields(*final(map)) == fields_without_transfer_encoding(header_fields(*old(map))),
        header_fields(*final(map)).len() <= header_fields(*old(map)).len(),
        content_length_in(header_fields(*final(map))) == content_length_in(
            header_fields(*old(map)),
        ),
        connection_option_in(header_fields(*final(map)), "close"@) == connection_option_in(
            header_fields(*old(map)),
            "close"@,
        ),
{
    map.remove(http::header::TRANSFER_ENCODING);
}

/// Calls `http::HeaderMap::extend` with another map. Claimed: the fields
/// after the call go by the fields of the two maps, and are no more than
/// both together; maps of no more than `MAX_FIELDS` fields between them do not
/// panic.
#[verifier::external_body]
pub(crate) fn extend_headers(map: &mut http::HeaderMap, more: http::HeaderMap)
    requires
        header_fields(*old(map)).len() + header_fields(more).len() <= MAX_FIELDS,
    ensures
        header_fields(*final(map)) == fields_extended(
            header_fields(*old(map)),
            header_fields(more),
        ),
        header_fields(*final(map)).len() <= header_fields(*old(map)).len() + header_fields(
            more,
        ).len(),
{
    map.extend(more);
}

/// The fields of a map after `insert` of `host` with this value; none where
/// `http` refuses the value.
pub uninterp spec fn fields_with_host(fields: Seq<(Seq<u8>, Seq<u8>)>, host: Seq<u8>) -> Option<
    Seq<(Seq<u8>, Seq<u8>)>,
>;

/// Converts `host` with `http::HeaderValue::from_bytes` and, where it is
/// taken, calls `http::HeaderMap::insert` with `host`. Claimed: whether it is
/// taken goes by the value alone; the fields after the call go by the fields
/// before and the value, and are at most one more; where it is refused the
/// map stays as it was; and a map of no more than `MAX_FIELDS` fields does
/// not panic.
#[verifier::external_body]
pub(crate) fn set_host(map: &mut http::HeaderMap, host: &[u8]) -> (accepted: bool)
    requires
        header_fields(*old(map)).len() <= MAX_FIELDS,
    ensures
        match fields_with_host(header_fields(*old(map)), host@) {
            Some(fields) => accepted && header_fields(*final(map)) == fields,
            None => !accepted && header_fields(*final(map)) == header_fields(*old(map)),
        },
        header_fields(*final(map)).len() <= header_fields(*old(map)).len() + 1,
{
    match http::HeaderValue::from_bytes(host) {
        Ok(value) => {
            map.insert(http::header::HOST, value);
            true
        },
        Err(_) => false,
    }
}

} // verus!
