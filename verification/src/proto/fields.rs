//! The regular fields of a message, and the values that its parts may have.
//!
//! Everything in this file that is marked as an external body calls the `http` crate; its
//! contract is what the rest of the library relies on.
use std::str::FromStr;
use http::{HeaderMap, HeaderValue};
use vstd::prelude::*;

verus! {

#[verifier::external_type_specification]
#[verifier::external_body]
#[verifier::reject_recursive_types(T)]
pub struct ExHeaderMap<T>(http::HeaderMap<T>);

#[verifier::external_type_specification]
#[verifier::external_body]
pub struct ExHeaderValue(http::HeaderValue);

/// The fields that a map holds, each with its name, its value and whether it is sensitive, in
/// the order in which `HeaderMap::iter` walks them.
pub uninterp spec fn header_entries(map: HeaderMap<HeaderValue>) -> Seq<(Seq<u8>, Seq<u8>, bool)>;

/// Whether the name of a field may hold this byte: no upper case letter may stand in it.
pub open spec fn is_name_byte(b: u8) -> bool {
    ||| 0x21 <= b <= 0x27
    ||| b == 0x2a || b == 0x2b || b == 0x2d || b == 0x2e
    ||| 0x30 <= b <= 0x39
    ||| 0x5e <= b <= 0x7a
    ||| b == 0x7c || b == 0x7e
}

/// Whether a field may have this name.
pub open spec fn valid_name(name: Seq<u8>) -> bool {
    1 <= name.len() <= 0xffff && forall|i: int| 0 <= i < name.len() ==> is_name_byte(#[trigger] name[i])
}

/// Whether the value of a field may hold this byte.
pub open spec fn is_value_byte(b: u8) -> bool {
    (b >= 0x20 && b != 0x7f) || b == 0x09
}

/// Whether a field may have this value.
pub open spec fn valid_value(value: Seq<u8>) -> bool {
    forall|i: int| 0 <= i < value.len() ==> is_value_byte(#[trigger] value[i])
}

/// Whether a method may hold this byte.
pub open spec fn is_method_byte(b: u8) -> bool {
    ||| b == 0x21
    ||| 0x23 <= b <= 0x27
    ||| b == 0x2a || b == 0x2b || b == 0x2d || b == 0x2e
    ||| 0x30 <= b <= 0x39
    ||| 0x41 <= b <= 0x5a
    ||| 0x5e <= b <= 0x7a
    ||| b == 0x7c || b == 0x7e
}

/// Whether a request may have this method.
pub open spec fn valid_method(method: Seq<u8>) -> bool {
    method.len() > 0 && forall|i: int|
        0 <= i < method.len() ==> is_method_byte(#[trigger] method[i])
}

pub open spec fn is_digit(b: u8) -> bool {
    0x30 <= b <= 0x39
}

/// The number that a status spells: three digits, the first of which is not zero.
pub open spec fn status_spec(text: Seq<u8>) -> Option<u16> {
    if text.len() == 3 && is_digit(text[0]) && is_digit(text[1]) && is_digit(text[2]) && text[0]
        != 0x30 {
        Some((100 * (text[0] - 0x30) + 10 * (text[1] - 0x30) + (text[2] - 0x30)) as u16)
    } else {
        None
    }
}

/// What `Scheme::from_str` makes of the bytes, where they are UTF-8.
pub uninterp spec fn parsed_scheme(value: Seq<u8>) -> Option<Seq<u8>>;

/// What `Authority::from_str` makes of the bytes, where they are UTF-8.
pub uninterp spec fn parsed_authority(value: Seq<u8>) -> Option<Seq<u8>>;

/// What `PathAndQuery::from_str` makes of the bytes, where they are UTF-8.
pub uninterp spec fn parsed_path(value: Seq<u8>) -> Option<Seq<u8>>;

/// The scheme, authority and path of what `uri::Builder::build` makes of a path, a scheme and
/// an authority, or the text of its error.
pub uninterp spec fn built_uri(
    path: Option<Seq<u8>>,
    scheme: Option<Seq<u8>>,
    authority: Seq<u8>,
) -> Result<(Option<Seq<u8>>, Option<Seq<u8>>, Option<Seq<u8>>), Seq<char>>;

/// A value with its view.
pub open spec fn bytes_of(value: Option<Vec<u8>>) -> Option<Seq<u8>> {
    match value {
        Some(bytes) => Some(bytes@),
        None => None,
    }
}

/// A slice with its view.
pub open spec fn slice_of(value: Option<&[u8]>) -> Option<Seq<u8>> {
    match value {
        Some(bytes) => Some(bytes@),
        None => None,
    }
}

/// `HeaderName::from_lowercase` accepts names of 1 to 65535 bytes, each of which is a lower
/// case letter, a digit or one of the marks that its table holds.
#[verifier::external_body]
pub(crate) fn name_is_valid(name: &[u8]) -> (valid: bool)
    ensures
        valid == valid_name(name@),
{
    http::HeaderName::from_lowercase(name).is_ok()
}

/// `HeaderValue::from_bytes` accepts values without control characters, except for tabs.
#[verifier::external_body]
pub(crate) fn value_is_valid(value: &[u8]) -> (valid: bool)
    ensures
        valid == valid_value(value@),
{
    HeaderValue::from_bytes(value).is_ok()
}

/// `Method::from_bytes` accepts methods that are a token.
#[verifier::external_body]
pub(crate) fn method_is_valid(method: &[u8]) -> (valid: bool)
    ensures
        valid == valid_method(method@),
{
    http::Method::from_bytes(method).is_ok()
}

/// `StatusCode::from_bytes` reads a number of three digits, of which the first is not zero.
#[verifier::external_body]
pub(crate) fn parse_status(text: &[u8]) -> (status: Option<u16>)
    ensures
        status == status_spec(text@),
{
    http::StatusCode::from_bytes(text).ok().map(|status| status.as_u16())
}

/// `Scheme::from_str` reads the scheme of a URI, and `Scheme::as_str` spells it.
#[verifier::external_body]
pub(crate) fn parse_scheme(value: &[u8]) -> (scheme: Option<Vec<u8>>)
    ensures
        bytes_of(scheme) == parsed_scheme(value@),
{
    let text = std::str::from_utf8(value).ok()?;
    let scheme = http::uri::Scheme::from_str(text).ok()?;
    Some(scheme.as_str().as_bytes().to_vec())
}

/// `Authority::from_str` reads the authority of a URI, and `Authority::as_str` spells it.
#[verifier::external_body]
pub(crate) fn parse_authority(value: &[u8]) -> (authority: Option<Vec<u8>>)
    ensures
        bytes_of(authority) == parsed_authority(value@),
{
    let text = std::str::from_utf8(value).ok()?;
    let authority = http::uri::Authority::from_str(text).ok()?;
    Some(authority.as_str().as_bytes().to_vec())
}

/// `PathAndQuery::from_str` reads the path and query of a URI, and `PathAndQuery::as_str`
/// spells them.
#[verifier::external_body]
pub(crate) fn parse_path(value: &[u8]) -> (path: Option<Vec<u8>>)
    ensures
        bytes_of(path) == parsed_path(value@),
{
    let text = std::str::from_utf8(value).ok()?;
    let path = http::uri::PathAndQuery::from_str(text).ok()?;
    Some(path.as_str().as_bytes().to_vec())
}

/// `uri::Builder` puts a URI together from its parts and refuses parts that do not make one,
/// with an error whose text its kind fixes; `Uri::into_parts` takes it apart again.
#[verifier::external_body]
pub(crate) fn build_uri(
    path: Option<&[u8]>,
    scheme: Option<&[u8]>,
    authority: &[u8],
) -> (result: Result<(Option<Vec<u8>>, Option<Vec<u8>>, Option<Vec<u8>>), String>)
    ensures
        match built_uri(slice_of(path), slice_of(scheme), authority@) {
            Ok(parts) => result is Ok && bytes_of(result->Ok_0.0) == parts.0 && bytes_of(
                result->Ok_0.1,
            ) == parts.1 && bytes_of(result->Ok_0.2) == parts.2,
            Err(text) => result is Err && result->Err_0@ == text,
        },
{
    let uri = http::Uri::builder();
    let uri = path.into_iter().fold(uri, |uri, path| uri.path_and_query(path));
    let uri = scheme.into_iter().fold(uri, |uri, scheme| uri.scheme(scheme));
    let uri = uri.authority(authority).build().map_err(|error| error.to_string())?;
    let parts = uri.into_parts();
    let scheme = parts.scheme.map(|scheme| scheme.as_str().as_bytes().to_vec());
    let authority = parts.authority.map(|authority| authority.as_str().as_bytes().to_vec());
    let path = parts.path_and_query.map(|path| path.as_str().as_bytes().to_vec());
    Ok((scheme, authority, path))
}

/// `HeaderMap::with_capacity` makes a map that holds nothing; it panics where the capacity is
/// more than 24576 fields.
#[verifier::external_body]
pub(crate) fn new_fields(capacity: usize) -> (map: HeaderMap<HeaderValue>)
    requires
        capacity <= 24576,
    ensures
        header_entries(map) == Seq::<(Seq<u8>, Seq<u8>, bool)>::empty(),
{
    HeaderMap::with_capacity(capacity)
}

/// `HeaderMap::len` tells how many fields the map holds.
#[verifier::external_body]
pub(crate) fn fields_len(map: &HeaderMap<HeaderValue>) -> (n: usize)
    ensures
        n == header_entries(*map).len(),
{
    map.len()
}

/// The fields of a map with one more: it comes behind the others of its name, or behind all
/// where none has its name.
pub open spec fn appended(
    entries: Seq<(Seq<u8>, Seq<u8>, bool)>,
    name: Seq<u8>,
    value: Seq<u8>,
    sensitive: bool,
) -> Seq<(Seq<u8>, Seq<u8>, bool)>
    decreases entries.len(),
{
    if !has_field(entries, name) || entries.last().0 == name {
        entries.push((name, value, sensitive))
    } else {
        appended(entries.drop_last(), name, value, sensitive).push(entries.last())
    }
}

/// Whether a field has this name.
pub open spec fn has_field(entries: Seq<(Seq<u8>, Seq<u8>, bool)>, name: Seq<u8>) -> bool {
    exists|i: int| 0 <= i < entries.len() && (#[trigger] entries[i]).0 == name
}

/// How many names the fields have.
pub open spec fn distinct_names(entries: Seq<(Seq<u8>, Seq<u8>, bool)>) -> nat
    decreases entries.len(),
{
    if entries.len() == 0 {
        0
    } else if has_field(entries.drop_last(), entries.last().0) {
        distinct_names(entries.drop_last())
    } else {
        distinct_names(entries.drop_last()) + 1
    }
}

/// `HeaderMap::try_append` adds a field, behind the others of its name where there are some.
/// It fails only on a map that holds 6554 names or more, and then leaves it as it is.
#[verifier::external_body]
pub(crate) fn append_field(
    map: &mut HeaderMap<HeaderValue>,
    name: &[u8],
    value: Vec<u8>,
    sensitive: bool,
) -> (done: bool)
    requires
        valid_name(name@),
        valid_value(value@),
    ensures
        done ==> header_entries(*final(map)) == appended(
            header_entries(*old(map)),
            name@,
            value@,
            sensitive,
        ),
        !done ==> header_entries(*final(map)) == header_entries(*old(map)) && distinct_names(
            header_entries(*old(map)),
        ) >= 6554,
{
    let name = http::HeaderName::from_lowercase(name).expect("a valid name");
    let shared = bytes::Bytes::from(value);
    let mut value = HeaderValue::from_maybe_shared(shared).expect("a valid value");
    value.set_sensitive(sensitive);
    map.try_append(name, value).is_ok()
}

/// The value of the first field with this name.
pub open spec fn first_value(entries: Seq<(Seq<u8>, Seq<u8>, bool)>, name: Seq<u8>) -> Option<
    Seq<u8>,
>
    decreases entries.len(),
{
    if entries.len() == 0 {
        None
    } else if entries[0].0 == name {
        Some(entries[0].1)
    } else {
        first_value(entries.skip(1), name)
    }
}

/// `HeaderMap::get` gives the value of a field; where its name has several, that of the first.
#[verifier::external_body]
pub(crate) fn get_field<'a>(map: &'a HeaderMap<HeaderValue>, name: &[u8]) -> (value: Option<
    &'a [u8],
>)
    requires
        valid_name(name@),
    ensures
        slice_of(value) == first_value(header_entries(*map), name@),
{
    let name = http::HeaderName::from_lowercase(name).ok()?;
    map.get(name).map(|value| value.as_bytes())
}

/// What a field out of a map is.
pub open spec fn entry_view(entry: (Vec<u8>, Vec<u8>, bool)) -> (Seq<u8>, Seq<u8>, bool) {
    (entry.0@, entry.1@, entry.2)
}

/// `HeaderMap::iter` walks the fields of a map: name by name, in the order in which the names
/// came, and the values of a name in the order in which they came.
#[verifier::external_body]
pub(crate) fn field_list(map: &HeaderMap<HeaderValue>) -> (list: Vec<(Vec<u8>, Vec<u8>, bool)>)
    ensures
        list@.map_values(|entry: (Vec<u8>, Vec<u8>, bool)| entry_view(entry)) == header_entries(
            *map,
        ),
{
    map.iter().map(
        |(name, value)|
            (
                name.as_str().as_bytes().to_vec(),
                value.as_bytes().to_vec(),
                value.is_sensitive(),
            ),
    ).collect()
}

} // verus!
