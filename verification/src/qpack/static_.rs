//! The static table.
//!
//! See <https://www.rfc-editor.org/rfc/rfc9204.html#appendix-A>.
use vstd::prelude::*;
use vstd::string::StringSliceAdditionalSpecFns;
use crate::buf::same_bytes;
use super::field::{field_view, FieldView, HeaderField};

verus! {

/// The number of entries.
pub const STATIC_ENTRIES: usize = 99;

/// The names of the entries.
pub const STATIC_NAMES: [&'static str; 99] = [
    ":authority",
    ":path",
    "age",
    "content-disposition",
    "content-length",
    "cookie",
    "date",
    "etag",
    "if-modified-since",
    "if-none-match",
    "last-modified",
    "link",
    "location",
    "referer",
    "set-cookie",
    ":method",
    ":method",
    ":method",
    ":method",
    ":method",
    ":method",
    ":method",
    ":scheme",
    ":scheme",
    ":status",
    ":status",
    ":status",
    ":status",
    ":status",
    "accept",
    "accept",
    "accept-encoding",
    "accept-ranges",
    "access-control-allow-headers",
    "access-control-allow-headers",
    "access-control-allow-origin",
    "cache-control",
    "cache-control",
    "cache-control",
    "cache-control",
    "cache-control",
    "cache-control",
    "content-encoding",
    "content-encoding",
    "content-type",
    "content-type",
    "content-type",
    "content-type",
    "content-type",
    "content-type",
    "content-type",
    "content-type",
    "content-type",
    "content-type",
    "content-type",
    "range",
    "strict-transport-security",
    "strict-transport-security",
    "strict-transport-security",
    "vary",
    "vary",
    "x-content-type-options",
    "x-xss-protection",
    ":status",
    ":status",
    ":status",
    ":status",
    ":status",
    ":status",
    ":status",
    ":status",
    ":status",
    "accept-language",
    "access-control-allow-credentials",
    "access-control-allow-credentials",
    "access-control-allow-headers",
    "access-control-allow-methods",
    "access-control-allow-methods",
    "access-control-allow-methods",
    "access-control-expose-headers",
    "access-control-request-headers",
    "access-control-request-method",
    "access-control-request-method",
    "alt-svc",
    "authorization",
    "content-security-policy",
    "early-data",
    "expect-ct",
    "forwarded",
    "if-range",
    "origin",
    "purpose",
    "server",
    "timing-allow-origin",
    "upgrade-insecure-requests",
    "user-agent",
    "x-forwarded-for",
    "x-frame-options",
    "x-frame-options",
];

/// The values of the entries.
pub const STATIC_VALUES: [&'static str; 99] = [
    "",
    "/",
    "0",
    "",
    "0",
    "",
    "",
    "",
    "",
    "",
    "",
    "",
    "",
    "",
    "",
    "CONNECT",
    "DELETE",
    "GET",
    "HEAD",
    "OPTIONS",
    "POST",
    "PUT",
    "http",
    "https",
    "103",
    "200",
    "304",
    "404",
    "503",
    "*/*",
    "application/dns-message",
    "gzip, deflate, br",
    "bytes",
    "cache-control",
    "content-type",
    "*",
    "max-age=0",
    "max-age=2592000",
    "max-age=604800",
    "no-cache",
    "no-store",
    "public, max-age=31536000",
    "br",
    "gzip",
    "application/dns-message",
    "application/javascript",
    "application/json",
    "application/x-www-form-urlencoded",
    "image/gif",
    "image/jpeg",
    "image/png",
    "text/css",
    "text/html; charset=utf-8",
    "text/plain",
    "text/plain;charset=utf-8",
    "bytes=0-",
    "max-age=31536000",
    "max-age=31536000; includesubdomains",
    "max-age=31536000; includesubdomains; preload",
    "accept-encoding",
    "origin",
    "nosniff",
    "1; mode=block",
    "100",
    "204",
    "206",
    "302",
    "400",
    "403",
    "421",
    "425",
    "500",
    "",
    "FALSE",
    "TRUE",
    "*",
    "get",
    "get, post, options",
    "options",
    "content-length",
    "content-type",
    "get",
    "post",
    "clear",
    "",
    "script-src 'none'; object-src 'none'; base-uri 'none'",
    "1",
    "",
    "",
    "",
    "",
    "prefetch",
    "",
    "*",
    "1",
    "",
    "",
    "deny",
    "sameorigin",
];

#[derive(Debug, Clone, Copy, PartialEq, Eq, Structural)]
pub enum Error {
    Unknown(usize),
}

/// What the static table has for a field line: the same line, the same name, or
/// neither.
#[derive(Debug, Clone, Copy, PartialEq, Eq, Structural)]
pub enum StaticLookup {
    Indexed(usize),
    Name(usize),
    NotFound,
}

pub struct StaticTable {}

/// The entry at `index`.
pub open spec fn static_entry(index: int) -> FieldView {
    field_view(static_name(index), static_value(index))
}

/// The name of the entry at `index`.
#[verifier::opaque]
pub open spec fn static_name(index: int) -> Seq<u8> {
    STATIC_NAMES@[index].spec_bytes()
}

/// The value of the entry at `index`.
#[verifier::opaque]
pub open spec fn static_value(index: int) -> Seq<u8> {
    STATIC_VALUES@[index].spec_bytes()
}

/// Whether `index` is the first entry with this name.
pub open spec fn is_first_name(name: Seq<u8>, index: int) -> bool {
    &&& 0 <= index < STATIC_ENTRIES
    &&& static_name(index) == name
    &&& forall|i: int| 0 <= i < index ==> #[trigger] static_name(i) != name
}

/// Whether `index` is the first entry with this name and value.
pub open spec fn is_first_line(name: Seq<u8>, value: Seq<u8>, index: int) -> bool {
    &&& 0 <= index < STATIC_ENTRIES
    &&& static_name(index) == name
    &&& static_value(index) == value
    &&& forall|i: int|
        0 <= i < index ==> #[trigger] static_name(i) != name || static_value(i) != value
}

/// Whether some entry has this name.
pub open spec fn has_name(name: Seq<u8>) -> bool {
    exists|i: int| 0 <= i < STATIC_ENTRIES && #[trigger] static_name(i) == name
}

/// Whether some entry has this name and value.
pub open spec fn has_line(name: Seq<u8>, value: Seq<u8>) -> bool {
    exists|i: int|
        0 <= i < STATIC_ENTRIES && #[trigger] static_name(i) == name && static_value(i) == value
}

/// The first entry with this name.
pub open spec fn find_name_spec(name: Seq<u8>) -> Option<usize> {
    if has_name(name) {
        Some(choose|i: usize| is_first_name(name, i as int))
    } else {
        None
    }
}

/// The first entry with this name and value.
pub open spec fn find_spec(name: Seq<u8>, value: Seq<u8>) -> Option<usize> {
    if has_line(name, value) {
        Some(choose|i: usize| is_first_line(name, value, i as int))
    } else {
        None
    }
}

/// What the table has for a name and value.
pub open spec fn lookup_spec(name: Seq<u8>, value: Seq<u8>) -> StaticLookup {
    match find_spec(name, value) {
        Some(index) => StaticLookup::Indexed(index),
        None => match find_name_spec(name) {
            Some(index) => StaticLookup::Name(index),
            None => StaticLookup::NotFound,
        },
    }
}

impl StaticTable {
    fn name(index: usize) -> (name: &'static [u8])
        requires
            index < STATIC_ENTRIES,
        ensures
            name@ == static_name(index as int),
    {
        reveal(static_name);
        STATIC_NAMES[index].as_bytes()
    }

    fn value(index: usize) -> (value: &'static [u8])
        requires
            index < STATIC_ENTRIES,
        ensures
            value@ == static_value(index as int),
    {
        reveal(static_value);
        STATIC_VALUES[index].as_bytes()
    }

    /// The entry at `index`.
    pub fn get(index: usize) -> (field: Result<HeaderField, Error>)
        ensures
            index < STATIC_ENTRIES ==> field is Ok && field->Ok_0@ == static_entry(index as int),
            index >= STATIC_ENTRIES ==> field is Err && field->Err_0 == Error::Unknown(index),
    {
        if index < STATIC_ENTRIES {
            Ok(HeaderField::new(Self::name(index), Self::value(index)))
        } else {
            Err(Error::Unknown(index))
        }
    }

    /// The entry with the name and value of `field`.
    pub fn find(field: &HeaderField) -> (index: Option<usize>)
        ensures
            index == find_spec(field@.name, field@.value),
            match index {
                Some(index) => is_first_line(field@.name, field@.value, index as int),
                None => !has_line(field@.name, field@.value),
            },
    {
        Self::find_parts(field.name.as_slice(), field.value.as_slice())
    }

    /// The entry with this name and value.
    pub fn find_parts(name: &[u8], value: &[u8]) -> (index: Option<usize>)
        ensures
            index == find_spec(name@, value@),
            match index {
                Some(index) => is_first_line(name@, value@, index as int),
                None => !has_line(name@, value@),
            },
    {
        match Self::lookup(name, value) {
            StaticLookup::Indexed(index) => Some(index),
            StaticLookup::Name(_) | StaticLookup::NotFound => None,
        }
    }

    /// The entry with this name and value, or else the first with this name.
    pub fn lookup(name: &[u8], value: &[u8]) -> (found: StaticLookup)
        ensures
            found == lookup_spec(name@, value@),
            match found {
                StaticLookup::Indexed(index) => is_first_line(name@, value@, index as int),
                StaticLookup::Name(index) => {
                    &&& is_first_name(name@, index as int)
                    &&& !has_line(name@, value@)
                },
                StaticLookup::NotFound => !has_name(name@),
            },
    {
        let name_index: usize = match Self::find_name(name) {
            Some(index) => index,
            None => return StaticLookup::NotFound,
        };
        let mut i: usize = name_index;
        while i < STATIC_ENTRIES
            invariant
                name_index <= i <= STATIC_ENTRIES,
                is_first_name(name@, name_index as int),
                forall|j: int|
                    0 <= j < i ==> #[trigger] static_name(j) != name@ || static_value(j) != value@,
            decreases STATIC_ENTRIES - i,
        {
            if same_bytes(Self::name(i), name) && same_bytes(Self::value(i), value) {
                proof {
                    lemma_first_line_unique(name@, value@, i);
                }
                return StaticLookup::Indexed(i);
            }
            i = i + 1;
        }
        proof {
            lemma_first_name_unique(name@, name_index);
        }
        StaticLookup::Name(name_index)
    }

    /// The first entry with this name.
    pub fn find_name(name: &[u8]) -> (index: Option<usize>)
        ensures
            index == find_name_spec(name@),
            match index {
                Some(index) => is_first_name(name@, index as int),
                None => !has_name(name@),
            },
    {
        let mut i: usize = 0;
        while i < STATIC_ENTRIES
            invariant
                i <= STATIC_ENTRIES,
                forall|j: int| 0 <= j < i ==> #[trigger] static_name(j) != name@,
            decreases STATIC_ENTRIES - i,
        {
            if same_bytes(Self::name(i), name) {
                proof {
                    lemma_first_name_unique(name@, i);
                }
                return Some(i);
            }
            i = i + 1;
        }
        None
    }
}

/// What is found in the table is there.
pub proof fn lemma_static_found(name: Seq<u8>, value: Seq<u8>)
    ensures
        find_name_spec(name) matches Some(index) ==> is_first_name(name, index as int),
        find_spec(name, value) matches Some(index) ==> is_first_line(name, value, index as int),
{
    if has_name(name) {
        let i = choose|i: int| 0 <= i < STATIC_ENTRIES && #[trigger] static_name(i) == name;
        lemma_least_name(name, i);
    }
    if has_line(name, value) {
        let i = choose|i: int|
            0 <= i < STATIC_ENTRIES && #[trigger] static_name(i) == name && static_value(i) == value;
        lemma_least_line(name, value, i);
    }
}

proof fn lemma_least_name(name: Seq<u8>, i: int)
    requires
        0 <= i < STATIC_ENTRIES,
        static_name(i) == name,
    ensures
        exists|j: usize| is_first_name(name, j as int),
    decreases i,
{
    if exists|k: int| 0 <= k < i && #[trigger] static_name(k) == name {
        lemma_least_name(name, choose|k: int| 0 <= k < i && #[trigger] static_name(k) == name);
    } else {
        assert(is_first_name(name, (i as usize) as int));
    }
}

proof fn lemma_least_line(name: Seq<u8>, value: Seq<u8>, i: int)
    requires
        0 <= i < STATIC_ENTRIES,
        static_name(i) == name,
        static_value(i) == value,
    ensures
        exists|j: usize| is_first_line(name, value, j as int),
    decreases i,
{
    if exists|k: int| 0 <= k < i && #[trigger] static_name(k) == name && static_value(k) == value {
        lemma_least_line(
            name,
            value,
            choose|k: int|
                0 <= k < i && #[trigger] static_name(k) == name && static_value(k) == value,
        );
    } else {
        assert(is_first_line(name, value, (i as usize) as int));
    }
}

pub proof fn lemma_first_line_unique(name: Seq<u8>, value: Seq<u8>, index: usize)
    requires
        is_first_line(name, value, index as int),
    ensures
        has_line(name, value),
        find_spec(name, value) == Some(index),
{
    let other = choose|i: usize| is_first_line(name, value, i as int);
    assert(is_first_line(name, value, other as int));
    assert(static_name(other as int) == name);
    assert(static_name(index as int) == name);
}

pub proof fn lemma_first_name_unique(name: Seq<u8>, index: usize)
    requires
        is_first_name(name, index as int),
    ensures
        has_name(name),
        find_name_spec(name) == Some(index),
{
    let other = choose|i: usize| is_first_name(name, i as int);
    assert(is_first_name(name, other as int));
    assert(static_name(other as int) == name);
    assert(static_name(index as int) == name);
}

} // verus!
