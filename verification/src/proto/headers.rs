//! The header and trailer sections of messages.
use http::{HeaderMap, HeaderValue};
use vstd::prelude::*;
use crate::buf::{same_bytes, to_vec};
use crate::ext::{parsed_protocol, protocol_text, Protocol};
use crate::qpack::field::{FieldView, HeaderField};
use super::fields::{
    append_field, appended, build_uri, built_uri, bytes_of, distinct_names, entry_view,
    field_list, fields_len, first_value, get_field, header_entries, is_name_byte, method_is_valid, name_is_valid,
    new_fields, parse_authority, parse_path, parse_scheme, parse_status, parsed_authority,
    parsed_path, parsed_scheme, slice_of, status_spec, valid_method, valid_name, valid_value,
    value_is_valid,
};
pub use super::pseudo::{
    PseudoHeaderSensitivity, PseudoId, PseudoOrder, PseudoOrderBuilder,
};
use super::pseudo::{
    default_ids, is_complete, lemma_mask_with, lemma_unmarked, marked, mask_with, with_mark,
};

verus! {

/// `:method`
pub const METHOD: [u8; 7] = [0x3a, 0x6d, 0x65, 0x74, 0x68, 0x6f, 0x64];

/// `:scheme`
pub const SCHEME: [u8; 7] = [0x3a, 0x73, 0x63, 0x68, 0x65, 0x6d, 0x65];

/// `:authority`
pub const AUTHORITY: [u8; 10] = [0x3a, 0x61, 0x75, 0x74, 0x68, 0x6f, 0x72, 0x69, 0x74, 0x79];

/// `:path`
pub const PATH: [u8; 5] = [0x3a, 0x70, 0x61, 0x74, 0x68];

/// `:status`
pub const STATUS: [u8; 7] = [0x3a, 0x73, 0x74, 0x61, 0x74, 0x75, 0x73];

/// `:protocol`
pub const PROTOCOL: [u8; 9] = [0x3a, 0x70, 0x72, 0x6f, 0x74, 0x6f, 0x63, 0x6f, 0x6c];

/// `host`
pub const HOST: [u8; 4] = [0x68, 0x6f, 0x73, 0x74];

/// `CONNECT`
pub const CONNECT: [u8; 7] = [0x43, 0x4f, 0x4e, 0x4e, 0x45, 0x43, 0x54];

/// `https`
pub const HTTPS: [u8; 5] = [0x68, 0x74, 0x74, 0x70, 0x73];

/// `/`
pub const ROOT: [u8; 1] = [0x2f];

/// Why fields do not make a header.
#[derive(Debug, PartialEq, Eq)]
pub enum HeaderError {
    /// A field must not have this name.
    InvalidHeaderName(Vec<u8>),
    /// The field of this name must not have this value.
    InvalidHeaderValue(Vec<u8>, Vec<u8>),
    /// The parts of the request do not make a URI.
    InvalidRequest(String),
    MissingMethod,
    MissingStatus,
    MissingAuthority,
    ContradictedAuthority,
    /// There are more fields than a map can hold.
    TooManyFields,
}

/// What is wrong with fields.
pub enum HeaderErrorView {
    InvalidHeaderName(Seq<u8>),
    InvalidHeaderValue(Seq<u8>, Seq<u8>),
    InvalidRequest(Seq<char>),
    MissingMethod,
    MissingStatus,
    MissingAuthority,
    ContradictedAuthority,
    TooManyFields,
}

impl View for HeaderError {
    type V = HeaderErrorView;

    open spec fn view(&self) -> HeaderErrorView {
        match *self {
            HeaderError::InvalidHeaderName(name) => HeaderErrorView::InvalidHeaderName(name@),
            HeaderError::InvalidHeaderValue(name, value) => HeaderErrorView::InvalidHeaderValue(
                name@,
                value@,
            ),
            HeaderError::InvalidRequest(text) => HeaderErrorView::InvalidRequest(text@),
            HeaderError::MissingMethod => HeaderErrorView::MissingMethod,
            HeaderError::MissingStatus => HeaderErrorView::MissingStatus,
            HeaderError::MissingAuthority => HeaderErrorView::MissingAuthority,
            HeaderError::ContradictedAuthority => HeaderErrorView::ContradictedAuthority,
            HeaderError::TooManyFields => HeaderErrorView::TooManyFields,
        }
    }
}

/// The parts of a URI that a request names.
#[derive(Debug, PartialEq, Eq)]
pub struct Target {
    pub scheme: Option<Vec<u8>>,
    pub authority: Option<Vec<u8>>,
    pub path: Option<Vec<u8>>,
}

/// What a request names.
#[verifier::ext_equal]
pub struct TargetView {
    pub scheme: Option<Seq<u8>>,
    pub authority: Option<Seq<u8>>,
    pub path: Option<Seq<u8>>,
}

impl View for Target {
    type V = TargetView;

    open spec fn view(&self) -> TargetView {
        TargetView {
            scheme: bytes_of(self.scheme),
            authority: bytes_of(self.authority),
            path: bytes_of(self.path),
        }
    }
}

/// What a message can say about its header section beside its fields.
#[derive(Debug, PartialEq, Eq)]
pub struct MessageExtensions {
    pub protocol: Option<Protocol>,
    pub order: Option<PseudoOrder>,
    pub sensitivity: Option<PseudoHeaderSensitivity>,
}

impl Default for MessageExtensions {
    fn default() -> (ext: Self)
        ensures
            ext == (MessageExtensions { protocol: None, order: None, sensitivity: None }),
    {
        MessageExtensions { protocol: None, order: None, sensitivity: None }
    }
}

/// The mask of the sensitive fields of a message.
pub open spec fn sensitive_mask(ext: MessageExtensions) -> u8 {
    match ext.sensitivity {
        Some(sensitivity) => sensitivity.mask,
        None => 0,
    }
}

/// The pseudo-header fields of a message.
///
/// They carry what the first line of a message was once for, and stand before all other
/// fields.
#[derive(Debug, PartialEq, Eq)]
pub struct Pseudo {
    pub method: Option<Vec<u8>>,
    pub scheme: Option<Vec<u8>>,
    pub authority: Option<Vec<u8>>,
    pub path: Option<Vec<u8>>,
    pub status: Option<u16>,
    pub protocol: Option<Protocol>,
    pub order: Option<PseudoOrder>,
    pub sensitive: u8,
    pub len: usize,
}

/// What the pseudo-header fields say.
#[verifier::ext_equal]
pub struct PseudoView {
    pub method: Option<Seq<u8>>,
    pub scheme: Option<Seq<u8>>,
    pub authority: Option<Seq<u8>>,
    pub path: Option<Seq<u8>>,
    pub status: Option<u16>,
    pub protocol: Option<Protocol>,
    pub order: Option<PseudoOrder>,
    pub sensitive: u8,
    pub len: usize,
}

impl View for Pseudo {
    type V = PseudoView;

    open spec fn view(&self) -> PseudoView {
        PseudoView {
            method: bytes_of(self.method),
            scheme: bytes_of(self.scheme),
            authority: bytes_of(self.authority),
            path: bytes_of(self.path),
            status: self.status,
            protocol: self.protocol,
            order: self.order,
            sensitive: self.sensitive,
            len: self.len,
        }
    }
}

/// No pseudo-header fields.
pub open spec fn no_pseudo() -> PseudoView {
    PseudoView {
        method: None,
        scheme: None,
        authority: None,
        path: None,
        status: None,
        protocol: None,
        order: None,
        sensitive: 0,
        len: 0,
    }
}

impl Default for Pseudo {
    fn default() -> (pseudo: Self)
        ensures
            pseudo@ == no_pseudo(),
    {
        Pseudo {
            method: None,
            scheme: None,
            authority: None,
            path: None,
            status: None,
            protocol: None,
            order: None,
            sensitive: 0,
            len: 0,
        }
    }
}

/// One where there is something.
pub open spec fn one_if(present: bool) -> int {
    if present {
        1
    } else {
        0
    }
}

/// The pseudo-header fields of a request.
///
/// A request that is not CONNECT has a method, a scheme and a path; `https` and `/` stand in
/// for a scheme and a path that were not given. A CONNECT request has none of the two, unless
/// it is for a protocol.
pub open spec fn request_pseudo(method: Seq<u8>, target: TargetView, ext: MessageExtensions) -> PseudoView {
    let protocol = if method == CONNECT@ {
        ext.protocol
    } else {
        None
    };
    let tunnel = method == CONNECT@ && protocol is None;
    PseudoView {
        method: Some(method),
        scheme: if tunnel {
            None
        } else if target.scheme is Some {
            target.scheme
        } else {
            Some(HTTPS@)
        },
        authority: target.authority,
        path: if tunnel {
            None
        } else if target.path is Some {
            target.path
        } else {
            Some(ROOT@)
        },
        status: None,
        protocol,
        order: ext.order,
        sensitive: sensitive_mask(ext),
        len: (3 + one_if(target.authority is Some) + one_if(protocol is Some)) as usize,
    }
}

/// The pseudo-header fields of a response.
pub open spec fn response_pseudo(status: u16, ext: MessageExtensions) -> PseudoView {
    PseudoView { status: Some(status), sensitive: sensitive_mask(ext), len: 1, ..no_pseudo() }
}

/// The digits of a status.
pub open spec fn status_text(status: u16) -> Seq<u8> {
    seq![
        (0x30 + status / 100 % 10) as u8,
        (0x30 + status / 10 % 10) as u8,
        (0x30 + status % 10) as u8,
    ]
}

/// The pseudo-header field with this identifier, where there is one.
pub open spec fn pseudo_field(pseudo: PseudoView, id: PseudoId) -> Option<FieldView> {
    let (name, value) = match id {
        PseudoId::Method => (METHOD@, pseudo.method),
        PseudoId::Scheme => (SCHEME@, pseudo.scheme),
        PseudoId::Authority => (AUTHORITY@, pseudo.authority),
        PseudoId::Path => (PATH@, pseudo.path),
        PseudoId::Status => (
            STATUS@,
            match pseudo.status {
                Some(status) => Some(status_text(status)),
                None => None,
            },
        ),
        PseudoId::Protocol => (
            PROTOCOL@,
            match pseudo.protocol {
                Some(protocol) => Some(protocol_text(protocol)),
                None => None,
            },
        ),
    };
    match value {
        Some(value) => Some(FieldView { name, value, sensitive: marked(pseudo.sensitive, id) }),
        None => None,
    }
}

/// The order of the pseudo-header fields of a message.
pub open spec fn order_of(pseudo: PseudoView) -> Seq<PseudoId> {
    match pseudo.order {
        Some(order) => order@,
        None => default_ids(),
    }
}

/// The pseudo-header fields that there are, in an order.
pub open spec fn pseudo_fields(pseudo: PseudoView, ids: Seq<PseudoId>) -> Seq<FieldView>
    decreases ids.len(),
{
    if ids.len() == 0 {
        Seq::empty()
    } else {
        match pseudo_field(pseudo, ids[0]) {
            Some(field) => seq![field] + pseudo_fields(pseudo, ids.skip(1)),
            None => pseudo_fields(pseudo, ids.skip(1)),
        }
    }
}

/// A regular field.
pub open spec fn regular_field(entry: (Seq<u8>, Seq<u8>, bool)) -> FieldView {
    FieldView { name: entry.0, value: entry.1, sensitive: entry.2 }
}

/// The fields of a header section: the pseudo-header fields before the others.
pub open spec fn section_fields(pseudo: PseudoView, entries: Seq<(Seq<u8>, Seq<u8>, bool)>) -> Seq<
    FieldView,
> {
    pseudo_fields(pseudo, order_of(pseudo)) + entries.map_values(
        |entry: (Seq<u8>, Seq<u8>, bool)| regular_field(entry),
    )
}

fn copy_option(value: &Option<Vec<u8>>) -> (copy: Option<Vec<u8>>)
    ensures
        bytes_of(copy) == bytes_of(*value),
{
    match value {
        Some(bytes) => Some(to_vec(bytes.as_slice())),
        None => None,
    }
}

/// The digits of a status.
fn status_digits(status: u16) -> (text: Vec<u8>)
    ensures
        text@ == status_text(status),
{
    let mut text: Vec<u8> = Vec::new();
    text.push((0x30 + status / 100 % 10) as u8);
    text.push((0x30 + status / 10 % 10) as u8);
    text.push((0x30 + status % 10) as u8);
    assert(text@ =~= status_text(status));
    text
}

impl Pseudo {
    /// The pseudo-header fields of a request.
    pub fn request(method: Vec<u8>, target: Target, ext: MessageExtensions) -> (pseudo: Self)
        ensures
            pseudo@ == request_pseudo(method@, target@, ext),
    {
        let connect: bool = same_bytes(method.as_slice(), CONNECT.as_slice());
        let protocol = if connect {
            ext.protocol
        } else {
            None
        };
        let tunnel: bool = connect && protocol.is_none();
        let scheme = if tunnel {
            None
        } else {
            match target.scheme {
                Some(scheme) => Some(scheme),
                None => Some(to_vec(HTTPS.as_slice())),
            }
        };
        let path = if tunnel {
            None
        } else {
            match target.path {
                Some(path) => Some(path),
                None => Some(to_vec(ROOT.as_slice())),
            }
        };
        let mut len: usize = 3;
        if target.authority.is_some() {
            len = len + 1;
        }
        if protocol.is_some() {
            len = len + 1;
        }
        let sensitive: u8 = match ext.sensitivity {
            Some(sensitivity) => sensitivity.mask,
            None => 0,
        };
        Pseudo {
            method: Some(method),
            scheme,
            authority: target.authority,
            path,
            status: None,
            protocol,
            order: ext.order,
            sensitive,
            len,
        }
    }

    /// The pseudo-header fields of a response.
    pub fn response(status: u16, ext: MessageExtensions) -> (pseudo: Self)
        ensures
            pseudo@ == response_pseudo(status, ext),
    {
        let sensitive: u8 = match ext.sensitivity {
            Some(sensitivity) => sensitivity.mask,
            None => 0,
        };
        let mut pseudo = Pseudo::default();
        pseudo.status = Some(status);
        pseudo.sensitive = sensitive;
        pseudo.len = 1;
        pseudo
    }

    pub fn len(&self) -> (len: usize)
        ensures
            len == self.len,
    {
        self.len
    }

    pub fn set_sensitive(&mut self, id: PseudoId, sensitive: bool)
        ensures
            final(self)@ == (PseudoView {
                sensitive: mask_with(old(self).sensitive, id, sensitive),
                ..old(self)@
            }),
    {
        self.sensitive = with_mark(self.sensitive, id, sensitive);
    }

    pub fn is_sensitive(&self, id: PseudoId) -> (sensitive: bool)
        ensures
            sensitive == marked(self.sensitive, id),
    {
        self.sensitive & id.mask_id() != 0
    }

    /// The pseudo-header field with this identifier, where there is one.
    pub fn field_ref(&self, id: PseudoId) -> (field: Option<HeaderField>)
        ensures
            (match field {
                Some(field) => Some(field@),
                None => None,
            }) == pseudo_field(self@, id),
    {
        let value: Option<Vec<u8>> = match id {
            PseudoId::Method => copy_option(&self.method),
            PseudoId::Scheme => copy_option(&self.scheme),
            PseudoId::Authority => copy_option(&self.authority),
            PseudoId::Path => copy_option(&self.path),
            PseudoId::Status => match self.status {
                Some(status) => Some(status_digits(status)),
                None => None,
            },
            PseudoId::Protocol => match self.protocol {
                Some(protocol) => Some(protocol.as_bytes()),
                None => None,
            },
        };
        let name: Vec<u8> = match id {
            PseudoId::Method => to_vec(METHOD.as_slice()),
            PseudoId::Scheme => to_vec(SCHEME.as_slice()),
            PseudoId::Authority => to_vec(AUTHORITY.as_slice()),
            PseudoId::Path => to_vec(PATH.as_slice()),
            PseudoId::Status => to_vec(STATUS.as_slice()),
            PseudoId::Protocol => to_vec(PROTOCOL.as_slice()),
        };
        match value {
            Some(value) => Some(HeaderField { name, value, sensitive: self.is_sensitive(id) }),
            None => None,
        }
    }

    /// Takes the pseudo-header field with this identifier, where there is one.
    pub fn take_field(&mut self, id: PseudoId) -> (field: Option<HeaderField>)
        ensures
            (match field {
                Some(field) => Some(field@),
                None => None,
            }) == pseudo_field(old(self)@, id),
            final(self)@ == without_field(old(self)@, id),
    {
        let field = self.field_ref(id);
        match id {
            PseudoId::Method => {
                self.method = None;
            },
            PseudoId::Scheme => {
                self.scheme = None;
            },
            PseudoId::Authority => {
                self.authority = None;
            },
            PseudoId::Path => {
                self.path = None;
            },
            PseudoId::Status => {
                self.status = None;
            },
            PseudoId::Protocol => {
                self.protocol = None;
            },
        }
        field
    }
}

/// The pseudo-header fields without one.
pub open spec fn without_field(pseudo: PseudoView, id: PseudoId) -> PseudoView {
    match id {
        PseudoId::Method => PseudoView { method: None, ..pseudo },
        PseudoId::Scheme => PseudoView { scheme: None, ..pseudo },
        PseudoId::Authority => PseudoView { authority: None, ..pseudo },
        PseudoId::Path => PseudoView { path: None, ..pseudo },
        PseudoId::Status => PseudoView { status: None, ..pseudo },
        PseudoId::Protocol => PseudoView { protocol: None, ..pseudo },
    }
}

/// The header or trailer section of a message.
#[derive(Debug)]
pub struct Header {
    pub pseudo: Pseudo,
    pub fields: HeaderMap<HeaderValue>,
}

/// What a section says.
pub struct HeaderView {
    pub pseudo: PseudoView,
    pub fields: Seq<(Seq<u8>, Seq<u8>, bool)>,
}

impl View for Header {
    type V = HeaderView;

    open spec fn view(&self) -> HeaderView {
        HeaderView { pseudo: self.pseudo@, fields: header_entries(self.fields) }
    }
}

/// The parts of a request.
#[derive(Debug)]
pub struct RequestParts {
    pub method: Vec<u8>,
    pub target: Target,
    pub protocol: Option<Protocol>,
    pub fields: HeaderMap<HeaderValue>,
    pub sensitivity: PseudoHeaderSensitivity,
}

/// The authority that a request names: `:authority` and `host` have to agree, and one of them
/// has to be there.
///
/// See <https://www.rfc-editor.org/rfc/rfc9114.html#section-4.3.1>.
pub open spec fn named_authority(authority: Option<Seq<u8>>, host: Option<Seq<u8>>) -> Result<
    Seq<u8>,
    HeaderErrorView,
> {
    match (authority, host) {
        (None, None) => Err(HeaderErrorView::MissingAuthority),
        (Some(authority), None) => Ok(authority),
        (None, Some(host)) => Ok(host),
        (Some(authority), Some(host)) => if authority == host {
            Ok(host)
        } else {
            Err(HeaderErrorView::ContradictedAuthority)
        },
    }
}

/// The authority that a request names.
pub fn request_authority<'a>(authority: Option<&'a [u8]>, host: Option<&'a [u8]>) -> (result: Result<
    &'a [u8],
    HeaderError,
>)
    ensures
        match result {
            Ok(name) => named_authority(slice_of(authority), slice_of(host)) == Ok::<
                Seq<u8>,
                HeaderErrorView,
            >(name@),
            Err(error) => named_authority(slice_of(authority), slice_of(host)) == Err::<
                Seq<u8>,
                HeaderErrorView,
            >(error@),
        },
{
    match (authority, host) {
        (None, None) => Err(HeaderError::MissingAuthority),
        (Some(authority), None) => Ok(authority),
        (None, Some(host)) => Ok(host),
        (Some(authority), Some(host)) => if same_bytes(authority, host) {
            Ok(host)
        } else {
            Err(HeaderError::ContradictedAuthority)
        },
    }
}

fn as_slice_option<'a>(value: &'a Option<Vec<u8>>) -> (slice: Option<&'a [u8]>)
    ensures
        slice_of(slice) == bytes_of(*value),
{
    match value {
        Some(bytes) => Some(bytes.as_slice()),
        None => None,
    }
}

/// The value of the `host` field.
fn host_of(fields: &HeaderMap<HeaderValue>) -> (host: Option<&[u8]>)
    ensures
        slice_of(host) == first_value(header_entries(*fields), HOST@),
{
    assert(valid_name(HOST@)) by {
        assert(HOST@.len() == 4);
    }
    get_field(fields, HOST.as_slice())
}

/// The parts of a request once its URI has been built.
pub open spec fn request_result(
    header: HeaderView,
    built: Result<(Option<Seq<u8>>, Option<Seq<u8>>, Option<Seq<u8>>), Seq<char>>,
) -> Result<(Seq<u8>, TargetView), HeaderErrorView> {
    match header.pseudo.method {
        None => Err(HeaderErrorView::MissingMethod),
        Some(method) => match built {
            Err(text) => Err(HeaderErrorView::InvalidRequest(text)),
            Ok((scheme, authority, path)) => Ok((method, TargetView { scheme, authority, path })),
        },
    }
}

/// Whether the parts of a request are these, and the rest is as it was in the header.
pub open spec fn parts_are(
    result: Result<RequestParts, HeaderError>,
    header: Header,
    expected: Result<(Seq<u8>, TargetView), HeaderErrorView>,
) -> bool {
    match expected {
        Ok((method, target)) => {
            &&& result is Ok
            &&& result->Ok_0.method@ == method
            &&& result->Ok_0.target@ == target
            &&& result->Ok_0.protocol == header.pseudo.protocol
            &&& result->Ok_0.fields == header.fields
            &&& result->Ok_0.sensitivity.mask == header.pseudo.sensitive
        },
        Err(error) => result is Err && result->Err_0@ == error,
    }
}

impl Header {
    /// The header section of a request.
    pub fn request(
        method: Vec<u8>,
        target: Target,
        fields: HeaderMap<HeaderValue>,
        ext: MessageExtensions,
    ) -> (result: Result<Self, HeaderError>)
        ensures
            match named_authority(target@.authority, first_value(header_entries(fields), HOST@)) {
                Ok(_) => result is Ok && result->Ok_0.fields == fields && result->Ok_0.pseudo@
                    == request_pseudo(method@, target@, ext),
                Err(error) => result is Err && result->Err_0@ == error,
            },
    {
        match request_authority(as_slice_option(&target.authority), host_of(&fields)) {
            Err(error) => Err(error),
            Ok(_) => Ok(Header { pseudo: Pseudo::request(method, target, ext), fields }),
        }
    }

    /// The header section of a response.
    pub fn response(
        status: u16,
        fields: HeaderMap<HeaderValue>,
        ext: MessageExtensions,
    ) -> (header: Self)
        ensures
            header.pseudo@ == response_pseudo(status, ext),
            header.fields == fields,
    {
        Header { pseudo: Pseudo::response(status, ext), fields }
    }

    /// A trailer section, which has no pseudo-header fields.
    ///
    /// See <https://www.rfc-editor.org/rfc/rfc9114.html#section-4.3>.
    pub fn trailer(fields: HeaderMap<HeaderValue>) -> (header: Self)
        ensures
            header.pseudo@ == no_pseudo(),
            header.fields == fields,
    {
        Header { pseudo: Pseudo::default(), fields }
    }

    /// The parts of a request.
    pub fn into_request_parts(self) -> (result: Result<RequestParts, HeaderError>)
        ensures
            match named_authority(self@.pseudo.authority, first_value(self@.fields, HOST@)) {
                Err(error) => result is Err && result->Err_0@ == error,
                Ok(authority) => parts_are(
                    result,
                    self,
                    request_result(
                        self@,
                        built_uri(self@.pseudo.path, self@.pseudo.scheme, authority),
                    ),
                ),
            },
    {
        let built = match request_authority(
            as_slice_option(&self.pseudo.authority),
            host_of(&self.fields),
        ) {
            Err(error) => return Err(error),
            Ok(authority) => build_uri(
                as_slice_option(&self.pseudo.path),
                as_slice_option(&self.pseudo.scheme),
                authority,
            ),
        };
        self.request_with(built)
    }

    /// The parts of a request, given what its URI was built to.
    pub fn request_with(
        self,
        built: Result<(Option<Vec<u8>>, Option<Vec<u8>>, Option<Vec<u8>>), String>,
    ) -> (result: Result<RequestParts, HeaderError>)
        ensures
            parts_are(
                result,
                self,
                request_result(
                    self@,
                    match built {
                        Ok((scheme, authority, path)) => Ok(
                            (bytes_of(scheme), bytes_of(authority), bytes_of(path)),
                        ),
                        Err(text) => Err(text@),
                    },
                ),
            ),
    {
        let method = match self.pseudo.method {
            None => return Err(HeaderError::MissingMethod),
            Some(method) => method,
        };
        match built {
            Err(text) => Err(HeaderError::InvalidRequest(text)),
            Ok((scheme, authority, path)) => Ok(
                RequestParts {
                    method,
                    target: Target { scheme, authority, path },
                    protocol: self.pseudo.protocol,
                    fields: self.fields,
                    sensitivity: PseudoHeaderSensitivity { mask: self.pseudo.sensitive },
                },
            ),
        }
    }

    /// The parts of a response, which has to have a status.
    ///
    /// See <https://www.rfc-editor.org/rfc/rfc9114.html#section-4.3.2>.
    pub fn into_response_parts(self) -> (result: Result<
        (u16, HeaderMap<HeaderValue>, PseudoHeaderSensitivity),
        HeaderError,
    >)
        ensures
            match self@.pseudo.status {
                Some(status) => result is Ok && result->Ok_0 == (
                    status,
                    self.fields,
                    PseudoHeaderSensitivity { mask: self.pseudo.sensitive },
                ),
                None => result is Err && result->Err_0 == HeaderError::MissingStatus,
            },
    {
        match self.pseudo.status {
            None => Err(HeaderError::MissingStatus),
            Some(status) => Ok(
                (
                    status,
                    self.fields,
                    PseudoHeaderSensitivity { mask: self.pseudo.sensitive },
                ),
            ),
        }
    }

    pub fn into_fields(self) -> (fields: HeaderMap<HeaderValue>)
        ensures
            fields == self.fields,
    {
        self.fields
    }

    /// The number of fields, or the largest number where there are more.
    pub fn len(&self) -> (n: usize)
        ensures
            n == if self.pseudo.len + self@.fields.len() <= usize::MAX {
                self.pseudo.len + self@.fields.len()
            } else {
                usize::MAX as int
            },
    {
        self.pseudo.len().saturating_add(fields_len(&self.fields))
    }

    /// The number of fields, or the largest number where there are more.
    pub fn size(&self) -> (n: usize)
        ensures
            n == if self.pseudo.len + self@.fields.len() <= usize::MAX {
                self.pseudo.len + self@.fields.len()
            } else {
                usize::MAX as int
            },
    {
        self.pseudo.len().saturating_add(fields_len(&self.fields))
    }

    /// Chooses the order of the pseudo-header fields.
    pub fn set_pseudo_order(&mut self, order: PseudoOrder)
        ensures
            final(self).fields == old(self).fields,
            final(self).pseudo@ == (PseudoView { order: Some(order), ..old(self).pseudo@ }),
    {
        self.pseudo.order = Some(order);
    }

    /// The fields of the section, one after the other.
    pub fn into_iter(self) -> (iter: HeaderIter)
        ensures
            iter.wf(),
            iter.remaining() == section_fields(self@.pseudo, self@.fields),
    {
        let entries = field_list(&self.fields);
        let iter = HeaderIter {
            pseudo: Some(self.pseudo),
            pseudo_order_index: 0,
            entries,
            entry_index: 0,
        };
        proof {
            let order = order_of(self@.pseudo);
            assert(order.skip(0) =~= order);
            assert(iter.remaining() =~= section_fields(self@.pseudo, self@.fields));
        }
        iter
    }

    /// The fields of the section, in the order in which `into_iter` gives them.
    pub fn iter_ref(&self) -> (list: Vec<HeaderField>)
        ensures
            list@.map_values(|field: HeaderField| field@) == section_fields(
                self@.pseudo,
                self@.fields,
            ),
    {
        let ids = pseudo_ids(&self.pseudo);
        let mut list: Vec<HeaderField> = Vec::new();
        let ghost goal = pseudo_fields(self@.pseudo, ids@);
        let ghost as_view = |field: HeaderField| field@;
        let mut i: usize = 0;
        assert(ids@.skip(0) =~= ids@);
        assert(list@.map_values(as_view) + goal =~= goal);
        while i < 6
            invariant
                i <= 6,
                ids@.len() == 6,
                as_view == (|field: HeaderField| field@),
                list@.map_values(as_view) + pseudo_fields(self@.pseudo, ids@.skip(i as int))
                    == goal,
            decreases 6 - i,
        {
            let ghost before = list@.map_values(as_view);
            let ghost rest = ids@.skip(i as int);
            assert(rest.skip(1) =~= ids@.skip(i + 1));
            if let Some(field) = self.pseudo.field_ref(ids[i]) {
                list.push(field);
                assert(list@.map_values(as_view) =~= before.push(field@));
            }
            i = i + 1;
            assert(list@.map_values(as_view) + pseudo_fields(self@.pseudo, ids@.skip(i as int))
                =~= before + pseudo_fields(self@.pseudo, rest));
        }
        assert(ids@.skip(6) =~= Seq::<PseudoId>::empty());
        assert(list@.map_values(as_view) =~= goal);
        let entries = field_list(&self.fields);
        let ghost regular = self@.fields.map_values(
            |entry: (Seq<u8>, Seq<u8>, bool)| regular_field(entry),
        );
        let mut j: usize = 0;
        assert(regular.take(0) =~= Seq::<FieldView>::empty());
        assert(goal + regular.take(0) =~= goal);
        while j < entries.len()
            invariant
                j <= entries@.len(),
                as_view == (|field: HeaderField| field@),
                entries@.map_values(|entry: (Vec<u8>, Vec<u8>, bool)| entry_view(entry))
                    == self@.fields,
                regular == self@.fields.map_values(
                    |entry: (Seq<u8>, Seq<u8>, bool)| regular_field(entry),
                ),
                list@.map_values(as_view) == goal + regular.take(j as int),
            decreases entries@.len() - j,
        {
            let ghost before = list@.map_values(as_view);
            let field = HeaderField {
                name: to_vec(entries[j].0.as_slice()),
                value: to_vec(entries[j].1.as_slice()),
                sensitive: entries[j].2,
            };
            assert(entry_view(entries@[j as int]) == self@.fields[j as int]);
            assert(field@ == regular[j as int]);
            list.push(field);
            assert(list@.map_values(as_view) =~= before.push(field@));
            assert(regular.take(j + 1) =~= regular.take(j as int).push(regular[j as int]));
            j = j + 1;
            assert(list@.map_values(as_view) =~= goal + regular.take(j as int));
        }
        assert(regular.take(j as int) =~= regular);
        list
    }
}

/// The order of the pseudo-header fields of a message.
fn pseudo_ids(pseudo: &Pseudo) -> (ids: [PseudoId; 6])
    ensures
        ids@ == order_of(pseudo@),
        ids@.no_duplicates(),
{
    match &pseudo.order {
        Some(order) => order.ids(),
        None => PseudoId::DEFAULT_IDS,
    }
}

/// The fields of a section, one after the other.
pub struct HeaderIter {
    pseudo: Option<Pseudo>,
    pseudo_order_index: usize,
    entries: Vec<(Vec<u8>, Vec<u8>, bool)>,
    entry_index: usize,
}

impl HeaderIter {
    pub closed spec fn wf(&self) -> bool {
        self.pseudo_order_index <= 6 && self.entry_index <= self.entries@.len()
    }

    /// The fields that are still to come.
    pub closed spec fn remaining(&self) -> Seq<FieldView> {
        (match self.pseudo {
            Some(pseudo) => pseudo_fields(
                pseudo@,
                order_of(pseudo@).skip(self.pseudo_order_index as int),
            ),
            None => Seq::empty(),
        }) + self.entries@.skip(self.entry_index as int).map_values(
            |entry: (Vec<u8>, Vec<u8>, bool)| regular_field(entry_view(entry)),
        )
    }

    /// The next field.
    ///
    /// All pseudo-header fields come before the regular fields; see
    /// <https://www.rfc-editor.org/rfc/rfc9114.html#section-4.3>.
    pub fn next(&mut self) -> (field: Option<HeaderField>)
        requires
            old(self).wf(),
        ensures
            final(self).wf(),
            match field {
                Some(field) => old(self).remaining().len() > 0 && field@ == old(self).remaining()[0] && final(self).remaining() == old(self).remaining().skip(1),
                None => old(self).remaining().len() == 0 && final(self).remaining() == old(self).remaining(),
            },
    {
        let ghost goal = self.remaining();
        if let Some(mut pseudo) = self.pseudo.take() {
            let ids = pseudo_ids(&pseudo);
            let ghost start = pseudo@;
            let ghost regular = self.entries@.skip(self.entry_index as int).map_values(
                |entry: (Vec<u8>, Vec<u8>, bool)| regular_field(entry_view(entry)),
            );
            while self.pseudo_order_index < 6
                invariant
                    self.wf(),
                    self.pseudo is None,
                    self.entries == old(self).entries,
                    self.entry_index == old(self).entry_index,
                    ids@ == order_of(start),
                    ids@.len() == 6,
                    ids@.no_duplicates(),
                    pseudo@.order == start.order,
                    pseudo_fields(pseudo@, ids@.skip(self.pseudo_order_index as int)) + regular
                        == goal,
                    regular == self.entries@.skip(self.entry_index as int).map_values(
                        |entry: (Vec<u8>, Vec<u8>, bool)| regular_field(entry_view(entry)),
                    ),
                    goal == old(self).remaining(),
                decreases 6 - self.pseudo_order_index,
            {
                let i: usize = self.pseudo_order_index;
                self.pseudo_order_index = i + 1;
                let ghost before = pseudo@;
                let ghost rest = ids@.skip(i as int);
                assert(rest.skip(1) =~= ids@.skip(i + 1));
                proof {
                    assert(!rest.skip(1).contains(rest[0])) by {
                        if rest.skip(1).contains(rest[0]) {
                            let j = rest.skip(1).index_of(rest[0]);
                            assert(ids@[i + 1 + j] == ids@[i as int]);
                        }
                    }
                    lemma_without_field(before, rest[0], rest.skip(1));
                }
                let found = pseudo.take_field(ids[i]);
                if let Some(field) = found {
                    assert(goal[0] == field@);
                    assert(goal.skip(1) =~= pseudo_fields(pseudo@, rest.skip(1)) + regular);
                    self.pseudo = Some(pseudo);
                    return Some(field);
                }
            }
            assert(ids@.skip(6) =~= Seq::<PseudoId>::empty());
            assert(goal =~= regular);
        }
        assert(self.remaining() =~= goal);
        if self.entry_index == self.entries.len() {
            return None;
        }
        let i: usize = self.entry_index;
        let field = HeaderField {
            name: to_vec(self.entries[i].0.as_slice()),
            value: to_vec(self.entries[i].1.as_slice()),
            sensitive: self.entries[i].2,
        };
        self.entry_index = i + 1;
        assert(self.remaining() =~= goal.skip(1));
        Some(field)
    }
}

/// Taking a field leaves the others as they are.
proof fn lemma_without_field(pseudo: PseudoView, id: PseudoId, ids: Seq<PseudoId>)
    requires
        !ids.contains(id),
    ensures
        pseudo_fields(without_field(pseudo, id), ids) == pseudo_fields(pseudo, ids),
    decreases ids.len(),
{
    if ids.len() > 0 {
        assert(ids[0] != id);
        assert(!ids.skip(1).contains(id)) by {
            if ids.skip(1).contains(id) {
                let j = ids.skip(1).index_of(id);
                assert(ids[j + 1] == id);
            }
        }
        lemma_without_field(pseudo, id, ids.skip(1));
    }
}

/// A field that was received.
#[derive(Debug, PartialEq, Eq)]
pub enum Field {
    Method(Vec<u8>),
    Scheme(Vec<u8>),
    Authority(Vec<u8>),
    Path(Vec<u8>),
    Status(u16),
    Protocol(Protocol),
    Header(Vec<u8>, Vec<u8>),
}

/// What a received field says.
pub enum ParsedField {
    Method(Seq<u8>),
    Scheme(Seq<u8>),
    Authority(Seq<u8>),
    Path(Seq<u8>),
    Status(u16),
    Protocol(Protocol),
    Header(Seq<u8>, Seq<u8>),
}

impl View for Field {
    type V = ParsedField;

    open spec fn view(&self) -> ParsedField {
        match *self {
            Field::Method(method) => ParsedField::Method(method@),
            Field::Scheme(scheme) => ParsedField::Scheme(scheme@),
            Field::Authority(authority) => ParsedField::Authority(authority@),
            Field::Path(path) => ParsedField::Path(path@),
            Field::Status(status) => ParsedField::Status(status),
            Field::Protocol(protocol) => ParsedField::Protocol(protocol),
            Field::Header(name, value) => ParsedField::Header(name@, value@),
        }
    }
}

/// What a pseudo-header field says, given what its value reads as.
pub open spec fn pseudo_value<T>(
    name: Seq<u8>,
    value: Seq<u8>,
    read: Option<T>,
    field: spec_fn(T) -> ParsedField,
) -> Result<ParsedField, HeaderErrorView> {
    match read {
        Some(read) => Ok(field(read)),
        None => Err(HeaderErrorView::InvalidHeaderValue(name, value)),
    }
}

/// What a field with this name and this value says.
///
/// See <https://www.rfc-editor.org/rfc/rfc9114.html#section-10.3>.
pub open spec fn parsed_field(name: Seq<u8>, value: Seq<u8>) -> Result<ParsedField, HeaderErrorView> {
    if name.len() == 0 {
        Err(HeaderErrorView::InvalidHeaderName(name))
    } else if name[0] != 0x3a {
        if !valid_name(name) {
            Err(HeaderErrorView::InvalidHeaderName(name))
        } else if !valid_value(value) {
            Err(HeaderErrorView::InvalidHeaderValue(name, value))
        } else {
            Ok(ParsedField::Header(name, value))
        }
    } else if name == SCHEME@ {
        pseudo_value(name, value, parsed_scheme(value), |v: Seq<u8>| ParsedField::Scheme(v))
    } else if name == AUTHORITY@ {
        pseudo_value(name, value, parsed_authority(value), |v: Seq<u8>| ParsedField::Authority(v))
    } else if name == PATH@ {
        pseudo_value(name, value, parsed_path(value), |v: Seq<u8>| ParsedField::Path(v))
    } else if name == METHOD@ {
        if valid_method(value) {
            Ok(ParsedField::Method(value))
        } else {
            Err(HeaderErrorView::InvalidHeaderValue(name, value))
        }
    } else if name == STATUS@ {
        pseudo_value(name, value, status_spec(value), |v: u16| ParsedField::Status(v))
    } else if name == PROTOCOL@ {
        pseudo_value(name, value, parsed_protocol(value), |v: Protocol| ParsedField::Protocol(v))
    } else {
        Err(HeaderErrorView::InvalidHeaderName(name))
    }
}

/// A result and what it says.
pub open spec fn viewed_field(result: Result<Field, HeaderError>) -> Result<
    ParsedField,
    HeaderErrorView,
> {
    match result {
        Ok(field) => Ok(field@),
        Err(error) => Err(error@),
    }
}

impl Field {
    /// Reads a field that was received.
    pub fn parse(name: Vec<u8>, value: Vec<u8>) -> (result: Result<Self, HeaderError>)
        ensures
            viewed_field(result) == parsed_field(name@, value@),
    {
        if name.len() == 0 {
            return Err(HeaderError::InvalidHeaderName(name));
        }
        if name[0] != 0x3a {
            if !name_is_valid(name.as_slice()) {
                return Err(HeaderError::InvalidHeaderName(name));
            }
            if !value_is_valid(value.as_slice()) {
                return Err(HeaderError::InvalidHeaderValue(name, value));
            }
            return Ok(Field::Header(name, value));
        }
        if same_bytes(name.as_slice(), SCHEME.as_slice()) {
            match parse_scheme(value.as_slice()) {
                Some(scheme) => Ok(Field::Scheme(scheme)),
                None => Err(HeaderError::InvalidHeaderValue(name, value)),
            }
        } else if same_bytes(name.as_slice(), AUTHORITY.as_slice()) {
            match parse_authority(value.as_slice()) {
                Some(authority) => Ok(Field::Authority(authority)),
                None => Err(HeaderError::InvalidHeaderValue(name, value)),
            }
        } else if same_bytes(name.as_slice(), PATH.as_slice()) {
            match parse_path(value.as_slice()) {
                Some(path) => Ok(Field::Path(path)),
                None => Err(HeaderError::InvalidHeaderValue(name, value)),
            }
        } else if same_bytes(name.as_slice(), METHOD.as_slice()) {
            if method_is_valid(value.as_slice()) {
                Ok(Field::Method(value))
            } else {
                Err(HeaderError::InvalidHeaderValue(name, value))
            }
        } else if same_bytes(name.as_slice(), STATUS.as_slice()) {
            match parse_status(value.as_slice()) {
                Some(status) => Ok(Field::Status(status)),
                None => Err(HeaderError::InvalidHeaderValue(name, value)),
            }
        } else if same_bytes(name.as_slice(), PROTOCOL.as_slice()) {
            match Protocol::parse(value.as_slice()) {
                Some(protocol) => Ok(Field::Protocol(protocol)),
                None => Err(HeaderError::InvalidHeaderValue(name, value)),
            }
        } else {
            Err(HeaderError::InvalidHeaderName(name))
        }
    }
}

/// The identifier of a pseudo-header field.
pub open spec fn id_of(field: ParsedField) -> PseudoId {
    match field {
        ParsedField::Method(_) => PseudoId::Method,
        ParsedField::Scheme(_) => PseudoId::Scheme,
        ParsedField::Authority(_) => PseudoId::Authority,
        ParsedField::Path(_) => PseudoId::Path,
        ParsedField::Status(_) => PseudoId::Status,
        _ => PseudoId::Protocol,
    }
}

/// A section with one more pseudo-header field.
pub open spec fn with_pseudo(pseudo: PseudoView, field: ParsedField, sensitive: bool) -> PseudoView {
    let counted = PseudoView {
        sensitive: mask_with(pseudo.sensitive, id_of(field), sensitive),
        len: (pseudo.len + 1) as usize,
        ..pseudo
    };
    match field {
        ParsedField::Method(method) => PseudoView { method: Some(method), ..counted },
        ParsedField::Scheme(scheme) => PseudoView { scheme: Some(scheme), ..counted },
        ParsedField::Authority(authority) => PseudoView { authority: Some(authority), ..counted },
        ParsedField::Path(path) => PseudoView { path: Some(path), ..counted },
        ParsedField::Status(status) => PseudoView { status: Some(status), ..counted },
        ParsedField::Protocol(protocol) => PseudoView { protocol: Some(protocol), ..counted },
        ParsedField::Header(_, _) => pseudo,
    }
}

/// A section with one more field.
pub open spec fn with_field(header: HeaderView, field: ParsedField, sensitive: bool) -> HeaderView {
    match field {
        ParsedField::Header(name, value) => HeaderView {
            fields: appended(header.fields, name, value, sensitive),
            ..header
        },
        _ => HeaderView { pseudo: with_pseudo(header.pseudo, field, sensitive), ..header },
    }
}

/// The section that received fields make.
pub open spec fn parsed_section(fields: Seq<FieldView>) -> Result<HeaderView, HeaderErrorView>
    decreases fields.len(),
{
    if fields.len() == 0 {
        Ok(HeaderView { pseudo: no_pseudo(), fields: Seq::empty() })
    } else {
        match parsed_section(fields.drop_last()) {
            Err(error) => Err(error),
            Ok(header) => match parsed_field(fields.last().name, fields.last().value) {
                Err(error) => Err(error),
                Ok(field) => Ok(with_field(header, field, fields.last().sensitive)),
            },
        }
    }
}

/// Fields do not make a section where the first of them do not.
proof fn lemma_section_fails(fields: Seq<FieldView>, i: int)
    requires
        0 <= i <= fields.len(),
        parsed_section(fields.take(i)) is Err,
    ensures
        parsed_section(fields) == parsed_section(fields.take(i)),
    decreases fields.len(),
{
    if i == fields.len() {
        assert(fields.take(i) =~= fields);
    } else {
        assert(fields.drop_last().take(i) =~= fields.take(i));
        lemma_section_fails(fields.drop_last(), i);
    }
}

impl Pseudo {
    /// Adds a pseudo-header field that was received.
    fn store(&mut self, field: Field, sensitive: bool)
        requires
            field !is Header,
            old(self).len < usize::MAX,
        ensures
            final(self)@ == with_pseudo(old(self)@, field@, sensitive),
    {
        self.len = self.len + 1;
        match field {
            Field::Method(method) => {
                self.method = Some(method);
                self.set_sensitive(PseudoId::Method, sensitive);
            },
            Field::Scheme(scheme) => {
                self.scheme = Some(scheme);
                self.set_sensitive(PseudoId::Scheme, sensitive);
            },
            Field::Authority(authority) => {
                self.authority = Some(authority);
                self.set_sensitive(PseudoId::Authority, sensitive);
            },
            Field::Path(path) => {
                self.path = Some(path);
                self.set_sensitive(PseudoId::Path, sensitive);
            },
            Field::Status(status) => {
                self.status = Some(status);
                self.set_sensitive(PseudoId::Status, sensitive);
            },
            Field::Protocol(protocol) => {
                self.protocol = Some(protocol);
                self.set_sensitive(PseudoId::Protocol, sensitive);
            },
            Field::Header(_, _) => {},
        }
    }
}

/// Whether a map of the regular fields may run out of room: before one of the fields, the
/// others have 6554 names or more.
pub open spec fn overfull(fields: Seq<FieldView>) -> bool {
    exists|n: int|
        0 <= n < fields.len() && parsed_section(#[trigger] fields.take(n)) is Ok && distinct_names(
            parsed_section(fields.take(n))->Ok_0.fields,
        ) >= 6554
}

impl Header {
    /// The section that received fields make.
    ///
    /// That there are too many fields is told at the earliest where regular fields with 6554
    /// names came before the one that found no room.
    pub fn try_from(headers: Vec<HeaderField>) -> (result: Result<Header, HeaderError>)
        ensures
            match result {
                Ok(header) => parsed_section(headers@.map_values(|field: HeaderField| field@))
                    == Ok::<HeaderView, HeaderErrorView>(header@),
                Err(HeaderError::TooManyFields) => overfull(
                    headers@.map_values(|field: HeaderField| field@),
                ),
                Err(error) => parsed_section(headers@.map_values(|field: HeaderField| field@))
                    == Err::<HeaderView, HeaderErrorView>(error@),
            },
    {
        let capacity: usize = if headers.len() <= 24576 {
            headers.len()
        } else {
            24576
        };
        let mut header = Header { pseudo: Pseudo::default(), fields: new_fields(capacity) };
        let ghost given = headers@;
        let ghost all = given.map_values(|field: HeaderField| field@);
        assert(all.take(0) =~= Seq::<FieldView>::empty());
        for field in it: headers.into_iter()
            invariant
                it.seq() == given,
                given == headers@,
                all == given.map_values(|field: HeaderField| field@),
                parsed_section(all.take(it.index() as int)) == Ok::<HeaderView, HeaderErrorView>(
                    header@,
                ),
                given.len() <= usize::MAX,
                header.pseudo.len <= it.index(),
                header@.fields.len() <= it.index(),
        {
            let ghost i = it.index() as int;
            proof {
                assert(all.take(i + 1).drop_last() =~= all.take(i));
                assert(all.take(i + 1).last() == given[i]@);
                if parsed_section(all.take(i + 1)) is Err {
                    lemma_section_fails(all, i + 1);
                }
            }
            let sensitive: bool = field.is_sensitive();
            let (name, value) = field.into_inner();
            let ghost before = header@;
            match Field::parse(name, value) {
                Err(error) => return Err(error),
                Ok(Field::Header(name, value)) => {
                    proof {
                        lemma_appended_len(before.fields, name@, value@, sensitive);
                    }
                    if !append_field(&mut header.fields, name.as_slice(), value, sensitive) {
                        assert(parsed_section(all.take(i)) is Ok);
                        return Err(HeaderError::TooManyFields);
                    }
                },
                Ok(field) => header.pseudo.store(field, sensitive),
            }
        }
        assert(all.take(given.len() as int) =~= all);
        Ok(header)
    }
}

proof fn lemma_appended_len(
    entries: Seq<(Seq<u8>, Seq<u8>, bool)>,
    name: Seq<u8>,
    value: Seq<u8>,
    sensitive: bool,
)
    ensures
        appended(entries, name, value, sensitive).len() == entries.len() + 1,
    decreases entries.len(),
{
    if super::fields::has_field(entries, name) && entries.last().0 != name {
        lemma_appended_len(entries.drop_last(), name, value, sensitive);
    }
}

/// Whether the fields of one name stand together.
pub open spec fn grouped(entries: Seq<(Seq<u8>, Seq<u8>, bool)>) -> bool {
    forall|i: int, j: int, k: int|
        0 <= i < j < k < entries.len() && (#[trigger] entries[i]).0 == (#[trigger] entries[k]).0
            ==> (#[trigger] entries[j]).0 == entries[i].0
}

/// Whether the regular fields of a section may be sent.
pub open spec fn sendable(entries: Seq<(Seq<u8>, Seq<u8>, bool)>) -> bool {
    grouped(entries) && forall|i: int|
        0 <= i < entries.len() ==> valid_name((#[trigger] entries[i]).0) && valid_value(
            entries[i].1,
        )
}

/// Whether the pseudo-header fields of a section read as themselves.
pub open spec fn readable(pseudo: PseudoView) -> bool {
    &&& pseudo.method matches Some(method) ==> valid_method(method)
    &&& pseudo.scheme matches Some(scheme) ==> parsed_scheme(scheme) == Some(scheme)
    &&& pseudo.authority matches Some(authority) ==> parsed_authority(authority) == Some(authority)
    &&& pseudo.path matches Some(path) ==> parsed_path(path) == Some(path)
    &&& pseudo.status matches Some(status) ==> 100 <= status <= 999
    &&& pseudo.order matches Some(order) ==> is_complete(order@)
}

/// The section that is received is the one that was sent: the same fields, with the same
/// values, as sensitive as they were.
pub proof fn section_is_received_as_sent(
    pseudo: PseudoView,
    entries: Seq<(Seq<u8>, Seq<u8>, bool)>,
)
    requires
        readable(pseudo),
        sendable(entries),
    ensures
        ({
            let received = parsed_section(section_fields(pseudo, entries));
            &&& received is Ok
            &&& received->Ok_0.fields == entries
            &&& forall|id: PseudoId| #[trigger]
                pseudo_field(received->Ok_0.pseudo, id) == pseudo_field(pseudo, id)
        }),
{
    let ids = order_of(pseudo);
    let front = pseudo_fields(pseudo, ids);
    lemma_default_order();
    assert(is_complete(ids));
    assert(ids.take(ids.len() as int) =~= ids);
    lemma_pseudo_received(pseudo, ids, ids.len() as int);
    lemma_entries_received(pseudo, entries, entries.len() as int);
    assert(entries.take(entries.len() as int) =~= entries);
}

pub proof fn lemma_default_order()
    ensures
        is_complete(default_ids()),
{
    let ids = default_ids();
    assert(ids[0] == PseudoId::Method);
    assert(ids[1] == PseudoId::Scheme);
    assert(ids[2] == PseudoId::Authority);
    assert(ids[3] == PseudoId::Path);
    assert(ids[4] == PseudoId::Protocol);
    assert(ids[5] == PseudoId::Status);
    assert forall|id: PseudoId| #[trigger] ids.contains(id) by {
        match id {
            PseudoId::Method => assert(ids[0] == id),
            PseudoId::Scheme => assert(ids[1] == id),
            PseudoId::Authority => assert(ids[2] == id),
            PseudoId::Path => assert(ids[3] == id),
            PseudoId::Protocol => assert(ids[4] == id),
            PseudoId::Status => assert(ids[5] == id),
        }
    }
}

/// One pseudo-header field more stands behind the others.
proof fn lemma_pseudo_fields_push(pseudo: PseudoView, ids: Seq<PseudoId>, id: PseudoId)
    ensures
        pseudo_fields(pseudo, ids.push(id)) == match pseudo_field(pseudo, id) {
            Some(field) => pseudo_fields(pseudo, ids).push(field),
            None => pseudo_fields(pseudo, ids),
        },
    decreases ids.len(),
{
    let all = ids.push(id);
    if ids.len() == 0 {
        assert(all.skip(1) =~= Seq::<PseudoId>::empty());
        assert(pseudo_fields(pseudo, all.skip(1)) =~= Seq::<FieldView>::empty());
        if let Some(field) = pseudo_field(pseudo, id) {
            assert(pseudo_fields(pseudo, all) =~= pseudo_fields(pseudo, ids).push(field));
        }
    } else {
        lemma_pseudo_fields_push(pseudo, ids.skip(1), id);
        assert(all.skip(1) =~= ids.skip(1).push(id));
        if let Some(field) = pseudo_field(pseudo, id) {
            assert(pseudo_fields(pseudo, all) =~= pseudo_fields(pseudo, ids).push(field));
        }
    }
}

/// The pseudo-header fields that were sent so far have been received, and no others.
proof fn lemma_pseudo_received(pseudo: PseudoView, ids: Seq<PseudoId>, n: int)
    requires
        readable(pseudo),
        ids.no_duplicates(),
        0 <= n <= ids.len(),
    ensures
        ({
            let received = parsed_section(pseudo_fields(pseudo, ids.take(n)));
            &&& received is Ok
            &&& received->Ok_0.fields == Seq::<(Seq<u8>, Seq<u8>, bool)>::empty()
            &&& forall|id: PseudoId| #[trigger]
                pseudo_field(received->Ok_0.pseudo, id) == if ids.take(n).contains(id) {
                    pseudo_field(pseudo, id)
                } else {
                    None
                }
        }),
    decreases n,
{
    if n == 0 {
        assert(ids.take(0) =~= Seq::<PseudoId>::empty());
        lemma_unmarked();
    } else {
        lemma_pseudo_received(pseudo, ids, n - 1);
        let id = ids[n - 1];
        let before = ids.take(n - 1);
        assert(ids.take(n) =~= before.push(id));
        lemma_pseudo_fields_push(pseudo, before, id);
        let sent = pseudo_fields(pseudo, before);
        assert(!before.contains(id)) by {
            if before.contains(id) {
                let i = before.index_of(id);
                assert(ids[i] == ids[n - 1]);
            }
        }
        assert forall|other: PseudoId| #[trigger]
            before.push(id).contains(other) == (before.contains(other) || other == id) by {
            assert(before.push(id)[n - 1] == id);
            if before.contains(other) {
                let i = before.index_of(other);
                assert(before.push(id)[i] == other);
            }
        }
        if let Some(field) = pseudo_field(pseudo, id) {
            assert(sent.push(field).drop_last() =~= sent);
            lemma_field_received(pseudo, id);
            let header = parsed_section(sent)->Ok_0;
            let read = parsed_field(field.name, field.value)->Ok_0;
            lemma_mask_with(header.pseudo.sensitive, id, field.sensitive);
            let after = with_pseudo(header.pseudo, read, field.sensitive);
            assert forall|other: PseudoId| #[trigger]
                pseudo_field(after, other) == if before.push(id).contains(other) {
                    pseudo_field(pseudo, other)
                } else {
                    None
                } by {
                assert(pseudo_field(header.pseudo, other) == if before.contains(other) {
                    pseudo_field(pseudo, other)
                } else {
                    None
                });
                if other != id {
                    assert(pseudo_field(after, other) == pseudo_field(header.pseudo, other));
                }
            }
        }
    }
}

/// A pseudo-header field reads as itself.
proof fn lemma_field_received(pseudo: PseudoView, id: PseudoId)
    requires
        readable(pseudo),
        pseudo_field(pseudo, id) is Some,
    ensures
        ({
            let field = pseudo_field(pseudo, id)->Some_0;
            let read = parsed_field(field.name, field.value);
            &&& read is Ok
            &&& read->Ok_0 !is Header
            &&& id_of(read->Ok_0) == id
            &&& forall|q: PseudoView, s: bool|
                (s == field.sensitive && marked(mask_with(q.sensitive, id, s), id) == s)
                    ==> pseudo_field(#[trigger] with_pseudo(q, read->Ok_0, s), id) == Some(field)
        }),
{
    assert(METHOD@.len() == 7 && METHOD@[0] == 0x3a && METHOD@[1] == 0x6d);
    assert(SCHEME@.len() == 7 && SCHEME@[0] == 0x3a && SCHEME@[1] == 0x73 && SCHEME@[2] == 0x63);
    assert(AUTHORITY@.len() == 10 && AUTHORITY@[0] == 0x3a);
    assert(PATH@.len() == 5 && PATH@[0] == 0x3a);
    assert(STATUS@.len() == 7 && STATUS@[0] == 0x3a && STATUS@[1] == 0x73 && STATUS@[2] == 0x74);
    assert(PROTOCOL@.len() == 9 && PROTOCOL@[0] == 0x3a);
    match id {
        PseudoId::Status => {
            let status = pseudo.status->Some_0;
            let text = status_text(status);
            assert(text.len() == 3);
            assert(100 * (status as int / 100) + 10 * (status as int / 10 % 10) + status as int % 10
                == status);
            assert(status / 100 % 10 == status / 100);
        },
        PseudoId::Protocol => {
            crate::ext::protocol_round_trip(pseudo.protocol->Some_0);
        },
        _ => {},
    }
}

/// The regular fields that were sent so far have been received, behind the others.
proof fn lemma_entries_received(
    pseudo: PseudoView,
    entries: Seq<(Seq<u8>, Seq<u8>, bool)>,
    n: int,
)
    requires
        sendable(entries),
        0 <= n <= entries.len(),
        parsed_section(pseudo_fields(pseudo, order_of(pseudo))) is Ok,
        parsed_section(pseudo_fields(pseudo, order_of(pseudo)))->Ok_0.fields == Seq::<
            (Seq<u8>, Seq<u8>, bool),
        >::empty(),
    ensures
        ({
            let front = parsed_section(pseudo_fields(pseudo, order_of(pseudo)))->Ok_0;
            parsed_section(section_fields(pseudo, entries.take(n))) == Ok::<
                HeaderView,
                HeaderErrorView,
            >(HeaderView { pseudo: front.pseudo, fields: entries.take(n) })
        }),
    decreases n,
{
    let as_field = |entry: (Seq<u8>, Seq<u8>, bool)| regular_field(entry);
    let front = pseudo_fields(pseudo, order_of(pseudo));
    let sent = section_fields(pseudo, entries.take(n));
    if n == 0 {
        assert(entries.take(0) =~= Seq::<(Seq<u8>, Seq<u8>, bool)>::empty());
        assert(sent =~= front);
    } else {
        lemma_entries_received(pseudo, entries, n - 1);
        let (name, value, sensitive) = entries[n - 1];
        let before = entries.take(n - 1);
        assert(sent.drop_last() =~= section_fields(pseudo, before));
        assert(sent.last() == regular_field(entries[n - 1]));
        assert(is_name_byte(name[0]));
        assert(name[0] != 0x3a);
        assert(appended(before, name, value, sensitive) =~= entries.take(n)) by {
            if super::fields::has_field(before, name) {
                let i = choose|i: int| 0 <= i < before.len() && (#[trigger] before[i]).0 == name;
                assert(entries[i].0 == entries[n - 1].0);
                assert(before.last() == entries[n - 2]);
                if i < n - 2 {
                    assert(entries[n - 2].0 == entries[i].0);
                }
            }
        }
    }
}

} // verus!
