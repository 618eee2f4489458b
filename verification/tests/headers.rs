use http::{HeaderMap, HeaderValue, Method, Uri};
use http3::ext::Protocol;
use http3::proto::headers::{
    Header, HeaderError, MessageExtensions, PseudoHeaderSensitivity, PseudoId, PseudoOrder, Target,
};
use http3::qpack::{encode_stateless, HeaderField};

fn line<N: AsRef<[u8]>, V: AsRef<[u8]>>(name: N, value: V) -> HeaderField {
    HeaderField::new(name.as_ref(), value.as_ref())
}

fn get() -> Vec<u8> {
    Method::GET.as_str().as_bytes().to_vec()
}

fn target(uri: &'static str) -> Target {
    let uri = Uri::from_static(uri);
    Target {
        scheme: uri.scheme_str().map(|s| s.as_bytes().to_vec()),
        authority: uri.authority().map(|a| a.as_str().as_bytes().to_vec()),
        path: uri.path_and_query().map(|p| p.as_str().as_bytes().to_vec()),
    }
}

fn all_fields(headers: Header) -> Vec<HeaderField> {
    let mut iter = headers.into_iter();
    let mut fields = vec![];
    while let Some(field) = iter.next() {
        fields.push(field);
    }
    fields
}

fn pseudo_names(headers: Header) -> Vec<String> {
    all_fields(headers)
        .into_iter()
        .filter(|h| h.name.starts_with(b":"))
        .map(|h| String::from_utf8_lossy(&h.name).into_owned())
        .collect()
}

fn assert_ref_encoding_matches_owned(headers: Header) {
    let mut borrowed = Vec::new();
    let borrowed_size = encode_stateless(&mut borrowed, &headers.iter_ref()).unwrap();

    let mut owned = Vec::new();
    let owned_size = encode_stateless(&mut owned, &all_fields(headers)).unwrap();

    assert_eq!(borrowed, owned);
    assert_eq!(borrowed_size, owned_size);
}

// https://www.rfc-editor.org/rfc/rfc9114#section-4.3.1
// If the :scheme pseudo-header field identifies a scheme that has a
// mandatory authority component (including "http" and "https"), the
// request MUST contain either an :authority pseudo-header field or a
// Host header field.
#[test]
fn request_has_no_authority_nor_host() {
    let headers = Header::try_from(vec![line(b":method", Method::GET.as_str())]).unwrap();
    assert!(headers.pseudo.authority.is_none());
    assert!(matches!(
        headers.into_request_parts(),
        Err(HeaderError::MissingAuthority)
    ));
}

// If these fields are present, they MUST NOT be empty.
#[test]
fn request_has_empty_authority() {
    assert!(matches!(
        Header::try_from(vec![
            line(b":method", Method::GET.as_str()),
            line(b":authority", b""),
        ]),
        Err(HeaderError::InvalidHeaderValue(_, _))
    ));
}

#[test]
fn request_has_empty_host() {
    let headers = Header::try_from(vec![
        line(b":method", Method::GET.as_str()),
        line(b"host", b""),
    ])
    .unwrap();
    assert!(matches!(
        headers.into_request_parts(),
        Err(HeaderError::InvalidRequest(_))
    ));
}

#[test]
fn request_has_authority() {
    let headers = Header::try_from(vec![
        line(b":method", Method::GET.as_str()),
        line(b":authority", b"test.com"),
    ])
    .unwrap();
    assert!(matches!(headers.into_request_parts(), Ok(_)));
}

#[test]
fn request_has_host() {
    let headers = Header::try_from(vec![
        line(b":method", Method::GET.as_str()),
        line(b"host", b"test.com"),
    ])
    .unwrap();
    assert!(headers.pseudo.authority.is_none());
    assert!(matches!(headers.into_request_parts(), Ok(_)));
}

// If both fields are present, they MUST contain the same value.
#[test]
fn request_has_same_host_and_authority() {
    let headers = Header::try_from(vec![
        line(b":method", Method::GET.as_str()),
        line(b":authority", b"test.com"),
        line(b"host", b"test.com"),
    ])
    .unwrap();
    assert!(matches!(headers.into_request_parts(), Ok(_)));
}

#[test]
fn request_has_different_host_and_authority() {
    let headers = Header::try_from(vec![
        line(b":method", Method::GET.as_str()),
        line(b":authority", b"authority.com"),
        line(b"host", b"host.com"),
    ])
    .unwrap();
    assert!(matches!(
        headers.into_request_parts(),
        Err(HeaderError::ContradictedAuthority)
    ));
}

#[test]
fn preserves_duplicate_headers() {
    let headers = Header::try_from(vec![
        line(b":method", Method::GET.as_str()),
        line(b":authority", b"test.com"),
        line(b"set-cookie", b"foo=foo"),
        line(b"set-cookie", b"bar=bar"),
        line(b"other-header", b"other-header-value"),
    ])
    .unwrap();

    let fields = all_fields(headers);
    assert_eq!(
        fields
            .iter()
            .filter(|h| h.name == b"set-cookie")
            .collect::<Vec<_>>(),
        vec![
            &line(b"set-cookie", b"foo=foo"),
            &line(b"set-cookie", b"bar=bar"),
        ]
    );
    assert_eq!(
        fields
            .iter()
            .filter(|h| h.name == b"other-header")
            .collect::<Vec<_>>(),
        vec![&line(b"other-header", b"other-header-value")]
    );
}

#[test]
fn decoded_regular_fields_preserve_borrowed_and_owned_values() {
    let mut owned = Vec::with_capacity(64);
    owned.extend_from_slice(b"owned-value");
    let owned_ptr = owned.as_ptr();
    let exact = b"0".to_vec();
    let exact_ptr = exact.as_ptr();
    let headers = Header::try_from(vec![
        line(b":status", b"200"),
        HeaderField {
            name: b"content-length".to_vec(),
            value: exact,
            sensitive: true,
        },
        HeaderField {
            name: b"x-owned".to_vec(),
            value: owned,
            sensitive: false,
        },
    ])
    .unwrap();

    let (status, fields, _) = headers.into_response_parts().unwrap();

    assert_eq!(status, 200);
    assert_eq!(fields["content-length"], "0");
    assert!(fields["content-length"].is_sensitive());
    assert_eq!(fields["x-owned"], "owned-value");
    // The values were moved, not copied.
    assert_eq!(fields["content-length"].as_bytes().as_ptr(), exact_ptr);
    assert_eq!(fields["x-owned"].as_bytes().as_ptr(), owned_ptr);
}

#[test]
fn decoded_regular_field_errors_preserve_diagnostics() {
    let borrowed = Header::try_from(vec![line(b"x-invalid", b"bad\nvalue")]).unwrap_err();
    let owned =
        Header::try_from(vec![line(b"x-invalid".to_vec(), b"bad\nvalue".to_vec())]).unwrap_err();

    assert!(matches!(borrowed, HeaderError::InvalidHeaderValue(_, _)));
    assert!(matches!(owned, HeaderError::InvalidHeaderValue(_, _)));
    assert_eq!(borrowed, owned);
}

#[test]
fn request_pseudo_sensitivity_survives_http_parts() {
    let headers = Header::try_from(vec![
        line(b":method", b"GET").with_sensitive(true),
        line(b":scheme", b"https"),
        line(b":authority", b"example.com"),
        line(b":path", b"/"),
    ])
    .unwrap();
    let parts = headers.into_request_parts().unwrap();

    assert!(parts.sensitivity.is_sensitive(PseudoId::Method));

    let extensions = MessageExtensions {
        sensitivity: Some(parts.sensitivity),
        ..MessageExtensions::default()
    };
    let forwarded = Header::request(parts.method, parts.target, parts.fields, extensions).unwrap();
    let method = all_fields(forwarded)
        .into_iter()
        .find(|field| field.name == b":method")
        .unwrap();

    assert!(method.is_sensitive());
}

#[test]
fn response_pseudo_sensitivity_survives_http_parts() {
    let headers = Header::try_from(vec![line(b":status", b"200").with_sensitive(true)]).unwrap();
    let (status, fields, sensitivity) = headers.into_response_parts().unwrap();

    assert!(sensitivity.is_sensitive(PseudoId::Status));

    let extensions = MessageExtensions {
        sensitivity: Some(sensitivity),
        ..MessageExtensions::default()
    };
    let forwarded = Header::response(status, fields, extensions);
    let status = all_fields(forwarded)
        .into_iter()
        .find(|field| field.name == b":status")
        .unwrap();

    assert!(status.is_sensitive());
}

#[test]
fn test_pseudo_order_default() {
    let order = PseudoOrder::builder().build();
    assert_eq!(order.ids().len(), PseudoId::DEFAULT_STACK_SIZE);
    assert_eq!(order.ids(), PseudoId::DEFAULT_IDS);
    assert!(std::mem::size_of::<PseudoOrder>() <= 8);
    assert!(std::mem::size_of::<Option<PseudoOrder>>() <= 8);
}

#[test]
fn test_pseudo_order_duplicate() {
    let order = PseudoOrder::builder()
        .push(PseudoId::Scheme)
        .push(PseudoId::Scheme)
        .build();

    assert_eq!(order.ids().len(), PseudoId::DEFAULT_IDS.len());
    assert_eq!(order.ids()[0], PseudoId::Scheme);
    assert_ne!(order.ids()[1], PseudoId::Scheme);
}

#[test]
fn test_pseudo_order_custom_chrome_masp() {
    // Chrome uses "masp" order: Method, Authority, Scheme, Path
    let order = PseudoOrder::builder()
        .push(PseudoId::Method)
        .push(PseudoId::Authority)
        .push(PseudoId::Scheme)
        .push(PseudoId::Path)
        .build();

    let mut headers = Header::request(
        get(),
        target("https://example.com/test"),
        HeaderMap::new(),
        MessageExtensions::default(),
    )
    .unwrap();
    headers.set_pseudo_order(order);

    assert_eq!(
        pseudo_names(headers),
        vec![":method", ":authority", ":scheme", ":path"]
    );
}

#[test]
fn test_pseudo_order_custom_firefox_msap() {
    // Firefox uses "msap" order: Method, Scheme, Authority, Path
    let order = PseudoOrder::builder()
        .push(PseudoId::Method)
        .push(PseudoId::Scheme)
        .push(PseudoId::Authority)
        .push(PseudoId::Path)
        .build();

    let mut headers = Header::request(
        get(),
        target("https://example.com/test"),
        HeaderMap::new(),
        MessageExtensions::default(),
    )
    .unwrap();
    headers.set_pseudo_order(order);

    assert_eq!(
        pseudo_names(headers),
        vec![":method", ":scheme", ":authority", ":path"]
    );
}

#[test]
fn test_pseudo_order_default_unchanged() {
    let headers = Header::request(
        get(),
        target("https://example.com/test"),
        HeaderMap::new(),
        MessageExtensions::default(),
    )
    .unwrap();

    assert_eq!(
        pseudo_names(headers),
        vec![":method", ":scheme", ":authority", ":path"]
    );
}

#[test]
fn borrowed_encoding_matches_owned_for_request_variants() {
    assert_ref_encoding_matches_owned(
        Header::request(
            get(),
            target("https://example.com/resource"),
            HeaderMap::new(),
            MessageExtensions::default(),
        )
        .unwrap(),
    );

    let mut fields = HeaderMap::new();
    let mut sensitive = HeaderValue::from_static("first");
    sensitive.set_sensitive(true);
    fields.append("x-repeated", sensitive);
    fields.append("x-repeated", HeaderValue::from_static("second"));
    let mut pseudo_sensitivity = PseudoHeaderSensitivity::default();
    pseudo_sensitivity.set_sensitive(PseudoId::Authority, true);
    let extensions = MessageExtensions {
        protocol: None,
        order: Some(
            PseudoOrder::builder()
                .push(PseudoId::Authority)
                .push(PseudoId::Method)
                .push(PseudoId::Path)
                .push(PseudoId::Scheme)
                .build(),
        ),
        sensitivity: Some(pseudo_sensitivity),
    };
    assert_ref_encoding_matches_owned(
        Header::request(
            get(),
            target("https://example.com/custom"),
            fields,
            extensions,
        )
        .unwrap(),
    );

    assert_ref_encoding_matches_owned(
        Header::request(
            b"CONNECT".to_vec(),
            target("https://example.com"),
            HeaderMap::new(),
            MessageExtensions::default(),
        )
        .unwrap(),
    );

    let extensions = MessageExtensions {
        protocol: Some(Protocol::WebSocket),
        ..MessageExtensions::default()
    };
    assert_ref_encoding_matches_owned(
        Header::request(
            b"CONNECT".to_vec(),
            target("https://example.com/chat"),
            HeaderMap::new(),
            extensions,
        )
        .unwrap(),
    );
}
