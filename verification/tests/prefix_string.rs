use http3::buf::Reader;
use http3::qpack::prefix_int;
use http3::qpack::prefix_string::{decode, decode_limited, encode, Error};

#[test]
fn codec_6() {
    let mut buf = Vec::new();
    encode(6, 0b01, b"name without ref", &mut buf).unwrap();
    let mut read = Reader::new(&buf);
    assert_eq!(
        &buf,
        &[
            0b0110_1100,
            168,
            116,
            149,
            79,
            6,
            76,
            231,
            181,
            42,
            88,
            89,
            127
        ]
    );
    assert_eq!(decode(6, &mut read).unwrap(), b"name without ref");
}

#[test]
fn codec_8() {
    let mut buf = Vec::new();
    encode(8, 0b01, b"name with ref", &mut buf).unwrap();
    let mut read = Reader::new(&buf);
    assert_eq!(
        &buf,
        &[0b1000_1010, 168, 116, 149, 79, 6, 76, 234, 88, 89, 127]
    );
    assert_eq!(decode(8, &mut read).unwrap(), b"name with ref");
}

#[test]
fn codec_8_empty() {
    let mut buf = Vec::new();
    encode(8, 0b01, b"", &mut buf).unwrap();
    let mut read = Reader::new(&buf);
    assert_eq!(&buf, &[0b1000_0000]);
    assert_eq!(decode(8, &mut read).unwrap(), b"");
}

#[test]
fn decode_non_huffman() {
    let buf = vec![0b0100_0011, b'b', b'a', b'r'];
    let mut read = Reader::new(&buf);
    assert_eq!(decode(6, &mut read).unwrap(), b"bar");
}

#[test]
fn decode_too_short() {
    let buf = vec![0b0100_0011, b'b', b'a'];
    let mut read = Reader::new(&buf);
    assert!(matches!(decode(6, &mut read), Err(Error::UnexpectedEnd)));
}

#[test]
fn encoded_length_limit_is_checked_before_payload() {
    let mut buf = Vec::new();
    prefix_int::encode(7, 0, 5, &mut buf);
    let prefix_len = buf.len();
    let mut read = Reader::new(&buf);

    assert_eq!(
        decode_limited(8, &mut read, 4),
        Err(Error::EncodedStringTooLong { len: 5, limit: 4 })
    );
    assert_eq!(buf.len() - read.remaining(), prefix_len);
    assert_eq!(read.remaining(), 0);
}

#[test]
fn huffman_payload_decodes_from_borrowed_bytes() {
    // RFC 7541 Appendix C.4.1 encodes "www.example.com" as these
    // twelve Huffman octets.
    // https://www.rfc-editor.org/rfc/rfc7541.html#appendix-C.4.1
    let bytes = vec![
        0x8c, 0xf1, 0xe3, 0xc2, 0xe5, 0xf2, 0x3a, 0x6b, 0xa0, 0xab, 0x90, 0xf4, 0xff,
    ];
    let mut encoded = Reader::new(&bytes);

    let decoded = decode(8, &mut encoded).unwrap();

    assert_eq!(decoded, b"www.example.com");
}
