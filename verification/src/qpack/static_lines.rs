//! The lines of the static table, told apart.
use vstd::prelude::*;
use vstd::utf8::encode_utf8_decode_utf8;
use super::static_::{
    find_spec, is_first_line, lemma_first_line_unique, lookup_spec, static_entry, static_name,
    static_value, StaticLookup, STATIC_ENTRIES, STATIC_NAMES, STATIC_VALUES,
};

verus! {

/// A letter of a text, or nothing past its end.
spec fn letter(text: Seq<char>, i: int) -> int {
    if 0 <= i < text.len() {
        text[i] as int
    } else {
        0
    }
}

/// A number by which the lines of the static table can be told apart: some of the letters
/// and the lengths of a line, weighted.
spec fn mark(name: Seq<char>, value: Seq<char>) -> int {
    4 * (name.len() + value.len() + letter(value, 0) + letter(value, 5)) + 5 * (letter(name, 1)
        + letter(value, value.len() - 1))
}

/// The mark of a line of the table.
#[verifier::opaque]
spec fn static_mark(index: int) -> int {
    mark(STATIC_NAMES@[index]@, STATIC_VALUES@[index]@)
}

/// The line with this mark.
spec fn marked(mark: int) -> int {
    if mark == 525 {
        0
    } else if mark == 1007 {
        1
    } else if mark == 963 {
        2
    } else if mark == 631 {
        3
    } else if mark == 1047 {
        4
    } else if mark == 579 {
        5
    } else if mark == 501 {
        6
    } else if mark == 596 {
        7
    } else if mark == 578 {
        8
    } else if mark == 562 {
        9
    } else if mark == 537 {
        10
    } else if mark == 541 {
        11
    } else if mark == 587 {
        12
    } else if mark == 533 {
        13
    } else if mark == 545 {
        14
    } else if mark == 1557 {
        15
    } else if mark == 1490 {
        16
    } else if mark == 1289 {
        17
    } else if mark == 1217 {
        18
    } else if mark == 1644 {
        19
    } else if mark == 1329 {
        20
    } else if mark == 1325 {
        21
    } else if mark == 1595 {
        22
    } else if mark == 1614 {
        23
    } else if mark == 1066 {
        24
    } else if mark == 1055 {
        25
    } else if mark == 1079 {
        26
    } else if mark == 1083 {
        27
    } else if mark == 1082 {
        28
    } else if mark == 909 {
        29
    } else if mark == 1900 {
        30
    } else if mark == 1733 {
        31
    } else if mark == 1534 {
        32
    } else if mark == 1775 {
        33
    } else if mark == 1996 {
        34
    } else if mark == 985 {
        35
    } else if mark == 1661 {
        36
    } else if mark == 1685 {
        37
    } else if mark == 1681 {
        38
    } else if mark == 1910 {
        39
    } else if mark == 1958 {
        40
    } else if mark == 1717 {
        41
    } else if mark == 1589 {
        42
    } else if mark == 1607 {
        43
    } else if mark == 1984 {
        44
    } else if mark == 2055 {
        45
    } else if mark == 2001 {
        46
    } else if mark == 2019 {
        47
    } else if mark == 1757 {
        48
    } else if mark == 1766 {
        49
    } else if mark == 1762 {
        50
    } else if mark == 2070 {
        51
    } else if mark == 1859 {
        52
    } else if mark == 2105 {
        53
    } else if mark == 1891 {
        54
    } else if mark == 1398 {
        55
    } else if mark == 1832 {
        56
    } else if mark == 2243 {
        57
    } else if mark == 2204 {
        58
    } else if mark == 1928 {
        59
    } else if mark == 1959 {
        60
    } else if mark == 1699 {
        61
    } else if mark == 1472 {
        62
    } else if mark == 1051 {
        63
    } else if mark == 1075 {
        64
    } else if mark == 1085 {
        65
    } else if mark == 1069 {
        66
    } else if mark == 1063 {
        67
    } else if mark == 1078 {
        68
    } else if mark == 1068 {
        69
    } else if mark == 1088 {
        70
    } else if mark == 1067 {
        71
    } else if mark == 555 {
        72
    } else if mark == 1268 {
        73
    } else if mark == 1320 {
        74
    } else if mark == 989 {
        75
    } else if mark == 1611 {
        76
    } else if mark == 2114 {
        77
    } else if mark == 2094 {
        78
    } else if mark == 2023 {
        79
    } else if mark == 2004 {
        80
    } else if mark == 1615 {
        81
    } else if mark == 1655 {
        82
    } else if mark == 1554 {
        83
    } else if mark == 637 {
        84
    } else if mark == 1978 {
        85
    } else if mark == 970 {
        86
    } else if mark == 636 {
        87
    } else if mark == 591 {
        88
    } else if mark == 542 {
        89
    } else if mark == 594 {
        90
    } else if mark == 2077 {
        91
    } else if mark == 529 {
        92
    } else if mark == 983 {
        93
    } else if mark == 1105 {
        94
    } else if mark == 615 {
        95
    } else if mark == 285 {
        96
    } else if mark == 1306 {
        97
    } else {
        98
    }
}

/// The marks of the lines 0 to 8.
proof fn lemma_marks_0()
    ensures
        forall|i: int| 0 <= i < 9 ==> marked(#[trigger] static_mark(i)) == i,
{
    reveal(static_mark);
    reveal_strlit("");
    reveal_strlit("/");
    reveal_strlit("0");
    reveal_strlit(":authority");
    reveal_strlit(":path");
    reveal_strlit("age");
    reveal_strlit("content-disposition");
    reveal_strlit("content-length");
    reveal_strlit("cookie");
    reveal_strlit("date");
    reveal_strlit("etag");
    reveal_strlit("if-modified-since");
    assert(static_mark(0) == 525);
    assert(static_mark(1) == 1007);
    assert(static_mark(2) == 963);
    assert(static_mark(3) == 631);
    assert(static_mark(4) == 1047);
    assert(static_mark(5) == 579);
    assert(static_mark(6) == 501);
    assert(static_mark(7) == 596);
    assert(static_mark(8) == 578);
}

/// The marks of the lines 9 to 17.
proof fn lemma_marks_9()
    ensures
        forall|i: int| 9 <= i < 18 ==> marked(#[trigger] static_mark(i)) == i,
{
    reveal(static_mark);
    reveal_strlit("");
    reveal_strlit(":method");
    reveal_strlit("CONNECT");
    reveal_strlit("DELETE");
    reveal_strlit("GET");
    reveal_strlit("if-none-match");
    reveal_strlit("last-modified");
    reveal_strlit("link");
    reveal_strlit("location");
    reveal_strlit("referer");
    reveal_strlit("set-cookie");
    assert(static_mark(9) == 562);
    assert(static_mark(10) == 537);
    assert(static_mark(11) == 541);
    assert(static_mark(12) == 587);
    assert(static_mark(13) == 533);
    assert(static_mark(14) == 545);
    assert(static_mark(15) == 1557);
    assert(static_mark(16) == 1490);
    assert(static_mark(17) == 1289);
}

/// The marks of the lines 18 to 26.
proof fn lemma_marks_18()
    ensures
        forall|i: int| 18 <= i < 27 ==> marked(#[trigger] static_mark(i)) == i,
{
    reveal(static_mark);
    reveal_strlit("103");
    reveal_strlit("200");
    reveal_strlit("304");
    reveal_strlit(":method");
    reveal_strlit(":scheme");
    reveal_strlit(":status");
    reveal_strlit("HEAD");
    reveal_strlit("OPTIONS");
    reveal_strlit("POST");
    reveal_strlit("PUT");
    reveal_strlit("http");
    reveal_strlit("https");
    assert(static_mark(18) == 1217);
    assert(static_mark(19) == 1644);
    assert(static_mark(20) == 1329);
    assert(static_mark(21) == 1325);
    assert(static_mark(22) == 1595);
    assert(static_mark(23) == 1614);
    assert(static_mark(24) == 1066);
    assert(static_mark(25) == 1055);
    assert(static_mark(26) == 1079);
}

/// The marks of the lines 27 to 35.
proof fn lemma_marks_27()
    ensures
        forall|i: int| 27 <= i < 36 ==> marked(#[trigger] static_mark(i)) == i,
{
    reveal(static_mark);
    reveal_strlit("*");
    reveal_strlit("*/*");
    reveal_strlit("404");
    reveal_strlit("503");
    reveal_strlit(":status");
    reveal_strlit("accept");
    reveal_strlit("accept-encoding");
    reveal_strlit("accept-ranges");
    reveal_strlit("access-control-allow-headers");
    reveal_strlit("access-control-allow-origin");
    reveal_strlit("application/dns-message");
    reveal_strlit("bytes");
    reveal_strlit("cache-control");
    reveal_strlit("content-type");
    reveal_strlit("gzip, deflate, br");
    assert(static_mark(27) == 1083);
    assert(static_mark(28) == 1082);
    assert(static_mark(29) == 909);
    assert(static_mark(30) == 1900);
    assert(static_mark(31) == 1733);
    assert(static_mark(32) == 1534);
    assert(static_mark(33) == 1775);
    assert(static_mark(34) == 1996);
    assert(static_mark(35) == 985);
}

/// The marks of the lines 36 to 44.
proof fn lemma_marks_36()
    ensures
        forall|i: int| 36 <= i < 45 ==> marked(#[trigger] static_mark(i)) == i,
{
    reveal(static_mark);
    reveal_strlit("application/dns-message");
    reveal_strlit("br");
    reveal_strlit("cache-control");
    reveal_strlit("content-encoding");
    reveal_strlit("content-type");
    reveal_strlit("gzip");
    reveal_strlit("max-age=0");
    reveal_strlit("max-age=2592000");
    reveal_strlit("max-age=604800");
    reveal_strlit("no-cache");
    reveal_strlit("no-store");
    reveal_strlit("public, max-age=31536000");
    assert(static_mark(36) == 1661);
    assert(static_mark(37) == 1685);
    assert(static_mark(38) == 1681);
    assert(static_mark(39) == 1910);
    assert(static_mark(40) == 1958);
    assert(static_mark(41) == 1717);
    assert(static_mark(42) == 1589);
    assert(static_mark(43) == 1607);
    assert(static_mark(44) == 1984);
}

/// The marks of the lines 45 to 53.
proof fn lemma_marks_45()
    ensures
        forall|i: int| 45 <= i < 54 ==> marked(#[trigger] static_mark(i)) == i,
{
    reveal(static_mark);
    reveal_strlit("application/javascript");
    reveal_strlit("application/json");
    reveal_strlit("application/x-www-form-urlencoded");
    reveal_strlit("content-type");
    reveal_strlit("image/gif");
    reveal_strlit("image/jpeg");
    reveal_strlit("image/png");
    reveal_strlit("text/css");
    reveal_strlit("text/html; charset=utf-8");
    reveal_strlit("text/plain");
    assert(static_mark(45) == 2055);
    assert(static_mark(46) == 2001);
    assert(static_mark(47) == 2019);
    assert(static_mark(48) == 1757);
    assert(static_mark(49) == 1766);
    assert(static_mark(50) == 1762);
    assert(static_mark(51) == 2070);
    assert(static_mark(52) == 1859);
    assert(static_mark(53) == 2105);
}

/// The marks of the lines 54 to 62.
proof fn lemma_marks_54()
    ensures
        forall|i: int| 54 <= i < 63 ==> marked(#[trigger] static_mark(i)) == i,
{
    reveal(static_mark);
    reveal_strlit("1; mode=block");
    reveal_strlit("accept-encoding");
    reveal_strlit("bytes=0-");
    reveal_strlit("content-type");
    reveal_strlit("max-age=31536000");
    reveal_strlit("max-age=31536000; includesubdomains");
    reveal_strlit("max-age=31536000; includesubdomains; preload");
    reveal_strlit("nosniff");
    reveal_strlit("origin");
    reveal_strlit("range");
    reveal_strlit("strict-transport-security");
    reveal_strlit("text/plain;charset=utf-8");
    reveal_strlit("vary");
    reveal_strlit("x-content-type-options");
    reveal_strlit("x-xss-protection");
    assert(static_mark(54) == 1891);
    assert(static_mark(55) == 1398);
    assert(static_mark(56) == 1832);
    assert(static_mark(57) == 2243);
    assert(static_mark(58) == 2204);
    assert(static_mark(59) == 1928);
    assert(static_mark(60) == 1959);
    assert(static_mark(61) == 1699);
    assert(static_mark(62) == 1472);
}

/// The marks of the lines 63 to 71.
proof fn lemma_marks_63()
    ensures
        forall|i: int| 63 <= i < 72 ==> marked(#[trigger] static_mark(i)) == i,
{
    reveal(static_mark);
    reveal_strlit("100");
    reveal_strlit("204");
    reveal_strlit("206");
    reveal_strlit("302");
    reveal_strlit("400");
    reveal_strlit("403");
    reveal_strlit("421");
    reveal_strlit("425");
    reveal_strlit("500");
    reveal_strlit(":status");
    assert(static_mark(63) == 1051);
    assert(static_mark(64) == 1075);
    assert(static_mark(65) == 1085);
    assert(static_mark(66) == 1069);
    assert(static_mark(67) == 1063);
    assert(static_mark(68) == 1078);
    assert(static_mark(69) == 1068);
    assert(static_mark(70) == 1088);
    assert(static_mark(71) == 1067);
}

/// The marks of the lines 72 to 80.
proof fn lemma_marks_72()
    ensures
        forall|i: int| 72 <= i < 81 ==> marked(#[trigger] static_mark(i)) == i,
{
    reveal(static_mark);
    reveal_strlit("");
    reveal_strlit("*");
    reveal_strlit("FALSE");
    reveal_strlit("TRUE");
    reveal_strlit("accept-language");
    reveal_strlit("access-control-allow-credentials");
    reveal_strlit("access-control-allow-headers");
    reveal_strlit("access-control-allow-methods");
    reveal_strlit("access-control-expose-headers");
    reveal_strlit("access-control-request-headers");
    reveal_strlit("content-length");
    reveal_strlit("content-type");
    reveal_strlit("get");
    reveal_strlit("get, post, options");
    reveal_strlit("options");
    assert(static_mark(72) == 555);
    assert(static_mark(73) == 1268);
    assert(static_mark(74) == 1320);
    assert(static_mark(75) == 989);
    assert(static_mark(76) == 1611);
    assert(static_mark(77) == 2114);
    assert(static_mark(78) == 2094);
    assert(static_mark(79) == 2023);
    assert(static_mark(80) == 2004);
}

/// The marks of the lines 81 to 89.
proof fn lemma_marks_81()
    ensures
        forall|i: int| 81 <= i < 90 ==> marked(#[trigger] static_mark(i)) == i,
{
    reveal(static_mark);
    reveal_strlit("");
    reveal_strlit("1");
    reveal_strlit("access-control-request-method");
    reveal_strlit("alt-svc");
    reveal_strlit("authorization");
    reveal_strlit("clear");
    reveal_strlit("content-security-policy");
    reveal_strlit("early-data");
    reveal_strlit("expect-ct");
    reveal_strlit("forwarded");
    reveal_strlit("get");
    reveal_strlit("if-range");
    reveal_strlit("post");
    reveal_strlit("script-src 'none'; object-src 'none'; base-uri 'none'");
    assert(static_mark(81) == 1615);
    assert(static_mark(82) == 1655);
    assert(static_mark(83) == 1554);
    assert(static_mark(84) == 637);
    assert(static_mark(85) == 1978);
    assert(static_mark(86) == 970);
    assert(static_mark(87) == 636);
    assert(static_mark(88) == 591);
    assert(static_mark(89) == 542);
}

/// The marks of the lines 90 to 98.
proof fn lemma_marks_90()
    ensures
        forall|i: int| 90 <= i < 99 ==> marked(#[trigger] static_mark(i)) == i,
{
    reveal(static_mark);
    reveal_strlit("");
    reveal_strlit("*");
    reveal_strlit("1");
    reveal_strlit("deny");
    reveal_strlit("origin");
    reveal_strlit("prefetch");
    reveal_strlit("purpose");
    reveal_strlit("sameorigin");
    reveal_strlit("server");
    reveal_strlit("timing-allow-origin");
    reveal_strlit("upgrade-insecure-requests");
    reveal_strlit("user-agent");
    reveal_strlit("x-forwarded-for");
    reveal_strlit("x-frame-options");
    assert(static_mark(90) == 594);
    assert(static_mark(91) == 2077);
    assert(static_mark(92) == 529);
    assert(static_mark(93) == 983);
    assert(static_mark(94) == 1105);
    assert(static_mark(95) == 615);
    assert(static_mark(96) == 285);
    assert(static_mark(97) == 1306);
    assert(static_mark(98) == 1791);
}

/// The line with the mark of a line is that line.
proof fn lemma_marks(index: int)
    requires
        0 <= index < STATIC_ENTRIES,
    ensures
        marked(static_mark(index)) == index,
{
    lemma_marks_0();
    lemma_marks_9();
    lemma_marks_18();
    lemma_marks_27();
    lemma_marks_36();
    lemma_marks_45();
    lemma_marks_54();
    lemma_marks_63();
    lemma_marks_72();
    lemma_marks_81();
    lemma_marks_90();
}

/// No two lines of the static table are equal.
pub proof fn static_lines_differ(i: int, j: int)
    requires
        0 <= i < STATIC_ENTRIES,
        0 <= j < STATIC_ENTRIES,
        static_entry(i) == static_entry(j),
    ensures
        i == j,
{
    reveal(static_name);
    reveal(static_value);
    encode_utf8_decode_utf8(STATIC_NAMES@[i]@);
    encode_utf8_decode_utf8(STATIC_NAMES@[j]@);
    encode_utf8_decode_utf8(STATIC_VALUES@[i]@);
    encode_utf8_decode_utf8(STATIC_VALUES@[j]@);
    reveal(static_mark);
    lemma_marks(i);
    lemma_marks(j);
}

/// A line of the static table is found where it stands.
pub proof fn static_lines_are_found(index: usize)
    requires
        index < STATIC_ENTRIES,
    ensures
        ({
            let line = static_entry(index as int);
            &&& find_spec(line.name, line.value) == Some(index)
            &&& lookup_spec(line.name, line.value) == StaticLookup::Indexed(index)
        }),
{
    let line = static_entry(index as int);
    assert forall|i: int| 0 <= i < index implies #[trigger] static_name(i) != line.name
        || static_value(i) != line.value by {
        if static_name(i) == line.name && static_value(i) == line.value {
            assert(static_entry(i) == line);
            static_lines_differ(i, index as int);
        }
    }
    assert(is_first_line(line.name, line.value, index as int));
    lemma_first_line_unique(line.name, line.value, index);
}

} // verus!
