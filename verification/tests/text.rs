use netwatch::number::{dotted_quad, is_float_literal, parse_octet};
use netwatch::scan::{begins_with, eq_ignore_case, find_byte, find_line_end, head, read_be16};
use netwatch::text::{
    chars_of, contains_text, decode, hex_encode, is_white_space, order_of, split_words, string_of,
    trim, Order,
};

fn chars(s: &str) -> Vec<char> {
    s.chars().collect()
}

#[test]
fn white_space_is_that_of_std() {
    for c in '\0'..=char::MAX {
        assert_eq!(is_white_space(c), c.is_whitespace(), "{:?}", c);
    }
}

const TEXTS: [&str; 9] = [
    "",
    " ",
    "one",
    " one two\tthree\r\n",
    "\u{a0}x\u{3000}",
    "a  b",
    "\u{e9}\u{1f600} z",
    "x\u{200b}y",
    "\n\n",
];

#[test]
fn trimming_and_splitting_are_those_of_std() {
    for t in TEXTS {
        let c = chars(t);
        assert_eq!(string_of(trim(&c)), t.trim());
        let words: Vec<String> = split_words(&c).iter().map(|w| string_of(w)).collect();
        let expected: Vec<&str> = t.split_whitespace().collect();
        assert_eq!(words, expected);
    }
}

#[test]
fn decoding_is_that_of_std() {
    let samples: [&[u8]; 7] = [
        b"plain",
        "\u{e9}\u{20ac}\u{1f600}".as_bytes(),
        b"\xff",
        b"\xc0\x80",
        b"\xed\xa0\x80",
        b"\xf4\x90\x80\x80",
        b"a\xe2\x82",
    ];
    for bytes in samples {
        let expected = std::str::from_utf8(bytes).ok().map(chars);
        assert_eq!(decode(bytes), expected);
    }
}

#[test]
fn strings_and_characters() {
    for t in TEXTS {
        assert_eq!(chars_of(t), chars(t));
        assert_eq!(string_of(&chars(t)), t);
    }
    assert!(contains_text(&chars("GET / HTTP/1.1"), " HTTP/1."));
    assert!(!contains_text(&chars("GET / HTTP/2"), " HTTP/1."));
    assert!(contains_text(&chars("abc"), ""));
    assert!(contains_text(&chars("abc"), "bc"));
    assert!(!contains_text(&chars("abc"), "abcd"));
}

#[test]
fn texts_are_ordered_as_strings_are() {
    let texts = ["", "a", "aa", "ab", "b", "\u{e9}", "\u{ffff}", "\u{10000}", "t13d", "t13i"];
    for a in texts {
        for b in texts {
            let expected = if a < b {
                Order::Before
            } else if a == b {
                Order::Same
            } else {
                Order::After
            };
            assert_eq!(order_of(&chars(a), &chars(b)), expected);
        }
    }
}

#[test]
fn hexadecimal() {
    assert_eq!(hex_encode(&[]), "");
    assert_eq!(hex_encode(&[0x00, 0x0f, 0xa9, 0xff]), "000fa9ff");
}

#[test]
fn float_literals_are_those_of_std() {
    let tokens = [
        "", "1", "1.", ".5", ".", "1.5", "+1.5", "-1.5", "--1", "1e5", "1E-5", "1e+5", "1e", "e5",
        "1e5.0", "1.2.3", "inf", "Infinity", "-INF", "nan", "+NaN", "infin", "nan1", "1_0", "0x10",
        "ms", "*", "10.0.0.1", "+", "-", "+.e1", "1.e1", ".1e1", "1ms", "\u{661}", "e", "1e1e1",
        "00012", "12345678901234567890.5",
    ];
    for t in tokens {
        assert_eq!(is_float_literal(&chars(t)), t.parse::<f64>().is_ok(), "{}", t);
    }
}

#[test]
fn octets_are_those_of_std() {
    let tokens = [
        "", "0", "7", "255", "256", "+9", "-9", "++9", "+", "1a", "a1", "000000255", "0000256",
        "99999999999999999999999", " 1", "1.0", "\u{661}",
    ];
    for t in tokens {
        assert_eq!(parse_octet(&chars(t)), t.parse::<u8>().ok(), "{}", t);
    }
}

#[test]
fn addresses_in_dotted_form() {
    assert_eq!(dotted_quad(0, 9, 10, 99), "0.9.10.99");
    assert_eq!(dotted_quad(100, 105, 200, 255), "100.105.200.255");
}

#[test]
fn bytes() {
    assert_eq!(find_byte(b"abc", b'c'), 2);
    assert_eq!(find_byte(b"abc", b'd'), 3);
    assert_eq!(find_line_end(b"ab\ncd"), 2);
    assert_eq!(find_line_end(b"ab\rcd"), 2);
    assert_eq!(find_line_end(b"abcd"), 4);
    assert_eq!(head(b"abc", 2), b"ab");
    assert_eq!(head(b"abc", 5), b"abc");
    assert!(begins_with(b"abc", "ab"));
    assert!(!begins_with(b"abc", "b"));
    assert!(!begins_with(b"a", "ab"));
    assert!(eq_ignore_case(b"HoSt", b"hOsT"));
    assert!(!eq_ignore_case(b"host", b"hosts"));
    assert!(!eq_ignore_case(b"[", b"{"));
    assert_eq!(read_be16(0x12, 0x34), 0x1234);
}
