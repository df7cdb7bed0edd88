use lodestar::addr::{Ipv4Addr, Ipv6Addr};
use lodestar::digits::{decimal_text, parse_signed, parse_unsigned, signed_decimal_text};
use lodestar::order::str_le;
use lodestar::text::{
    after, before, ends_with, is_whitespace, join, lines, replace, split, split_whitespace,
    strip_quotes, to_ascii_lowercase, to_ascii_uppercase, trim, trim_end_matches,
};

const SAMPLES: [&str; 12] = [
    "", " ", "a", "a b", "  a\tb\u{a0}c ", "\u{2003}x\u{3000}", "a..b.", ".", "é,ü", "a\r\nb\n",
    "\n\n", "x\r",
];

#[test]
fn white_space_is_that_of_unicode() {
    for c in (0..=0x10ffffu32).filter_map(char::from_u32) {
        assert_eq!(is_whitespace(c), c.is_whitespace(), "{c:?}");
    }
}

#[test]
fn text_operations_agree_with_std() {
    for s in SAMPLES {
        assert_eq!(trim(s), s.trim());
        assert_eq!(trim_end_matches(s, '.'), s.trim_end_matches('.'));
        assert_eq!(to_ascii_lowercase(s), s.to_ascii_lowercase());
        assert_eq!(to_ascii_uppercase(s), s.to_ascii_uppercase());
        assert_eq!(split(s, '.'), s.split('.').collect::<Vec<_>>());
        assert_eq!(split_whitespace(s), s.split_whitespace().collect::<Vec<_>>());
        assert_eq!(lines(s), s.lines().collect::<Vec<_>>());
        assert_eq!(replace(s, "a", "bb"), s.replace("a", "bb"));
        assert_eq!(after(s, '.').as_deref(), s.split_once('.').map(|(_, t)| t));
        assert_eq!(before(s, '.'), s.split('.').next().unwrap());
        for t in SAMPLES {
            assert_eq!(ends_with(s, t), s.ends_with(t));
            assert_eq!(str_le(s, t), s <= t);
        }
    }
    assert_eq!(replace("aaa", "aa", "b"), "ba");
    assert_eq!(join(&["a".to_string(), String::new(), "b".to_string()], ", "), "a, , b");
    assert_eq!(strip_quotes(" \"a\" "), "a");
    assert_eq!(strip_quotes("\"\"\""), "\"");
}

#[test]
fn numbers_agree_with_std() {
    for s in ["", "0", "7", "007", "+7", "-7", "-0", "+", "-", "--1", "1_0", " 1", "65535", "65536",
        "9223372036854775807", "9223372036854775808", "-9223372036854775808",
        "-9223372036854775809", "18446744073709551615", "18446744073709551616", "٣"]
    {
        assert_eq!(parse_signed(s), s.parse::<i64>().ok(), "{s}");
        assert_eq!(parse_unsigned(s, u64::MAX), s.parse::<u64>().ok().filter(|_| !s.starts_with('-')), "{s}");
        assert_eq!(parse_unsigned(s, 65535).map(|n| n as u16), s.parse::<u16>().ok().filter(|_| !s.starts_with('-')), "{s}");
    }
    for n in [0, 9, 10, 12345, u64::MAX] {
        assert_eq!(decimal_text(n), n.to_string());
    }
    for n in [0, -1, i64::MIN, i64::MAX] {
        assert_eq!(signed_decimal_text(n), n.to_string());
    }
}

#[test]
fn ipv4_addresses() {
    for s in ["0.0.0.0", "255.255.255.255", "1.2.3.4"] {
        assert_eq!(Ipv4Addr::parse(s).unwrap().to_text(), s);
    }
    for s in ["", "1.2.3", "1.2.3.4.5", "256.1.1.1", "01.2.3.4", "1.2.3.+4", " 1.2.3.4", "1..2.3"] {
        assert!(Ipv4Addr::parse(s).is_none(), "{s}");
    }
}

#[test]
fn ipv6_addresses() {
    for (s, t) in [
        ("::", "::"),
        ("::1", "::1"),
        ("1::", "1::"),
        ("2001:DB8:0:0:1:0:0:1", "2001:db8::1:0:0:1"),
        ("1:2:3:4:5:6:7:8", "1:2:3:4:5:6:7:8"),
        ("0:1:0:1:0:1:0:1", "0:1:0:1:0:1:0:1"),
        ("::ffff:10.0.0.1", "::ffff:10.0.0.1"),
        ("64:ff9b::192.0.2.33", "64:ff9b::c000:221"),
        ("1:0:0:2::", "1:0:0:2::"),
    ] {
        assert_eq!(Ipv6Addr::parse(s).map(|a| a.to_text()).as_deref(), Some(t), "{s}");
    }
    for s in ["", ":", ":::", "1::2::3", "1:2:3:4:5:6:7", "1:2:3:4:5:6:7:8:9", "12345::", "g::",
        "::1.2.3", "1.2.3.4::", "1:2:3:4:5:6:7:1.2.3.4"]
    {
        assert!(Ipv6Addr::parse(s).is_none(), "{s}");
    }
}
