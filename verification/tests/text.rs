use leo_debugger::text::{
    chars_of, decimal_text, ends_with, join, lines, parse_u32, parse_u64, same, space, split_n,
    split_once, starts_with, trim, words,
};

const SAMPLES: [&str; 12] = [
    "",
    " ",
    "a",
    "  a b\t c \n",
    "a::b/c",
    "one\ntwo\r\nthree",
    "one\n\n\r\ntwo\n",
    "\r",
    "\u{3000}wide\u{a0}",
    "x:y:z:w",
    "::",
    "\u{200b}zero width\u{200b}",
];

#[test]
fn white_space_is_what_std_takes_for_it() {
    for n in 0..=0x10ffff {
        if let Some(c) = char::from_u32(n) {
            assert_eq!(space(c), c.is_whitespace());
        }
    }
}

#[test]
fn texts_are_cut_as_std_cuts_them() {
    for s in SAMPLES {
        assert_eq!(trim(s), s.trim());
        assert_eq!(words(s), s.split_whitespace().map(str::to_string).collect::<Vec<_>>());
        assert_eq!(lines(s), s.lines().map(str::to_string).collect::<Vec<_>>());
        assert_eq!(chars_of(s), s.chars().collect::<Vec<_>>());
        for n in 1..5 {
            assert_eq!(
                split_n(s, ':', n),
                s.splitn(n, ':').map(str::to_string).collect::<Vec<_>>()
            );
        }
        for pattern in ["/", "::", "a"] {
            assert_eq!(
                split_once(s, pattern),
                s.split_once(pattern).map(|(a, b)| (a.to_string(), b.to_string()))
            );
            assert_eq!(starts_with(s, pattern), s.starts_with(pattern));
            assert_eq!(ends_with(s, pattern), s.ends_with(pattern));
        }
        for t in SAMPLES {
            assert_eq!(same(s, t), s == t);
        }
    }
}

#[test]
fn texts_are_joined() {
    let parts: Vec<String> = ["a", "", "b"].iter().map(|s| s.to_string()).collect();
    assert_eq!(join(&parts, ": "), "a: : b");
    assert_eq!(join(&Vec::new(), ": "), "");
}

#[test]
fn numbers_are_read_as_std_reads_them() {
    let samples = [
        "", "+", "0", "+0", "-1", "007", "4294967295", "4294967296", "18446744073709551615",
        "18446744073709551616", "1 ", "1_0", "٣", "99999999999999999999999999",
    ];
    for s in samples {
        assert_eq!(parse_u32(s), s.parse::<u32>().ok());
        assert_eq!(parse_u64(s), s.parse::<u64>().ok());
    }
}

#[test]
fn decimal_numbers_read_back() {
    for n in [0, 9, 10, 99, 100, 12345, u64::MAX] {
        assert_eq!(decimal_text(n), n.to_string());
        assert_eq!(parse_u64(&decimal_text(n)), Some(n));
    }
}
