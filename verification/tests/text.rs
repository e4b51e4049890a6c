use netfory_provider::text::{
    join, non_blank_lines, parse_u16, place_of, push_decimal, same_text, sort_dedup,
    to_ascii_lowercase, trim, trim_end_matches, white_space, Place,
};

fn strings(list: &[&str]) -> Vec<String> {
    list.iter().map(|s| s.to_string()).collect()
}

#[test]
fn white_space_is_that_of_unicode() {
    for c in '\0'..=char::MAX {
        assert_eq!(white_space(c), c.is_whitespace(), "{:x}", c as u32);
    }
}

#[test]
fn trimming() {
    for s in ["", " ", "a", " a b ", "\t\u{a0}x\u{3000}\n", "\u{200b}x"] {
        assert_eq!(trim(s), s.trim());
    }
    for s in ["", "/", "//", "a/", "a//", "/a", "http://h/api///"] {
        assert_eq!(trim_end_matches(s, '/'), s.trim_end_matches('/'));
    }
}

#[test]
fn ascii_case() {
    for s in ["", "Host", "CONTENT-Type", "Жук-AZ[@`{", "\u{212a}"] {
        assert_eq!(to_ascii_lowercase(s), s.to_ascii_lowercase());
    }
}

#[test]
fn ordering_is_that_of_strings() {
    let all = ["", "a", "aa", "ab", "b", "B", "ж", "z", "\u{ffff}", "\u{10000}"];
    for a in all {
        for b in all {
            let expected = if a < b {
                Place::Before
            } else if a == b {
                Place::Same
            } else {
                Place::After
            };
            assert!(place_of(a, b) == expected, "{a} {b}");
            assert_eq!(same_text(a, b), a == b);
        }
    }
}

#[test]
fn decimals() {
    for n in [0u64, 1, 9, 10, 11, 99, 100, 4003, u64::MAX] {
        let mut s = "x".to_owned();
        push_decimal(&mut s, n);
        assert_eq!(s, format!("x{n}"));
    }
    for s in ["", "0", "00", "+0", "65535", "65536", "065535", "-0", "+", "++1", "1a", "٣", " 1", "4294967297"] {
        assert_eq!(parse_u16(s), s.parse::<u16>().ok(), "{s}");
    }
}

#[test]
fn lists() {
    assert_eq!(join(&strings(&["a", "b", "c"]), ',', 3), "a,b,c");
    assert_eq!(join(&strings(&["a", "b", "c"]), ',', 2), "a,b");
    assert_eq!(join(&strings(&[]), ',', 0), "");
    assert_eq!(
        sort_dedup(strings(&["b", "a", "b", "", "aa", "a"])),
        strings(&["", "a", "aa", "b"])
    );
    assert_eq!(non_blank_lines("a\n\n  b \r\nc", 64), strings(&["a", "b", "c"]));
    assert_eq!(non_blank_lines("a\nb\nc", 2), strings(&["a", "b"]));
    assert_eq!(non_blank_lines("", 64), Vec::<String>::new());
    assert_eq!(non_blank_lines("x", 0), Vec::<String>::new());
}
