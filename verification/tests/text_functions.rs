use parser::decimal::{parse_digits, parse_integer, parse_number, push_decimal};
use parser::table::NameTable;
use parser::text::{
    append, append_str, find_char, find_last_char, find_text, find_text_outside, is_space_char, is_word, same_text,
    split_chars, split_text, split_words, starts_with, strip_trailing_char, to_chars, to_text,
    trim_chars, trimmed,
};

fn strings(parts: Vec<&[char]>) -> Vec<String> {
    parts.into_iter().map(|p| p.iter().collect()).collect()
}

#[test]
fn text_goes_to_characters_and_back() {
    assert_eq!(to_chars("aé☃"), vec!['a', 'é', '☃']);
    assert_eq!(to_chars(""), Vec::<char>::new());
    assert_eq!(to_text(&['a', 'é', '☃']), "aé☃");
    assert_eq!(to_text(&[]), "");
}

#[test]
fn characters_are_appended() {
    let mut out = vec!['a'];
    append(&mut out, &['b', 'c']);
    append_str(&mut out, "dé");
    assert_eq!(out, vec!['a', 'b', 'c', 'd', 'é']);
}

#[test]
fn texts_are_compared() {
    assert!(same_text(&['a', 'b'], &['a', 'b']));
    assert!(!same_text(&['a', 'b'], &['a', 'c']));
    assert!(!same_text(&['a', 'b'], &['a']));
    assert!(same_text(&[], &[]));
    assert!(is_word(&to_chars("bool"), "bool"));
    assert!(!is_word(&to_chars("bool "), "bool"));
    assert!(starts_with(&to_chars("uint8"), "uint"));
    assert!(starts_with(&to_chars("uint"), "uint"));
    assert!(!starts_with(&to_chars("uin"), "uint"));
    assert!(starts_with(&to_chars("x"), ""));
}

#[test]
fn white_space_is_what_unicode_says() {
    for c in [' ', '\t', '\n', '\u{b}', '\u{c}', '\r', '\u{85}', '\u{a0}', '\u{1680}', '\u{2000}',
        '\u{2005}', '\u{200a}', '\u{2028}', '\u{2029}', '\u{202f}', '\u{205f}', '\u{3000}']
    {
        assert!(is_space_char(c), "{:?}", c);
    }
    for c in ['a', '0', '_', '\u{8}', '\u{e}', '\u{1f}', '\u{84}', '\u{86}', '\u{180e}', '\u{200b}',
        '\u{2060}', '\u{feff}', '\u{2027}', '\u{202a}']
    {
        assert!(!is_space_char(c), "{:?}", c);
    }
    let mut code = 0u32;
    while code <= 0x10ffff {
        if let Some(c) = char::from_u32(code) {
            assert_eq!(is_space_char(c), c.is_whitespace(), "{:?}", c);
        }
        code += 1;
    }
}

#[test]
fn characters_are_found() {
    let s = to_chars("a[b]c[d]");
    assert_eq!(find_char(&s, '['), 1);
    assert_eq!(find_char(&s, 'a'), 0);
    assert_eq!(find_char(&s, 'x'), 8);
    assert_eq!(find_char(&[], 'x'), 0);
    assert_eq!(find_last_char(&s, ']'), Some(7));
    assert_eq!(find_last_char(&s, 'a'), Some(0));
    assert_eq!(find_last_char(&s, 'x'), None);
    assert_eq!(find_last_char(&[], 'x'), None);
}

#[test]
fn patterns_are_found() {
    assert_eq!(find_text(&to_chars("a = b // c // d"), &to_chars("//")), 6);
    assert_eq!(find_text(&to_chars("//"), &to_chars("//")), 0);
    assert_eq!(find_text(&to_chars("a/b/"), &to_chars("//")), 4);
    assert_eq!(find_text(&to_chars("/"), &to_chars("//")), 1);
    assert_eq!(find_text(&to_chars(""), &to_chars("//")), 0);
    assert_eq!(find_text(&to_chars("aab"), &to_chars("ab")), 1);
}

#[test]
fn white_space_is_trimmed() {
    assert_eq!(to_text(trim_chars(&to_chars("  a b\t\n"))), "a b");
    assert_eq!(to_text(trim_chars(&to_chars("a"))), "a");
    assert_eq!(to_text(trim_chars(&to_chars(" \u{a0} "))), "");
    assert_eq!(to_text(trim_chars(&to_chars(""))), "");
    assert_eq!(trimmed("\n0x6080\n"), "0x6080");
    assert_eq!(trimmed("\u{3000}a\u{2028}"), "a");
}

#[test]
fn trailing_run_is_stripped() {
    assert_eq!(to_text(strip_trailing_char(&to_chars("x;;"), ';')), "x");
    assert_eq!(to_text(strip_trailing_char(&to_chars("x; ;"), ';')), "x; ");
    assert_eq!(to_text(strip_trailing_char(&to_chars(";x"), ';')), ";x");
    assert_eq!(to_text(strip_trailing_char(&to_chars(";;"), ';')), "");
    assert_eq!(to_text(strip_trailing_char(&to_chars(""), ';')), "");
}

#[test]
fn text_is_split_at_a_character() {
    assert_eq!(strings(split_chars(&to_chars("a,b,,c"), ',')), vec!["a", "b", "", "c"]);
    assert_eq!(strings(split_chars(&to_chars(""), ',')), vec![""]);
    assert_eq!(strings(split_chars(&to_chars(","), ',')), vec!["", ""]);
    assert_eq!(strings(split_chars(&to_chars("abc"), ',')), vec!["abc"]);
    assert_eq!(strings(split_chars(&to_chars("a\nb\n"), '\n')), vec!["a", "b", ""]);
}

#[test]
fn text_is_split_at_a_pattern() {
    assert_eq!(strings(split_text(&to_chars("a][b][c"), &to_chars("]["))), vec!["a", "b", "c"]);
    assert_eq!(strings(split_text(&to_chars("a"), &to_chars("]["))), vec!["a"]);
    assert_eq!(strings(split_text(&to_chars(""), &to_chars("]["))), vec![""]);
    assert_eq!(strings(split_text(&to_chars("]["), &to_chars("]["))), vec!["", ""]);
    assert_eq!(strings(split_text(&to_chars("aaa"), &to_chars("aa"))), vec!["", "a"]);
    assert_eq!(strings(split_text(&to_chars("a]b[c"), &to_chars("]["))), vec!["a]b[c"]);
}

#[test]
fn text_is_split_into_words() {
    assert_eq!(strings(split_words(&to_chars("  uint256\tx; = 1 "))), vec!["uint256", "x;", "=", "1"]);
    assert_eq!(strings(split_words(&to_chars("one"))), vec!["one"]);
    assert_eq!(strings(split_words(&to_chars(" \n "))), Vec::<String>::new());
    assert_eq!(strings(split_words(&to_chars(""))), Vec::<String>::new());
    assert_eq!(strings(split_words(&to_chars("a\u{a0}b"))), vec!["a", "b"]);
}

#[test]
fn digits_are_read() {
    assert_eq!(parse_digits(&to_chars("0"), 10), Some(0));
    assert_eq!(parse_digits(&to_chars("007"), 10), Some(7));
    assert_eq!(parse_digits(&to_chars("10"), 10), Some(10));
    assert_eq!(parse_digits(&to_chars("11"), 10), None);
    assert_eq!(parse_digits(&to_chars(""), 10), None);
    assert_eq!(parse_digits(&to_chars("+1"), 10), None);
    assert_eq!(parse_digits(&to_chars("1a"), 10), None);
    assert_eq!(parse_digits(&to_chars("٣"), 10), None);
    assert_eq!(parse_digits(&to_chars("18446744073709551615"), u64::MAX), Some(u64::MAX));
    assert_eq!(parse_digits(&to_chars("18446744073709551616"), u64::MAX), None);
    assert_eq!(parse_digits(&to_chars("99999999999999999999999"), u64::MAX), None);
}

#[test]
fn numbers_are_read_as_the_standard_library_reads_them() {
    for text in ["0", "7", "+7", "-7", "007", "+", "-", "", "65535", "65536", "+65535", " 7", "7 ", "++7", "+-7", "0x7", "7_0"] {
        let expected = text.parse::<u16>().ok().map(|v| v as u64);
        assert_eq!(parse_number(&to_chars(text), 65535), expected, "{:?}", text);
    }
    for text in ["0", "-0", "+0", "5", "-5", "+5", "9223372036854775807", "9223372036854775808",
        "-9223372036854775808", "-9223372036854775809", "+9223372036854775807", "-", "+", "", "--5",
        "-+5", "5-", "0005", "-0005", "1e3", "99999999999999999999999999"]
    {
        assert_eq!(parse_integer(&to_chars(text)), text.parse::<i64>().ok(), "{:?}", text);
    }
}

#[test]
fn numbers_are_written_in_decimal() {
    for n in [0u64, 1, 9, 10, 11, 99, 100, 256, 65535, 1700000000, u64::MAX] {
        let mut out = vec!['#'];
        push_decimal(&mut out, n);
        assert_eq!(out.iter().collect::<String>(), format!("#{}", n));
    }
}

#[test]
fn table_keeps_names_in_the_order_they_came() {
    let mut table: NameTable<u8> = NameTable::new();
    assert_eq!(table.len(), 0);
    assert_eq!(table.get("a"), None);
    table.insert(to_chars("a"), 1);
    table.insert(to_chars("b"), 2);
    table.insert(to_chars("a"), 3);
    table.insert(to_chars(""), 4);
    assert_eq!(table.len(), 3);
    assert_eq!(table.get("a"), Some(&3));
    assert_eq!(table.get("b"), Some(&2));
    assert_eq!(table.get(""), Some(&4));
    assert_eq!(table.get_chars(&['b']), Some(&2));
    assert_eq!(table.get("c"), None);
    assert_eq!(table.place(&['a']), 0);
    assert_eq!(table.place(&['b']), 1);
    assert_eq!(table.place(&['c']), 3);
    assert_eq!(table.name_at(0), &['a']);
    assert_eq!(table.value_at(0), &3);
    assert_eq!(table.name_at(1), &['b']);
    let copy = table.clone();
    table.clear();
    assert_eq!(table.len(), 0);
    assert_eq!(table.get("a"), None);
    assert_eq!(copy.len(), 3);
    assert_eq!(copy.get("a"), Some(&3));
    assert_eq!(copy.name_at(2), &[] as &[char]);
}

fn samples() -> Vec<&'static str> {
    vec![
        "",
        " ",
        "a",
        "  a b\t",
        "a,b,,c",
        ",",
        "a][b][c",
        "][",
        "]][[",
        "x = 1; // y",
        "//",
        "a//b//",
        "/",
        "///",
        "\u{a0}x\u{3000}",
        "a\u{2028}b\u{85}c",
        "uint256 amount = 100;",
        "balances[user] = amount;;",
        "aaa",
        "é=ü",
    ]
}

#[test]
fn searching_agrees_with_the_standard_library() {
    for s in samples() {
        let chars = to_chars(s);
        for c in ['[', ']', '=', ',', 'a', ';', 'é'] {
            let first = s.chars().position(|x| x == c).unwrap_or(chars.len());
            assert_eq!(find_char(&chars, c), first, "{:?} {:?}", s, c);
            let last = chars.iter().rposition(|x| *x == c);
            assert_eq!(find_last_char(&chars, c), last, "{:?} {:?}", s, c);
        }
        for pat in ["//", "][", "=>", "aa", "a"] {
            let expected = match s.find(pat) {
                Some(at) => s[..at].chars().count(),
                None => chars.len(),
            };
            assert_eq!(find_text(&chars, &to_chars(pat)), expected, "{:?} {:?}", s, pat);
        }
    }
}

#[test]
fn trimming_agrees_with_the_standard_library() {
    for s in samples() {
        let chars = to_chars(s);
        assert_eq!(to_text(trim_chars(&chars)), s.trim(), "{:?}", s);
        assert_eq!(trimmed(s), s.trim(), "{:?}", s);
        assert_eq!(
            to_text(strip_trailing_char(&chars, ';')),
            s.trim_end_matches(';'),
            "{:?}",
            s
        );
    }
}

#[test]
fn splitting_agrees_with_the_standard_library() {
    for s in samples() {
        let chars = to_chars(s);
        for c in [',', '=', '\n', '('] {
            let expected: Vec<String> = s.split(c).map(|p| p.to_string()).collect();
            assert_eq!(strings(split_chars(&chars, c)), expected, "{:?} {:?}", s, c);
        }
        for pat in ["][", "//", "aa"] {
            let expected: Vec<String> = s.split(pat).map(|p| p.to_string()).collect();
            assert_eq!(strings(split_text(&chars, &to_chars(pat))), expected, "{:?} {:?}", s, pat);
        }
        let expected: Vec<String> = s.split_whitespace().map(|p| p.to_string()).collect();
        assert_eq!(strings(split_words(&chars)), expected, "{:?}", s);
    }
}

#[test]
fn empty_pattern_stands_at_the_beginning_and_splits_nowhere() {
    for s in samples() {
        let chars = to_chars(s);
        assert_eq!(find_text(&chars, &[]), 0, "{:?}", s);
        assert_eq!(strings(split_text(&chars, &[])), vec![s.to_string()], "{:?}", s);
        let same: String =
            parser::render::replace_marker(&chars, &[], &to_chars("x")).iter().collect();
        assert_eq!(same, s, "{:?}", s);
    }
}

#[test]
fn pattern_is_found_outside_of_parentheses() {
    let arrow = to_chars("=>");
    assert_eq!(find_text_outside(&to_chars("address=>bool"), &arrow), 7);
    assert_eq!(find_text_outside(&to_chars("mapping(a=>b)=>c"), &arrow), 13);
    assert_eq!(find_text_outside(&to_chars("(a=>b)(c=>d)=>e=>f"), &arrow), 12);
    assert_eq!(find_text_outside(&to_chars("(a=>b"), &arrow), 5);
    assert_eq!(find_text_outside(&to_chars("a)=>b"), &arrow), 5);
    assert_eq!(find_text_outside(&to_chars(")(=>"), &arrow), 2);
    assert_eq!(find_text_outside(&to_chars("=>"), &arrow), 0);
    assert_eq!(find_text_outside(&to_chars("="), &arrow), 1);
    assert_eq!(find_text_outside(&to_chars(""), &arrow), 0);
    assert_eq!(find_text_outside(&to_chars("a[=>]"), &arrow), 2);
}
