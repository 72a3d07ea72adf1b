use baml::numeric::{is_float, parse_i64};
use baml::text::{
    chars_lt, concat3, concat5, contains, decimal_chars, find_from, from_chars, join, replace,
    str_eq, to_chars, trim,
};

fn chars(s: &str) -> Vec<char> {
    s.chars().collect()
}

fn text(v: &Vec<char>) -> String {
    v.iter().collect()
}

#[test]
fn chars_round_trip() {
    let v = to_chars("héllo wörld");
    assert_eq!(v, chars("héllo wörld"));
    assert_eq!(from_chars(&v), "héllo wörld");
    assert_eq!(from_chars(&Vec::new()), "");
}

#[test]
fn string_equality() {
    assert!(str_eq("client", "client"));
    assert!(!str_eq("client", "prompt"));
    assert!(!str_eq("", "a"));
    assert!(str_eq("", ""));
}

#[test]
fn find_first_occurrence() {
    let hay = chars("abcabc");
    assert_eq!(find_from(&hay, &chars("bc"), 0), Some(1));
    assert_eq!(find_from(&hay, &chars("bc"), 2), Some(4));
    assert_eq!(find_from(&hay, &chars("bc"), 5), None);
    assert_eq!(find_from(&hay, &chars("x"), 0), None);
    assert_eq!(find_from(&hay, &chars(""), 6), Some(6));
    assert_eq!(find_from(&hay, &chars(""), 7), None);
    assert_eq!(find_from(&hay, &chars("abcabcd"), 0), None);
    assert!(contains(&hay, &chars("cab")));
    assert!(!contains(&hay, &chars("cb")));
}

#[test]
fn find_counts_characters_not_bytes() {
    let hay = chars("äöü-x");
    assert_eq!(find_from(&hay, &chars("x"), 0), Some(4));
}

#[test]
fn replace_agrees_with_std() {
    let cases = [
        ("Hello {{input}}", "{{input}}", "world"),
        ("aaaa", "aa", "b"),
        ("aaa", "aa", "b"),
        ("abc", "", "-"),
        ("", "", "x"),
        ("", "a", "x"),
        ("abcabc", "bc", ""),
        ("no match", "zz", "y"),
        ("xx", "x", "xx"),
    ];
    for (hay, from, to) in cases {
        let got = replace(&chars(hay), &chars(from), &chars(to));
        assert_eq!(text(&got), hay.replace(from, to));
    }
}

#[test]
fn replace_exact_values() {
    assert_eq!(text(&replace(&chars("aaa"), &chars("aa"), &chars("b"))), "ba");
    assert_eq!(text(&replace(&chars("ab"), &chars(""), &chars("-"))), "-a-b-");
}

#[test]
fn trim_agrees_with_std() {
    let cases = [
        "  hello  ",
        "\n\t x y \r\n",
        "",
        "   ",
        "a",
        "\u{a0}\u{2003}wide\u{3000}\u{85}",
        "\u{1680}x\u{2028}\u{2029}\u{202f}\u{205f}",
        "\u{200b}zero width stays\u{200b}",
        "\u{1c}not white\u{1f}",
    ];
    for case in cases {
        assert_eq!(text(&trim(&chars(case))), case.trim());
    }
}

#[test]
fn whitespace_agrees_with_std_on_every_char() {
    let mut c = 0u32;
    while c <= 0x3100 {
        if let Some(ch) = char::from_u32(c) {
            let s: String = [ch, 'x', ch].iter().collect();
            assert_eq!(text(&trim(&chars(&s))), s.trim());
        }
        c += 1;
    }
}

#[test]
fn lexicographic_order_agrees_with_std() {
    let words = ["", "a", "ab", "b", "ä", "z", "aa", "A", "{{input}}", "{{other}}"];
    for a in words {
        for b in words {
            assert_eq!(chars_lt(&chars(a), &chars(b)), a < b);
        }
    }
}

#[test]
fn join_with_separator() {
    assert_eq!(join(&vec![], "."), "");
    assert_eq!(join(&vec!["a".to_string()], "."), "a");
    assert_eq!(join(&vec!["a".to_string(), "b".to_string(), "c".to_string()], " -> "), "a -> b -> c");
}

#[test]
fn concat_texts() {
    assert_eq!(concat3("a", "b", "c"), "abc");
    assert_eq!(concat5("Did you mean `", "x", "` instead of `", "x", "<...>`?"), "Did you mean `x` instead of `x<...>`?");
}

#[test]
fn decimal_numerals() {
    assert_eq!(text(&decimal_chars(0)), "0");
    assert_eq!(text(&decimal_chars(7)), "7");
    assert_eq!(text(&decimal_chars(10)), "10");
    assert_eq!(text(&decimal_chars(12345)), "12345");
    assert_eq!(text(&decimal_chars(usize::MAX)), usize::MAX.to_string());
}

#[test]
fn integers_agree_with_std() {
    let cases = [
        "0", "3", "-3", "+3", "007", "-0", "9223372036854775807", "9223372036854775808",
        "-9223372036854775808", "-9223372036854775809", "", "-", "+", "3.5", "abc", "1e3", " 1",
        "1 ", "--1", "1_000", "99999999999999999999999999999999999999999",
    ];
    for case in cases {
        assert_eq!(parse_i64(&chars(case)), case.parse::<i64>().ok(), "{}", case);
    }
}

#[test]
fn integer_exact_values() {
    assert_eq!(parse_i64(&chars("3")), Some(3));
    assert_eq!(parse_i64(&chars("-42")), Some(-42));
    assert_eq!(parse_i64(&chars("-9223372036854775808")), Some(i64::MIN));
    assert_eq!(parse_i64(&chars("abc")), None);
}

#[test]
fn floats_agree_with_std() {
    let cases = [
        "3.5", "3", "-3.5", "+3.5", ".5", "5.", ".", "", "e5", "1e5", "1E5", "1e", "1e+", "1e+5",
        "1e-5", "1.5e10", "inf", "-inf", "+inf", "INF", "Infinity", "infinity", "infinit", "nan",
        "NaN", "-nan", "abc", "1.2.3", "1e5.5", " 1.0", "1.0 ", "0x10", "1_0.0", "--1", "+-1",
        "1e99999", ".e5", "5.e5", "-.5", "-", "+", "i", "infinityx",
    ];
    for case in cases {
        assert_eq!(is_float(&chars(case)), case.parse::<f64>().is_ok(), "{}", case);
    }
}
