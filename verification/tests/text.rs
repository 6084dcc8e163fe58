use totray::text::{
    chars_of, contains, decimal_chars, ends_with, join_exec, lines, owned, parse_u32, remove_all,
    same_chars, split, starts_with, str_eq, trim,
};

fn s(v: &[char]) -> String {
    v.iter().collect()
}

fn all(v: Vec<Vec<char>>) -> Vec<String> {
    v.iter().map(|l| s(l)).collect()
}

#[test]
fn trimming_matches_std() {
    for text in ["  a b \t\n", "\u{3000}x\u{2028}", "", "   ", "\u{85}y\u{a0}", "z"] {
        assert_eq!(s(&trim(&chars_of(text))), text.trim());
    }
}

#[test]
fn lines_match_std() {
    for text in ["a\nb", "a\r\nb\r\n", "", "\n", "a\n\nb\n", "x\r", "x\r\r\n", "\r\n"] {
        let expected: Vec<String> = text.lines().map(|l| l.to_string()).collect();
        assert_eq!(all(lines(&chars_of(text))), expected, "{text:?}");
    }
}

#[test]
fn split_matches_std() {
    for text in ["a:b", "", ":", "a::b:", "abc"] {
        let expected: Vec<String> = text.split(':').map(|l| l.to_string()).collect();
        assert_eq!(all(split(&chars_of(text), ':')), expected);
    }
}

#[test]
fn join_with_separator() {
    let parts = vec![chars_of("a"), chars_of(""), chars_of("c")];
    assert_eq!(s(&join_exec(&parts, &chars_of(", "))), "a, , c");
    assert_eq!(s(&join_exec(&vec![], &chars_of(","))), "");
}

#[test]
fn searching() {
    assert!(contains(&chars_of("hello world"), &chars_of("o w")));
    assert!(contains(&chars_of("abc"), &chars_of("")));
    assert!(!contains(&chars_of("ab"), &chars_of("abc")));
    assert!(starts_with(&chars_of("[1]"), &chars_of("[")));
    assert!(!starts_with(&chars_of(""), &chars_of("[")));
    assert!(ends_with(&chars_of("a (deleted)"), &chars_of(" (deleted)")));
    assert!(str_eq("x", "x"));
    assert!(!str_eq("x", "X"));
    assert!(same_chars(&[], &[]));
}

#[test]
fn numbers() {
    assert_eq!(s(&decimal_chars(0)), "0");
    assert_eq!(s(&decimal_chars(1500)), "1500");
    assert_eq!(s(&decimal_chars(u64::MAX)), u64::MAX.to_string());
    for text in ["0", "42", "+42", "", "+", "-1", "4294967295", "4294967296", "00012", "1a", " 1"] {
        assert_eq!(parse_u32(&chars_of(text)), text.parse::<u32>().ok(), "{text:?}");
    }
}

#[test]
fn owning() {
    assert_eq!(owned("abc"), "abc");
}

#[test]
fn removing_every_occurrence() {
    let c = |t: &str| chars_of(t);
    assert_eq!(s(&remove_all(&c("abcabxab"), &c("ab"))), "cx");
    assert_eq!(s(&remove_all(&c("aaa"), &c("aa"))), "a");
    assert_eq!(s(&remove_all(&c("xyz"), &c(""))), "xyz");
    assert_eq!(s(&remove_all(&c(""), &c("a"))), "");
    assert_eq!(s(&remove_all(&c("abc"), &c("abcd"))), "abc");
}
