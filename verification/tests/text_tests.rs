use statiker::text::{
    chars_of, copy_chars, push_all, push_decimal, push_text, replace_chars, same_chars,
    slice_chars, spells, split_chars, stands_at, trim_blank_chars, trim_end_chars,
    trim_start_chars,
};

fn cs(s: &str) -> Vec<char> {
    s.chars().collect()
}

fn st(v: &[char]) -> String {
    v.iter().collect()
}

#[test]
fn characters_are_collected_in_order() {
    assert_eq!(chars_of("h\u{e9}llo"), vec!['h', '\u{e9}', 'l', 'l', 'o']);
    assert_eq!(chars_of(""), Vec::<char>::new());
    assert_eq!(copy_chars(&cs("abc")), cs("abc"));
}

#[test]
fn comparison_of_texts() {
    assert!(same_chars(&cs("abc"), &cs("abc")));
    assert!(!same_chars(&cs("abc"), &cs("abd")));
    assert!(!same_chars(&cs("abc"), &cs("ab")));
    assert!(same_chars(&cs(""), &cs("")));
    assert!(spells(&cs(".."), ".."));
    assert!(!spells(&cs("..."), ".."));
}

#[test]
fn splitting_keeps_empty_pieces() {
    let pieces = |s: &str, sep: char| -> Vec<String> {
        split_chars(&cs(s), sep).iter().map(|p| st(p)).collect()
    };
    assert_eq!(pieces("a/b/c", '/'), vec!["a", "b", "c"]);
    assert_eq!(pieces("", '/'), vec![""]);
    assert_eq!(pieces("/", '/'), vec!["", ""]);
    assert_eq!(pieces("/a//b/", '/'), vec!["", "a", "", "b", ""]);
    assert_eq!(pieces("abc", '/'), vec!["abc"]);
    for s in ["a/b/c", "", "/", "/a//b/", "abc", "//", "a/"] {
        let expected: Vec<String> = s.split('/').map(|p| p.to_string()).collect();
        assert_eq!(pieces(s, '/'), expected);
    }
}

#[test]
fn appending_and_slicing() {
    let mut v = cs("ab");
    push_all(&mut v, &cs("cd"));
    push_text(&mut v, "ef");
    assert_eq!(st(&v), "abcdef");
    assert_eq!(st(&slice_chars(&v, 1, 4)), "bcd");
    assert_eq!(st(&slice_chars(&v, 6, 6)), "");
    assert_eq!(st(&slice_chars(&v, 0, 6)), "abcdef");
}

#[test]
fn trimming() {
    assert_eq!(st(&trim_end_chars(&cs("http://x///"), '/')), "http://x");
    assert_eq!(st(&trim_end_chars(&cs("///"), '/')), "");
    assert_eq!(st(&trim_end_chars(&cs("/a/b"), '/')), "/a/b");
    assert_eq!(st(&trim_start_chars(&cs("///a/b/"), '/')), "a/b/");
    assert_eq!(st(&trim_start_chars(&cs(""), '/')), "");
    assert_eq!(st(&trim_blank_chars(&cs(" \t a b \t"))), "a b");
    assert_eq!(st(&trim_blank_chars(&cs("   "))), "");
    assert_eq!(st(&trim_blank_chars(&cs("\na\n"))), "\na\n");
}

#[test]
fn finding_and_replacing() {
    assert!(stands_at(&cs("hello"), 1, &cs("ell")));
    assert!(!stands_at(&cs("hello"), 2, &cs("ell")));
    assert!(!stands_at(&cs("hello"), 3, &cs("loo")));
    assert!(stands_at(&cs("hello"), 5, &cs("")));
    assert_eq!(st(&replace_chars(&cs("aXbXc"), &cs("X"), &cs("--"))), "a--b--c");
    assert_eq!(st(&replace_chars(&cs("aaa"), &cs("aa"), &cs("b"))), "ba");
    assert_eq!(st(&replace_chars(&cs("abc"), &cs(""), &cs("z"))), "abc");
    assert_eq!(st(&replace_chars(&cs(""), &cs("a"), &cs("z"))), "");
}

#[test]
fn numbers_in_decimal() {
    for n in [0u64, 7, 10, 99, 100, 8080, 65535, 1_000_000, u64::MAX] {
        let mut v = cs("n=");
        push_decimal(&mut v, n);
        assert_eq!(st(&v), format!("n={}", n));
    }
}
