use tv_proxy::text::{
    chars_of, decimal_of, nth_field, parse_u64, part_before, replaced, search, split_lines,
    str_begins_with, str_equal, text_of, trimmed,
};

fn chars(s: &str) -> Vec<char> {
    s.chars().collect()
}

#[test]
fn characters_and_texts() {
    assert_eq!(chars_of("aé频"), vec!['a', 'é', '频']);
    assert_eq!(text_of(&['a', 'é', '频']), "aé频");
}

#[test]
fn searching() {
    assert_eq!(search(&chars("abcabc"), "ca"), Some(2));
    assert_eq!(search(&chars("abc"), "x"), None);
    assert_eq!(search(&chars("abc"), ""), Some(0));
    assert!(str_begins_with("cctv1", "cctv"));
    assert!(!str_begins_with("xcctv", "cctv"));
    assert!(str_equal("a", "a"));
    assert!(!str_equal("a", "ab"));
}

#[test]
fn trimming_agrees_with_std() {
    for s in ["", " a ", "\u{3000}x\u{a0}\u{2003}", "\t\r\n", "a b", "\u{200b}x", "\u{85}y"] {
        assert_eq!(text_of(trimmed(&chars(s))), s.trim(), "{:?}", s);
    }
}

#[test]
fn lines_agree_with_std() {
    for s in ["", "a", "a\n", "a\r\nb", "\n\n", "a\r", "a\rb\n", "x\r\r\ny"] {
        let t = chars(s);
        let own: Vec<String> = split_lines(&t).iter().map(|l| text_of(l)).collect();
        let other: Vec<String> = s.lines().map(|l| l.to_string()).collect();
        assert_eq!(own, other, "{:?}", s);
    }
}

#[test]
fn replacing_agrees_with_std() {
    for (s, from, to) in [("aaa", "aa", "b"), ("abab", "ab", "abab"), ("xyz", "q", "r")] {
        assert_eq!(text_of(&replaced(&chars(s), &chars(from), &chars(to))), s.replace(from, to));
    }
}

#[test]
fn fields_agree_with_std() {
    for s in ["", "a", "a:b", "a:b:c:d/e", ":::x"] {
        for n in 0..5 {
            let t = chars(s);
            let own = nth_field(&t, ":", n).map(|f| text_of(f));
            assert_eq!(own, s.split(':').nth(n).map(|f| f.to_string()), "{:?} {}", s, n);
        }
        let t = chars(s);
        assert_eq!(text_of(part_before(&t, "/")), s.split('/').next().unwrap());
    }
}

#[test]
fn numbers_agree_with_std() {
    for s in ["", "+", "-1", "0", "+7", "007", "18446744073709551615", "18446744073709551616", "1 "] {
        assert_eq!(parse_u64(&chars(s)), s.parse::<u64>().ok(), "{:?}", s);
    }
    for n in [0, 9, 10, 1_500_000, u64::MAX] {
        assert_eq!(decimal_of(n), n.to_string());
        assert_eq!(parse_u64(&chars(&decimal_of(n))), Some(n));
    }
}
