use http_server_tester::text::{
    chars_of, find_at_or_after, join_strings, push_decimal, replace_str, split_str,
    starts_with_str, str_eq,
};

fn strings(items: &[&str]) -> Vec<String> {
    items.iter().map(|s| s.to_string()).collect()
}

#[test]
fn split_cuts_at_each_separator() {
    assert_eq!(split_str("a,b,,c", ","), strings(&["a", "b", "", "c"]));
    assert_eq!(split_str("a,", ","), strings(&["a", ""]));
    assert_eq!(split_str("", ","), strings(&[""]));
    assert_eq!(split_str("abc", ","), strings(&["abc"]));
    assert_eq!(split_str("x\r\n\r\ny\r\n\r\n", "\r\n\r\n"), strings(&["x", "y", ""]));
}

#[test]
fn split_takes_matches_left_to_right_without_overlap() {
    assert_eq!(split_str("aaa", "aa"), strings(&["", "a"]));
}

#[test]
fn split_agrees_with_std() {
    for (s, sep) in [("1.2.3", "."), ("::a::", "::"), ("GET / HTTP/1.1", " "), ("héllo wörld", "ö")] {
        let expected: Vec<String> = s.split(sep).map(|p| p.to_string()).collect();
        assert_eq!(split_str(s, sep), expected);
    }
}

#[test]
fn join_then_split_round_trip() {
    let s = "ab--cd----ef";
    let parts = split_str(s, "--");
    assert_eq!(join_strings(&parts, "--"), s);
    assert_eq!(join_strings(&strings(&[]), ","), "");
    assert_eq!(join_strings(&strings(&["x"]), ","), "x");
    assert_eq!(join_strings(&strings(&["x", "y", "z"]), ", "), "x, y, z");
}

#[test]
fn replace_removes_every_occurrence() {
    assert_eq!(replace_str("http://127.0.0.1:8080", "http://", ""), "127.0.0.1:8080");
    assert_eq!(replace_str("a-b-c", "-", "+"), "a+b+c");
    assert_eq!(replace_str("abc", "x", "y"), "abc");
}

#[test]
fn decimal_rendering() {
    for n in [0u64, 7, 10, 99, 8080, 1234567890, u64::MAX] {
        let mut s = String::from("n=");
        push_decimal(&mut s, n);
        assert_eq!(s, format!("n={}", n));
    }
}

#[test]
fn searching_and_prefixes() {
    let s = chars_of("abcabc");
    let p = chars_of("ca");
    assert_eq!(find_at_or_after(&s, &p, 0), Some(2));
    assert_eq!(find_at_or_after(&s, &p, 3), None);
    assert_eq!(find_at_or_after(&s, &chars_of("bc"), 2), Some(4));
    assert!(starts_with_str("Requests per second: 10", "Requests per second:"));
    assert!(!starts_with_str("Req", "Requests"));
    assert!(str_eq("same", "same"));
    assert!(!str_eq("same", "Same"));
    assert_eq!(chars_of("hé"), vec!['h', 'é']);
}
