use implot_sys_bindgen::text::{find, find_from, matches_at, push_range, replace_chars, to_chars, to_string};

#[test]
fn chars_and_strings_convert_both_ways() {
    assert_eq!(to_chars("aé\n"), vec!['a', 'é', '\n']);
    assert_eq!(to_string(&vec!['a', 'é', '\n']), "aé\n");
    assert_eq!(to_chars(""), Vec::<char>::new());
    assert_eq!(to_string(&Vec::new()), "");
}

#[test]
fn matches_at_compares_in_place() {
    let hay = to_chars("abcabc");
    assert!(matches_at(&hay, &to_chars("bc"), 1));
    assert!(!matches_at(&hay, &to_chars("bc"), 2));
    assert!(matches_at(&hay, &to_chars("bc"), 4));
    assert!(!matches_at(&hay, &to_chars("bc"), 5));
    assert!(matches_at(&hay, &to_chars(""), 6));
    assert!(!matches_at(&hay, &to_chars(""), 7));
    assert!(!matches_at(&hay, &to_chars("abcabcd"), 0));
}

#[test]
fn find_gives_the_first_offset() {
    let hay = to_chars("abcabc");
    assert_eq!(find(&hay, &to_chars("bc")), Some(1));
    assert_eq!(find(&hay, &to_chars("cb")), None);
    assert_eq!(find(&hay, &to_chars("")), Some(0));
    assert_eq!(find(&to_chars(""), &to_chars("a")), None);
    assert_eq!(find(&to_chars(""), &to_chars("")), Some(0));
}

#[test]
fn find_from_starts_at_the_given_offset() {
    let hay = to_chars("abcabc");
    assert_eq!(find_from(&hay, &to_chars("bc"), 1), Some(1));
    assert_eq!(find_from(&hay, &to_chars("bc"), 2), Some(4));
    assert_eq!(find_from(&hay, &to_chars("bc"), 5), None);
    assert_eq!(find_from(&hay, &to_chars(""), 6), Some(6));
    assert_eq!(find_from(&hay, &to_chars(""), 7), None);
}

#[test]
fn push_range_appends_a_span() {
    let mut out = to_chars("x");
    push_range(&mut out, &to_chars("abcd"), 1, 3);
    assert_eq!(out, to_chars("xbc"));
    push_range(&mut out, &to_chars("abcd"), 4, 4);
    assert_eq!(out, to_chars("xbc"));
}

#[test]
fn replace_chars_agrees_with_str_replace() {
    let cases = [
        ("aaa", "aa", "b"),
        ("aabb", "ab", ""),
        ("abcabc", "bc", "xyz"),
        ("abc", "", "-"),
        ("", "", "-"),
        ("", "a", "-"),
        ("abc", "abcd", "-"),
        ("ababab", "ab", "ab"),
        ("héllo wörld", "ö", "oe"),
    ];
    for (hay, from, to) in cases {
        let out = replace_chars(&to_chars(hay), &to_chars(from), &to_chars(to));
        assert_eq!(to_string(&out), hay.replace(from, to));
    }
}
