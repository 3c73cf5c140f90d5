use agentemac::text::{
    chars_of, contains_chars, find_char, is_whitespace, line_ranges, push_range,
    range_equals, range_starts_with, string_of, trim_bounds, trimmed, word_ranges,
};

fn piece(v: &[char], r: (usize, usize)) -> String {
    v[r.0..r.1].iter().collect()
}

#[test]
fn whitespace_follows_unicode_white_space() {
    for c in [' ', '\t', '\n', '\r', '\u{b}', '\u{c}', '\u{85}', '\u{a0}', '\u{2003}', '\u{3000}'] {
        assert!(is_whitespace(c), "{:?}", c);
        assert_eq!(is_whitespace(c), c.is_whitespace());
    }
    for c in ['a', '0', '/', '\u{0}', '\u{200b}', '\u{fffd}'] {
        assert!(!is_whitespace(c), "{:?}", c);
        assert_eq!(is_whitespace(c), c.is_whitespace());
    }
}

#[test]
fn trim_bounds_drop_surrounding_whitespace() {
    let v = chars_of("  \t host name \r\n");
    let (a, b) = trim_bounds(&v, 0, v.len());
    assert_eq!(piece(&v, (a, b)), "host name");
    let blank = chars_of(" \u{a0}\n");
    let (a, b) = trim_bounds(&blank, 0, blank.len());
    assert_eq!(a, b);
    let inner = chars_of("x  y  z");
    let (a, b) = trim_bounds(&inner, 1, 6);
    assert_eq!(piece(&inner, (a, b)), "y");
}

#[test]
fn trimming_twice_changes_nothing() {
    let v = chars_of("\t a b \n");
    let (a, b) = trim_bounds(&v, 0, v.len());
    let once = string_of(&v, a, b);
    let w = chars_of(&once);
    let (c, d) = trim_bounds(&w, 0, w.len());
    assert_eq!(string_of(&w, c, d), once);
}

#[test]
fn lines_split_like_str_lines() {
    for text in ["a\r\nb\nc", "a\n\nb\n", "", "\n", "a\r", "one", "x\r\n\r\ny\r"] {
        let v = chars_of(text);
        let got: Vec<String> = line_ranges(&v).into_iter().map(|r| piece(&v, r)).collect();
        let want: Vec<String> = text.lines().map(|l| l.to_string()).collect();
        assert_eq!(got, want, "{:?}", text);
    }
}

#[test]
fn words_split_like_split_whitespace() {
    for text in ["  GET /mac  HTTP/1.1 ", "", "   ", "a\u{3000}b\tc\n", "single"] {
        let v = chars_of(text);
        let got: Vec<String> = word_ranges(&v, 0, v.len()).into_iter().map(|r| piece(&v, r)).collect();
        let want: Vec<String> = text.split_whitespace().map(|w| w.to_string()).collect();
        assert_eq!(got, want, "{:?}", text);
    }
}

#[test]
fn words_of_a_middle_range() {
    let v = chars_of("ab cd ef");
    let got: Vec<String> = word_ranges(&v, 1, 7).into_iter().map(|r| piece(&v, r)).collect();
    assert_eq!(got, vec!["b", "cd", "e"]);
}

#[test]
fn find_char_stops_at_first_match_or_end() {
    let v = chars_of("10.0.0.5/24/x");
    assert_eq!(find_char(&v, 0, v.len(), '/'), 8);
    assert_eq!(find_char(&v, 9, v.len(), '/'), 11);
    assert_eq!(find_char(&v, 0, 8, '/'), 8);
    assert_eq!(find_char(&v, 3, 3, '/'), 3);
}

#[test]
fn comparisons_and_containment() {
    let v = chars_of("OPTIONS /mac");
    let opt = chars_of("OPTIONS");
    assert!(range_starts_with(&v, 0, v.len(), &opt));
    assert!(!range_starts_with(&v, 0, 3, &opt));
    assert!(range_equals(&v, 8, 12, &chars_of("/mac")));
    assert!(!range_equals(&v, 8, 12, &chars_of("/ma")));
    assert!(contains_chars(&chars_of("STATE : 1  STOPPED"), &chars_of("STOPPED")));
    assert!(!contains_chars(&chars_of("RUNNING"), &chars_of("STOPPED")));
    assert!(contains_chars(&chars_of("abc"), &chars_of("")));
    assert!(!contains_chars(&chars_of("ab"), &chars_of("abc")));
}

#[test]
fn strings_are_built_from_ranges() {
    let v = chars_of("héllo wörld");
    assert_eq!(string_of(&v, 6, 11), "wörld");
    let mut s = String::from(">");
    push_range(&mut s, &v, 0, 5);
    assert_eq!(s, ">héllo");
    push_range(&mut s, &v, 3, 3);
    assert_eq!(s, ">héllo");
}

#[test]
fn trimmed_strings() {
    assert_eq!(trimmed("  x y\r\n"), "x y");
    assert_eq!(trimmed("\u{3000}\u{85}"), "");
    assert_eq!(trimmed("plain"), "plain");
    assert_eq!(trimmed(&trimmed(" \t twice \n")), "twice");
}
