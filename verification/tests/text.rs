use amem::chunks::{normalize_newlines, split_paragraphs};
use amem::text::{
    chars_of, find_in, find_matching_line, is_whitespace, string_from_chars, string_of, text_less,
    trim_range, trimmed_line,
};
use amem::tokens::{dedup_keep_order, query_chars, query_tokens, unigram_freqs, TokenCount};

fn chars(s: &str) -> Vec<char> {
    s.chars().collect()
}

#[test]
fn white_space_is_what_the_standard_library_says() {
    for n in 0..=0x10FFFFu32 {
        if let Some(c) = char::from_u32(n) {
            assert_eq!(is_whitespace(c), c.is_whitespace(), "U+{:04X}", n);
        }
    }
}

#[test]
fn chars_and_strings_convert_both_ways() {
    let v = chars_of("a東b");
    assert_eq!(v, vec!['a', '東', 'b']);
    assert_eq!(string_from_chars(&v), "a東b");
    assert_eq!(string_of(&v, 1, 3), "東b");
    assert_eq!(string_of(&v, 2, 2), "");
    assert_eq!(chars_of(""), Vec::<char>::new());
}

#[test]
fn trim_range_matches_str_trim() {
    for s in ["", " ", "a", "  a b  ", "\t\u{3000}x\r\n", "x  ", "  x"] {
        let v = chars(s);
        let (a, b) = trim_range(&v, 0, v.len());
        assert_eq!(string_of(&v, a, b), s.trim());
    }
}

#[test]
fn find_in_matches_str_find() {
    let cases = [("hello", "ll"), ("hello", "lo"), ("hello", ""), ("hello", "hello!"), ("aab", "ab"), ("", "a"), ("", "")];
    for (hay, needle) in cases {
        let h = chars(hay);
        let n = chars(needle);
        let expected = hay.find(needle).map(|i| hay[..i].chars().count());
        assert_eq!(find_in(&h, 0, h.len(), &n), expected);
    }
}

#[test]
fn lines_follow_the_standard_library() {
    for s in ["one\ntwo", "one\r\ntwo\r\n", "\nfirst empty", "no break\r", "a\rb\nc", "", "x\n\ny"] {
        let v = chars(s);
        let first = s.lines().next().unwrap_or("").trim().to_string();
        assert_eq!(trimmed_line(&v, 0), first);
        for q in ["two", "o", "y", "b", "\r", ""] {
            let expected = s.lines().find(|l| l.contains(q)).map(|l| l.trim().to_string());
            let got = find_matching_line(&v, &chars(q)).map(|start| trimmed_line(&v, start));
            assert_eq!(got, expected, "{:?} {:?}", s, q);
        }
    }
}

#[test]
fn text_order_is_the_order_of_strings() {
    let words = ["", "a", "ab", "b", "a.md", "ab.md", "東", "z", "é", "\u{10000}", "\u{FFFF}"];
    for x in words {
        for y in words {
            assert_eq!(text_less(&chars(x), &chars(y)), x < y, "{:?} {:?}", x, y);
        }
    }
}

#[test]
fn newlines_are_normalized() {
    assert_eq!(normalize_newlines(&chars("a\r\nb\rc\n\r\n\r")), chars("a\nb\rc\n\n\r"));
}

#[test]
fn paragraphs_split_on_blank_lines() {
    assert_eq!(split_paragraphs("a\n\nb"), vec!["a", "b"]);
    assert_eq!(split_paragraphs("a\n\n\nb"), vec!["a", "b"]);
    assert_eq!(split_paragraphs("a\n\n\n\nb"), vec!["a", "b"]);
    assert_eq!(split_paragraphs("a\r\n\r\nb"), vec!["a", "b"]);
    assert_eq!(split_paragraphs("a\n \nb"), vec!["a\n \nb"]);
    assert_eq!(split_paragraphs("  \n\n \n"), Vec::<String>::new());
    assert_eq!(split_paragraphs(""), Vec::<String>::new());
    assert_eq!(split_paragraphs("\n\nx\n"), vec!["x"]);
}

#[test]
fn paragraphs_match_split_trim_filter() {
    for s in ["one\n\ntwo\n\n\nthree", "\n\n\n", "a \n\n b\n\n\n\n c", "x\ny\n\nz\n"] {
        let expected: Vec<String> =
            s.split("\n\n").map(str::trim).filter(|p| !p.is_empty()).map(str::to_string).collect();
        assert_eq!(split_paragraphs(s), expected);
    }
}

#[test]
fn query_tokens_are_distinct_and_ordered() {
    assert_eq!(query_chars("a b a c"), vec!['a', 'b', 'c']);
    assert_eq!(query_chars("東京 東"), vec!['東', '京']);
    assert_eq!(query_chars(" \t"), Vec::<char>::new());
    assert_eq!(query_tokens("ba b"), vec!["b", "a"]);
    assert_eq!(query_tokens(""), Vec::<String>::new());
}

#[test]
fn unigram_freqs_count_every_token() {
    assert_eq!(
        unigram_freqs("aab a\n京"),
        vec![TokenCount::new('a', 3), TokenCount::new('b', 1), TokenCount::new('京', 1)]
    );
    assert_eq!(unigram_freqs("  "), Vec::<TokenCount>::new());
}

#[test]
fn dedup_keeps_first_occurrences() {
    let lines: Vec<String> = ["b", "a", "b", "", "a", ""].iter().map(|s| s.to_string()).collect();
    assert_eq!(dedup_keep_order(lines), vec!["b", "a", ""]);
    assert_eq!(dedup_keep_order(Vec::new()), Vec::<String>::new());
}
