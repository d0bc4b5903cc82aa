use notos::search::{cursor_position, find_from, find_next, line_offset, replace_all, stands_at};

#[test]
fn needle_stands_where_it_reads() {
    assert!(stands_at(b"hello", b"ell", 1));
    assert!(!stands_at(b"hello", b"ell", 0));
    assert!(stands_at(b"hello", b"", 5));
    assert!(!stands_at(b"hello", b"", 6));
    assert!(!stands_at(b"hello", b"lo!", 3));
    assert!(!stands_at(b"hi", b"hello", 0));
    assert!(!stands_at(b"hello", b"o", usize::MAX));
}

#[test]
fn first_match_from_an_offset() {
    assert_eq!(find_from(b"abcabc", b"bc", 0), Some(1));
    assert_eq!(find_from(b"abcabc", b"bc", 1), Some(1));
    assert_eq!(find_from(b"abcabc", b"bc", 2), Some(4));
    assert_eq!(find_from(b"abcabc", b"bc", 5), None);
    assert_eq!(find_from(b"abcabc", b"x", 0), None);
    assert_eq!(find_from(b"abc", b"abcd", 0), None);
    assert_eq!(find_from(b"abc", b"c", 2), Some(2));
    assert_eq!(find_from(b"abc", b"c", 9), None);
}

#[test]
fn search_goes_forward_then_wraps() {
    assert_eq!(find_next("one two one", "one", 0), Some((0, 3)));
    assert_eq!(find_next("one two one", "one", 3), Some((8, 11)));
    assert_eq!(find_next("one two one", "one", 11), Some((0, 3)));
    assert_eq!(find_next("one two one", "one", 99), Some((0, 3)));
    assert_eq!(find_next("one two one", "two", 8), Some((4, 7)));
    assert_eq!(find_next("one two one", "three", 0), None);
    assert_eq!(find_next("one two one", "", 0), None);
    assert_eq!(find_next("", "x", 0), None);
}

#[test]
fn search_counts_bytes() {
    assert_eq!(find_next("é é", "é", 0), Some((0, 2)));
    assert_eq!(find_next("é é", "é", 2), Some((3, 5)));
    for (text, query, start) in [("abcabc", "ca", 0), ("aaa", "aa", 1), ("xyz", "z", 2)] {
        let expected = text[start..]
            .find(query)
            .map(|i| start + i)
            .or_else(|| text.find(query))
            .map(|i| (i, i + query.len()));
        assert_eq!(find_next(text, query, start), expected);
    }
}

#[test]
fn replace_all_from_the_left() {
    assert_eq!(replace_all("one two one", "one", "1"), "1 two 1");
    assert_eq!(replace_all("aaa", "aa", "b"), "ba");
    assert_eq!(replace_all("aaaa", "aa", "b"), "bb");
    assert_eq!(replace_all("abc", "x", "y"), "abc");
    assert_eq!(replace_all("abc", "abc", ""), "");
    assert_eq!(replace_all("abc", "", "y"), "abc");
    assert_eq!(replace_all("", "a", "b"), "");
    assert_eq!(replace_all("héé", "é", "ee"), "heeee");
    for (text, query, with) in [("abab", "ab", "ba"), ("xxx", "x", "xx"), ("a.b.c", ".", "")] {
        assert_eq!(replace_all(text, query, with), text.replace(query, with));
    }
}

#[test]
fn cursor_line_and_column() {
    assert_eq!(cursor_position("", 0), (1, 1));
    assert_eq!(cursor_position("abc", 0), (1, 1));
    assert_eq!(cursor_position("abc", 2), (1, 3));
    assert_eq!(cursor_position("abc", 3), (1, 4));
    assert_eq!(cursor_position("abc", 99), (1, 4));
    assert_eq!(cursor_position("a\nbc", 2), (2, 1));
    assert_eq!(cursor_position("a\nbc", 4), (2, 3));
    assert_eq!(cursor_position("a\n\n", 3), (3, 1));
    assert_eq!(cursor_position("éa", 2), (1, 2));
    assert_eq!(cursor_position("éa", 3), (1, 3));
}

#[test]
fn goto_line_offsets() {
    let text = "one\ntwo\nthree";
    assert_eq!(line_offset(text, 1), 0);
    assert_eq!(line_offset(text, 2), 4);
    assert_eq!(line_offset(text, 3), 8);
    assert_eq!(line_offset(text, 4), text.len());
    assert_eq!(line_offset(text, 100), text.len());
    assert_eq!(line_offset(text, 0), 0);
    assert_eq!(line_offset("", 1), 0);
    assert_eq!(line_offset("", 2), 0);
    assert_eq!(line_offset("é\nü", 2), 3);
}

#[test]
fn goto_line_that_begins_at_the_end() {
    assert_eq!(line_offset("a\n", 2), 0);
    assert_eq!(line_offset("a\n", 3), 2);
    assert_eq!(line_offset("\n\n", 2), 1);
    assert_eq!(line_offset("\n\n", 3), 0);
}
