//! Searching a text and counting its lines, by byte offsets as the
//! text widget counts them.

use crate::text::{chars_of, push_char};
use vstd::prelude::*;
use vstd::string::StringExecFns;
use vstd::string::StringSliceAdditionalSpecFns;

verus! {

/// Whether `needle` stands in `hay` at offset `at`.
pub open spec fn occurs_at<T>(hay: Seq<T>, needle: Seq<T>, at: int) -> bool {
    &&& 0 <= at
    &&& at + needle.len() <= hay.len()
    &&& hay.subrange(at, at + needle.len()) == needle
}

/// Whether `found` is the first offset from `from` on at which `needle`
/// stands in `hay`, or nothing where it stands at none.
pub open spec fn is_first_from<T>(hay: Seq<T>, needle: Seq<T>, from: int, found: Option<usize>) -> bool {
    match found {
        Some(at) => {
            &&& from <= at
            &&& occurs_at(hay, needle, at as int)
            &&& forall|k: int| from <= k < at ==> !occurs_at(hay, needle, k)
        },
        None => forall|k: int| from <= k ==> !occurs_at(hay, needle, k),
    }
}

/// Whether the bytes `needle` stand in `hay` at offset `at`.
pub fn stands_at(hay: &[u8], needle: &[u8], at: usize) -> (r: bool)
    ensures
        r == occurs_at(hay@, needle@, at as int),
{
    if needle.len() > hay.len() || at > hay.len() - needle.len() {
        return false;
    }
    let mut j: usize = 0;
    while j < needle.len()
        invariant
            j <= needle.len(),
            at + needle.len() <= hay.len(),
            forall|k: int| 0 <= k < j ==> hay@[at + k] == needle@[k],
        decreases needle.len() - j,
    {
        if hay[at + j] != needle[j] {
            proof {
                assert(hay@.subrange(at as int, at + needle.len())[j as int] == hay@[at + j]);
            }
            return false;
        }
        j += 1;
    }
    proof {
        assert(hay@.subrange(at as int, at + needle.len()) =~= needle@);
    }
    true
}

/// Whether the characters `needle` stand in `hay` at place `at`.
pub fn reads_at(hay: &[char], needle: &[char], at: usize) -> (r: bool)
    ensures
        r == occurs_at(hay@, needle@, at as int),
{
    if needle.len() > hay.len() || at > hay.len() - needle.len() {
        return false;
    }
    let mut j: usize = 0;
    while j < needle.len()
        invariant
            j <= needle.len(),
            at + needle.len() <= hay.len(),
            forall|k: int| 0 <= k < j ==> hay@[at + k] == needle@[k],
        decreases needle.len() - j,
    {
        if hay[at + j] != needle[j] {
            proof {
                assert(hay@.subrange(at as int, at + needle.len())[j as int] == hay@[at + j]);
            }
            return false;
        }
        j += 1;
    }
    proof {
        assert(hay@.subrange(at as int, at + needle.len()) =~= needle@);
    }
    true
}

/// The first offset from `from` on at which `needle` stands in `hay`.
pub fn find_from(hay: &[u8], needle: &[u8], from: usize) -> (found: Option<usize>)
    ensures
        is_first_from(hay@, needle@, from as int, found),
{
    if needle.len() > hay.len() {
        return None;
    }
    let last = hay.len() - needle.len();
    let mut at: usize = from;
    while at < last
        invariant
            from <= at,
            last == hay.len() - needle.len(),
            forall|k: int| from <= k < at ==> !occurs_at(hay@, needle@, k),
        decreases last - at,
    {
        if stands_at(hay, needle, at) {
            return Some(at);
        }
        at += 1;
    }
    if at == last && stands_at(hay, needle, at) {
        return Some(at);
    }
    None
}

/// Where the search for `query` goes next in `text`, as a pair of byte
/// offsets that mark the match off: the first match at or after
/// `start`, else the first match in the whole text, else nothing. An
/// empty query finds nothing.
pub open spec fn is_next_match(
    text: Seq<u8>,
    query: Seq<u8>,
    start: usize,
    found: Option<(usize, usize)>,
) -> bool {
    if query.len() == 0 {
        found is None
    } else {
        match found {
            Some((from, to)) => {
                &&& to == from + query.len()
                &&& if from >= start {
                    is_first_from(text, query, start as int, Some(from))
                } else {
                    is_first_from(text, query, start as int, None) && is_first_from(
                        text,
                        query,
                        0,
                        Some(from),
                    )
                }
            },
            None => is_first_from(text, query, 0, None),
        }
    }
}

/// Finds where the search for `query` goes next in `text` when the
/// cursor stands at byte offset `start`: forward from there, and from
/// the top of the text where nothing follows.
pub fn find_next(text: &str, query: &str, start: usize) -> (found: Option<(usize, usize)>)
    ensures
        is_next_match(text.spec_bytes(), query.spec_bytes(), start, found),
{
    let hay = text.as_bytes();
    let needle = query.as_bytes();
    if needle.len() == 0 {
        return None;
    }
    let ahead = find_from(hay, needle, start);
    let at = match ahead {
        Some(at) => Some(at),
        None => {
            let wrapped = find_from(hay, needle, 0);
            proof {
                if let Some(w) = wrapped {
                    if w >= start {
                        assert(!occurs_at(hay@, needle@, w as int));
                    }
                }
            }
            wrapped
        },
    };
    match at {
        Some(at) => {
            proof {
                assert(occurs_at(hay@, needle@, at as int));
                assert(at + needle@.len() <= hay@.len());
                assert(hay@.len() == hay.len());
            }
            Some((at, at + needle.len()))
        },
        None => None,
    }
}

/// A text in which every occurrence of `query`, taken from the left
/// and never overlapping, gave way to `with`. An empty query occurs
/// nowhere.
pub open spec fn replaced_all(text: Seq<char>, query: Seq<char>, with: Seq<char>) -> Seq<char>
    decreases text.len(),
{
    if query.len() == 0 || text.len() < query.len() {
        text
    } else if text.subrange(0, query.len() as int) == query {
        with + replaced_all(text.skip(query.len() as int), query, with)
    } else {
        seq![text[0]] + replaced_all(text.skip(1), query, with)
    }
}

/// Puts `with` in place of every occurrence of `query` in `text`.
pub fn replace_all(text: &str, query: &str, with: &str) -> (out: String)
    ensures
        out@ == replaced_all(text@, query@, with@),
{
    let hay = chars_of(text);
    let needle = chars_of(query);
    let n = hay.len();
    let m = needle.len();
    if m == 0 {
        return text.to_owned();
    }
    let mut out = String::new();
    let mut i: usize = 0;
    proof {
        assert(hay@.skip(0) =~= hay@);
        assert(out@ + replaced_all(hay@, query@, with@) =~= replaced_all(hay@, query@, with@));
    }
    while i < n
        invariant
            i <= n,
            n == hay.len(),
            m == needle.len(),
            m > 0,
            hay@ == text@,
            needle@ == query@,
            replaced_all(text@, query@, with@) == out@ + replaced_all(
                hay@.skip(i as int),
                query@,
                with@,
            ),
        decreases n - i,
    {
        let ghost rest = hay@.skip(i as int);
        let ghost done = out@;
        proof {
            assert(rest[0] == hay@[i as int]);
            if rest.len() >= m {
                assert(rest.subrange(0, m as int) =~= hay@.subrange(i as int, i + m));
            }
        }
        if reads_at(hay.as_slice(), needle.as_slice(), i) {
            out.append(with);
            proof {
                let tail = replaced_all(rest.skip(m as int), query@, with@);
                assert(rest.skip(m as int) =~= hay@.skip(i + m));
                assert(done + (with@ + tail) =~= (done + with@) + tail);
            }
            i += m;
        } else {
            push_char(&mut out, hay[i]);
            proof {
                let tail = replaced_all(rest.skip(1), query@, with@);
                assert(rest.skip(1) =~= hay@.skip(i + 1));
                if rest.len() < m {
                    assert(replaced_all(rest.skip(1), query@, with@) == rest.skip(1));
                    assert(seq![rest[0]] + rest.skip(1) =~= rest);
                }
                assert(done + (seq![rest[0]] + tail) =~= done.push(rest[0]) + tail);
            }
            i += 1;
        }
    }
    proof {
        assert(hay@.skip(n as int) =~= Seq::<char>::empty());
        assert(out@ + Seq::<char>::empty() =~= out@);
    }
    out
}

/// The line and the column at which a cursor at byte offset `idx`
/// stands in a text of these bytes, both counted from one. Only the
/// bytes before the cursor count: a line feed begins a new line, and
/// every other byte that begins a character is one column.
pub open spec fn position_in(bytes: Seq<u8>, idx: int) -> (int, int)
    decreases idx,
{
    if idx <= 0 || bytes.len() == 0 {
        (1, 1)
    } else if idx > bytes.len() {
        position_in(bytes, bytes.len() as int)
    } else {
        let (line, column) = position_in(bytes, idx - 1);
        let byte = bytes[idx - 1];
        if byte == 0x0Au8 {
            (line + 1, 1)
        } else if vstd::utf8::is_continuation_byte(byte) {
            (line, column)
        } else {
            (line, column + 1)
        }
    }
}

/// A cursor never stands further down or right than there are bytes
/// before it.
pub proof fn lemma_position_bounds(bytes: Seq<u8>, idx: int)
    requires
        0 <= idx <= bytes.len(),
    ensures
        1 <= position_in(bytes, idx).0 <= idx + 1,
        1 <= position_in(bytes, idx).1 <= idx + 1,
    decreases idx,
{
    if idx > 0 {
        lemma_position_bounds(bytes, idx - 1);
    }
}

/// The line and the column at which a cursor at byte offset `idx`
/// stands in `text`.
pub fn cursor_position(text: &str, idx: usize) -> (position: (usize, usize))
    requires
        text.spec_bytes().len() < usize::MAX,
    ensures
        (position.0 as int, position.1 as int) == position_in(text.spec_bytes(), idx as int),
{
    let bytes = text.as_bytes();
    let n = bytes.len();
    let stop = if idx < n {
        idx
    } else {
        n
    };
    let mut line: usize = 1;
    let mut column: usize = 1;
    let mut i: usize = 0;
    while i < stop
        invariant
            i <= stop <= n,
            n == bytes.len(),
            n < usize::MAX,
            (line as int, column as int) == position_in(bytes@, i as int),
            line <= i + 1,
            column <= i + 1,
        decreases stop - i,
    {
        let byte = bytes[i];
        proof {
            vstd::utf8::utf8_byte_ranges_bitwise(byte);
        }
        if byte == 0x0A {
            line += 1;
            column = 1;
        } else if byte < 0x80 || byte >= 0xC0 {
            column += 1;
        }
        i += 1;
    }
    (line, column)
}

/// The offset just after the `count`-th line feed among the first
/// `upto` bytes, or nothing where they hold fewer line feeds. No line
/// feed at all has offset 0 after it.
pub open spec fn after_line_feeds(bytes: Seq<u8>, count: int, upto: int) -> Option<int>
    decreases upto,
{
    if count <= 0 {
        Some(0)
    } else if upto <= 0 || upto > bytes.len() {
        None
    } else {
        match after_line_feeds(bytes, count, upto - 1) {
            Some(offset) => Some(offset),
            None => if bytes[upto - 1] == 0x0Au8 && after_line_feeds(bytes, count - 1, upto - 1)
                is Some {
                Some(upto)
            } else {
                None
            },
        }
    }
}

/// The byte offset to which the cursor goes for line `target`, counted
/// from one: the start of that line. Past the last line it goes to
/// the end of the text. For line 0, and for a line that would begin
/// where the text ends, it goes to the start of the text.
pub open spec fn line_start(bytes: Seq<u8>, target: int) -> int {
    if target <= 0 {
        0
    } else {
        match after_line_feeds(bytes, target - 1, bytes.len() as int) {
            Some(offset) => if offset < bytes.len() {
                offset
            } else {
                0
            },
            None => bytes.len() as int,
        }
    }
}

/// Among a longer run of bytes, the place after the `count`-th line
/// feed stays where it was found.
proof fn lemma_after_line_feeds_stays(bytes: Seq<u8>, count: int, upto: int, further: int)
    requires
        0 <= upto <= further <= bytes.len(),
        after_line_feeds(bytes, count, upto) is Some,
    ensures
        after_line_feeds(bytes, count, further) == after_line_feeds(bytes, count, upto),
    decreases further - upto,
{
    if upto < further {
        lemma_after_line_feeds_stays(bytes, count, upto, further - 1);
    }
}

/// Where a run of bytes holds fewer than `count` line feeds, it holds
/// fewer than any larger number of them.
proof fn lemma_fewer_line_feeds(bytes: Seq<u8>, count: int, more: int, upto: int)
    requires
        1 <= count <= more,
        0 <= upto <= bytes.len(),
        after_line_feeds(bytes, count, upto) is None,
    ensures
        after_line_feeds(bytes, more, upto) is None,
    decreases more - count, upto,
{
    if count < more {
        if upto > 0 {
            lemma_fewer_line_feeds(bytes, count, count + 1, upto - 1);
        }
        lemma_fewer_line_feeds(bytes, count + 1, more, upto);
    }
}

/// The byte offset to which the cursor goes for line `target`.
pub fn line_offset(text: &str, target_line: usize) -> (offset: usize)
    ensures
        offset == line_start(text.spec_bytes(), target_line as int),
{
    let bytes = text.as_bytes();
    let n = bytes.len();
    if target_line == 0 {
        return 0;
    }
    // `current` is the line in which the byte at `i` stands.
    let mut current: usize = 1;
    let mut i: usize = 0;
    while i < n && current < target_line
        invariant
            i <= n,
            n == bytes.len(),
            1 <= current <= target_line,
            current <= i + 1,
            target_line == 1 ==> i == 0,
            after_line_feeds(bytes@, current - 1, i as int) is Some,
            after_line_feeds(bytes@, current as int, i as int) is None,
            current == target_line && current > 1 ==> after_line_feeds(bytes@, current - 1, i as int)
                == Some(i as int),
        decreases n - i,
    {
        if bytes[i] == 0x0A {
            proof {
                assert(after_line_feeds(bytes@, current as int, i + 1) == Some(i + 1));
                lemma_fewer_line_feeds(bytes@, current as int, current + 1, i as int);
            }
            current += 1;
        } else {
            proof {
                lemma_after_line_feeds_stays(bytes@, current - 1, i as int, i + 1);
            }
        }
        i += 1;
    }
    if current < target_line {
        proof {
            lemma_fewer_line_feeds(bytes@, current as int, target_line - 1, n as int);
        }
        n
    } else {
        proof {
            if target_line > 1 {
                lemma_after_line_feeds_stays(bytes@, target_line - 1, i as int, n as int);
            }
        }
        if i < n {
            i
        } else {
            0
        }
    }
}

} // verus!
