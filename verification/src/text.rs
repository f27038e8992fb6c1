//! Character-level helpers for the colon-delimited key listing.

use vstd::prelude::*;

verus! {

/// The text with every carriage return that is directly followed by a line
/// feed removed, scanning left to right.
pub open spec fn normalized_newlines(s: Seq<char>) -> Seq<char>
    decreases s.len(),
{
    if s.len() == 0 {
        s
    } else if s.len() >= 2 && s[0] == '\r' && s[1] == '\n' {
        seq!['\n'] + normalized_newlines(s.skip(2))
    } else {
        seq![s[0]] + normalized_newlines(s.skip(1))
    }
}

/// Position of the first occurrence of `c` in `s`, or `s.len()` if there is
/// none.
pub open spec fn first_index_of(s: Seq<char>, c: char) -> nat
    decreases s.len(),
{
    if s.len() == 0 || s[0] == c {
        0
    } else {
        1 + first_index_of(s.skip(1), c)
    }
}

/// A line without the carriage return that stood before its line feed.
pub open spec fn without_trailing_cr(line: Seq<char>) -> Seq<char> {
    if line.len() > 0 && line.last() == '\r' {
        line.drop_last()
    } else {
        line
    }
}

/// The lines of a text. A line ends at a line feed; the line feed, and a
/// carriage return directly before it, are not part of the line. Text after
/// the last line feed is a line of its own if it is not empty.
pub open spec fn lines_of(s: Seq<char>) -> Seq<Seq<char>>
    decreases s.len(),
{
    let k = first_index_of(s, '\n');
    if s.len() == 0 {
        Seq::empty()
    } else if k >= s.len() {
        seq![s]
    } else {
        seq![without_trailing_cr(s.take(k as int))] + lines_of(s.skip(k as int + 1))
    }
}

/// The fields of a record: the pieces between its colons. A record without a
/// colon is one field.
pub open spec fn fields_of(s: Seq<char>) -> Seq<Seq<char>>
    decreases s.len(),
{
    let k = first_index_of(s, ':');
    if k >= s.len() {
        seq![s]
    } else {
        seq![s.take(k as int)] + fields_of(s.skip(k as int + 1))
    }
}

/// The field at position `n`, counted from zero; empty if the record has no
/// such field.
pub open spec fn field_or_empty(fields: Seq<Seq<char>>, n: int) -> Seq<char> {
    if 0 <= n < fields.len() {
        fields[n]
    } else {
        Seq::empty()
    }
}

/// The first row that starts with `prefix`, if any does.
pub open spec fn first_with_prefix(rows: Seq<Seq<char>>, prefix: Seq<char>) -> Option<Seq<char>>
    decreases rows.len(),
{
    if rows.len() == 0 {
        None
    } else if prefix.is_prefix_of(rows[0]) {
        Some(rows[0])
    } else {
        first_with_prefix(rows.skip(1), prefix)
    }
}

/// A character with the upper-case ASCII letters mapped to lower case, as a
/// code point. All other characters keep their code point.
pub open spec fn ascii_folded(c: char) -> int {
    if 'A' <= c <= 'Z' {
        c as int + 32
    } else {
        c as int
    }
}

/// Equality of two texts that ignores the case of ASCII letters.
pub open spec fn equal_ignoring_ascii_case(a: Seq<char>, b: Seq<char>) -> bool {
    &&& a.len() == b.len()
    &&& forall|i: int| 0 <= i < a.len() ==> ascii_folded(a[i]) == ascii_folded(b[i])
}

/// The character sequences held by a vector of character vectors.
pub open spec fn rows_of(v: Seq<Vec<char>>) -> Seq<Seq<char>> {
    v.map_values(|r: Vec<char>| r@)
}

/// `first_index_of` finds an occurrence, and nothing before it is one.
pub proof fn lemma_first_index_of(s: Seq<char>, c: char)
    ensures
        first_index_of(s, c) <= s.len(),
        forall|j: int| 0 <= j < first_index_of(s, c) ==> s[j] != c,
        first_index_of(s, c) < s.len() ==> s[first_index_of(s, c) as int] == c,
    decreases s.len(),
{
    if s.len() == 0 || s[0] == c {
    } else {
        let t = s.skip(1);
        lemma_first_index_of(t, c);
        assert forall|j: int| 0 <= j < first_index_of(s, c) implies s[j] != c by {
            if j > 0 {
                assert(t[j - 1] == s[j]);
            }
        }
    }
}

/// A position with no occurrence before it that holds `c`, or is the end of
/// the text, is the one `first_index_of` gives.
pub proof fn lemma_first_index_is(s: Seq<char>, c: char, k: nat)
    requires
        k <= s.len(),
        forall|j: int| 0 <= j < k ==> s[j] != c,
        k < s.len() ==> s[k as int] == c,
    ensures
        first_index_of(s, c) == k,
{
    lemma_first_index_of(s, c);
}

/// Number of bytes that a character takes in UTF-8.
pub open spec fn utf8_len(c: char) -> int {
    if (c as u32) < 0x80 {
        1
    } else if (c as u32) < 0x800 {
        2
    } else if (c as u32) < 0x10000 {
        3
    } else {
        4
    }
}

/// Number of bytes that the first `n` characters of a text take in UTF-8:
/// the byte offset at which character `n` starts.
pub open spec fn utf8_offset(s: Seq<char>, n: int) -> int
    decreases n,
{
    if n <= 0 {
        0
    } else {
        utf8_offset(s, n - 1) + utf8_len(s[n - 1])
    }
}

/// Position `from` is where a line starts: the start of the text, or directly
/// after a line feed.
pub open spec fn at_line_start(text: Seq<char>, from: int) -> bool {
    from == 0 || (0 < from <= text.len() && text[from - 1] == '\n')
}

/// Byte offsets grow with the position, and strictly so: no two positions of
/// a text share a byte offset.
pub proof fn lemma_utf8_offset_increases(s: Seq<char>, a: int, b: int)
    requires
        0 <= a <= b,
    ensures
        utf8_offset(s, a) + (b - a) <= utf8_offset(s, b),
        utf8_offset(s, b) <= 4 * b,
    decreases b,
{
    if b > 0 {
        if a < b {
            lemma_utf8_offset_increases(s, a, b - 1);
        } else {
            lemma_utf8_offset_increases(s, b - 1, b - 1);
        }
    }
}

/// The fields joined again, with `sep` between each two.
pub open spec fn joined(fields: Seq<Seq<char>>, sep: char) -> Seq<char>
    decreases fields.len(),
{
    if fields.len() == 0 {
        Seq::empty()
    } else if fields.len() == 1 {
        fields[0]
    } else {
        fields[0] + seq![sep] + joined(fields.skip(1), sep)
    }
}

/// Every record has at least one field, no field holds a colon, and the
/// fields joined by colons are the record again.
pub proof fn lemma_fields_of(s: Seq<char>)
    ensures
        fields_of(s).len() >= 1,
        forall|i: int| 0 <= i < fields_of(s).len() ==> !(#[trigger] fields_of(s)[i]).contains(':'),
        joined(fields_of(s), ':') == s,
    decreases s.len(),
{
    lemma_first_index_of(s, ':');
    let k = first_index_of(s, ':');
    if k >= s.len() {
        assert(!s.contains(':'));
    } else {
        let head = s.take(k as int);
        let rest = s.skip(k as int + 1);
        lemma_fields_of(rest);
        let tail = fields_of(rest);
        let all = seq![head] + tail;
        assert(all == fields_of(s));
        assert(!head.contains(':'));
        assert forall|i: int| 0 <= i < all.len() implies !(#[trigger] all[i]).contains(':') by {
            if i > 0 {
                assert(all[i] == tail[i - 1]);
            }
        }
        assert(all.skip(1) == tail);
        assert(head + seq![':'] + rest == s);
    }
}

/// A text without carriage returns is left as it is.
pub proof fn lemma_normalized_without_cr(s: Seq<char>)
    requires
        !s.contains('\r'),
    ensures
        normalized_newlines(s) == s,
    decreases s.len(),
{
    if s.len() > 0 {
        let rest = s.skip(1);
        assert forall|i: int| 0 <= i < rest.len() implies rest[i] != '\r' by {
            assert(rest[i] == s[i + 1]);
        }
        lemma_normalized_without_cr(rest);
        assert(s[0] != '\r');
        assert(seq![s[0]] + rest == s);
    }
}

/// Equality up to the case of ASCII letters is reflexive, symmetric and
/// transitive, and holds of equal texts.
pub proof fn lemma_equal_ignoring_ascii_case_is_equivalence(
    a: Seq<char>,
    b: Seq<char>,
    c: Seq<char>,
)
    ensures
        equal_ignoring_ascii_case(a, a),
        equal_ignoring_ascii_case(a, b) == equal_ignoring_ascii_case(b, a),
        equal_ignoring_ascii_case(a, b) && equal_ignoring_ascii_case(b, c)
            ==> equal_ignoring_ascii_case(a, c),
{
}

/// Collects the characters of a string slice.
pub fn chars_of(s: &str) -> (out: Vec<char>)
    ensures
        out@ == s@,
{
    broadcast use vstd::string::group_string_axioms;

    let mut out: Vec<char> = Vec::new();
    for c in it: s.chars()
        invariant
            it.seq() == s@,
            out@ == s@.take(it.index() as int),
    {
        out.push(c);
    }
    out
}

/// Replaces each carriage return and line feed pair by a single line feed.
pub fn normalize_newlines(text: &Vec<char>) -> (out: Vec<char>)
    ensures
        out@ == normalized_newlines(text@),
{
    let mut out: Vec<char> = Vec::new();
    let mut i: usize = 0;
    assert(text@.skip(0) == text@);
    assert(out@ + normalized_newlines(text@) == normalized_newlines(text@));
    while i < text.len()
        invariant
            i <= text.len(),
            normalized_newlines(text@) == out@ + normalized_newlines(text@.skip(i as int)),
        decreases text.len() - i,
    {
        let ghost rest = text@.skip(i as int);
        let c = text[i];
        assert(rest[0] == c);
        if c == '\r' && i + 1 < text.len() && text[i + 1] == '\n' {
            assert(rest[1] == '\n');
            assert(rest.skip(2) == text@.skip(i + 2));
            out.push('\n');
            i += 2;
        } else {
            assert(rest.skip(1) == text@.skip(i + 1));
            out.push(c);
            i += 1;
        }
    }
    out
}

/// Splits a record into its colon-separated fields.
pub fn split_fields(line: &Vec<char>) -> (out: Vec<Vec<char>>)
    ensures
        rows_of(out@) == fields_of(line@),
{
    let mut out: Vec<Vec<char>> = Vec::new();
    let mut cur: Vec<char> = Vec::new();
    let mut start: usize = 0;
    let mut i: usize = 0;
    assert(line@.skip(0) == line@);
    assert(rows_of(out@) + fields_of(line@) == fields_of(line@));
    while i < line.len()
        invariant
            start <= i <= line.len(),
            cur@ == line@.subrange(start as int, i as int),
            forall|j: int| start <= j < i ==> line@[j] != ':',
            fields_of(line@) == rows_of(out@) + fields_of(line@.skip(start as int)),
        decreases line.len() - i,
    {
        let c = line[i];
        if c == ':' {
            proof {
                let rest = line@.skip(start as int);
                lemma_first_index_is(rest, ':', (i - start) as nat);
                assert(rest.take(i - start) == cur@);
                assert(rest.skip(i - start + 1) == line@.skip(i + 1));
                assert(rows_of(out@.push(cur)) == rows_of(out@).push(cur@));
            }
            out.push(cur);
            cur = Vec::new();
            start = i + 1;
        } else {
            cur.push(c);
        }
        i += 1;
    }
    proof {
        let rest = line@.skip(start as int);
        lemma_first_index_is(rest, ':', rest.len());
        assert(rest == cur@);
        assert(rows_of(out@.push(cur)) == rows_of(out@).push(cur@));
    }
    out.push(cur);
    out
}

/// Splits a text into its lines.
pub fn split_lines(text: &Vec<char>) -> (out: Vec<Vec<char>>)
    ensures
        rows_of(out@) == lines_of(text@),
{
    let mut out: Vec<Vec<char>> = Vec::new();
    let mut cur: Vec<char> = Vec::new();
    let mut start: usize = 0;
    let mut i: usize = 0;
    assert(text@.skip(0) == text@);
    assert(rows_of(out@) + lines_of(text@) == lines_of(text@));
    while i < text.len()
        invariant
            start <= i <= text.len(),
            cur@ == text@.subrange(start as int, i as int),
            forall|j: int| start <= j < i ==> text@[j] != '\n',
            lines_of(text@) == rows_of(out@) + lines_of(text@.skip(start as int)),
        decreases text.len() - i,
    {
        let c = text[i];
        if c == '\n' {
            proof {
                let rest = text@.skip(start as int);
                lemma_first_index_is(rest, '\n', (i - start) as nat);
                assert(rest.take(i - start) == text@.subrange(start as int, i as int));
                assert(rest.skip(i - start + 1) == text@.skip(i + 1));
            }
            let n = cur.len();
            if n > 0 && cur[n - 1] == '\r' {
                cur.pop();
            }
            proof {
                assert(cur@ == without_trailing_cr(text@.subrange(start as int, i as int)));
                assert(rows_of(out@.push(cur)) == rows_of(out@).push(cur@));
            }
            out.push(cur);
            cur = Vec::new();
            start = i + 1;
        } else {
            cur.push(c);
        }
        i += 1;
    }
    if start < text.len() {
        proof {
            let rest = text@.skip(start as int);
            lemma_first_index_is(rest, '\n', rest.len());
            assert(rest == cur@);
            assert(rows_of(out@.push(cur)) == rows_of(out@).push(cur@));
        }
        out.push(cur);
    } else {
        assert(text@.skip(start as int).len() == 0);
    }
    out
}

/// Number of bytes that a character takes in UTF-8.
pub fn utf8_width(c: char) -> (n: u128)
    ensures
        n == utf8_len(c),
{
    let code: u32 = c as u32;
    if code < 0x80 {
        1
    } else if code < 0x800 {
        2
    } else if code < 0x10000 {
        3
    } else {
        4
    }
}

/// The position in `text` that starts at byte `offset` of its UTF-8 form, if
/// a character starts there or the text ends there. Walks the text from its
/// start.
pub fn char_index_at(text: &Vec<char>, offset: usize) -> (r: Option<usize>)
    ensures
        match r {
            Some(i) => i <= text@.len() && utf8_offset(text@, i as int) == offset,
            None => forall|j: int| 0 <= j <= text@.len() ==> utf8_offset(text@, j) != offset,
        },
{
    let mut i: usize = 0;
    let mut pos: u128 = 0;
    while i < text.len()
        invariant
            i <= text.len(),
            pos == utf8_offset(text@, i as int),
            pos <= 4 * i,
            forall|j: int| 0 <= j < i ==> utf8_offset(text@, j) < offset,
        decreases text.len() - i,
    {
        if pos == offset as u128 {
            return Some(i);
        }
        if pos > offset as u128 {
            assert forall|j: int| 0 <= j <= text@.len() implies utf8_offset(text@, j)
                != offset by {
                if j >= i {
                    lemma_utf8_offset_increases(text@, i as int, j);
                }
            }
            return None;
        }
        pos = pos + utf8_width(text[i]);
        i += 1;
    }
    if pos == offset as u128 {
        Some(i)
    } else {
        None
    }
}

/// Copies the characters from position `from` up to position `to`.
pub(crate) fn slice_of(text: &Vec<char>, from: usize, to: usize) -> (out: Vec<char>)
    requires
        from <= to <= text@.len(),
    ensures
        out@ == text@.subrange(from as int, to as int),
{
    let mut out: Vec<char> = Vec::new();
    let mut i: usize = from;
    while i < to
        invariant
            from <= i <= to <= text@.len(),
            out@ == text@.subrange(from as int, i as int),
        decreases to - i,
    {
        out.push(text[i]);
        i += 1;
    }
    out
}

/// Whether a line starts at position `from`.
pub fn is_line_start(text: &Vec<char>, from: usize) -> (r: bool)
    ensures
        r == at_line_start(text@, from as int),
{
    from == 0 || (from <= text.len() && text[from - 1] == '\n')
}

/// Whether `line` starts with `prefix`.
pub fn starts_with(line: &Vec<char>, prefix: &Vec<char>) -> (r: bool)
    ensures
        r == prefix@.is_prefix_of(line@),
{
    if prefix.len() > line.len() {
        return false;
    }
    let mut i: usize = 0;
    while i < prefix.len()
        invariant
            i <= prefix.len() <= line.len(),
            forall|j: int| 0 <= j < i ==> prefix@[j] == line@[j],
        decreases prefix.len() - i,
    {
        if prefix[i] != line[i] {
            assert(line@.subrange(0, prefix@.len() as int)[i as int] != prefix@[i as int]);
            return false;
        }
        i += 1;
    }
    assert(line@.subrange(0, prefix@.len() as int) == prefix@);
    true
}

/// The index of the first row that starts with `prefix`.
pub fn find_with_prefix(rows: &Vec<Vec<char>>, prefix: &Vec<char>) -> (r: Option<usize>)
    ensures
        match r {
            Some(i) => i < rows@.len() && first_with_prefix(rows_of(rows@), prefix@) == Some(
                rows@[i as int]@,
            ),
            None => first_with_prefix(rows_of(rows@), prefix@) is None,
        },
{
    let mut i: usize = 0;
    assert(rows_of(rows@).skip(0) == rows_of(rows@));
    while i < rows.len()
        invariant
            i <= rows.len(),
            first_with_prefix(rows_of(rows@), prefix@) == first_with_prefix(
                rows_of(rows@).skip(i as int),
                prefix@,
            ),
        decreases rows.len() - i,
    {
        let ghost rest = rows_of(rows@).skip(i as int);
        assert(rest[0] == rows@[i as int]@);
        if starts_with(&rows[i], prefix) {
            return Some(i);
        }
        assert(rest.skip(1) == rows_of(rows@).skip(i + 1));
        i += 1;
    }
    None
}

/// Compares two texts, ignoring the case of ASCII letters.
pub fn eq_ignore_ascii_case(a: &Vec<char>, b: &Vec<char>) -> (r: bool)
    ensures
        r == equal_ignoring_ascii_case(a@, b@),
{
    if a.len() != b.len() {
        return false;
    }
    let mut i: usize = 0;
    while i < a.len()
        invariant
            i <= a.len() == b.len(),
            forall|j: int| 0 <= j < i ==> ascii_folded(a@[j]) == ascii_folded(b@[j]),
        decreases a.len() - i,
    {
        if fold_ascii(a[i]) != fold_ascii(b[i]) {
            return false;
        }
        i += 1;
    }
    true
}

/// The code point of a character, with upper-case ASCII letters mapped to
/// lower case.
pub fn fold_ascii(c: char) -> (r: u32)
    ensures
        r == ascii_folded(c),
{
    let code: u32 = c as u32;
    if 'A' <= c && c <= 'Z' {
        code + 32
    } else {
        code
    }
}

/// Whether `c` occurs in `text`.
pub fn contains_char(text: &Vec<char>, c: char) -> (r: bool)
    ensures
        r == text@.contains(c),
{
    let mut i: usize = 0;
    while i < text.len()
        invariant
            i <= text.len(),
            forall|j: int| 0 <= j < i ==> text@[j] != c,
        decreases text.len() - i,
    {
        if text[i] == c {
            return true;
        }
        i += 1;
    }
    false
}

} // verus!
