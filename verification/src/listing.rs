//! Reading the machine-readable key listing: does a key have a subkey that
//! can encrypt?

use vstd::prelude::*;
use vstd::utf8::{decode_utf8, valid_utf8};
use crate::foreign::{decode_lossy, find_all, regex_matches, utf8_lossy};
use crate::process::Run;
use crate::text::{
    at_line_start, char_index_at, chars_of, contains_char, eq_ignore_ascii_case,
    equal_ignoring_ascii_case, field_or_empty, fields_of, find_with_prefix, first_with_prefix,
    is_line_start, lemma_utf8_offset_increases, lines_of, normalize_newlines,
    normalized_newlines, rows_of, slice_of, split_fields, split_lines, utf8_offset,
};

verus! {

/// Position of the capability field in a subkey record, counted from zero.
pub const CAPABILITY_FIELD: usize = 11;

/// Position of the value field in a fingerprint record, counted from zero.
pub const FINGERPRINT_FIELD: usize = 9;

/// The letter that marks a key as able to encrypt.
pub const ENCRYPTION_MARKER: char = 'e';

/// How a subkey record starts.
pub open spec fn subkey_tag() -> Seq<char> {
    seq!['s', 'u', 'b', ':']
}

/// How a fingerprint record starts.
pub open spec fn fingerprint_tag() -> Seq<char> {
    seq!['f', 'p', 'r', ':']
}

/// The regular expression that selects the blocks of a listing: a line that
/// is a subkey record and, if it follows directly, a line that is a
/// fingerprint record. A block starts where a line starts.
pub const BLOCK_PATTERN: &'static str = r"(?m)^sub:.*\n(?:fpr:.*\n)?";

/// A block grants encryption to `fingerprint` if it has both a subkey record
/// and a fingerprint record, the fingerprint record's value equals
/// `fingerprint` up to the case of ASCII letters, and the subkey record's
/// capabilities hold the encryption marker.
pub open spec fn block_grants_encryption(block: Seq<char>, fingerprint: Seq<char>) -> bool {
    let rows = lines_of(block);
    match (first_with_prefix(rows, subkey_tag()), first_with_prefix(rows, fingerprint_tag())) {
        (Some(sub), Some(fpr)) => {
            &&& equal_ignoring_ascii_case(
                field_or_empty(fields_of(fpr), FINGERPRINT_FIELD as int),
                fingerprint,
            )
            &&& field_or_empty(fields_of(sub), CAPABILITY_FIELD as int).contains(
                ENCRYPTION_MARKER,
            )
        },
        _ => false,
    }
}

/// The characters from `from` up to `to` are the match `range`, and a line
/// starts at `from`.
pub open spec fn is_block_range(text: Seq<char>, range: (usize, usize), from: int, to: int) -> bool {
    &&& 0 <= from <= to <= text.len()
    &&& utf8_offset(text, from) == range.0
    &&& utf8_offset(text, to) == range.1
    &&& at_line_start(text, from)
}

/// The block that a match selects: the characters between its two byte
/// offsets. `None` if the offsets are not those of two positions of the text
/// in order, or if no line starts at the first.
pub open spec fn block_at(text: Seq<char>, range: (usize, usize)) -> Option<Seq<char>> {
    if exists|from: int, to: int| is_block_range(text, range, from, to) {
        let (from, to) = choose|from: int, to: int| is_block_range(text, range, from, to);
        Some(text.subrange(from, to))
    } else {
        None
    }
}

/// The blocks that the matches select in `text`, match by match.
pub open spec fn blocks_at(text: Seq<char>, ranges: Seq<(usize, usize)>) -> Seq<Option<Seq<char>>> {
    ranges.map_values(|range: (usize, usize)| block_at(text, range))
}

/// Some block among `blocks` grants encryption to `fingerprint`.
pub open spec fn some_block_grants_encryption(
    blocks: Seq<Option<Seq<char>>>,
    fingerprint: Seq<char>,
) -> bool {
    exists|i: int|
        0 <= i < blocks.len() && (#[trigger] blocks[i] matches Some(block)
            && block_grants_encryption(block, fingerprint))
}

/// The blocks of a listing: line endings are normalized, the block pattern
/// selects the candidates, and those that start a line are blocks. `None` if
/// the pattern cannot be used.
pub open spec fn blocks_of_text(text: Seq<char>) -> Option<Seq<Option<Seq<char>>>> {
    match regex_matches(BLOCK_PATTERN@, normalized_newlines(text)) {
        Some(ranges) => Some(blocks_at(normalized_newlines(text), ranges)),
        None => None,
    }
}

/// Some piece of the listing, with its line endings normalized, starts a
/// line and reads as a block that grants encryption to `fingerprint`.
pub open spec fn some_part_grants_encryption(text: Seq<char>, fingerprint: Seq<char>) -> bool {
    exists|from: int, to: int|
        0 <= from <= to <= normalized_newlines(text).len() && at_line_start(
            normalized_newlines(text),
            from,
        ) && block_grants_encryption(
            #[trigger] normalized_newlines(text).subrange(from, to),
            fingerprint,
        )
}

/// The listing, as text, has a block that grants encryption to
/// `fingerprint`.
pub open spec fn text_grants_encryption(text: Seq<char>, fingerprint: Seq<char>) -> bool {
    match blocks_of_text(text) {
        Some(blocks) => some_block_grants_encryption(blocks, fingerprint),
        None => false,
    }
}

/// The listing, as the bytes the tool printed and decoded leniently, has a
/// block that grants encryption to `fingerprint`.
pub open spec fn listing_grants_encryption(stdout: Seq<u8>, fingerprint: Seq<char>) -> bool {
    text_grants_encryption(utf8_lossy(stdout), fingerprint)
}

/// The run produced a listing, and the listing grants encryption to
/// `fingerprint`.
pub open spec fn key_can_encrypt(run: Run, fingerprint: Seq<char>) -> bool {
    match run {
        Run::Exited(out) => out.success && listing_grants_encryption(out.stdout@, fingerprint),
        _ => false,
    }
}

/// The blocks that a run of the key listing shows: those of its standard
/// output if it exited with status zero, else none.
pub open spec fn blocks_of_run(run: Run) -> Seq<Option<Seq<char>>> {
    match run {
        Run::Exited(out) => if out.success {
            match blocks_of_text(utf8_lossy(out.stdout@)) {
                Some(blocks) => blocks,
                None => Seq::empty(),
            }
        } else {
            Seq::empty()
        },
        _ => Seq::empty(),
    }
}

/// A match selects at most one block: the two positions that make a range a
/// block are determined by the range.
pub proof fn lemma_block_range_is_unique(
    text: Seq<char>,
    range: (usize, usize),
    from: int,
    to: int,
)
    requires
        is_block_range(text, range, from, to),
    ensures
        block_at(text, range) == Some(text.subrange(from, to)),
{
    let (f, t) = choose|f: int, t: int| is_block_range(text, range, f, t);
    if f <= from {
        lemma_utf8_offset_increases(text, f, from);
    } else {
        lemma_utf8_offset_increases(text, from, f);
    }
    if t <= to {
        lemma_utf8_offset_increases(text, t, to);
    } else {
        lemma_utf8_offset_increases(text, to, t);
    }
}

/// Every block starts where a line starts: at the start of the text, or
/// directly after a line feed.
pub proof fn lemma_block_starts_a_line(text: Seq<char>, range: (usize, usize))
    requires
        block_at(text, range) is Some,
    ensures
        exists|from: int, to: int|
            0 <= from <= to <= text.len() && at_line_start(text, from) && #[trigger] text.subrange(
                from,
                to,
            ) == block_at(text, range)->0,
{
    let (from, to) = choose|from: int, to: int| is_block_range(text, range, from, to);
    assert(text.subrange(from, to) == block_at(text, range)->0);
}

/// A key can encrypt if and only if some block that the run shows has a
/// fingerprint record whose value equals the fingerprint up to the case of
/// ASCII letters, and a subkey record whose capabilities hold the encryption
/// marker.
pub proof fn lemma_key_can_encrypt_iff_some_block(run: Run, fingerprint: Seq<char>)
    ensures
        key_can_encrypt(run, fingerprint) <==> exists|i: int|
            0 <= i < blocks_of_run(run).len() && (#[trigger] blocks_of_run(run)[i] matches Some(
                block,
            ) && block_grants_encryption(block, fingerprint)),
{
    let blocks = blocks_of_run(run);
    assert(key_can_encrypt(run, fingerprint) == some_block_grants_encryption(blocks, fingerprint));
}

/// A run that shows no blocks grants encryption to no key.
pub proof fn lemma_no_blocks_no_grant(run: Run, fingerprint: Seq<char>)
    requires
        forall|i: int| 0 <= i < blocks_of_run(run).len() ==> #[trigger] blocks_of_run(run)[i] is None,
    ensures
        !key_can_encrypt(run, fingerprint),
{
    lemma_key_can_encrypt_iff_some_block(run, fingerprint);
}

/// Blocks that lack a fingerprint record are skipped: if no block has one, no
/// key is granted encryption.
pub proof fn lemma_blocks_without_fingerprint_record(run: Run, fingerprint: Seq<char>)
    requires
        forall|i: int|
            0 <= i < blocks_of_run(run).len() ==> (#[trigger] blocks_of_run(run)[i] matches Some(
                block,
            ) ==> first_with_prefix(lines_of(block), fingerprint_tag()) is None),
    ensures
        !key_can_encrypt(run, fingerprint),
{
    lemma_key_can_encrypt_iff_some_block(run, fingerprint);
}

/// If no subkey record's capabilities hold the encryption marker, no key is
/// granted encryption, whatever the fingerprints are.
pub proof fn lemma_blocks_without_marker(run: Run, fingerprint: Seq<char>)
    requires
        forall|i: int|
            0 <= i < blocks_of_run(run).len() ==> (#[trigger] blocks_of_run(run)[i] matches Some(
                block,
            ) ==> (first_with_prefix(lines_of(block), subkey_tag()) matches Some(sub)
                ==> !field_or_empty(fields_of(sub), CAPABILITY_FIELD as int).contains(
                ENCRYPTION_MARKER,
            ))),
    ensures
        !key_can_encrypt(run, fingerprint),
{
    lemma_key_can_encrypt_iff_some_block(run, fingerprint);
}

/// If no fingerprint record's value equals `fingerprint` up to the case of
/// ASCII letters, the key is not granted encryption.
pub proof fn lemma_blocks_without_fingerprint(run: Run, fingerprint: Seq<char>)
    requires
        forall|i: int|
            0 <= i < blocks_of_run(run).len() ==> (#[trigger] blocks_of_run(run)[i] matches Some(
                block,
            ) ==> (first_with_prefix(lines_of(block), fingerprint_tag()) matches Some(fpr)
                ==> !equal_ignoring_ascii_case(
                field_or_empty(fields_of(fpr), FINGERPRINT_FIELD as int),
                fingerprint,
            ))),
    ensures
        !key_can_encrypt(run, fingerprint),
{
    lemma_key_can_encrypt_iff_some_block(run, fingerprint);
}

/// The case of the ASCII letters of a fingerprint does not matter: two
/// fingerprints that differ in nothing else are granted the same.
pub proof fn lemma_fingerprint_case_is_ignored(run: Run, a: Seq<char>, b: Seq<char>)
    requires
        equal_ignoring_ascii_case(a, b),
    ensures
        key_can_encrypt(run, a) == key_can_encrypt(run, b),
{
    assert forall|block: Seq<char>|
        block_grants_encryption(block, a) == block_grants_encryption(block, b) by {
        let rows = lines_of(block);
        match first_with_prefix(rows, fingerprint_tag()) {
            Some(fpr) => {
                let value = field_or_empty(fields_of(fpr), FINGERPRINT_FIELD as int);
                assert(equal_ignoring_ascii_case(value, a) == equal_ignoring_ascii_case(value, b));
            },
            None => {},
        }
    }
    lemma_key_can_encrypt_iff_some_block(run, a);
    lemma_key_can_encrypt_iff_some_block(run, b);
}

/// A run that did not exit with status zero grants nothing.
pub proof fn lemma_failed_listing_grants_nothing(run: Run, fingerprint: Seq<char>)
    requires
        !(run is Exited && run->Exited_0.success),
    ensures
        !key_can_encrypt(run, fingerprint),
{
}

/// Decides whether one block grants encryption to `fingerprint`.
pub fn block_matches(block: &Vec<char>, fingerprint: &Vec<char>) -> (r: bool)
    ensures
        r == block_grants_encryption(block@, fingerprint@),
{
    let rows = split_lines(block);
    let sub_tag: Vec<char> = vec!['s', 'u', 'b', ':'];
    let fpr_tag: Vec<char> = vec!['f', 'p', 'r', ':'];
    assert(sub_tag@ == subkey_tag());
    assert(fpr_tag@ == fingerprint_tag());
    match (find_with_prefix(&rows, &sub_tag), find_with_prefix(&rows, &fpr_tag)) {
        (Some(s), Some(f)) => {
            let sub_fields = split_fields(&rows[s]);
            let fpr_fields = split_fields(&rows[f]);
            let empty: Vec<char> = Vec::new();
            let capabilities = if CAPABILITY_FIELD < sub_fields.len() {
                &sub_fields[CAPABILITY_FIELD]
            } else {
                &empty
            };
            let value = if FINGERPRINT_FIELD < fpr_fields.len() {
                &fpr_fields[FINGERPRINT_FIELD]
            } else {
                &empty
            };
            assert(capabilities@ == field_or_empty(
                fields_of(rows@[s as int]@),
                CAPABILITY_FIELD as int,
            )) by {
                assert(rows_of(sub_fields@).len() == sub_fields@.len());
            }
            assert(value@ == field_or_empty(
                fields_of(rows@[f as int]@),
                FINGERPRINT_FIELD as int,
            )) by {
                assert(rows_of(fpr_fields@).len() == fpr_fields@.len());
            }
            eq_ignore_ascii_case(value, fingerprint) && contains_char(
                capabilities,
                ENCRYPTION_MARKER,
            )
        },
        _ => false,
    }
}

/// Cuts the block that a match selects out of the text: the characters
/// between the two byte offsets, if a line starts at the first.
pub fn block_of_match(text: &Vec<char>, range: (usize, usize)) -> (r: Option<Vec<char>>)
    ensures
        match r {
            Some(block) => block_at(text@, range) == Some(block@),
            None => block_at(text@, range) is None,
        },
{
    match (char_index_at(text, range.0), char_index_at(text, range.1)) {
        (Some(from), Some(to)) => {
            if from <= to && is_line_start(text, from) {
                proof {
                    lemma_block_range_is_unique(text@, range, from as int, to as int);
                }
                Some(slice_of(text, from, to))
            } else {
                proof {
                    if exists|f: int, t: int| is_block_range(text@, range, f, t) {
                        let (f, t) = choose|f: int, t: int| is_block_range(text@, range, f, t);
                        if f <= from {
                            lemma_utf8_offset_increases(text@, f, from as int);
                        } else {
                            lemma_utf8_offset_increases(text@, from as int, f);
                        }
                        if t <= to {
                            lemma_utf8_offset_increases(text@, t, to as int);
                        } else {
                            lemma_utf8_offset_increases(text@, to as int, t);
                        }
                    }
                }
                None
            }
        },
        _ => None,
    }
}

/// Decides whether any of the matches selects a block that grants encryption
/// to `fingerprint`.
pub fn any_block_matches(
    text: &Vec<char>,
    ranges: &Vec<(usize, usize)>,
    fingerprint: &Vec<char>,
) -> (r: bool)
    ensures
        r == some_block_grants_encryption(blocks_at(text@, ranges@), fingerprint@),
        r ==> exists|from: int, to: int|
            0 <= from <= to <= text@.len() && at_line_start(text@, from)
                && block_grants_encryption(#[trigger] text@.subrange(from, to), fingerprint@),
{
    let mut i: usize = 0;
    while i < ranges.len()
        invariant
            i <= ranges.len(),
            forall|j: int|
                0 <= j < i ==> !(#[trigger] blocks_at(text@, ranges@)[j] matches Some(block)
                    && block_grants_encryption(block, fingerprint@)),
        decreases ranges.len() - i,
    {
        assert(blocks_at(text@, ranges@)[i as int] == block_at(text@, ranges@[i as int]));
        match block_of_match(text, ranges[i]) {
            Some(block) => {
                if block_matches(&block, fingerprint) {
                    proof {
                        lemma_block_starts_a_line(text@, ranges@[i as int]);
                    }
                    return true;
                }
            },
            None => {},
        }
        i += 1;
    }
    false
}

/// Decides whether a key listing, as text, has a block that grants
/// encryption to `fingerprint`.
pub fn text_matches(text: &str, fingerprint: &str) -> (r: bool)
    ensures
        r == text_grants_encryption(text@, fingerprint@),
        r ==> some_part_grants_encryption(text@, fingerprint@),
{
    let normalized = normalize_newlines(&chars_of(text));
    let wanted = chars_of(fingerprint);
    match find_all(BLOCK_PATTERN, &normalized) {
        Some(ranges) => any_block_matches(&normalized, &ranges, &wanted),
        None => false,
    }
}

/// Decides whether the key listing that the tool printed has a block that
/// grants encryption to `fingerprint`. Bytes that are no valid UTF-8 are
/// decoded leniently.
pub fn listing_matches(stdout: &Vec<u8>, fingerprint: &str) -> (r: bool)
    ensures
        r == listing_grants_encryption(stdout@, fingerprint@),
        valid_utf8(stdout@) ==> r == text_grants_encryption(decode_utf8(stdout@), fingerprint@),
        r ==> some_part_grants_encryption(utf8_lossy(stdout@), fingerprint@),
{
    let decoded = decode_lossy(stdout.as_slice());
    text_matches(decoded.as_str(), fingerprint)
}

/// Whether the key `fingerprint` has a subkey that can encrypt, judged from a
/// run of the tool that was asked to list all keys.
///
/// Every failure of the run gives `false`.
pub fn check_key_can_encrypt(run: &Run, fingerprint: &str) -> (r: bool)
    ensures
        r == key_can_encrypt(*run, fingerprint@),
        run is Exited && valid_utf8(run->Exited_0.stdout@) ==> r == (run->Exited_0.success
            && text_grants_encryption(decode_utf8(run->Exited_0.stdout@), fingerprint@)),
        r ==> some_part_grants_encryption(utf8_lossy(run->Exited_0.stdout@), fingerprint@),
{
    match run {
        Run::Exited(out) => out.success && listing_matches(&out.stdout, fingerprint),
        _ => false,
    }
}

} // verus!
