//! Turning a format parser's complaint into a positioned, actionable error,
//! and the size ceiling that bounds what is read at all.
use vstd::prelude::*;

use crate::chars::{chars_of, clamp_usize, owned, string_from_chars, sub_chars, utf8_len, utf8_prefix_len};
use crate::error::{Location, ParseError};
use crate::suggest::{closest, closest_of, did_you_mean};
use crate::text::{char_boundary_index, char_index_of_byte};
use crate::words::{
    contains_word, count_char, count_occurrences, find_last, has_infix, last_index_of,
    lemma_last_index_of, split_chars, split_on,
};

verus! {

/// The largest document read from disk, in bytes: 64 MiB, two orders of
/// magnitude beyond the largest plausible hand-written architecture.
pub const MAX_DOCUMENT_BYTES: u64 = 64 * 1024 * 1024;

/// Refuses a file larger than [`MAX_DOCUMENT_BYTES`] before it is read; a file
/// exactly at the ceiling is within it.
pub fn check_document_size(path: &str, size: u64) -> (r: Result<(), ParseError>)
    ensures
        r is Ok <==> size <= MAX_DOCUMENT_BYTES,
        r matches Err(e) ==> (e matches ParseError::TooLarge { path: p, size: s, limit: l }
            && p@ == path@ && s == size && l == MAX_DOCUMENT_BYTES),
{
    if size > MAX_DOCUMENT_BYTES {
        Err(ParseError::TooLarge { path: owned(path), size, limit: MAX_DOCUMENT_BYTES })
    } else {
        Ok(())
    }
}

/// The hint text offering `candidate`.
pub open spec fn hint_text(candidate: Seq<char>) -> Seq<char> {
    "did you mean `"@ + candidate + "`?"@
}

/// The non-empty pieces at odd positions among the first `n` of `pieces`:
/// the backtick-quoted tokens when `pieces` is a message split at backticks.
pub open spec fn quoted_upto(pieces: Seq<Seq<char>>, n: int) -> Seq<Seq<char>>
    decreases n,
{
    if n <= 0 {
        Seq::empty()
    } else {
        quoted_upto(pieces, n - 1) + if (n - 1) % 2 == 1 && pieces[n - 1].len() > 0 {
            seq![pieces[n - 1]]
        } else {
            Seq::empty()
        }
    }
}

/// The backtick-quoted tokens of a message, in order.
pub open spec fn quoted_tokens(message: Seq<char>) -> Seq<Seq<char>> {
    let pieces = split_on(message, '`');
    quoted_upto(pieces, pieces.len() as int)
}

/// The hint a serde "unknown variant/field" message supports: the first quoted
/// token is the offender, the rest are what was expected, and the hint offers
/// the expected token strictly closest to the offender.
pub open spec fn suggestion_spec(message: Seq<char>) -> Option<Seq<char>> {
    if !has_infix(message, "unknown variant"@) && !has_infix(message, "unknown field"@) {
        None
    } else {
        let q = quoted_tokens(message);
        if q.len() < 2 {
            None
        } else {
            match closest_of(q[0], q.drop_first()) {
                Some(c) => Some(hint_text(c)),
                None => None,
            }
        }
    }
}

/// The quoted tokens among backtick-separated pieces.
fn quoted_pieces(pieces: &Vec<Vec<char>>) -> (r: Vec<Vec<char>>)
    ensures
        r@.map_values(|v: Vec<char>| v@) == quoted_upto(
            pieces@.map_values(|v: Vec<char>| v@),
            pieces@.len() as int,
        ),
{
    let ghost ps = pieces@.map_values(|v: Vec<char>| v@);
    let mut r: Vec<Vec<char>> = Vec::new();
    let mut i: usize = 0;
    while i < pieces.len()
        invariant
            i <= pieces.len(),
            ps == pieces@.map_values(|v: Vec<char>| v@),
            r@.map_values(|v: Vec<char>| v@) == quoted_upto(ps, i as int),
        decreases pieces.len() - i,
    {
        let ghost old_r = r@;
        if i % 2 == 1 && pieces[i].len() > 0 {
            let p = sub_chars(pieces[i].as_slice(), 0, pieces[i].len());
            assert(p@ =~= ps[i as int]);
            r.push(p);
            assert(r@.map_values(|v: Vec<char>| v@) =~= old_r.map_values(|v: Vec<char>| v@).push(
                ps[i as int],
            ));
        } else {
            assert(quoted_upto(ps, i + 1) =~= quoted_upto(ps, i as int));
        }
        i = i + 1;
    }
    r
}

/// Owned strings holding each character vector from index `from` on.
fn strings_from(parts: &[Vec<char>], from: usize) -> (r: Vec<String>)
    requires
        from <= parts@.len(),
    ensures
        r@.len() == parts@.len() - from,
        forall|i: int| 0 <= i < r@.len() ==> #[trigger] r@[i]@ == parts@[from + i]@,
{
    let mut r: Vec<String> = Vec::new();
    let mut i: usize = from;
    while i < parts.len()
        invariant
            from <= i <= parts.len(),
            r@.len() == i - from,
            forall|j: int| 0 <= j < r@.len() ==> #[trigger] r@[j]@ == parts@[from + j]@,
        decreases parts.len() - i,
    {
        r.push(string_from_chars(parts[i].as_slice()));
        i = i + 1;
    }
    r
}

/// Borrowed views of owned strings.
fn borrow_all(owned: &Vec<String>) -> (r: Vec<&str>)
    ensures
        r@.len() == owned@.len(),
        forall|i: int| 0 <= i < r@.len() ==> #[trigger] r@[i]@ == owned@[i]@,
{
    let mut r: Vec<&str> = Vec::new();
    let mut i: usize = 0;
    while i < owned.len()
        invariant
            i <= owned.len(),
            r@.len() == i,
            forall|j: int| 0 <= j < i ==> #[trigger] r@[j]@ == owned@[j]@,
        decreases owned.len() - i,
    {
        r.push(owned[i].as_str());
        i = i + 1;
    }
    r
}

/// Extracts a "did you mean" hint from a serde "unknown variant/field"
/// message. serde names the offending token and the permitted set in
/// backticks; this picks the nearest permitted one.
pub fn infer_suggestion(message: &str) -> (r: Option<String>)
    ensures
        match r {
            Some(h) => suggestion_spec(message@) == Some(h@),
            None => suggestion_spec(message@) is None,
        },
{
    let cs = chars_of(message);
    if !contains_word(cs.as_slice(), "unknown variant") && !contains_word(
        cs.as_slice(),
        "unknown field",
    ) {
        return None;
    }
    let pieces = split_chars(cs.as_slice(), '`');
    proof {
        assert(pieces@.map_values(|v: Vec<char>| v@) =~= split_on(message@, '`'));
    }
    let quoted = quoted_pieces(&pieces);
    let ghost q = quoted_tokens(message@);
    assert(quoted@.map_values(|v: Vec<char>| v@) == q);
    if quoted.len() < 2 {
        return None;
    }
    let offender = string_from_chars(quoted[0].as_slice());
    let rest = strings_from(quoted.as_slice(), 1);
    let expected = borrow_all(&rest);
    proof {
        assert(quoted@[0]@ == q[0]);
        assert(expected@.map_values(|c: &str| c@) =~= q.drop_first());
    }
    match closest(offender.as_str(), expected.as_slice()) {
        Some(c) => Some(did_you_mean(c)),
        None => None,
    }
}

/// Builds a syntax error, inferring a fix hint from the parser's message.
pub fn syntax_error(path: &str, location: Location, message: &str) -> (e: ParseError)
    ensures
        e matches ParseError::Syntax { path: p, location: l, message: m, suggestion: s } && p@
            == path@ && l == location && m@ == message@ && match s {
            Some(h) => suggestion_spec(message@) == Some(h@),
            None => suggestion_spec(message@) is None,
        },
{
    ParseError::Syntax {
        path: owned(path),
        location,
        message: owned(message),
        suggestion: infer_suggestion(message),
    }
}

/// The text before byte offset `offset`, or all of `s` when the offset is not
/// a character boundary within it.
pub open spec fn consumed_before(s: Seq<char>, offset: int) -> Seq<char> {
    match char_index_of_byte(s, offset) {
        Some(k) => s.take(k),
        None => s,
    }
}

/// The text after the last line break of `s`, or all of `s`.
pub open spec fn after_last_newline(s: Seq<char>) -> Seq<char> {
    match last_index_of(s, '\n') {
        Some(i) => s.skip(i + 1),
        None => s,
    }
}

/// The 1-indexed line and byte column of byte offset `offset` in `source`.
pub open spec fn location_at(source: Seq<char>, offset: int) -> Location {
    let consumed = consumed_before(source, offset);
    Location {
        line: clamp_usize(count_char(consumed, '\n') + 1int),
        column: clamp_usize(utf8_len(after_last_newline(consumed)) + 1int),
    }
}

/// Converts a byte offset into a 1-indexed line and column, the column
/// counted in bytes. Used for TOML, whose errors carry a span rather than a
/// position.
pub fn offset_to_location(source: &str, offset: usize) -> (l: Location)
    ensures
        l == location_at(source@, offset as int),
{
    let cs = chars_of(source);
    let consumed = match char_boundary_index(cs.as_slice(), offset as u128) {
        Some(k) => {
            proof {
                crate::text::lemma_char_index_of_byte_bound(cs@, offset as int);
            }
            sub_chars(cs.as_slice(), 0, k)
        },
        None => cs,
    };
    assert(consumed@ == consumed_before(source@, offset as int));
    let newlines = count_occurrences(consumed.as_slice(), '\n');
    let tail = match find_last(consumed.as_slice(), '\n') {
        Some(i) => {
            proof {
                lemma_last_index_of(consumed@, '\n');
            }
            sub_chars(consumed.as_slice(), i + 1, consumed.len())
        },
        None => consumed,
    };
    assert(tail@ == after_last_newline(consumed_before(source@, offset as int)));
    let bytes = utf8_prefix_len(tail.as_slice(), tail.len());
    assert(tail@.take(tail@.len() as int) =~= tail@);
    let line = if newlines < usize::MAX {
        newlines + 1
    } else {
        usize::MAX
    };
    let column = if bytes < usize::MAX as u128 {
        (bytes + 1) as usize
    } else {
        usize::MAX
    };
    Location::new(line, column)
}

} // verus!
