//! Positions and spans in the coordinate system the editor protocol uses:
//! zero-based lines and UTF-16 code-unit offsets.
//!
//! Rust strings are UTF-8, editors count UTF-16 code units, and the two agree
//! only on ASCII. Every conversion between them lives here.
use vstd::prelude::*;

use crate::chars::{
    char_utf16_width, char_utf8_width, chars_of, clamp_u32, clamp_usize, lemma_units_monotone,
    lemma_units_push, lemma_utf8_len_at_least_len, lemma_widths_concat, lemma_widths_single, sub_chars, utf16_units,
    utf16_width, utf8_len, utf8_width,
};

verus! {

/// A zero-based position in a text document.
#[derive(Clone, Copy, Debug, Default, PartialEq, Eq, PartialOrd, Ord, Hash)]
pub struct Position {
    /// Zero-based line number.
    pub line: u32,
    /// Zero-based offset within the line, in UTF-16 code units.
    pub character: u32,
}

impl Position {
    /// Constructs a position.
    pub fn new(line: u32, character: u32) -> (p: Self)
        ensures
            p.line == line,
            p.character == character,
    {
        Position { line, character }
    }
}

/// A contiguous range within a single line: `[start, end)` in UTF-16 units.
#[derive(Clone, Copy, Debug, Default, PartialEq, Eq, PartialOrd, Ord, Hash)]
pub struct Span {
    /// Zero-based line number.
    pub line: u32,
    /// Inclusive start offset, in UTF-16 code units.
    pub start: u32,
    /// Exclusive end offset, in UTF-16 code units.
    pub end: u32,
}

/// Document order on spans: by line, then start, then end.
pub open spec fn span_le(a: Span, b: Span) -> bool {
    ||| a.line < b.line
    ||| a.line == b.line && a.start < b.start
    ||| a.line == b.line && a.start == b.start && a.end <= b.end
}

impl Span {
    /// Whether `position` falls within this span, the end counting as inside:
    /// a cursor just past a word is still on that word.
    pub open spec fn spec_contains(&self, position: Position) -> bool {
        position.line == self.line && self.start <= position.character <= self.end
    }

    /// Constructs a span.
    pub fn new(line: u32, start: u32, end: u32) -> (s: Self)
        ensures
            s.line == line,
            s.start == start,
            s.end == end,
    {
        Span { line, start, end }
    }

    /// An empty span at the start of `line`.
    pub fn line_start(line: u32) -> (s: Self)
        ensures
            s.line == line,
            s.start == 0,
            s.end == 0,
    {
        Span { line, start: 0, end: 0 }
    }

    /// Returns `true` if `position` falls within this span, end inclusive.
    pub fn contains(&self, position: Position) -> (b: bool)
        ensures
            b == self.spec_contains(position),
    {
        position.line == self.line && position.character >= self.start && position.character
            <= self.end
    }

    /// The span's width in UTF-16 code units, saturating at zero.
    pub fn width(&self) -> (w: u32)
        ensures
            w == if self.end >= self.start {
                (self.end - self.start) as u32
            } else {
                0u32
            },
    {
        self.end.saturating_sub(self.start)
    }

    /// Returns `true` if the span covers no characters.
    pub fn is_empty(&self) -> (b: bool)
        ensures
            b == (self.start >= self.end),
    {
        self.start >= self.end
    }
}

/// Index of the character a byte offset lands on, if it lands on a character
/// boundary of `s` (the end of `s` included).
pub open spec fn char_index_of_byte(s: Seq<char>, b: int) -> Option<int>
    decreases s.len(),
{
    if b == 0 {
        Some(0)
    } else if b < 0 || s.len() == 0 {
        None
    } else {
        match char_index_of_byte(s.drop_first(), b - utf8_width(s[0])) {
            Some(k) => Some(k + 1),
            None => None,
        }
    }
}

/// The UTF-16 offset of byte offset `b` in `s`; an offset past the end or
/// inside a character means the whole line.
pub open spec fn byte_to_utf16_spec(s: Seq<char>, b: int) -> u32 {
    match char_index_of_byte(s, b) {
        Some(k) => clamp_u32(utf16_units(s.take(k)) as int),
        None => clamp_u32(utf16_units(s) as int),
    }
}

/// How many characters of `s` lie wholly before UTF-16 offset `off`: the
/// longest prefix no wider than `off`. An offset inside a surrogate pair
/// takes the character boundary before it; one past the end takes all of `s`.
pub open spec fn char_index_at_units(s: Seq<char>, off: int) -> nat
    decreases s.len(),
{
    if s.len() == 0 || off < utf16_width(s[0]) {
        0
    } else {
        1 + char_index_at_units(s.drop_first(), off - utf16_width(s[0]))
    }
}

/// The byte offset of UTF-16 offset `off` in `s`.
pub open spec fn utf16_to_byte_spec(s: Seq<char>, off: int) -> usize {
    clamp_usize(utf8_len(s.take(char_index_at_units(s, off) as int)) as int)
}

/// `char_index_of_byte` agrees with prefix widths.
pub proof fn lemma_char_index_of_byte(s: Seq<char>, b: int, k: int)
    requires
        0 <= k <= s.len(),
    ensures
        (utf8_len(s.take(k)) == b) <==> (char_index_of_byte(s, b) == Some(k)),
    decreases s.len(),
{
    if k == 0 {
        assert(s.take(0) =~= Seq::<char>::empty());
        assert(utf8_len(s.take(0)) == 0);
        if s.len() > 0 {
            lemma_char_index_of_byte_bound(s.drop_first(), b - utf8_width(s[0]));
        }
    } else {
        lemma_prefix_utf8_first(s, k);
        let rest = s.drop_first();
        let w = utf8_width(s[0]);
        lemma_char_index_of_byte(rest, b - w, k - 1);
        if b != 0 && b >= 0 {
            assert(char_index_of_byte(s, b) == match char_index_of_byte(rest, b - w) {
                Some(j) => Some(j + 1),
                None => None,
            });
        }
    }
}

/// The UTF-8 width of a non-empty prefix is the first character's width plus
/// the width of the rest of the prefix.
pub proof fn lemma_prefix_utf8_first(s: Seq<char>, k: int)
    requires
        0 <= k <= s.len(),
    ensures
        k > 0 ==> utf8_len(s.take(k)) == utf8_width(s[0]) + utf8_len(s.drop_first().take(k - 1)),
        k > 0 ==> utf16_units(s.take(k)) == utf16_width(s[0]) + utf16_units(
            s.drop_first().take(k - 1),
        ),
{
    if k > 0 {
        let one = seq![s[0]];
        let rest = s.drop_first().take(k - 1);
        lemma_widths_single(s[0]);
        lemma_widths_concat(one, rest);
        assert(one + rest =~= s.take(k));
    }
}

/// `char_index_at_units` is the longest prefix no wider than the offset.
pub proof fn lemma_char_index_at_units(s: Seq<char>, off: int)
    ensures
        char_index_at_units(s, off) <= s.len(),
        off >= 0 ==> utf16_units(s.take(char_index_at_units(s, off) as int)) <= off,
        char_index_at_units(s, off) < s.len() ==> utf16_units(
            s.take(char_index_at_units(s, off) as int + 1),
        ) > off,
    decreases s.len(),
{
    let n = char_index_at_units(s, off);
    if s.len() == 0 || off < utf16_width(s[0]) {
        assert(s.take(0) =~= Seq::<char>::empty());
        if s.len() > 0 {
            lemma_prefix_utf8_first(s, 1);
            assert(s.drop_first().take(0) =~= Seq::<char>::empty());
        }
    } else {
        let rest = s.drop_first();
        let off2 = off - utf16_width(s[0]);
        lemma_char_index_at_units(rest, off2);
        lemma_prefix_utf8_first(s, n as int);
        if n < s.len() {
            lemma_prefix_utf8_first(s, n as int + 1);
        }
    }
}

/// The characters wholly before `off`, counted from position `i` with
/// `consumed` units already behind it.
proof fn lemma_char_index_at_units_step(s: Seq<char>, off: int, i: int)
    requires
        0 <= i < s.len(),
    ensures
        char_index_at_units(s.skip(i), off) == if off < utf16_width(s[i]) {
            0
        } else {
            1 + char_index_at_units(s.skip(i + 1), off - utf16_width(s[i]))
        },
{
    assert(s.skip(i).drop_first() =~= s.skip(i + 1));
    assert(s.skip(i)[0] == s[i]);
}

/// Returns the length of `text` in UTF-16 code units, saturating at
/// `u32::MAX`.
pub fn utf16_len(text: &str) -> (n: u32)
    ensures
        n == clamp_u32(utf16_units(text@) as int),
{
    let cs = chars_of(text);
    utf16_len_of(cs.as_slice())
}

/// UTF-16 length of a character slice, saturating at `u32::MAX`.
pub fn utf16_len_of(cs: &[char]) -> (n: u32)
    ensures
        n == clamp_u32(utf16_units(cs@) as int),
{
    let mut total: u64 = 0;
    let mut i: usize = 0;
    while i < cs.len()
        invariant
            i <= cs.len(),
            total == if utf16_units(cs@.take(i as int)) > u32::MAX {
                u32::MAX as int
            } else {
                utf16_units(cs@.take(i as int)) as int
            },
        decreases cs.len() - i,
    {
        proof {
            lemma_units_push(cs@, i as int);
        }
        let w = char_utf16_width(cs[i]);
        total = total + w as u64;
        if total > u32::MAX as u64 {
            total = u32::MAX as u64;
        }
        i = i + 1;
    }
    assert(cs@.take(cs@.len() as int) =~= cs@);
    total as u32
}

/// Converts a byte offset within `line` into a UTF-16 offset. An offset past
/// the end of the line, or one inside a multi-byte character, yields the
/// length of the whole line.
pub fn byte_to_utf16(line: &str, byte_offset: usize) -> (n: u32)
    ensures
        n == byte_to_utf16_spec(line@, byte_offset as int),
{
    let cs = chars_of(line);
    byte_to_utf16_of(cs.as_slice(), byte_offset as u128)
}

/// [`byte_to_utf16`] over a character slice.
pub fn byte_to_utf16_of(cs: &[char], byte_offset: u128) -> (n: u32)
    ensures
        n == byte_to_utf16_spec(cs@, byte_offset as int),
{
    let mut bytes: u128 = 0;
    let mut i: usize = 0;
    while i < cs.len()
        invariant
            i <= cs.len(),
            bytes == utf8_len(cs@.take(i as int)),
            bytes <= 4 * i,
            forall|j: int| 0 <= j < i ==> utf8_len(#[trigger] cs@.take(j)) != byte_offset,
        decreases cs.len() - i,
    {
        if bytes == byte_offset {
            let prefix = sub_chars(cs, 0, i);
            proof {
                assert(prefix@ =~= cs@.take(i as int));
                lemma_char_index_of_byte(cs@, byte_offset as int, i as int);
            }
            return utf16_len_of(prefix.as_slice());
        }
        proof {
            lemma_units_push(cs@, i as int);
        }
        bytes = bytes + char_utf8_width(cs[i]) as u128;
        i = i + 1;
    }
    assert(cs@.take(cs@.len() as int) =~= cs@);
    if bytes == byte_offset {
        proof {
            lemma_char_index_of_byte(cs@, byte_offset as int, i as int);
        }
        return utf16_len_of(cs);
    }
    proof {
        if char_index_of_byte(cs@, byte_offset as int) is Some {
            let k = char_index_of_byte(cs@, byte_offset as int)->0;
            lemma_char_index_of_byte_bound(cs@, byte_offset as int);
            lemma_char_index_of_byte(cs@, byte_offset as int, k);
        }
    }
    utf16_len_of(cs)
}

/// The index of the character at which byte offset `b` falls, when `b` is a
/// character boundary of `cs` (its end included).
pub fn char_boundary_index(cs: &[char], b: u128) -> (r: Option<usize>)
    ensures
        match r {
            Some(k) => char_index_of_byte(cs@, b as int) == Some(k as int),
            None => char_index_of_byte(cs@, b as int) is None,
        },
{
    let mut bytes: u128 = 0;
    let mut i: usize = 0;
    while i < cs.len()
        invariant
            i <= cs.len(),
            bytes == utf8_len(cs@.take(i as int)),
            bytes <= 4 * i,
            forall|j: int| 0 <= j < i ==> utf8_len(#[trigger] cs@.take(j)) != b,
        decreases cs.len() - i,
    {
        if bytes == b {
            proof {
                lemma_char_index_of_byte(cs@, b as int, i as int);
            }
            return Some(i);
        }
        proof {
            lemma_units_push(cs@, i as int);
        }
        bytes = bytes + char_utf8_width(cs[i]) as u128;
        i = i + 1;
    }
    if bytes == b {
        proof {
            lemma_char_index_of_byte(cs@, b as int, i as int);
        }
        return Some(i);
    }
    proof {
        if char_index_of_byte(cs@, b as int) is Some {
            let k = char_index_of_byte(cs@, b as int)->0;
            lemma_char_index_of_byte_bound(cs@, b as int);
            lemma_char_index_of_byte(cs@, b as int, k);
        }
    }
    None
}

/// A boundary index is within the sequence.
pub proof fn lemma_char_index_of_byte_bound(s: Seq<char>, b: int)
    ensures
        char_index_of_byte(s, b) matches Some(k) ==> 0 <= k <= s.len(),
    decreases s.len(),
{
    if b != 0 && b >= 0 && s.len() > 0 {
        lemma_char_index_of_byte_bound(s.drop_first(), b - utf8_width(s[0]));
    }
}

/// Converts a UTF-16 offset within `line` into a byte offset, clamping past the
/// end to the line's length so that slicing with the result is always valid.
pub fn utf16_to_byte(line: &str, utf16_offset: u32) -> (n: usize)
    ensures
        n == utf16_to_byte_spec(line@, utf16_offset as int),
{
    let cs = chars_of(line);
    utf16_to_byte_of(cs.as_slice(), utf16_offset)
}

/// [`utf16_to_byte`] over a character slice.
pub fn utf16_to_byte_of(cs: &[char], utf16_offset: u32) -> (n: usize)
    ensures
        n == utf16_to_byte_spec(cs@, utf16_offset as int),
        n as int == clamp_usize(
            utf8_len(cs@.take(char_index_at_units(cs@, utf16_offset as int) as int)) as int,
        ),
{
    let k = char_index_at_units_of(cs, utf16_offset);
    let mut bytes: u128 = 0;
    let mut i: usize = 0;
    while i < k
        invariant
            i <= k,
            k <= cs.len(),
            bytes == utf8_len(cs@.take(i as int)),
            bytes <= 4 * i,
        decreases k - i,
    {
        proof {
            lemma_units_push(cs@, i as int);
        }
        bytes = bytes + char_utf8_width(cs[i]) as u128;
        i = i + 1;
    }
    clamp_bytes(bytes)
}

/// How many characters of `cs` lie wholly before UTF-16 offset
/// `utf16_offset`: the longest prefix no wider than it.
pub fn char_index_at_units_of(cs: &[char], utf16_offset: u32) -> (k: usize)
    ensures
        k == char_index_at_units(cs@, utf16_offset as int),
        k <= cs.len(),
{
    proof {
        lemma_char_index_at_units(cs@, utf16_offset as int);
        assert(cs@.skip(0) =~= cs@);
    }
    let ghost target = char_index_at_units(cs@, utf16_offset as int);
    let mut consumed: u64 = 0;
    let mut i: usize = 0;
    while i < cs.len()
        invariant
            i <= cs.len(),
            target == char_index_at_units(cs@, utf16_offset as int),
            consumed <= utf16_offset,
            target == i + char_index_at_units(cs@.skip(i as int), utf16_offset - consumed),
        decreases cs.len() - i,
    {
        proof {
            lemma_char_index_at_units_step(cs@, utf16_offset - consumed, i as int);
        }
        let w = char_utf16_width(cs[i]) as u64;
        if consumed + w > utf16_offset as u64 {
            return i;
        }
        consumed = consumed + w;
        i = i + 1;
    }
    proof {
        assert(cs@.skip(i as int) =~= Seq::<char>::empty());
    }
    i
}

/// Saturates a byte count into `usize`.
fn clamp_bytes(bytes: u128) -> (n: usize)
    ensures
        n == clamp_usize(bytes as int),
{
    if bytes > usize::MAX as u128 {
        usize::MAX
    } else {
        bytes as usize
    }
}

/// Builds a span covering `[start_byte, end_byte)` of `line`.
pub fn span_of_bytes(line_number: u32, line: &str, start_byte: usize, end_byte: usize) -> (s:
    Span)
    ensures
        s.line == line_number,
        s.start == byte_to_utf16_spec(line@, start_byte as int),
        s.end == byte_to_utf16_spec(line@, end_byte as int),
{
    let cs = chars_of(line);
    span_of_bytes_in(line_number, cs.as_slice(), start_byte, end_byte)
}

/// [`span_of_bytes`] over a character slice.
pub fn span_of_bytes_in(line_number: u32, cs: &[char], start_byte: usize, end_byte: usize) -> (s:
    Span)
    ensures
        s.line == line_number,
        s.start == byte_to_utf16_spec(cs@, start_byte as int),
        s.end == byte_to_utf16_spec(cs@, end_byte as int),
{
    Span::new(
        line_number,
        byte_to_utf16_of(cs, start_byte as u128),
        byte_to_utf16_of(cs, end_byte as u128),
    )
}

/// Converting a character boundary to UTF-16 and back gives the boundary
/// again.
pub proof fn law_utf16_round_trip(s: Seq<char>, k: int)
    requires
        0 <= k <= s.len(),
        utf16_units(s) <= u32::MAX,
        utf8_len(s) <= usize::MAX,
    ensures
        utf16_to_byte_spec(s, byte_to_utf16_spec(s, utf8_len(s.take(k)) as int) as int) == utf8_len(
            s.take(k),
        ),
{
    lemma_char_index_of_byte(s, utf8_len(s.take(k)) as int, k);
    lemma_units_monotone(s, k, s.len() as int);
    assert(s.take(s.len() as int) =~= s);
    let off = utf16_units(s.take(k)) as int;
    lemma_char_index_at_units(s, off);
    let n = char_index_at_units(s, off);
    // n is the longest prefix no wider than `off`; the prefix of k is exactly that wide.
    if n < k {
        lemma_units_monotone(s, n as int + 1, k);
    }
    if n > k {
        // Every character is at least one unit wide, so a longer prefix is wider.
        lemma_units_strict(s, k, n as int);
    }
}

/// A UTF-16 offset converts to a byte offset within the line that falls on a
/// character boundary, so slicing there never fails; an offset at or past the
/// line's width gives the whole line.
pub proof fn law_utf16_to_byte_lands_on_a_boundary(s: Seq<char>, off: int)
    requires
        utf8_len(s) <= usize::MAX,
    ensures
        utf16_to_byte_spec(s, off) <= utf8_len(s),
        exists|k: int| 0 <= k <= s.len() && utf16_to_byte_spec(s, off) == utf8_len(#[trigger] s.take(k)),
        off >= utf16_units(s) ==> utf16_to_byte_spec(s, off) == utf8_len(s),
{
    lemma_char_index_at_units(s, off);
    let n = char_index_at_units(s, off) as int;
    assert(s.take(s.len() as int) =~= s);
    lemma_units_monotone(s, n, s.len() as int);
    assert(utf16_to_byte_spec(s, off) == utf8_len(s.take(n)));
    if n < s.len() {
        lemma_units_monotone(s, n + 1, s.len() as int);
    }
}

/// Each character is at least one UTF-16 unit wide.
pub proof fn lemma_units_strict(s: Seq<char>, i: int, j: int)
    requires
        0 <= i < j <= s.len(),
    ensures
        utf16_units(s.take(i)) < utf16_units(s.take(j)),
    decreases j - i,
{
    lemma_units_push(s, j - 1);
    if i < j - 1 {
        lemma_units_strict(s, i, j - 1);
    }
}

} // verus!
