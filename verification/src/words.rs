//! Small exact operations on character sequences shared by the scanners:
//! comparing against a word, finding a character, splitting into lines.
use vstd::prelude::*;

use crate::chars::{chars_eq, chars_of, sub_chars};

verus! {

/// Whether `cs` spells exactly `word`.
pub fn is_word(cs: &[char], word: &str) -> (r: bool)
    ensures
        r == (cs@ == word@),
{
    let w = chars_of(word);
    chars_eq(cs, w.as_slice())
}

/// Whether an optional character sequence spells exactly `word`.
pub fn opt_is_word(cs: &Option<Vec<char>>, word: &str) -> (r: bool)
    ensures
        r == (cs matches Some(v) && v@ == word@),
{
    match cs {
        Some(v) => is_word(v.as_slice(), word),
        None => false,
    }
}

/// The line-terminated pieces of a text, as `str::lines` yields them: split at
/// every `\n`, a `\r` directly before the `\n` removed, and no empty final line
/// after a trailing terminator.
pub open spec fn split_lines(s: Seq<char>) -> Seq<Seq<char>>
    decreases s.len(),
{
    if s.len() == 0 {
        Seq::empty()
    } else {
        let i = first_index_of(s, '\n', 0);
        if i >= s.len() {
            seq![s]
        } else {
            let piece = s.take(i);
            let line = if piece.len() > 0 && piece.last() == '\r' {
                piece.drop_last()
            } else {
                piece
            };
            proof {
                lemma_first_index_of(s, '\n', 0);
            }
            seq![line] + split_lines(s.skip(i + 1))
        }
    }
}

/// The first index at or after `from` holding `c`, or `s.len()`.
pub open spec fn first_index_of(s: Seq<char>, c: char, from: int) -> int
    decreases s.len() - from,
{
    if from < 0 || from >= s.len() {
        s.len() as int
    } else if s[from] == c {
        from
    } else {
        first_index_of(s, c, from + 1)
    }
}

pub proof fn lemma_first_index_of(s: Seq<char>, c: char, from: int)
    requires
        0 <= from <= s.len(),
    ensures
        from <= first_index_of(s, c, from) <= s.len(),
        first_index_of(s, c, from) < s.len() ==> s[first_index_of(s, c, from)] == c,
        forall|j: int| from <= j < first_index_of(s, c, from) ==> s[j] != c,
    decreases s.len() - from,
{
    if from < s.len() && s[from] != c {
        lemma_first_index_of(s, c, from + 1);
    }
}

/// Position of the first `c` at or after `from`, or `s.len()`.
pub fn find_char(s: &[char], c: char, from: usize) -> (i: usize)
    requires
        from <= s.len(),
    ensures
        i == first_index_of(s@, c, from as int),
{
    proof {
        lemma_first_index_of(s@, c, from as int);
    }
    let mut i = from;
    while i < s.len() && s[i] != c
        invariant
            from <= i <= s.len(),
            first_index_of(s@, c, i as int) == first_index_of(s@, c, from as int),
        decreases s.len() - i,
    {
        i = i + 1;
    }
    i
}

/// Splits text into lines exactly as `str::lines` does.
pub fn lines_of(s: &[char]) -> (r: Vec<Vec<char>>)
    ensures
        r@.len() == split_lines(s@).len(),
        forall|i: int| 0 <= i < r@.len() ==> #[trigger] r@[i]@ == split_lines(s@)[i],
{
    let mut r: Vec<Vec<char>> = Vec::new();
    let mut start: usize = 0;
    assert(s@.skip(0) =~= s@);
    assert(r@.map_values(|v: Vec<char>| v@) + split_lines(s@) =~= split_lines(s@));
    while start < s.len()
        invariant
            start <= s.len(),
            split_lines(s@) == r@.map_values(|v: Vec<char>| v@) + split_lines(s@.skip(start as int)),
        decreases s.len() - start,
    {
        let ghost rest = s@.skip(start as int);
        let i = find_char(s, '\n', start);
        proof {
            lemma_first_index_of(s@, '\n', start as int);
            lemma_first_index_shift(s@, '\n', start as int);
        }
        let mut piece = sub_chars(s, start, i);
        if piece.len() > 0 && piece[piece.len() - 1] == '\r' && i < s.len() {
            piece.pop();
        }
        let ghost old_r = r@;
        r.push(piece);
        proof {
            assert(r@.map_values(|v: Vec<char>| v@) =~= old_r.map_values(|v: Vec<char>| v@).push(
                piece@,
            ));
            if i >= s.len() {
                assert(rest =~= s@.subrange(start as int, i as int));
                assert(s@.skip(s.len() as int) =~= Seq::<char>::empty());
                assert(split_lines(rest) == seq![rest]);
            } else {
                assert(rest.take(i - start) =~= s@.subrange(start as int, i as int));
                assert(rest.skip(i - start + 1) =~= s@.skip(i + 1));
            }
            assert(split_lines(s@) =~= r@.map_values(|v: Vec<char>| v@) + split_lines(
                s@.skip(if i >= s.len() {
                    s.len() as int
                } else {
                    i + 1
                }),
            ));
        }
        if i >= s.len() {
            start = s.len();
        } else {
            start = i + 1;
        }
    }
    proof {
        assert(s@.skip(start as int) =~= Seq::<char>::empty());
        assert(split_lines(s@) =~= r@.map_values(|v: Vec<char>| v@));
    }
    r
}

/// Searching from `from` in `s` is searching from zero in the suffix.
pub proof fn lemma_first_index_shift(s: Seq<char>, c: char, from: int)
    requires
        0 <= from <= s.len(),
    ensures
        first_index_of(s.skip(from), c, 0) == first_index_of(s, c, from) - from,
{
    lemma_first_index_shift_tail(s, c, from, 0);
}

/// Searching a suffix from `k` is searching the whole from `from + k`.
pub proof fn lemma_first_index_shift_tail(s: Seq<char>, c: char, from: int, k: int)
    requires
        0 <= from <= s.len(),
        0 <= k,
    ensures
        first_index_of(s.skip(from), c, k) == first_index_of(s, c, from + k) - from,
    decreases s.len() - from - k,
{
    let t = s.skip(from);
    if from + k < s.len() {
        assert(t[k] == s[from + k]);
        if s[from + k] != c {
            lemma_first_index_shift_tail(s, c, from, k + 1);
        }
    }
}

/// The pieces of `s` between occurrences of `sep`, as `str::split` yields them.
pub open spec fn split_on(s: Seq<char>, sep: char) -> Seq<Seq<char>>
    decreases s.len(),
{
    let i = first_index_of(s, sep, 0);
    if i >= s.len() {
        seq![s]
    } else {
        proof {
            lemma_first_index_of(s, sep, 0);
        }
        seq![s.take(i)] + split_on(s.skip(i + 1), sep)
    }
}

/// Splitting always yields at least one piece.
pub proof fn lemma_split_on_nonempty(s: Seq<char>, sep: char)
    ensures
        split_on(s, sep).len() >= 1,
{
}

/// The index of the last `c` in `s`, if any.
pub open spec fn last_index_of(s: Seq<char>, c: char) -> Option<int>
    decreases s.len(),
{
    if s.len() == 0 {
        None
    } else if s.last() == c {
        Some(s.len() - 1)
    } else {
        last_index_of(s.drop_last(), c)
    }
}

/// `last_index_of` names an index of `s`.
pub proof fn lemma_last_index_of(s: Seq<char>, c: char)
    ensures
        last_index_of(s, c) matches Some(i) ==> 0 <= i < s.len(),
    decreases s.len(),
{
    if s.len() > 0 && s.last() != c {
        lemma_last_index_of(s.drop_last(), c);
    }
}

/// The index of the last `c` in `s`, if any.
pub fn find_last(s: &[char], c: char) -> (r: Option<usize>)
    ensures
        match r {
            Some(i) => last_index_of(s@, c) == Some(i as int),
            None => last_index_of(s@, c) is None,
        },
{
    let mut n = s.len();
    assert(s@.take(n as int) =~= s@);
    while n > 0
        invariant
            n <= s.len(),
            last_index_of(s@, c) == last_index_of(s@.take(n as int), c),
        decreases n,
    {
        assert(s@.take(n as int).drop_last() =~= s@.take(n - 1));
        if s[n - 1] == c {
            return Some(n - 1);
        }
        n = n - 1;
    }
    None
}

/// Splits `s` at every `sep`, as `str::split` does.
pub fn split_chars(s: &[char], sep: char) -> (r: Vec<Vec<char>>)
    ensures
        r@.len() == split_on(s@, sep).len(),
        forall|i: int| 0 <= i < r@.len() ==> #[trigger] r@[i]@ == split_on(s@, sep)[i],
{
    let mut r: Vec<Vec<char>> = Vec::new();
    let mut start: usize = 0;
    let mut done = false;
    assert(s@.skip(0) =~= s@);
    while !done
        invariant
            start <= s@.len(),
            !done ==> split_on(s@, sep) == r@.map_values(|v: Vec<char>| v@) + split_on(
                s@.skip(start as int),
                sep,
            ),
            done ==> split_on(s@, sep) == r@.map_values(|v: Vec<char>| v@),
        decreases s@.len() - start + if done {
            0int
        } else {
            1int
        },
    {
        let ghost rest = s@.skip(start as int);
        let i = find_char(s, sep, start);
        proof {
            lemma_first_index_of(s@, sep, start as int);
            lemma_first_index_shift(s@, sep, start as int);
        }
        let piece = sub_chars(s, start, i);
        let ghost old_r = r@;
        r.push(piece);
        proof {
            if i >= s.len() {
                assert(piece@ =~= rest);
                assert(split_on(rest, sep) =~= seq![piece@]);
            } else {
                assert(rest.take(i - start) =~= piece@);
                assert(rest.skip(i - start + 1) =~= s@.skip(i + 1));
            }
            assert(r@.map_values(|v: Vec<char>| v@) =~= old_r.map_values(|v: Vec<char>| v@).push(
                piece@,
            ));
        }
        if i >= s.len() {
            done = true;
        } else {
            start = i + 1;
        }
    }
    r
}

/// Whether `pat` occurs in `s` as a contiguous run.
pub open spec fn has_infix(s: Seq<char>, pat: Seq<char>) -> bool {
    exists|i: int| 0 <= i && i + pat.len() <= s.len() && #[trigger] s.subrange(i, i + pat.len()) == pat
}

/// Whether `pat` occurs in `s` starting at `i`.
fn matches_at(s: &[char], i: usize, pat: &[char]) -> (r: bool)
    requires
        i <= s.len(),
    ensures
        r == (i + pat.len() <= s.len() && s@.subrange(i as int, i + pat.len()) == pat@),
{
    if pat.len() > s.len() - i {
        return false;
    }
    let mut j: usize = 0;
    while j < pat.len()
        invariant
            i + pat.len() <= s.len(),
            j <= pat.len(),
            forall|k: int| 0 <= k < j ==> s@[i + k] == pat@[k],
        decreases pat.len() - j,
    {
        if s[i + j] != pat[j] {
            assert(s@.subrange(i as int, i + pat.len())[j as int] != pat@[j as int]);
            return false;
        }
        j = j + 1;
    }
    assert(s@.subrange(i as int, i + pat.len()) =~= pat@);
    true
}

/// Whether `word` occurs anywhere in `s` (`str::contains` with a string
/// pattern).
pub fn contains_word(s: &[char], word: &str) -> (r: bool)
    ensures
        r == has_infix(s@, word@),
{
    let pat = chars_of(word);
    if pat.len() == 0 {
        assert(s@.subrange(0int, 0int + word@.len()) =~= word@);
        return true;
    }
    if pat.len() > s.len() {
        return false;
    }
    let last = s.len() - pat.len();
    let mut i: usize = 0;
    while i <= last
        invariant
            1 <= pat.len() <= s.len(),
            last == s.len() - pat.len(),
            i <= last + 1,
            pat@ == word@,
            forall|k: int| 0 <= k < i ==> !(k + pat@.len() <= s@.len() && #[trigger] s@.subrange(k, k + pat@.len()) == pat@),
        decreases last + 1 - i,
    {
        if matches_at(s, i, pat.as_slice()) {
            return true;
        }
        i = i + 1;
    }
    false
}

/// How many times `c` occurs in `s`.
pub open spec fn count_char(s: Seq<char>, c: char) -> nat
    decreases s.len(),
{
    if s.len() == 0 {
        0
    } else {
        count_char(s.drop_last(), c) + if s.last() == c {
            1nat
        } else {
            0nat
        }
    }
}

/// Counts the occurrences of `c` in `s`.
pub fn count_occurrences(s: &[char], c: char) -> (n: usize)
    ensures
        n == count_char(s@, c),
{
    let mut n: usize = 0;
    let mut i: usize = 0;
    while i < s.len()
        invariant
            i <= s.len(),
            n == count_char(s@.take(i as int), c),
            n <= i,
        decreases s.len() - i,
    {
        assert(s@.take(i + 1).drop_last() =~= s@.take(i as int));
        if s[i] == c {
            n = n + 1;
        }
        i = i + 1;
    }
    assert(s@.take(s.len() as int) =~= s@);
    n
}

} // verus!
