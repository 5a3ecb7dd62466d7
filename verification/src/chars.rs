//! Character-level facts the rest of the crate is stated over: how wide a
//! character is in UTF-8 bytes and in UTF-16 code units, which characters are
//! whitespace, and the conversions between `&str`, `Vec<char>` and `String`.
use vstd::prelude::*;
use vstd::string::StringExecFns;

verus! {

/// Width of `c` in UTF-16 code units: characters outside the Basic
/// Multilingual Plane take a surrogate pair.
pub open spec fn utf16_width(c: char) -> nat {
    if (c as u32) >= 0x10000 {
        2
    } else {
        1
    }
}

/// Width of `c` in UTF-8 bytes.
pub open spec fn utf8_width(c: char) -> nat {
    if (c as u32) < 0x80 {
        1
    } else if (c as u32) < 0x800 {
        2
    } else if (c as u32) < 0x10000 {
        3
    } else {
        4
    }
}

/// Total UTF-16 code units of a character sequence.
pub open spec fn utf16_units(s: Seq<char>) -> nat
    decreases s.len(),
{
    if s.len() == 0 {
        0
    } else {
        utf16_units(s.drop_last()) + utf16_width(s.last())
    }
}

/// Total UTF-8 bytes of a character sequence.
pub open spec fn utf8_len(s: Seq<char>) -> nat
    decreases s.len(),
{
    if s.len() == 0 {
        0
    } else {
        utf8_len(s.drop_last()) + utf8_width(s.last())
    }
}

/// `n`, saturated into `u32`.
pub open spec fn clamp_u32(n: int) -> u32 {
    if n > u32::MAX {
        u32::MAX
    } else if n < 0 {
        0
    } else {
        n as u32
    }
}

/// `n`, saturated into `usize`.
pub open spec fn clamp_usize(n: int) -> usize {
    if n > usize::MAX {
        usize::MAX
    } else if n < 0 {
        0
    } else {
        n as usize
    }
}

/// The characters with the Unicode `White_Space` property.
pub open spec fn is_white_space(c: char) -> bool {
    let v = c as u32;
    ||| 0x09 <= v <= 0x0D
    ||| v == 0x20
    ||| v == 0x85
    ||| v == 0xA0
    ||| v == 0x1680
    ||| 0x2000 <= v <= 0x200A
    ||| v == 0x2028
    ||| v == 0x2029
    ||| v == 0x202F
    ||| v == 0x205F
    ||| v == 0x3000
}

/// Number of leading whitespace characters of `s`.
pub open spec fn leading_ws(s: Seq<char>) -> nat
    decreases s.len(),
{
    if s.len() > 0 && is_white_space(s[0]) {
        1 + leading_ws(s.drop_first())
    } else {
        0
    }
}

/// Number of trailing whitespace characters of `s`.
pub open spec fn trailing_ws(s: Seq<char>) -> nat
    decreases s.len(),
{
    if s.len() > 0 && is_white_space(s.last()) {
        1 + trailing_ws(s.drop_last())
    } else {
        0
    }
}

/// `s` without its leading whitespace.
pub open spec fn trim_start_spec(s: Seq<char>) -> Seq<char> {
    s.skip(leading_ws(s) as int)
}

/// `s` without its trailing whitespace.
pub open spec fn trim_end_spec(s: Seq<char>) -> Seq<char> {
    s.take(s.len() - trailing_ws(s))
}

/// `s` without leading or trailing whitespace.
pub open spec fn trim_spec(s: Seq<char>) -> Seq<char> {
    trim_end_spec(trim_start_spec(s))
}

pub proof fn lemma_leading_ws_bound(s: Seq<char>)
    ensures
        leading_ws(s) <= s.len(),
        forall|i: int| 0 <= i < leading_ws(s) ==> is_white_space(#[trigger] s[i]),
        leading_ws(s) < s.len() ==> !is_white_space(s[leading_ws(s) as int]),
    decreases s.len(),
{
    if s.len() > 0 && is_white_space(s[0]) {
        lemma_leading_ws_bound(s.drop_first());
        assert forall|i: int| 0 <= i < leading_ws(s) implies is_white_space(#[trigger] s[i]) by {
            if i > 0 {
                assert(s[i] == s.drop_first()[i - 1]);
            }
        }
    }
}

pub proof fn lemma_trailing_ws_bound(s: Seq<char>)
    ensures
        trailing_ws(s) <= s.len(),
        forall|i: int| s.len() - trailing_ws(s) <= i < s.len() ==> is_white_space(#[trigger] s[i]),
        trailing_ws(s) < s.len() ==> !is_white_space(s[s.len() - trailing_ws(s) - 1]),
    decreases s.len(),
{
    if s.len() > 0 && is_white_space(s.last()) {
        lemma_trailing_ws_bound(s.drop_last());
        assert forall|i: int| s.len() - trailing_ws(s) <= i < s.len() implies is_white_space(
            #[trigger] s[i],
        ) by {
            if i < s.len() - 1 {
                assert(s[i] == s.drop_last()[i]);
            }
        }
    }
}

/// The UTF-16 width of a prefix grows by the width of the next character.
pub proof fn lemma_units_push(s: Seq<char>, i: int)
    requires
        0 <= i < s.len(),
    ensures
        utf16_units(s.take(i + 1)) == utf16_units(s.take(i)) + utf16_width(s[i]),
        utf8_len(s.take(i + 1)) == utf8_len(s.take(i)) + utf8_width(s[i]),
{
    assert(s.take(i + 1).drop_last() =~= s.take(i));
}

/// Prefix widths are monotone.
pub proof fn lemma_units_monotone(s: Seq<char>, i: int, j: int)
    requires
        0 <= i <= j <= s.len(),
    ensures
        utf16_units(s.take(i)) <= utf16_units(s.take(j)),
        utf8_len(s.take(i)) <= utf8_len(s.take(j)),
        i < j ==> utf8_len(s.take(i)) < utf8_len(s.take(j)),
    decreases j - i,
{
    if i < j {
        lemma_units_monotone(s, i, j - 1);
        lemma_units_push(s, j - 1);
    }
}

/// The width of a whole sequence bounds each character's width from below.
pub proof fn lemma_utf8_len_at_least_len(s: Seq<char>)
    ensures
        utf8_len(s) >= s.len(),
        utf16_units(s) >= s.len(),
        utf16_units(s) <= 2 * s.len(),
    decreases s.len(),
{
    if s.len() > 0 {
        lemma_utf8_len_at_least_len(s.drop_last());
    }
}

/// Widths of a one-character sequence.
pub proof fn lemma_widths_single(c: char)
    ensures
        utf8_len(seq![c]) == utf8_width(c),
        utf16_units(seq![c]) == utf16_width(c),
{
    let one = seq![c];
    assert(one.drop_last() =~= Seq::<char>::empty());
    assert(one.last() == c);
    assert(utf8_len(Seq::<char>::empty()) == 0);
    assert(utf16_units(Seq::<char>::empty()) == 0);
}

/// Concatenation adds widths.
pub proof fn lemma_widths_concat(a: Seq<char>, b: Seq<char>)
    ensures
        utf8_len(a + b) == utf8_len(a) + utf8_len(b),
        utf16_units(a + b) == utf16_units(a) + utf16_units(b),
    decreases b.len(),
{
    if b.len() == 0 {
        assert(a + b =~= a);
    } else {
        lemma_widths_concat(a, b.drop_last());
        assert((a + b).drop_last() =~= a + b.drop_last());
    }
}

/// The byte count used throughout the crate is the length of the UTF-8
/// encoding, i.e. what `str::len` reports.
pub proof fn lemma_utf8_len_is_encoding_len(s: Seq<char>)
    ensures
        utf8_len(s) == vstd::utf8::encode_utf8(s).len(),
    decreases s.len(),
{
    if s.len() > 0 {
        let rest = s.drop_first();
        let one = seq![s[0]];
        lemma_utf8_len_is_encoding_len(rest);
        lemma_widths_single(s[0]);
        lemma_widths_concat(one, rest);
        assert(one + rest =~= s);
        vstd::utf8::char_is_scalar(s[0]);
        assert(vstd::utf8::encode_scalar(#[verifier::truncate] (s[0] as u32)).len() == utf8_width(s[0]));
    }
}

/// UTF-16 width of one character.
pub fn char_utf16_width(c: char) -> (w: u32)
    ensures
        w == utf16_width(c),
{
    if (c as u32) >= 0x10000 {
        2
    } else {
        1
    }
}

/// UTF-8 width of one character.
pub fn char_utf8_width(c: char) -> (w: usize)
    ensures
        w == utf8_width(c),
{
    let v = c as u32;
    if v < 0x80 {
        1
    } else if v < 0x800 {
        2
    } else if v < 0x10000 {
        3
    } else {
        4
    }
}

/// Whether `c` has the Unicode `White_Space` property.
pub fn is_whitespace(c: char) -> (b: bool)
    ensures
        b == is_white_space(c),
{
    let v = c as u32;
    (0x09 <= v && v <= 0x0D) || v == 0x20 || v == 0x85 || v == 0xA0 || v == 0x1680 || (0x2000
        <= v && v <= 0x200A) || v == 0x2028 || v == 0x2029 || v == 0x202F || v == 0x205F || v
        == 0x3000
}

/// The characters of `s`, in order.
pub fn chars_of(s: &str) -> (v: Vec<char>)
    ensures
        v@ == s@,
{
    broadcast use vstd::string::group_string_axioms;

    let mut v: Vec<char> = Vec::new();
    for c in it: s.chars()
        invariant
            v@ == it.seq().take(it.index() as int),
    {
        v.push(c);
    }
    v
}

/// Collects characters into an owned string (std's `FromIterator<char>` for
/// `String`). The result holds exactly the given characters, in order.
#[verifier::external_body]
pub fn string_from_chars(chars: &[char]) -> (s: String)
    ensures
        s@ == chars@,
{
    chars.iter().collect()
}

/// An owned copy of `s`.
pub fn owned(s: &str) -> (r: String)
    ensures
        r@ == s@,
{
    s.to_owned()
}

/// Whether two character slices hold the same characters.
pub fn chars_eq(a: &[char], b: &[char]) -> (r: bool)
    ensures
        r == (a@ == b@),
{
    if a.len() != b.len() {
        return false;
    }
    let mut i: usize = 0;
    while i < a.len()
        invariant
            a.len() == b.len(),
            i <= a.len(),
            forall|j: int| 0 <= j < i ==> a@[j] == b@[j],
        decreases a.len() - i,
    {
        if a[i] != b[i] {
            return false;
        }
        i = i + 1;
    }
    assert(a@ =~= b@);
    true
}

/// Whether two strings hold the same characters.
pub fn str_eq(a: &str, b: &str) -> (r: bool)
    ensures
        r == (a@ == b@),
{
    let x = chars_of(a);
    let y = chars_of(b);
    chars_eq(x.as_slice(), y.as_slice())
}

/// Whether `s` starts with `prefix`.
pub fn chars_start_with(s: &[char], prefix: &[char]) -> (r: bool)
    ensures
        r == (prefix@.len() <= s@.len() && s@.take(prefix@.len() as int) == prefix@),
{
    if prefix.len() > s.len() {
        return false;
    }
    let mut i: usize = 0;
    while i < prefix.len()
        invariant
            prefix.len() <= s.len(),
            i <= prefix.len(),
            forall|j: int| 0 <= j < i ==> s@[j] == prefix@[j],
        decreases prefix.len() - i,
    {
        if s[i] != prefix[i] {
            assert(s@.take(prefix@.len() as int)[i as int] != prefix@[i as int]);
            return false;
        }
        i = i + 1;
    }
    assert(s@.take(prefix@.len() as int) =~= prefix@);
    true
}

/// The sub-sequence `s[from..to]` as a vector.
pub fn sub_chars(s: &[char], from: usize, to: usize) -> (r: Vec<char>)
    requires
        from <= to <= s.len(),
    ensures
        r@ == s@.subrange(from as int, to as int),
{
    let mut r: Vec<char> = Vec::new();
    let mut i = from;
    while i < to
        invariant
            from <= i <= to <= s.len(),
            r@ == s@.subrange(from as int, i as int),
        decreases to - i,
    {
        r.push(s[i]);
        i = i + 1;
        assert(r@ =~= s@.subrange(from as int, i as int));
    }
    r
}

/// Index of the first non-whitespace character of `s`.
pub fn leading_ws_count(s: &[char]) -> (n: usize)
    ensures
        n == leading_ws(s@),
{
    proof {
        lemma_leading_ws_bound(s@);
    }
    let mut i: usize = 0;
    while i < s.len() && is_whitespace(s[i])
        invariant
            i <= s.len(),
            i <= leading_ws(s@),
            leading_ws(s@) <= s@.len(),
            forall|j: int| 0 <= j < leading_ws(s@) ==> is_white_space(#[trigger] s@[j]),
            leading_ws(s@) < s@.len() ==> !is_white_space(s@[leading_ws(s@) as int]),
        decreases s.len() - i,
    {
        i = i + 1;
    }
    i
}

/// How many spaces begin `s`. Tabs are not YAML indentation and end the
/// count.
pub open spec fn leading_spaces(s: Seq<char>) -> nat
    decreases s.len(),
{
    if s.len() > 0 && s[0] == ' ' {
        1 + leading_spaces(s.drop_first())
    } else {
        0
    }
}

/// The spaces beginning `s` are no more than its characters.
pub proof fn lemma_leading_spaces_bound(s: Seq<char>)
    ensures
        leading_spaces(s) <= s.len(),
    decreases s.len(),
{
    if s.len() > 0 && s[0] == ' ' {
        lemma_leading_spaces_bound(s.drop_first());
    }
}

/// How many spaces begin `s`.
pub fn leading_spaces_count(s: &[char]) -> (n: usize)
    ensures
        n == leading_spaces(s@),
{
    let mut i: usize = 0;
    assert(s@.skip(0) =~= s@);
    while i < s.len() && s[i] == ' '
        invariant
            i <= s.len(),
            leading_spaces(s@) == i + leading_spaces(s@.skip(i as int)),
        decreases s.len() - i,
    {
        assert(s@.skip(i as int).drop_first() =~= s@.skip(i + 1));
        i = i + 1;
    }
    if i < s.len() {
        assert(s@.skip(i as int)[0] == s@[i as int]);
    } else {
        assert(s@.skip(i as int) =~= Seq::<char>::empty());
    }
    i
}

/// Number of trailing whitespace characters of `s`.
pub fn trailing_ws_count(s: &[char]) -> (n: usize)
    ensures
        n == trailing_ws(s@),
{
    proof {
        lemma_trailing_ws_bound(s@);
    }
    let mut n: usize = 0;
    while n < s.len() && is_whitespace(s[s.len() - 1 - n])
        invariant
            n <= s.len(),
            n <= trailing_ws(s@),
            trailing_ws(s@) <= s@.len(),
            forall|i: int|
                s@.len() - trailing_ws(s@) <= i < s@.len() ==> is_white_space(#[trigger] s@[i]),
            trailing_ws(s@) < s@.len() ==> !is_white_space(s@[s@.len() - trailing_ws(s@) - 1]),
        decreases s.len() - n,
    {
        n = n + 1;
    }
    n
}

/// `s` without leading or trailing whitespace.
pub fn trim_chars(s: &[char]) -> (r: Vec<char>)
    ensures
        r@ == trim_spec(s@),
{
    let start = leading_ws_count(s);
    proof {
        lemma_leading_ws_bound(s@);
    }
    let rest = sub_chars(s, start, s.len());
    let tail = trailing_ws_count(rest.as_slice());
    proof {
        lemma_trailing_ws_bound(rest@);
    }
    sub_chars(rest.as_slice(), 0, rest.len() - tail)
}


/// UTF-8 bytes of the first `n` characters of `cs`.
pub fn utf8_prefix_len(cs: &[char], n: usize) -> (b: u128)
    requires
        n <= cs.len(),
    ensures
        b == utf8_len(cs@.take(n as int)),
        b <= 4 * n,
{
    let mut b: u128 = 0;
    let mut i: usize = 0;
    while i < n
        invariant
            i <= n <= cs.len(),
            b == utf8_len(cs@.take(i as int)),
            b <= 4 * i,
        decreases n - i,
    {
        proof {
            lemma_units_push(cs@, i as int);
        }
        b = b + char_utf8_width(cs[i]) as u128;
        i = i + 1;
    }
    b
}

/// The concatenation of a sequence of strings.
pub open spec fn joined(parts: Seq<Seq<char>>) -> Seq<char>
    decreases parts.len(),
{
    if parts.len() == 0 {
        Seq::empty()
    } else {
        joined(parts.drop_last()) + parts.last()
    }
}

/// The strings of `parts`, concatenated.
pub fn concat_strs(parts: &[&str]) -> (r: String)
    ensures
        r@ == joined(parts@.map_values(|p: &str| p@)),
{
    let ghost v = parts@.map_values(|p: &str| p@);
    let mut r = String::new();
    let mut i: usize = 0;
    while i < parts.len()
        invariant
            i <= parts.len(),
            v == parts@.map_values(|p: &str| p@),
            r@ == joined(v.take(i as int)),
        decreases parts.len() - i,
    {
        r.append(parts[i]);
        proof {
            assert(v.take(i + 1).drop_last() =~= v.take(i as int));
        }
        i = i + 1;
    }
    assert(v.take(parts.len() as int) =~= v);
    r
}

/// The strings of `parts` with `sep` between consecutive ones (`join`).
pub open spec fn joined_with(parts: Seq<Seq<char>>, sep: Seq<char>) -> Seq<char>
    decreases parts.len(),
{
    if parts.len() == 0 {
        Seq::empty()
    } else if parts.len() == 1 {
        parts[0]
    } else {
        joined_with(parts.drop_last(), sep) + sep + parts.last()
    }
}

/// The strings of `parts` joined with `sep`.
pub fn join_strings(parts: &[String], sep: &str) -> (r: String)
    ensures
        r@ == joined_with(parts@.map_values(|p: String| p@), sep@),
{
    let ghost v = parts@.map_values(|p: String| p@);
    let mut r = String::new();
    let mut i: usize = 0;
    while i < parts.len()
        invariant
            i <= parts.len(),
            v == parts@.map_values(|p: String| p@),
            r@ == joined_with(v.take(i as int), sep@),
        decreases parts.len() - i,
    {
        if i > 0 {
            r.append(sep);
        }
        r.append(parts[i].as_str());
        proof {
            assert(v.take(i + 1).drop_last() =~= v.take(i as int));
            if i == 0 {
                assert(r@ =~= v.take(1)[0]);
            }
        }
        i = i + 1;
    }
    assert(v.take(parts.len() as int) =~= v);
    r
}

} // verus!
