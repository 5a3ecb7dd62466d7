//! "Did you mean …?" hints for misspelled node references and enum variants.
//!
//! The edit distance is bounded by the product of the two input lengths and
//! keeps two rows rather than a matrix; `closest` refuses over-long input, so a
//! hostile document cannot turn suggestion into a denial of service.
use vstd::prelude::*;

use crate::chars::{chars_of, concat_strs, joined, utf8_len, utf8_prefix_len};

verus! {

/// The longest a name may be, in bytes.
pub const MAX_NAME_LEN: usize = 128;

/// The largest edit distance still considered a plausible typo.
pub const MAX_PLAUSIBLE_DISTANCE: usize = 3;

/// The lowercase mapping of one character, as std's `char::to_lowercase`
/// yields it.
pub uninterp spec fn lowercase_of(c: char) -> Seq<char>;

/// The lowercase mapping of a character (std's `char::to_lowercase`). The
/// documentation promises one or more characters; which ones is Unicode's
/// case table, named rather than restated here.
#[verifier::external_body]
fn lowercase_char(c: char) -> (r: Vec<char>)
    ensures
        r@ == lowercase_of(c),
        r@.len() >= 1,
{
    c.to_lowercase().collect()
}

/// `s` with every character replaced by its lowercase mapping.
pub open spec fn lowered(s: Seq<char>) -> Seq<char>
    decreases s.len(),
{
    if s.len() == 0 {
        Seq::empty()
    } else {
        lowered(s.drop_last()) + lowercase_of(s.last())
    }
}

/// Levenshtein distance: the fewest single-character insertions, deletions
/// and substitutions turning `a` into `b`.
pub open spec fn levenshtein(a: Seq<char>, b: Seq<char>) -> nat
    decreases a.len() + b.len(),
{
    if a.len() == 0 {
        b.len()
    } else if b.len() == 0 {
        a.len()
    } else {
        let deletion = levenshtein(a.drop_last(), b) + 1;
        let insertion = levenshtein(a, b.drop_last()) + 1;
        let substitution = levenshtein(a.drop_last(), b.drop_last()) + if a.last() == b.last() {
            0nat
        } else {
            1nat
        };
        min3(deletion, insertion, substitution)
    }
}

pub open spec fn min3(x: nat, y: nat, z: nat) -> nat {
    if x <= y && x <= z {
        x
    } else if y <= z {
        y
    } else {
        z
    }
}

/// The distance `edit_distance` reports: Levenshtein over the lowercased texts.
pub open spec fn distance(left: Seq<char>, right: Seq<char>) -> nat {
    levenshtein(lowered(left), lowered(right))
}

/// The distance never exceeds the longer length.
pub proof fn lemma_levenshtein_bound(a: Seq<char>, b: Seq<char>)
    ensures
        levenshtein(a, b) <= if a.len() >= b.len() {
            a.len()
        } else {
            b.len()
        },
    decreases a.len() + b.len(),
{
    if a.len() > 0 && b.len() > 0 {
        lemma_levenshtein_bound(a.drop_last(), b.drop_last());
    }
}

/// Levenshtein distance is symmetric.
pub proof fn lemma_levenshtein_symmetric(a: Seq<char>, b: Seq<char>)
    ensures
        levenshtein(a, b) == levenshtein(b, a),
    decreases a.len() + b.len(),
{
    if a.len() > 0 && b.len() > 0 {
        lemma_levenshtein_symmetric(a.drop_last(), b);
        lemma_levenshtein_symmetric(a, b.drop_last());
        lemma_levenshtein_symmetric(a.drop_last(), b.drop_last());
    }
}

/// The distance is zero exactly between equal sequences.
pub proof fn lemma_levenshtein_zero(a: Seq<char>, b: Seq<char>)
    ensures
        levenshtein(a, b) == 0 <==> a == b,
    decreases a.len() + b.len(),
{
    if a.len() > 0 && b.len() > 0 {
        lemma_levenshtein_zero(a.drop_last(), b.drop_last());
        if a == b {
            assert(a.drop_last() == b.drop_last());
        }
        if levenshtein(a, b) == 0 {
            assert(a.drop_last() =~= b.drop_last());
            assert(a =~= a.drop_last().push(a.last()));
            assert(b =~= b.drop_last().push(b.last()));
        }
    } else if a.len() == 0 && b.len() == 0 {
        assert(a =~= b);
    }
}

/// The edit distance is symmetric: `edit_distance(a, b) == edit_distance(b, a)`.
pub proof fn law_distance_symmetric(left: Seq<char>, right: Seq<char>)
    ensures
        distance(left, right) == distance(right, left),
{
    lemma_levenshtein_symmetric(lowered(left), lowered(right));
}

/// A text is at distance zero from itself, and only from texts that lowercase
/// to the same characters.
pub proof fn law_distance_zero(left: Seq<char>, right: Seq<char>)
    ensures
        distance(left, left) == 0,
        distance(left, right) == 0 <==> lowered(left) == lowered(right),
{
    lemma_levenshtein_zero(lowered(left), lowered(left));
    lemma_levenshtein_zero(lowered(left), lowered(right));
}

/// The distance is at least the difference of the lengths.
pub proof fn lemma_levenshtein_length_gap(a: Seq<char>, b: Seq<char>)
    ensures
        a.len() <= levenshtein(a, b) + b.len(),
        b.len() <= levenshtein(a, b) + a.len(),
    decreases a.len() + b.len(),
{
    if a.len() > 0 && b.len() > 0 {
        lemma_levenshtein_length_gap(a.drop_last(), b);
        lemma_levenshtein_length_gap(a, b.drop_last());
        lemma_levenshtein_length_gap(a.drop_last(), b.drop_last());
    }
}

/// Levenshtein distance obeys the triangle inequality.
pub proof fn lemma_levenshtein_triangle(a: Seq<char>, b: Seq<char>, c: Seq<char>)
    ensures
        levenshtein(a, c) <= levenshtein(a, b) + levenshtein(b, c),
    decreases a.len() + b.len() + c.len(),
{
    if a.len() == 0 {
        lemma_levenshtein_length_gap(b, c);
    } else if c.len() == 0 {
        lemma_levenshtein_length_gap(a, b);
    } else if b.len() == 0 {
        lemma_levenshtein_bound(a, c);
    } else {
        lemma_levenshtein_triangle(a.drop_last(), b, c);
        lemma_levenshtein_triangle(a, b, c.drop_last());
        lemma_levenshtein_triangle(a, b.drop_last(), c);
        lemma_levenshtein_triangle(a, b.drop_last(), c.drop_last());
        lemma_levenshtein_triangle(a.drop_last(), b.drop_last(), c);
        lemma_levenshtein_triangle(a.drop_last(), b.drop_last(), c.drop_last());
    }
}

/// The edit distance obeys the triangle inequality:
/// `edit_distance(a, c) <= edit_distance(a, b) + edit_distance(b, c)`.
pub proof fn law_distance_triangle(a: Seq<char>, b: Seq<char>, c: Seq<char>)
    ensures
        distance(a, c) <= distance(a, b) + distance(b, c),
{
    lemma_levenshtein_triangle(lowered(a), lowered(b), lowered(c));
}

/// The edit distance lies between the difference of the lowercased lengths
/// and the longer of them.
pub proof fn law_distance_between_length_gap_and_longer(left: Seq<char>, right: Seq<char>)
    ensures
        lowered(left).len() <= distance(left, right) + lowered(right).len(),
        lowered(right).len() <= distance(left, right) + lowered(left).len(),
        distance(left, right) <= if lowered(left).len() >= lowered(right).len() {
            lowered(left).len()
        } else {
            lowered(right).len()
        },
{
    lemma_levenshtein_length_gap(lowered(left), lowered(right));
    lemma_levenshtein_bound(lowered(left), lowered(right));
}

/// `s` lowercased.
fn lower_chars(s: &str) -> (r: Vec<char>)
    ensures
        r@ == lowered(s@),
{
    let cs = chars_of(s);
    let mut r: Vec<char> = Vec::new();
    let mut i: usize = 0;
    while i < cs.len()
        invariant
            i <= cs.len(),
            cs@ == s@,
            r@ == lowered(cs@.take(i as int)),
        decreases cs.len() - i,
    {
        let mut l = lowercase_char(cs[i]);
        let ghost before = r@;
        r.append(&mut l);
        proof {
            assert(cs@.take(i + 1).drop_last() =~= cs@.take(i as int));
        }
        i = i + 1;
    }
    assert(cs@.take(cs@.len() as int) =~= cs@);
    r
}

fn min3_exec(x: u128, y: u128, z: u128) -> (m: u128)
    ensures
        m as nat == min3(x as nat, y as nat, z as nat),
{
    if x <= y && x <= z {
        x
    } else if y <= z {
        y
    } else {
        z
    }
}

/// Levenshtein distance between character slices, with two rolling rows.
fn levenshtein_exec(left: &[char], right: &[char]) -> (d: usize)
    ensures
        d == levenshtein(left@, right@),
{
    proof {
        lemma_levenshtein_bound(left@, right@);
    }
    if left.len() == 0 {
        return right.len();
    }
    if right.len() == 0 {
        return left.len();
    }
    let m = right.len();
    let mut previous: Vec<u128> = Vec::new();
    let mut j: usize = 0;
    assert(left@.take(0) =~= Seq::<char>::empty());
    while j < m
        invariant
            j <= m,
            m == right.len(),
            previous@.len() == j,
            forall|k: int| 0 <= k < j ==> previous@[k] == levenshtein(
                left@.take(0),
                right@.take(k),
            ),
            forall|k: int| 0 <= k < j ==> previous@[k] == k,
        decreases m - j,
    {
        previous.push(j as u128);
        j = j + 1;
    }
    previous.push(m as u128);
    let mut i: usize = 0;
    while i < left.len()
        invariant
            i <= left.len(),
            m == right.len(),
            m > 0,
            previous@.len() == m + 1,
            forall|k: int| 0 <= k <= m ==> previous@[k] == levenshtein(
                left@.take(i as int),
                #[trigger] right@.take(k),
            ),
            forall|k: int| 0 <= k <= m ==> previous@[k] <= i + k,
        decreases left.len() - i,
    {
        let ghost a = left@.take(i + 1);
        let mut current: Vec<u128> = Vec::new();
        current.push((i + 1) as u128);
        proof {
            assert(right@.take(0) =~= Seq::<char>::empty());
        }
        let mut j: usize = 0;
        while j < m
            invariant
                i < left.len(),
                j <= m,
                m == right.len(),
                a == left@.take(i + 1),
                previous@.len() == m + 1,
                current@.len() == j + 1,
                forall|k: int| 0 <= k <= m ==> previous@[k] == levenshtein(
                    left@.take(i as int),
                    #[trigger] right@.take(k),
                ),
                forall|k: int| 0 <= k <= j ==> current@[k] == levenshtein(a, #[trigger] right@.take(k)),
                forall|k: int| 0 <= k <= m ==> previous@[k] <= i + k,
                forall|k: int| 0 <= k <= j ==> current@[k] <= i + 1 + k,
            decreases m - j,
        {
            let cost: u128 = if left[i] == right[j] {
                0
            } else {
                1
            };
            let deletion = previous[j + 1] + 1;
            let insertion = current[j] + 1;
            let substitution = previous[j] + cost;
            let best = min3_exec(deletion, insertion, substitution);
            proof {
                let b = right@.take(j + 1);
                assert(a.drop_last() =~= left@.take(i as int));
                assert(b.drop_last() =~= right@.take(j as int));
                assert(a.last() == left@[i as int]);
                assert(b.last() == right@[j as int]);
                assert(a.len() > 0 && b.len() > 0);
            }
            current.push(best);
            j = j + 1;
        }
        previous = current;
        i = i + 1;
        proof {
            assert forall|k: int| 0 <= k <= m implies previous@[k] <= i + k by {
                lemma_levenshtein_bound(left@.take(i as int), right@.take(k));
            }
        }
    }
    assert(left@.take(left.len() as int) =~= left@);
    assert(right@.take(m as int) =~= right@);
    let d = previous[m];
    proof {
        lemma_levenshtein_bound(left@, right@);
    }
    d as usize
}

/// The Levenshtein edit distance between two strings, case-insensitively:
/// both are lowercased character by character first, so `Service` and
/// `service` are the same word.
pub fn edit_distance(left: &str, right: &str) -> (d: usize)
    ensures
        d == distance(left@, right@),
{
    let l = lower_chars(left);
    let r = lower_chars(right);
    levenshtein_exec(l.as_slice(), r.as_slice())
}

/// Whether candidate `k` is strictly closer than every other.
pub open spec fn strictly_closest(ds: Seq<nat>, k: int) -> bool {
    &&& 0 <= k < ds.len()
    &&& forall|j: int| 0 <= j < ds.len() && j != k ==> ds[k] < #[trigger] ds[j]
}

/// The distance from `input` to each candidate.
pub open spec fn distances(input: Seq<char>, candidates: Seq<&str>) -> Seq<nat> {
    candidates.map_values(|c: &str| distance(input, c@))
}

/// The candidate strictly closest to `input`, when `input` is short enough to
/// consider and that candidate is within a plausible typo's distance.
pub open spec fn closest_of(input: Seq<char>, cands: Seq<Seq<char>>) -> Option<Seq<char>> {
    let ds = cands.map_values(|c: Seq<char>| distance(input, c));
    if utf8_len(input) <= MAX_NAME_LEN && exists|k: int|
        strictly_closest(ds, k) && ds[k] <= MAX_PLAUSIBLE_DISTANCE {
        Some(
            cands[choose|k: int| strictly_closest(ds, k) && ds[k] <= MAX_PLAUSIBLE_DISTANCE],
        )
    } else {
        None
    }
}

/// At most one candidate is strictly closest.
pub proof fn lemma_strictly_closest_unique(ds: Seq<nat>, k: int, q: int)
    requires
        strictly_closest(ds, k),
        strictly_closest(ds, q),
    ensures
        k == q,
{
    if k != q {
        assert(ds[k] < ds[q]);
        assert(ds[q] < ds[k]);
    }
}

/// The distances of borrowed candidates are those of their characters.
proof fn lemma_distances_views(input: Seq<char>, candidates: Seq<&str>)
    ensures
        distances(input, candidates) =~= candidates.map_values(|c: &str| c@).map_values(
            |c: Seq<char>| distance(input, c),
        ),
{
}

/// The candidate closest to `input`, if it is close enough to be worth saying
/// and no other candidate is as close. Input longer than [`MAX_NAME_LEN`]
/// bytes is refused outright, which bounds the work.
pub fn closest<'a>(input: &str, candidates: &[&'a str]) -> (r: Option<&'a str>)
    ensures
        match r {
            Some(c) => utf8_len(input@) <= MAX_NAME_LEN && exists|k: int|
                strictly_closest(distances(input@, candidates@), k) && distances(
                    input@,
                    candidates@,
                )[k] <= MAX_PLAUSIBLE_DISTANCE && c == candidates@[k],
            None => utf8_len(input@) > MAX_NAME_LEN || !exists|k: int|
                strictly_closest(distances(input@, candidates@), k) && distances(
                    input@,
                    candidates@,
                )[k] <= MAX_PLAUSIBLE_DISTANCE,
        },
        match r {
            Some(c) => closest_of(input@, candidates@.map_values(|c: &str| c@)) == Some(c@),
            None => closest_of(input@, candidates@.map_values(|c: &str| c@)) is None,
        },
{
    proof {
        lemma_distances_views(input@, candidates@);
    }
    let ghost ds = distances(input@, candidates@);
    let cs = chars_of(input);
    let bytes = utf8_prefix_len(cs.as_slice(), cs.len());
    assert(cs@.take(cs@.len() as int) =~= cs@);
    if bytes > MAX_NAME_LEN as u128 {
        return None;
    }
    let mut best: Option<(usize, usize)> = None;
    let mut tied = false;
    let mut i: usize = 0;
    while i < candidates.len()
        invariant
            i <= candidates.len(),
            cs@ == input@,
            ds == distances(input@, candidates@),
            ds.len() == candidates@.len(),
            best is None <==> i == 0,
            best is None ==> !tied,
            best matches Some((k, d)) ==> k < i && d == ds[k as int],
            best matches Some((k, d)) ==> forall|j: int| 0 <= j < k ==> ds[k as int] < #[trigger] ds[j],
            best matches Some((k, d)) ==> forall|j: int| k < j < i ==> ds[k as int] <= #[trigger] ds[j],
            best matches Some((k, d)) ==> (tied <==> exists|j: int| k < j < i && ds[j] == ds[k as int]),
        decreases candidates.len() - i,
    {
        let distance = edit_distance(input, candidates[i]);
        assert(ds[i as int] == distance);
        match best {
            Some((k, best_distance)) => {
                if distance < best_distance {
                    best = Some((i, distance));
                    tied = false;
                } else if distance == best_distance {
                    tied = true;
                    assert(k < i && ds[i as int] == ds[k as int]);
                } else {
                    proof {
                        if exists|j: int| k < j < i + 1 && ds[j] == ds[k as int] {
                            let j = choose|j: int| k < j < i + 1 && ds[j] == ds[k as int];
                            assert(j != i);
                        }
                    }
                }
            },
            None => {
                best = Some((i, distance));
            },
        }
        i = i + 1;
    }
    match best {
        Some((k, d)) => {
            if d <= MAX_PLAUSIBLE_DISTANCE && !tied {
                proof {
                    assert(strictly_closest(ds, k as int));
                    let q = choose|q: int| strictly_closest(ds, q) && ds[q] <= MAX_PLAUSIBLE_DISTANCE;
                    lemma_strictly_closest_unique(ds, k as int, q);
                }
                Some(candidates[k])
            } else {
                proof {
                    if exists|q: int| strictly_closest(ds, q) && ds[q] <= MAX_PLAUSIBLE_DISTANCE {
                        let q = choose|q: int|
                            strictly_closest(ds, q) && ds[q] <= MAX_PLAUSIBLE_DISTANCE;
                        if q != k as int {
                            assert(ds[q] < ds[k as int]);
                        } else {
                            let t = choose|j: int| k < j < i && ds[j] == ds[k as int];
                            assert(ds[q] < ds[t]);
                        }
                    }
                }
                None
            }
        },
        None => None,
    }
}

/// Formats a "did you mean" hint for a misspelled reference.
pub fn did_you_mean(candidate: &str) -> (s: String)
    ensures
        s@ == "did you mean `"@ + candidate@ + "`?"@,
{
    let s = concat_strs(&["did you mean `", candidate, "`?"]);
    proof {
        reveal_with_fuel(joined, 4);
    }
    s
}

} // verus!
