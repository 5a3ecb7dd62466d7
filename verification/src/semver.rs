//! Semantic versions, as pattern references and pattern files write them:
//! `MAJOR.MINOR.PATCH`, then optionally `-` and dot-separated pre-release
//! identifiers, then optionally `+` and dot-separated build identifiers.
use vstd::prelude::*;

use crate::chars::sub_chars;
use crate::words::{find_char, first_index_of, split_chars, split_on};

verus! {

/// Whether `c` is an ASCII digit.
pub open spec fn is_digit(c: char) -> bool {
    '0' <= c && c <= '9'
}

/// Whether `c` may stand in a pre-release or build identifier.
pub open spec fn is_ident_char(c: char) -> bool {
    is_digit(c) || ('a' <= c && c <= 'z') || ('A' <= c && c <= 'Z') || c == '-'
}

/// Whether `s` is all digits.
pub open spec fn all_digits(s: Seq<char>) -> bool {
    forall|i: int| 0 <= i < s.len() ==> is_digit(#[trigger] s[i])
}

/// A numeric identifier: digits, with no leading zero unless it is `0`.
pub open spec fn numeric_id(s: Seq<char>) -> bool {
    s.len() > 0 && all_digits(s) && (s.len() == 1 || s[0] != '0')
}

/// A build identifier: one or more identifier characters.
pub open spec fn build_id(s: Seq<char>) -> bool {
    s.len() > 0 && forall|i: int| 0 <= i < s.len() ==> is_ident_char(#[trigger] s[i])
}

/// A pre-release identifier: a build identifier that, when all digits, has
/// no leading zero.
pub open spec fn pre_id(s: Seq<char>) -> bool {
    build_id(s) && (all_digits(s) ==> numeric_id(s))
}

/// Whether `v` is a semantic version.
pub open spec fn is_semver(v: Seq<char>) -> bool {
    let plus = first_index_of(v, '+', 0);
    let head = v.take(plus);
    let dash = first_index_of(head, '-', 0);
    let core = split_on(head.take(dash), '.');
    &&& core.len() == 3
    &&& forall|i: int| 0 <= i < 3 ==> numeric_id(#[trigger] core[i])
    &&& dash < head.len() ==> forall|i: int|
        0 <= i < split_on(head.skip(dash + 1), '.').len() ==> pre_id(#[trigger] split_on(head.skip(dash + 1), '.')[i])
    &&& plus < v.len() ==> forall|i: int|
        0 <= i < split_on(v.skip(plus + 1), '.').len() ==> build_id(#[trigger] split_on(v.skip(plus + 1), '.')[i])
}

fn all_digits_exec(s: &[char]) -> (b: bool)
    ensures
        b == all_digits(s@),
{
    let mut i: usize = 0;
    while i < s.len()
        invariant
            i <= s.len(),
            forall|j: int| 0 <= j < i ==> is_digit(#[trigger] s@[j]),
        decreases s.len() - i,
    {
        if !('0' <= s[i] && s[i] <= '9') {
            return false;
        }
        i = i + 1;
    }
    true
}

fn numeric_id_exec(s: &[char]) -> (b: bool)
    ensures
        b == numeric_id(s@),
{
    s.len() > 0 && all_digits_exec(s) && (s.len() == 1 || s[0] != '0')
}

fn build_id_exec(s: &[char]) -> (b: bool)
    ensures
        b == build_id(s@),
{
    if s.len() == 0 {
        return false;
    }
    let mut i: usize = 0;
    while i < s.len()
        invariant
            i <= s.len(),
            forall|j: int| 0 <= j < i ==> is_ident_char(#[trigger] s@[j]),
        decreases s.len() - i,
    {
        let c = s[i];
        if !(('0' <= c && c <= '9') || ('a' <= c && c <= 'z') || ('A' <= c && c <= 'Z') || c == '-') {
            return false;
        }
        i = i + 1;
    }
    true
}

fn pre_id_exec(s: &[char]) -> (b: bool)
    ensures
        b == pre_id(s@),
{
    build_id_exec(s) && (!all_digits_exec(s) || numeric_id_exec(s))
}

/// Whether every piece of `s`, split at dots, is a pre-release identifier
/// (`pre`) or a build identifier (`!pre`).
fn all_ids(s: &[char], pre: bool) -> (b: bool)
    ensures
        b == (forall|i: int|
            0 <= i < split_on(s@, '.').len() ==> if pre {
                pre_id(#[trigger] split_on(s@, '.')[i])
            } else {
                build_id(split_on(s@, '.')[i])
            }),
{
    let parts = split_chars(s, '.');
    let mut i: usize = 0;
    while i < parts.len()
        invariant
            i <= parts@.len(),
            parts@.len() == split_on(s@, '.').len(),
            forall|k: int| 0 <= k < parts@.len() ==> #[trigger] parts@[k]@ == split_on(s@, '.')[k],
            forall|j: int| 0 <= j < i ==> if pre {
                pre_id(#[trigger] split_on(s@, '.')[j])
            } else {
                build_id(split_on(s@, '.')[j])
            },
        decreases parts.len() - i,
    {
        assert(parts@[i as int]@ == split_on(s@, '.')[i as int]);
        let ok = if pre {
            pre_id_exec(parts[i].as_slice())
        } else {
            build_id_exec(parts[i].as_slice())
        };
        if !ok {
            return false;
        }
        i = i + 1;
    }
    true
}

/// Whether `v` is a semantic version.
pub fn is_semver_exec(v: &[char]) -> (b: bool)
    ensures
        b == is_semver(v@),
{
    let plus = find_char(v, '+', 0);
    proof {
        crate::words::lemma_first_index_of(v@, '+', 0);
    }
    let head = sub_chars(v, 0, plus);
    assert(head@ =~= v@.take(plus as int));
    let dash = find_char(head.as_slice(), '-', 0);
    proof {
        crate::words::lemma_first_index_of(head@, '-', 0);
    }
    let core_text = sub_chars(head.as_slice(), 0, dash);
    assert(core_text@ =~= head@.take(dash as int));
    let core = split_chars(core_text.as_slice(), '.');
    if core.len() != 3 {
        return false;
    }
    let mut i: usize = 0;
    while i < 3
        invariant
            i <= 3,
            core@.len() == 3,
            plus == first_index_of(v@, '+', 0),
            plus <= v@.len(),
            head@ == v@.take(plus as int),
            dash == first_index_of(head@, '-', 0),
            dash <= head@.len(),
            core_text@ == head@.take(dash as int),
            split_on(core_text@, '.').len() == 3,
            forall|k: int| 0 <= k < core@.len() ==> #[trigger] core@[k]@ == split_on(core_text@, '.')[k],
            forall|j: int| 0 <= j < i ==> numeric_id(#[trigger] split_on(core_text@, '.')[j]),
        decreases 3 - i,
    {
        assert(core@[i as int]@ == split_on(core_text@, '.')[i as int]);
        if !numeric_id_exec(core[i].as_slice()) {
            proof {
                let hv = v@.take(plus as int);
                assert(hv == head@);
                assert(hv.take(first_index_of(hv, '-', 0)) == core_text@);
                assert(!numeric_id(split_on(core_text@, '.')[i as int]));
            }
            return false;
        }
        i = i + 1;
    }
    if dash < head.len() {
        let pre = sub_chars(head.as_slice(), dash + 1, head.len());
        assert(pre@ =~= head@.skip(dash + 1));
        if !all_ids(pre.as_slice(), true) {
            return false;
        }
    }
    if plus < v.len() {
        let build = sub_chars(v, plus + 1, v.len());
        assert(build@ =~= v@.skip(plus + 1));
        if !all_ids(build.as_slice(), false) {
            return false;
        }
    }
    true
}

} // verus!
