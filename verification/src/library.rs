//! Deciding whether a changed file could change the pattern library.
//!
//! A client may watch more files than the server cares about; re-reading the
//! library on every YAML file in the repository would make every keystroke
//! pay for it.
use vstd::prelude::*;

use crate::chars::{chars_eq, chars_of, concat_strs, joined, owned};
use crate::seqs::{first_match, lemma_first_match_is};
use crate::words::{split_chars, split_on};

verus! {

/// The pieces of a `/`-separated path that name something: not empty, not `.`.
pub open spec fn normal_parts(p: Seq<char>) -> Seq<Seq<char>> {
    split_on(p, '/').filter(|c: Seq<char>| c.len() > 0 && c != "."@)
}

/// A path's components as `Path::components` reads them: a leading `/` is the
/// root, a leading `.` is kept, other `.` and empty pieces are dropped.
pub open spec fn components_of(p: Seq<char>) -> Seq<Seq<char>> {
    if p.len() > 0 && p[0] == '/' {
        seq!["/"@] + normal_parts(p)
    } else if split_on(p, '/')[0] == "."@ {
        seq!["."@] + normal_parts(p)
    } else {
        normal_parts(p)
    }
}

/// Whether `a` is a prefix of `b`.
pub open spec fn is_prefix(a: Seq<Seq<char>>, b: Seq<Seq<char>>) -> bool {
    a.len() <= b.len() && b.take(a.len() as int) == a
}

/// Whether `a` is a suffix of `b`.
pub open spec fn is_suffix(a: Seq<Seq<char>>, b: Seq<Seq<char>>) -> bool {
    a.len() <= b.len() && b.skip(b.len() - a.len()) == a
}

/// The components of a path's parent: all but the last, unless the path is
/// empty or only the root.
pub open spec fn parent_components(c: Seq<Seq<char>>) -> Option<Seq<Seq<char>>> {
    if c.len() == 0 || c == seq!["/"@] {
        None
    } else {
        Some(c.drop_last())
    }
}

/// Whether a change to `path` could change the library: with a library
/// loaded, any file under its directory; with none, any file directly inside
/// a `patterns` or `.casm/patterns` directory, since that is where one would
/// be created.
pub open spec fn is_pattern_file_spec(path: Seq<char>, directory: Option<Seq<char>>) -> bool {
    match directory {
        Some(d) => is_prefix(components_of(d), components_of(path)),
        None => match parent_components(components_of(path)) {
            Some(parent) => is_suffix(components_of("patterns"@), parent) || is_suffix(
                components_of(".casm/patterns"@),
                parent,
            ),
            None => false,
        },
    }
}

/// The components of a path.
fn components(p: &[char]) -> (r: Vec<Vec<char>>)
    ensures
        r@.map_values(|v: Vec<char>| v@) == components_of(p@),
{
    let pieces = split_chars(p, '/');
    let ghost ps = split_on(p@, '/');
    assert(pieces@.map_values(|v: Vec<char>| v@) =~= ps);
    let ghost keep = |c: Seq<char>| c.len() > 0 && c != "."@;
    let mut r: Vec<Vec<char>> = Vec::new();
    let dot = chars_of(".");
    let slash = chars_of("/");
    proof {
        reveal_strlit(".");
        reveal_strlit("/");
        crate::words::lemma_split_on_nonempty(p@, '/');
    }
    if p.len() > 0 && p[0] == '/' {
        r.push(slash);
    } else if chars_eq(pieces[0].as_slice(), dot.as_slice()) {
        r.push(chars_of("."));
    }
    let ghost head = r@.map_values(|v: Vec<char>| v@);
    assert(head == if p@.len() > 0 && p@[0] == '/' {
        seq!["/"@]
    } else if ps[0] == "."@ {
        seq!["."@]
    } else {
        Seq::<Seq<char>>::empty()
    });
    let mut i: usize = 0;
    while i < pieces.len()
        invariant
            i <= pieces.len(),
            ps == pieces@.map_values(|v: Vec<char>| v@),
            keep == (|c: Seq<char>| c.len() > 0 && c != "."@),
            dot@ == "."@,
            r@.map_values(|v: Vec<char>| v@) == head + ps.take(i as int).filter(keep),
        decreases pieces.len() - i,
    {
        let ghost before = r@.map_values(|v: Vec<char>| v@);
        let piece = &pieces[i];
        assert(ps[i as int] == piece@);
        let kept = piece.len() > 0 && !chars_eq(piece.as_slice(), dot.as_slice());
        if kept {
            r.push(crate::chars::sub_chars(piece.as_slice(), 0, piece.len()));
        }
        proof {
            reveal_with_fuel(Seq::<_>::filter, 1);
            assert(ps.take(i + 1).drop_last() =~= ps.take(i as int));
            if kept {
                assert(piece@.subrange(0, piece@.len() as int) =~= piece@);
                assert(r@.map_values(|v: Vec<char>| v@) =~= before.push(piece@));
            } else {
                assert(r@.map_values(|v: Vec<char>| v@) =~= before);
            }
        }
        i = i + 1;
    }
    assert(ps.take(pieces.len() as int) =~= ps);
    r
}

/// Whether the components `a` begin `b`.
fn starts_with(b: &Vec<Vec<char>>, a: &Vec<Vec<char>>) -> (r: bool)
    ensures
        r == is_prefix(a@.map_values(|v: Vec<char>| v@), b@.map_values(|v: Vec<char>| v@)),
{
    let ghost av = a@.map_values(|v: Vec<char>| v@);
    let ghost bv = b@.map_values(|v: Vec<char>| v@);
    if a.len() > b.len() {
        return false;
    }
    let mut i: usize = 0;
    while i < a.len()
        invariant
            i <= a.len() <= b.len(),
            av == a@.map_values(|v: Vec<char>| v@),
            bv == b@.map_values(|v: Vec<char>| v@),
            forall|j: int| 0 <= j < i ==> bv[j] == av[j],
        decreases a.len() - i,
    {
        if !chars_eq(b[i].as_slice(), a[i].as_slice()) {
            assert(bv.take(av.len() as int)[i as int] != av[i as int]);
            return false;
        }
        i = i + 1;
    }
    assert(bv.take(av.len() as int) =~= av);
    true
}

/// Whether the components `a` end `b[..n]`.
fn ends_with(b: &Vec<Vec<char>>, n: usize, a: &Vec<Vec<char>>) -> (r: bool)
    requires
        n <= b@.len(),
    ensures
        r == is_suffix(a@.map_values(|v: Vec<char>| v@), b@.map_values(|v: Vec<char>| v@).take(n as int)),
{
    let ghost av = a@.map_values(|v: Vec<char>| v@);
    let ghost bv = b@.map_values(|v: Vec<char>| v@).take(n as int);
    if a.len() > n {
        return false;
    }
    let start = n - a.len();
    let mut i: usize = 0;
    while i < a.len()
        invariant
            i <= a.len(),
            start + a.len() == n,
            n <= b@.len(),
            av == a@.map_values(|v: Vec<char>| v@),
            bv == b@.map_values(|v: Vec<char>| v@).take(n as int),
            forall|j: int| 0 <= j < i ==> bv[start + j] == av[j],
        decreases a.len() - i,
    {
        if !chars_eq(b[start + i].as_slice(), a[i].as_slice()) {
            assert(bv.skip(start as int)[i as int] != av[i as int]);
            return false;
        }
        i = i + 1;
    }
    assert(bv.skip(start as int) =~= av);
    true
}

/// Returns `true` if `path` is a file that could change what the library
/// holds: one under `directory`, or, with no library loaded, one directly
/// inside a conventionally named pattern directory.
pub fn is_pattern_file(path: &str, directory: Option<&str>) -> (b: bool)
    ensures
        b == is_pattern_file_spec(path@, match directory {
            Some(d) => Some(d@),
            None => None,
        }),
{
    let p = chars_of(path);
    let pc = components(p.as_slice());
    match directory {
        Some(d) => {
            let dc = components(chars_of(d).as_slice());
            starts_with(&pc, &dc)
        },
        None => {
            let ghost pv = pc@.map_values(|v: Vec<char>| v@);
            let root = pc.len() == 1 && chars_eq(pc[0].as_slice(), chars_of("/").as_slice());
            proof {
                if pv.len() == 1 {
                    if pv =~= seq!["/"@] {
                        assert(pv[0] == "/"@);
                    }
                    if pv[0] == "/"@ {
                        assert(pv =~= seq!["/"@]);
                    }
                }
            }
            if pc.len() == 0 || root {
                return false;
            }
            let n = pc.len() - 1;
            assert(pv.take(n as int) =~= pv.drop_last());
            let conventional = components(chars_of("patterns").as_slice());
            let dotted = components(chars_of(".casm/patterns").as_slice());
            ends_with(&pc, n, &conventional) || ends_with(&pc, n, &dotted)
        },
    }
}

// ---------------------------------------------------------------------------
// Which directory a workspace's library is read from.

/// `p` adjoined to `base`, as `Path::join` does with `/` separators: an
/// absolute `p` replaces `base`, otherwise one separator stands between them.
pub open spec fn path_join(base: Seq<char>, p: Seq<char>) -> Seq<char> {
    if p.len() > 0 && p[0] == '/' {
        p
    } else if base.len() == 0 || base.last() == '/' {
        base + p
    } else {
        base + "/"@ + p
    }
}

/// The `casm.patterns` setting, resolved against the first workspace root.
pub open spec fn configured_dir(roots: Seq<Seq<char>>, setting: Seq<char>) -> Seq<char> {
    if roots.len() == 0 {
        setting
    } else {
        path_join(roots[0], setting)
    }
}

/// The conventional directories of each root, in order: `patterns`, then
/// `.casm/patterns`, for the first root, then for the next.
pub open spec fn conventional_candidates(roots: Seq<Seq<char>>) -> Seq<Seq<char>>
    decreases roots.len(),
{
    if roots.len() == 0 {
        Seq::empty()
    } else {
        conventional_candidates(roots.drop_last()) + seq![
            path_join(roots.last(), "patterns"@),
            path_join(roots.last(), ".casm/patterns"@),
        ]
    }
}

/// The directories to probe, in order: the configured one alone when there is
/// a setting, else every conventional one.
pub open spec fn library_candidates_spec(roots: Seq<Seq<char>>, configured: Option<Seq<char>>) -> Seq<Seq<char>> {
    match configured {
        Some(s) => seq![configured_dir(roots, s)],
        None => conventional_candidates(roots),
    }
}

/// Whether the probe of the `k`th candidate found a directory; a candidate
/// with no probe counts as absent.
pub open spec fn probed(is_dir: Seq<bool>, k: int) -> bool {
    0 <= k < is_dir.len() && is_dir[k]
}

/// The note for a setting that names no directory.
pub open spec fn not_a_directory_note(dir: Seq<char>) -> Seq<char> {
    "casm.patterns is set to '"@ + dir
        + "', which is not a directory — conformance claims will be reported as unchecked"@
}

/// The note for a workspace with no conventional library.
pub open spec fn nothing_found_note() -> Seq<char> {
    "no pattern library found — looked for 'patterns/' and '.casm/patterns/' in each workspace folder. Conformance claims will be reported as unchecked; set 'casm.patterns' to point at one."@
}

/// The library directory a workspace means, given which candidates exist.
/// A setting is never silently ignored: when it names no directory the
/// answer is the note saying so, not a conventional directory. Otherwise
/// the first conventional directory that exists wins, and nothing is merged.
pub open spec fn library_choice(roots: Seq<Seq<char>>, configured: Option<Seq<char>>, is_dir: Seq<bool>) -> Result<
    Seq<char>,
    Seq<char>,
> {
    let c = library_candidates_spec(roots, configured);
    let k = first_match(Seq::new(c.len(), |i: int| probed(is_dir, i)), |b: bool| b);
    match configured {
        Some(_) => if probed(is_dir, 0) {
            Ok(c[0])
        } else {
            Err(not_a_directory_note(c[0]))
        },
        None => if k < c.len() {
            Ok(c[k])
        } else {
            Err(nothing_found_note())
        },
    }
}

/// `p` adjoined to `base`.
fn join_path(base: &str, p: &str) -> (r: String)
    ensures
        r@ == path_join(base@, p@),
{
    let pc = chars_of(p);
    let bc = chars_of(base);
    proof {
        reveal_with_fuel(joined, 4);
    }
    if pc.len() > 0 && pc[0] == '/' {
        owned(p)
    } else if bc.len() == 0 || bc[bc.len() - 1] == '/' {
        concat_strs(&[base, p])
    } else {
        concat_strs(&[base, "/", p])
    }
}

/// The directories to probe for a workspace's pattern library, in the order
/// they are tried.
pub fn library_candidates(roots: &[String], configured: Option<&str>) -> (r: Vec<String>)
    ensures
        r@.map_values(|s: String| s@) == library_candidates_spec(
            roots@.map_values(|s: String| s@),
            match configured {
                Some(s) => Some(s@),
                None => None,
            },
        ),
{
    let ghost rv = roots@.map_values(|s: String| s@);
    let mut r: Vec<String> = Vec::new();
    match configured {
        Some(setting) => {
            let dir = if roots.len() == 0 {
                owned(setting)
            } else {
                join_path(roots[0].as_str(), setting)
            };
            r.push(dir);
            assert(r@.map_values(|s: String| s@) =~= seq![configured_dir(rv, setting@)]);
        },
        None => {
            let mut i: usize = 0;
            while i < roots.len()
                invariant
                    i <= roots@.len(),
                    rv == roots@.map_values(|s: String| s@),
                    r@.map_values(|s: String| s@) =~= conventional_candidates(rv.take(i as int)),
                decreases roots.len() - i,
            {
                let ghost before = r@.map_values(|s: String| s@);
                let a = join_path(roots[i].as_str(), "patterns");
                let b = join_path(roots[i].as_str(), ".casm/patterns");
                r.push(a);
                r.push(b);
                proof {
                    assert(rv.take(i + 1).drop_last() =~= rv.take(i as int));
                    assert(rv.take(i + 1).last() == roots@[i as int]@);
                    assert(r@.map_values(|s: String| s@) =~= before + seq![a@, b@]);
                }
                i = i + 1;
            }
            assert(rv.take(roots@.len() as int) =~= rv);
        },
    }
    r
}

/// Which directory a workspace's pattern library is read from, or the note
/// explaining why there is none. `is_dir[k]` says whether the `k`th of
/// [`library_candidates`] is a directory.
pub fn choose_library(roots: &[String], configured: Option<&str>, is_dir: &[bool]) -> (r: Result<String, String>)
    ensures
        ({
            let want = library_choice(
                roots@.map_values(|s: String| s@),
                match configured {
                    Some(s) => Some(s@),
                    None => None,
                },
                is_dir@,
            );
            match r {
                Ok(d) => want == Ok::<Seq<char>, Seq<char>>(d@),
                Err(n) => want == Err::<Seq<char>, Seq<char>>(n@),
            }
        }),
{
    let ghost conf = match configured {
        Some(s) => Some(s@),
        None => None,
    };
    let ghost rv = roots@.map_values(|s: String| s@);
    let cands = library_candidates(roots, configured);
    let ghost c = library_candidates_spec(rv, conf);
    let ghost flags = Seq::new(c.len(), |i: int| probed(is_dir@, i));
    assert(cands@.map_values(|s: String| s@) == c);
    match configured {
        Some(_) => {
            assert(c.len() == 1);
            if is_dir.len() > 0 && is_dir[0] {
                Ok(owned(cands[0].as_str()))
            } else {
                let s = concat_strs(
                    &[
                        "casm.patterns is set to '",
                        cands[0].as_str(),
                        "', which is not a directory — conformance claims will be reported as unchecked",
                    ],
                );
                proof {
                    reveal_with_fuel(joined, 4);
                }
                Err(s)
            }
        },
        None => {
            let mut k: usize = 0;
            while k < cands.len()
                invariant
                    k <= cands@.len(),
                    cands@.len() == c.len(),
                    cands@.map_values(|s: String| s@) == c,
                    rv == roots@.map_values(|s: String| s@),
                    conf == (match configured {
                        Some(s) => Some(s@),
                        None => None::<Seq<char>>,
                    }),
                    configured is None,
                    c == library_candidates_spec(rv, conf),
                    flags == Seq::new(c.len(), |i: int| probed(is_dir@, i)),
                    forall|j: int| 0 <= j < k ==> !flags[j],
                decreases cands.len() - k,
            {
                if k < is_dir.len() && is_dir[k] {
                    proof {
                        lemma_first_match_is(flags, |b: bool| b, k as int);
                        assert(cands@.map_values(|s: String| s@)[k as int] == cands@[k as int]@);
                    }
                    return Ok(owned(cands[k].as_str()));
                }
                k = k + 1;
            }
            proof {
                lemma_first_match_is(flags, |b: bool| b, c.len() as int);
            }
            Err(
                owned(
                    "no pattern library found — looked for 'patterns/' and '.casm/patterns/' in each workspace folder. Conformance claims will be reported as unchecked; set 'casm.patterns' to point at one.",
                ),
            )
        },
    }
}

} // verus!
