//! A pattern library: patterns gathered from files, looked up by
//! `name@version`.
//!
//! Two versions of one pattern coexist, which is what makes a migration
//! expressible as a period during which an architecture claims both. A second
//! definition of the same `name@version` is refused, naming both files.
use vstd::prelude::*;

use vstd::relations::sorted_by;

use crate::chars::{concat_strs, join_strings, joined, joined_with, owned, str_eq};
use crate::error::ParseError;
use crate::format::{from_path_spec, Format};
use crate::sorting::{insert_text, lex_order, text_codes, texts};
use crate::pattern::{reference_of, Pattern, PatternV};
use crate::seqs::{first_match, lemma_first_match, lemma_first_match_is};
use crate::suggest::{closest, closest_of, did_you_mean};

verus! {

/// The most patterns a single library directory will load: a directory is
/// untrusted input in exactly the way a file is.
pub const MAX_LIBRARY_PATTERNS: usize = 1024;

/// Whether a file's extension marks it as a pattern file.
pub open spec fn is_pattern_path(path: Seq<char>) -> bool {
    from_path_spec(path) is Some
}

/// The files of a directory that a library reads: those with a recognised
/// format's extension, so a `README.md` beside the patterns is skipped.
pub open spec fn pattern_paths(files: Seq<Seq<char>>) -> Seq<Seq<char>> {
    files.filter(|f: Seq<char>| is_pattern_path(f))
}

/// From the files of `directory`, the ones a library loads, in code-point
/// order of their paths (for files of one directory, the order of their
/// names), so that a duplicate-definition error names the same file on every
/// run. A directory holding more than [`MAX_LIBRARY_PATTERNS`] such files is
/// refused.
pub fn pattern_files(directory: &str, files: &[String]) -> (r: Result<Vec<String>, ParseError>)
    ensures
        ({
            let wanted = pattern_paths(texts(files@));
            match r {
                Ok(v) => {
                    &&& wanted.len() <= MAX_LIBRARY_PATTERNS
                    &&& sorted_by(text_codes(v@), lex_order())
                    &&& texts(v@).to_multiset() == wanted.to_multiset()
                },
                Err(e) => {
                    &&& wanted.len() > MAX_LIBRARY_PATTERNS
                    &&& e matches ParseError::TooManyPatterns { path, count, limit }
                    &&& path@ == directory@
                    &&& count == wanted.len()
                    &&& limit == MAX_LIBRARY_PATTERNS
                },
            }
        }),
{
    let ghost all = texts(files@);
    let ghost keep = |f: Seq<char>| is_pattern_path(f);
    let mut kept: Vec<String> = Vec::new();
    proof {
        broadcast use vstd::seq_lib::group_to_multiset_ensures;

        assert(texts(kept@) =~= Seq::<Seq<char>>::empty());
        reveal(Seq::filter);
        assert(all.take(0) =~= Seq::<Seq<char>>::empty());
    }
    let mut i: usize = 0;
    while i < files.len()
        invariant
            i <= files.len(),
            all == texts(files@),
            all.len() == files@.len(),
            keep == (|f: Seq<char>| is_pattern_path(f)),
            sorted_by(text_codes(kept@), lex_order()),
            texts(kept@).to_multiset() == all.take(i as int).filter(keep).to_multiset(),
            kept@.len() <= i,
        decreases files.len() - i,
    {
        assert(all.take(i + 1).drop_last() =~= all.take(i as int));
        assert(all[i as int] == files@[i as int]@);
        reveal(Seq::filter);
        if Format::from_path(files[i].as_str()).is_some() {
            proof {
                broadcast use vstd::seq_lib::group_to_multiset_ensures;
            }
            insert_text(&mut kept, owned(files[i].as_str()));
        }
        i = i + 1;
    }
    assert(all.take(files@.len() as int) =~= all);
    proof {
        broadcast use vstd::seq_lib::group_to_multiset_ensures;

        assert(texts(kept@).len() == kept@.len());
        assert(texts(kept@).to_multiset().len() == kept@.len());
        assert(pattern_paths(all).to_multiset().len() == pattern_paths(all).len());
    }
    if kept.len() > MAX_LIBRARY_PATTERNS {
        return Err(
            ParseError::TooManyPatterns {
                path: owned(directory),
                count: kept.len(),
                limit: MAX_LIBRARY_PATTERNS,
            },
        );
    }
    Ok(kept)
}

/// A reference to a pattern by name and version.
#[derive(Clone, Debug, PartialEq, Eq)]
pub struct PatternRef {
    /// The pattern's name.
    pub name: String,
    /// The pattern's version.
    pub version: String,
}

impl PatternRef {
    /// A reference to `name` at `version`.
    pub fn new(name: &str, version: &str) -> (r: Self)
        ensures
            r.name@ == name@,
            r.version@ == version@,
    {
        PatternRef { name: owned(name), version: owned(version) }
    }

    /// The referenced name.
    pub fn name(&self) -> (s: &str)
        ensures
            s@ == self.name@,
    {
        self.name.as_str()
    }

    /// Whether this reference names `pattern`: same name, same version.
    pub fn matches(&self, pattern: &Pattern) -> (b: bool)
        ensures
            b == names(self.name@, self.version@, pattern@),
    {
        str_eq(self.name.as_str(), pattern.name.as_str()) && str_eq(
            self.version.as_str(),
            pattern.version.as_str(),
        )
    }

    /// The reference as written: `name@version`.
    pub fn describe(&self) -> (s: String)
        ensures
            s@ == self.name@ + "@"@ + self.version@,
    {
        let s = concat_strs(&[self.name.as_str(), "@", self.version.as_str()]);
        proof {
            reveal_with_fuel(joined, 4);
        }
        s
    }
}

/// Whether the reference `name@version` names `p`.
pub open spec fn names(name: Seq<char>, version: Seq<char>, p: PatternV) -> bool {
    p.name == name && p.version == version
}

/// A library's model: each pattern with the file it came from, in load order.
pub type Entries = Seq<(PatternV, Seq<char>)>;

/// Entries naming the same `name@version` as `p`.
pub open spec fn same_reference(p: PatternV) -> spec_fn((PatternV, Seq<char>)) -> bool {
    |e: (PatternV, Seq<char>)| reference_of(e.0) == reference_of(p)
}

/// Entries that a reference `name@version` names.
pub open spec fn named_by(name: Seq<char>, version: Seq<char>) -> spec_fn(
    (PatternV, Seq<char>),
) -> bool {
    |e: (PatternV, Seq<char>)| names(name, version, e.0)
}

/// The first entry that `name@version` names, if any.
pub open spec fn lookup(entries: Entries, name: Seq<char>, version: Seq<char>) -> Option<
    (PatternV, Seq<char>),
> {
    let k = first_match(entries, named_by(name, version));
    if k < entries.len() {
        Some(entries[k])
    } else {
        None
    }
}

/// The patterns of `entries`, in order.
pub open spec fn patterns_of(entries: Entries) -> Seq<PatternV> {
    entries.map_values(|e: (PatternV, Seq<char>)| e.0)
}

/// The patterns called `name`, in load order.
pub open spec fn versions_spec(entries: Entries, name: Seq<char>) -> Seq<PatternV> {
    patterns_of(entries).filter(|p: PatternV| p.name == name)
}

/// The hint for a reference the library does not resolve: the versions that
/// exist when the name is known, else the nearest known name.
pub open spec fn closest_hint(entries: Entries, name: Seq<char>) -> Option<Seq<char>> {
    let versions = versions_spec(entries, name);
    if versions.len() > 0 {
        Some(
            "'"@ + name + "' is available at version "@ + joined_with(
                versions.map_values(|p: PatternV| p.version),
                ", "@,
            ),
        )
    } else {
        match closest_of(name, patterns_of(entries).map_values(|p: PatternV| p.name)) {
            Some(c) => Some("did you mean `"@ + c + "`?"@),
            None => None,
        }
    }
}

/// A collection of patterns, each with the file it came from.
#[derive(Clone, Debug)]
pub struct Library {
    patterns: Vec<(Pattern, String)>,
}

impl View for Library {
    type V = Entries;

    closed spec fn view(&self) -> Entries {
        self.patterns@.map_values(|e: (Pattern, String)| (e.0@, e.1@))
    }
}

impl Library {
    /// An empty library.
    pub fn new() -> (l: Self)
        ensures
            l@ == Seq::<(PatternV, Seq<char>)>::empty(),
    {
        let l = Library { patterns: Vec::new() };
        assert(l@ =~= Seq::<(PatternV, Seq<char>)>::empty());
        l
    }

    /// Adds a pattern, refusing a second definition of the same
    /// `name@version`: that error names the new file and the first one, and
    /// the library is left as it was.
    pub fn insert(&mut self, pattern: Pattern, source: String) -> (r: Result<(), ParseError>)
        ensures
            ({
                let k = first_match(old(self)@, same_reference(pattern@));
                if k < old(self)@.len() {
                    &&& final(self)@ == old(self)@
                    &&& r matches Err(ParseError::DuplicatePattern { path, pattern: p, first })
                    &&& path@ == source@
                    &&& p@ == reference_of(pattern@)
                    &&& first@ == old(self)@[k].1
                } else {
                    &&& r is Ok
                    &&& final(self)@ == old(self)@.push((pattern@, source@))
                }
            }),
    {
        let reference = pattern.reference();
        let ghost pred = same_reference(pattern@);
        let ghost entries = self@;
        let mut i: usize = 0;
        while i < self.patterns.len()
            invariant
                i <= self.patterns.len(),
                entries == self@,
                pred == same_reference(pattern@),
                reference@ == reference_of(pattern@),
                entries.len() == self.patterns@.len(),
                forall|j: int| 0 <= j < i ==> !pred(#[trigger] entries[j]),
            decreases self.patterns.len() - i,
        {
            let known = self.patterns[i].0.reference();
            assert(entries[i as int].0 == self.patterns@[i as int].0@);
            if str_eq(known.as_str(), reference.as_str()) {
                proof {
                    lemma_first_match_is(entries, pred, i as int);
                }
                let first = self.patterns[i].1.clone();
                return Err(ParseError::DuplicatePattern { path: source, pattern: reference, first });
            }
            i = i + 1;
        }
        proof {
            lemma_first_match_is(entries, pred, i as int);
        }
        self.patterns.push((pattern, source));
        assert(self@ =~= entries.push((pattern@, source@)));
        Ok(())
    }

    /// Every pattern, in load order.
    pub fn patterns(&self) -> (v: Vec<&Pattern>)
        ensures
            v@.map_values(|p: &Pattern| p@) == patterns_of(self@),
    {
        let mut v: Vec<&Pattern> = Vec::new();
        let mut i: usize = 0;
        while i < self.patterns.len()
            invariant
                i <= self.patterns.len(),
                v@.map_values(|p: &Pattern| p@) =~= patterns_of(self@).take(i as int),
            decreases self.patterns.len() - i,
        {
            v.push(&self.patterns[i].0);
            proof {
                assert(patterns_of(self@).take(i + 1) =~= patterns_of(self@).take(i as int).push(
                    self.patterns@[i as int].0@,
                ));
            }
            i = i + 1;
        }
        assert(patterns_of(self@).take(self.patterns@.len() as int) =~= patterns_of(self@));
        v
    }

    /// How many patterns the library holds.
    pub fn len(&self) -> (n: usize)
        ensures
            n == self@.len(),
    {
        self.patterns.len()
    }

    /// Whether the library holds no patterns.
    pub fn is_empty(&self) -> (b: bool)
        ensures
            b == (self@.len() == 0),
    {
        self.patterns.len() == 0
    }

    /// The index of the first entry `reference` names, or the length.
    fn position(&self, reference: &PatternRef) -> (k: usize)
        ensures
            k == first_match(self@, named_by(reference.name@, reference.version@)),
            k <= self@.len(),
    {
        let ghost pred = named_by(reference.name@, reference.version@);
        let mut i: usize = 0;
        while i < self.patterns.len()
            invariant
                i <= self.patterns.len(),
                self@.len() == self.patterns@.len(),
                pred == named_by(reference.name@, reference.version@),
                forall|j: int| 0 <= j < i ==> !pred(#[trigger] self@[j]),
            decreases self.patterns.len() - i,
        {
            assert(self@[i as int].0 == self.patterns@[i as int].0@);
            if reference.matches(&self.patterns[i].0) {
                proof {
                    lemma_first_match_is(self@, pred, i as int);
                }
                return i;
            }
            i = i + 1;
        }
        proof {
            lemma_first_match_is(self@, pred, i as int);
        }
        i
    }

    /// The pattern `reference` names.
    pub fn get(&self, reference: &PatternRef) -> (r: Option<&Pattern>)
        ensures
            match lookup(self@, reference.name@, reference.version@) {
                Some(e) => r matches Some(p) && p@ == e.0,
                None => r is None,
            },
    {
        let k = self.position(reference);
        if k < self.patterns.len() {
            assert(self@[k as int].0 == self.patterns@[k as int].0@);
            Some(&self.patterns[k].0)
        } else {
            None
        }
    }

    /// The file the pattern `reference` names came from.
    pub fn source_of(&self, reference: &PatternRef) -> (r: Option<&str>)
        ensures
            match lookup(self@, reference.name@, reference.version@) {
                Some(e) => r matches Some(s) && s@ == e.1,
                None => r is None,
            },
    {
        let k = self.position(reference);
        if k < self.patterns.len() {
            assert(self@[k as int].1 == self.patterns@[k as int].1@);
            Some(self.patterns[k].1.as_str())
        } else {
            None
        }
    }

    /// Every version of `name` the library holds, in load order.
    pub fn versions_of(&self, name: &str) -> (v: Vec<&Pattern>)
        ensures
            v@.map_values(|p: &Pattern| p@) == versions_spec(self@, name@),
    {
        let ghost ps = patterns_of(self@);
        let ghost keep = |p: PatternV| p.name == name@;
        let mut v: Vec<&Pattern> = Vec::new();
        let mut i: usize = 0;
        while i < self.patterns.len()
            invariant
                i <= self.patterns.len(),
                ps == patterns_of(self@),
                ps.len() == self.patterns@.len(),
                keep == (|p: PatternV| p.name == name@),
                v@.map_values(|p: &Pattern| p@) =~= ps.take(i as int).filter(keep),
            decreases self.patterns.len() - i,
        {
            let p = &self.patterns[i].0;
            assert(ps[i as int] == p@);
            assert(ps.take(i + 1).drop_last() =~= ps.take(i as int));
            reveal(Seq::filter);
            if str_eq(p.name.as_str(), name) {
                v.push(p);
            }
            i = i + 1;
        }
        assert(ps.take(self.patterns@.len() as int) =~= ps);
        v
    }

    /// A hint for a reference the library does not resolve: the versions of
    /// the name that exist, or else the nearest known name.
    pub fn closest(&self, wanted: &PatternRef) -> (r: Option<String>)
        ensures
            match r {
                Some(s) => closest_hint(self@, wanted.name@) == Some(s@),
                None => closest_hint(self@, wanted.name@) is None,
            },
    {
        let versions = self.versions_of(wanted.name.as_str());
        let ghost vs = versions_spec(self@, wanted.name@);
        if versions.len() > 0 {
            let mut available: Vec<String> = Vec::new();
            let mut i: usize = 0;
            while i < versions.len()
                invariant
                    i <= versions.len(),
                    versions@.map_values(|p: &Pattern| p@) == vs,
                    available@.map_values(|s: String| s@) =~= vs.map_values(
                        |p: PatternV| p.version,
                    ).take(i as int),
                decreases versions.len() - i,
            {
                assert(vs[i as int] == versions@[i as int]@);
                available.push(owned(versions[i].version.as_str()));
                proof {
                    let ws = vs.map_values(|p: PatternV| p.version);
                    assert(ws.take(i + 1) =~= ws.take(i as int).push(ws[i as int]));
                }
                i = i + 1;
            }
            assert(vs.map_values(|p: PatternV| p.version).take(versions@.len() as int)
                =~= vs.map_values(|p: PatternV| p.version));
            let list = join_strings(available.as_slice(), ", ");
            let s = concat_strs(
                &["'", wanted.name.as_str(), "' is available at version ", list.as_str()],
            );
            proof {
                reveal_with_fuel(joined, 5);
            }
            return Some(s);
        }
        let mut names: Vec<&str> = Vec::new();
        let ghost ns = patterns_of(self@).map_values(|p: PatternV| p.name);
        let mut i: usize = 0;
        while i < self.patterns.len()
            invariant
                i <= self.patterns.len(),
                ns == patterns_of(self@).map_values(|p: PatternV| p.name),
                ns.len() == self.patterns@.len(),
                names@.map_values(|c: &str| c@) =~= ns.take(i as int),
            decreases self.patterns.len() - i,
        {
            assert(ns[i as int] == self.patterns@[i as int].0.name@);
            names.push(self.patterns[i].0.name.as_str());
            assert(ns.take(i + 1) =~= ns.take(i as int).push(ns[i as int]));
            i = i + 1;
        }
        assert(ns.take(self.patterns@.len() as int) =~= ns);
        match closest(wanted.name.as_str(), names.as_slice()) {
            Some(c) => Some(did_you_mean(c)),
            None => None,
        }
    }
}

/// A pattern added under a `name@version` the library did not hold is what
/// that reference then resolves to, together with the file it came from.
pub proof fn law_an_inserted_pattern_is_found(entries: Entries, p: PatternV, source: Seq<char>)
    requires
        first_match(entries, same_reference(p)) == entries.len(),
    ensures
        lookup(entries.push((p, source)), p.name, p.version) == Some((p, source)),
{
    let after = entries.push((p, source));
    let pred = named_by(p.name, p.version);
    lemma_first_match(entries, same_reference(p));
    assert forall|j: int| 0 <= j < entries.len() implies !pred(#[trigger] after[j]) by {
        assert(after[j] == entries[j]);
        assert(!same_reference(p)(entries[j]));
    }
    lemma_first_match_is(after, pred, entries.len() as int);
}

/// Adding a pattern never changes what an already-resolving reference
/// resolves to: the first definition keeps answering.
pub proof fn law_inserting_keeps_earlier_lookups(
    entries: Entries,
    p: PatternV,
    source: Seq<char>,
    name: Seq<char>,
    version: Seq<char>,
)
    requires
        lookup(entries, name, version) is Some,
    ensures
        lookup(entries.push((p, source)), name, version) == lookup(entries, name, version),
{
    let after = entries.push((p, source));
    let pred = named_by(name, version);
    lemma_first_match(entries, pred);
    let k = first_match(entries, pred);
    assert forall|j: int| 0 <= j < k implies !pred(#[trigger] after[j]) by {
        assert(after[j] == entries[j]);
    }
    assert(after[k] == entries[k]);
    lemma_first_match_is(after, pred, k);
}

} // verus!
