//! Detecting which concrete syntax a document is written in.
//!
//! Extension first, contents second: the extension is the author's explicit
//! statement of intent, so a malformed `.json` file reports a JSON error rather
//! than being silently re-read as YAML.
use vstd::prelude::*;

use crate::chars::{chars_of, trim_chars, trim_spec};
use crate::words::{
    find_char, find_last, first_index_of, is_word, last_index_of, lemma_first_index_of,
    lemma_last_index_of, lines_of, split_lines, split_on,
};

verus! {

/// A concrete syntax an architecture can be written in.
#[derive(Clone, Copy, Debug, PartialEq, Eq, Structural, PartialOrd, Ord, Hash)]
pub enum Format {
    /// YAML 1.2: the format intended for humans.
    Yaml,
    /// JSON: the format intended for machines and API payloads.
    Json,
    /// TOML: the format intended for configuration.
    Toml,
}

/// The ASCII-lowercase form of `s`.
pub open spec fn ascii_lower(s: Seq<char>) -> Seq<char> {
    s.map_values(|c: char| ascii_lower_char(c))
}

pub open spec fn ascii_lower_char(c: char) -> char {
    if 'A' <= c <= 'Z' {
        ((c as u32) + 32) as char
    } else {
        c
    }
}

/// The last path component, as `Path::file_name` reads it: components are
/// separated by `/`, empty and `.` components are skipped, and a final `..`
/// names no file.
pub open spec fn file_name_spec(path: Seq<char>) -> Option<Seq<char>> {
    let comps = path_components(path);
    if comps.len() == 0 || comps.last() == ".."@ {
        None
    } else {
        Some(comps.last())
    }
}

/// The non-empty, non-`.` pieces of a `/`-separated path.
pub open spec fn path_components(path: Seq<char>) -> Seq<Seq<char>> {
    split_on(path, '/').filter(|c: Seq<char>| c.len() > 0 && c != "."@)
}

/// The extension of a file name, as `Path::extension` reads it: the text after
/// the last `.`, unless there is no `.` or the only one starts the name.
pub open spec fn extension_spec(path: Seq<char>) -> Option<Seq<char>> {
    match file_name_spec(path) {
        Some(name) => match last_index_of(name, '.') {
            Some(i) => if i == 0 {
                None
            } else {
                Some(name.skip(i + 1))
            },
            None => None,
        },
        None => None,
    }
}

/// The format a lowercase extension names.
pub open spec fn format_of_extension(ext: Seq<char>) -> Option<Format> {
    if ext == "yaml"@ || ext == "yml"@ {
        Some(Format::Yaml)
    } else if ext == "json"@ {
        Some(Format::Json)
    } else if ext == "toml"@ {
        Some(Format::Toml)
    } else {
        None
    }
}

/// The format a path's extension names, case-insensitively.
pub open spec fn from_path_spec(path: Seq<char>) -> Option<Format> {
    match extension_spec(path) {
        Some(ext) => format_of_extension(ascii_lower(ext)),
        None => None,
    }
}

/// Whether a trimmed line carries content: not blank, not a comment, not a
/// document marker.
pub open spec fn meaningful(line: Seq<char>) -> bool {
    line.len() > 0 && line[0] != '#' && !(line.len() >= 3 && line.take(3) == "---"@)
}

/// The first meaningful line of `source`, trimmed.
pub open spec fn first_meaningful_from(lines: Seq<Seq<char>>, from: int) -> Option<Seq<char>>
    decreases lines.len() - from,
{
    if from < 0 || from >= lines.len() {
        None
    } else if meaningful(trim_spec(lines[from])) {
        Some(trim_spec(lines[from]))
    } else {
        first_meaningful_from(lines, from + 1)
    }
}

/// The format a document's first meaningful line suggests.
pub open spec fn sniff_spec(source: Seq<char>) -> Format {
    match first_meaningful_from(split_lines(source), 0) {
        None => Format::Yaml,
        Some(first) => {
            let opens = |c: char| first.len() > 0 && first[0] == c;
            let closes = |c: char| first.len() > 0 && first.last() == c;
            if opens('{') || (opens('[') && closes(',')) {
                Format::Json
            } else if opens('[') && closes(']') {
                Format::Toml
            } else {
                let eq = first_index_of(first, '=', 0);
                let before = first.take(eq);
                if eq < first.len() && !before.contains(':') && trim_spec(before).len() > 0 {
                    Format::Toml
                } else {
                    Format::Yaml
                }
            }
        },
    }
}

impl Format {
    /// Every format this crate can read, in preference order.
    pub const ALL: [Format; 3] = [Format::Yaml, Format::Json, Format::Toml];

    /// The canonical lowercase label.
    pub fn label(self) -> (s: &'static str)
        ensures
            s@ == match self {
                Format::Yaml => "yaml"@,
                Format::Json => "json"@,
                Format::Toml => "toml"@,
            },
    {
        match self {
            Format::Yaml => "yaml",
            Format::Json => "json",
            Format::Toml => "toml",
        }
    }

    /// The file extensions conventionally associated with this format.
    pub fn extensions(self) -> (e: &'static [&'static str])
        ensures
            match self {
                Format::Yaml => e@.len() == 2 && e@[0]@ == "yaml"@ && e@[1]@ == "yml"@,
                Format::Json => e@.len() == 1 && e@[0]@ == "json"@,
                Format::Toml => e@.len() == 1 && e@[0]@ == "toml"@,
            },
    {
        match self {
            Format::Yaml => &["yaml", "yml"],
            Format::Json => &["json"],
            Format::Toml => &["toml"],
        }
    }

    /// Classifies a path by its extension, case-insensitively; `None` for an
    /// unrecognised or absent extension.
    pub fn from_path(path: &str) -> (f: Option<Format>)
        ensures
            f == from_path_spec(path@),
    {
        let cs = chars_of(path);
        match extension(cs.as_slice()) {
            Some(ext) => {
                let lower = to_ascii_lowercase(ext.as_slice());
                if is_word(lower.as_slice(), "yaml") || is_word(lower.as_slice(), "yml") {
                    Some(Format::Yaml)
                } else if is_word(lower.as_slice(), "json") {
                    Some(Format::Json)
                } else if is_word(lower.as_slice(), "toml") {
                    Some(Format::Toml)
                } else {
                    None
                }
            },
            None => None,
        }
    }

    /// Guesses a format from the document's first meaningful line: an opening
    /// brace (or a bracketed line ending in a comma) is JSON, a `[table]`
    /// header or a bare `key = value` is TOML, anything else is YAML.
    pub fn sniff(source: &str) -> (f: Format)
        ensures
            f == sniff_spec(source@),
    {
        let cs = chars_of(source);
        let first = match first_meaningful_line(cs.as_slice()) {
            Some(line) => line,
            None => {
                return Format::Yaml;
            },
        };
        let n = first.len();
        let opens_brace = n > 0 && first[0] == '{';
        let opens_bracket = n > 0 && first[0] == '[';
        let closes_comma = n > 0 && first[n - 1] == ',';
        let closes_bracket = n > 0 && first[n - 1] == ']';
        if opens_brace || (opens_bracket && closes_comma) {
            return Format::Json;
        }
        if opens_bracket && closes_bracket {
            return Format::Toml;
        }
        let eq = find_char(first.as_slice(), '=', 0);
        if eq < n {
            let before = crate::chars::sub_chars(first.as_slice(), 0, eq);
            let colon = find_char(before.as_slice(), ':', 0);
            proof {
                lemma_first_index_of(before@, ':', 0);
                assert(before@ =~= first@.take(eq as int));
                if before@.contains(':') {
                    let k = choose|k: int| 0 <= k < before@.len() && before@[k] == ':';
                    assert(colon <= k);
                }
            }
            let trimmed = trim_chars(before.as_slice());
            if colon >= before.len() && trimmed.len() > 0 {
                return Format::Toml;
            }
        }
        Format::Yaml
    }

    /// Resolves the format for a path, falling back to sniffing its contents.
    pub fn resolve(path: &str, source: &str) -> (f: Format)
        ensures
            f == match from_path_spec(path@) {
                Some(g) => g,
                None => sniff_spec(source@),
            },
    {
        match Format::from_path(path) {
            Some(f) => f,
            None => Format::sniff(source),
        }
    }
}

/// The first meaningful line of `source`, trimmed.
fn first_meaningful_line(source: &[char]) -> (r: Option<Vec<char>>)
    ensures
        match r {
            Some(l) => first_meaningful_from(split_lines(source@), 0) == Some(l@),
            None => first_meaningful_from(split_lines(source@), 0) is None,
        },
{
    let lines = lines_of(source);
    let ghost ls = split_lines(source@);
    let mut i: usize = 0;
    while i < lines.len()
        invariant
            i <= lines.len(),
            ls == split_lines(source@),
            lines@.len() == ls.len(),
            forall|k: int| 0 <= k < lines@.len() ==> #[trigger] lines@[k]@ == ls[k],
            first_meaningful_from(ls, i as int) == first_meaningful_from(ls, 0),
        decreases lines.len() - i,
    {
        let t = trim_chars(lines[i].as_slice());
        assert(t@ == trim_spec(ls[i as int]));
        let n = t.len();
        let marker = n >= 3 && t[0] == '-' && t[1] == '-' && t[2] == '-';
        proof {
            if n >= 3 {
                reveal_strlit("---");
                assert("---"@ =~= seq!['-', '-', '-']);
                if marker {
                    assert(t@.take(3) =~= "---"@);
                } else {
                    assert(t@.take(3)[0] == t@[0] && t@.take(3)[1] == t@[1] && t@.take(3)[2] == t@[2]);
                }
                assert(marker == (t@.take(3) == "---"@));
            }
        }
        if n > 0 && t[0] != '#' && !marker {
            return Some(t);
        }
        i = i + 1;
    }
    None
}

/// The last path component that names a file.
fn file_name(path: &[char]) -> (r: Option<Vec<char>>)
    ensures
        match r {
            Some(n) => file_name_spec(path@) == Some(n@),
            None => file_name_spec(path@) is None,
        },
{
    let comps = components(path);
    if comps.len() == 0 {
        return None;
    }
    let last = &comps[comps.len() - 1];
    if is_word(last.as_slice(), "..") {
        return None;
    }
    Some(crate::chars::sub_chars(last.as_slice(), 0, last.len()))
}

/// The non-empty, non-`.` pieces of a `/`-separated path.
fn components(path: &[char]) -> (r: Vec<Vec<char>>)
    ensures
        r@.len() == path_components(path@).len(),
        forall|i: int| 0 <= i < r@.len() ==> #[trigger] r@[i]@ == path_components(path@)[i],
{
    let ghost keep = |c: Seq<char>| c.len() > 0 && c != "."@;
    let mut r: Vec<Vec<char>> = Vec::new();
    let mut start: usize = 0;
    let mut done = false;
    assert(path@.skip(0) =~= path@);
    while !done
        invariant
            start <= path@.len(),
            keep == (|c: Seq<char>| c.len() > 0 && c != "."@),
            !done ==> path_components(path@) == r@.map_values(|v: Vec<char>| v@) + split_on(
                path@.skip(start as int),
                '/',
            ).filter(keep),
            done ==> path_components(path@) == r@.map_values(|v: Vec<char>| v@),
        decreases path@.len() - start + if done {
            0int
        } else {
            1int
        },
    {
        let ghost rest = path@.skip(start as int);
        let i = find_char(path, '/', start);
        proof {
            lemma_first_index_of(path@, '/', start as int);
            crate::words::lemma_first_index_shift(path@, '/', start as int);
        }
        let piece = crate::chars::sub_chars(path, start, i);
        let ghost old_r = r@;
        let kept = piece.len() > 0 && !is_word(piece.as_slice(), ".");
        proof {
            reveal_with_fuel(Seq::<_>::filter, 1);
            if i >= path.len() {
                assert(piece@ =~= rest);
            } else {
                assert(rest.take(i - start) =~= piece@);
                assert(rest.skip(i - start + 1) =~= path@.skip(i + 1));
            }
            let pieces = split_on(rest, '/');
            assert(pieces[0] == piece@);
            assert(pieces =~= seq![piece@] + pieces.drop_first());
            pieces.drop_first().lemma_filter_prepend(piece@, keep);
        }
        if kept {
            r.push(piece);
        }
        proof {
            assert(r@.map_values(|v: Vec<char>| v@) =~= if keep(piece@) {
                old_r.map_values(|v: Vec<char>| v@).push(piece@)
            } else {
                old_r.map_values(|v: Vec<char>| v@)
            });
        }
        if i >= path.len() {
            done = true;
            proof {
                assert(split_on(rest, '/') =~= seq![piece@]);
            }
        } else {
            start = i + 1;
        }
    }
    r
}

/// The extension of the path's file name.
fn extension(path: &[char]) -> (r: Option<Vec<char>>)
    ensures
        match r {
            Some(e) => extension_spec(path@) == Some(e@),
            None => extension_spec(path@) is None,
        },
{
    let name = match file_name(path) {
        Some(n) => n,
        None => {
            return None;
        },
    };
    match find_last(name.as_slice(), '.') {
        Some(i) => {
            proof {
                lemma_last_index_of(name@, '.');
            }
            assert(i < name.len());
            if i == 0 {
                None
            } else {
                Some(crate::chars::sub_chars(name.as_slice(), i + 1, name.len()))
            }
        },
        None => None,
    }
}

/// The ASCII-lowercase form of `s` (`str::to_ascii_lowercase`).
pub fn to_ascii_lowercase(s: &[char]) -> (r: Vec<char>)
    ensures
        r@ == ascii_lower(s@),
{
    let mut r: Vec<char> = Vec::new();
    let mut i: usize = 0;
    while i < s.len()
        invariant
            i <= s.len(),
            r@ == ascii_lower(s@.take(i as int)),
        decreases s.len() - i,
    {
        let c = s[i];
        let l = if 'A' <= c && c <= 'Z' {
            ((c as u8) + 32) as char
        } else {
            c
        };
        r.push(l);
        i = i + 1;
        assert(r@ =~= ascii_lower(s@.take(i as int)));
    }
    assert(s@.take(s@.len() as int) =~= s@);
    r
}

} // verus!
