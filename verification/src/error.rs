//! Diagnostic-grade parse failures: where, what, and what to type instead.
use vstd::prelude::*;

use crate::chars::{concat_strs, joined, owned};
use crate::fmt::{decimal, decimal_string};

verus! {

/// A 1-indexed position within a source file.
#[derive(Clone, Copy, Debug, PartialEq, Eq, Structural, PartialOrd, Ord)]
pub struct Location {
    /// 1-indexed line number.
    pub line: usize,
    /// 1-indexed column number.
    pub column: usize,
}

impl Location {
    /// Constructs a location, clamping zero to 1 so output is never `0:0`.
    pub fn new(line: usize, column: usize) -> (l: Self)
        ensures
            l.line == if line == 0 {
                1
            } else {
                line
            },
            l.column == if column == 0 {
                1
            } else {
                column
            },
    {
        Location { line: if line == 0 {
            1
        } else {
            line
        }, column: if column == 0 {
            1
        } else {
            column
        } }
    }

    /// The location of the very start of a file.
    pub fn start() -> (l: Self)
        ensures
            l.line == 1,
            l.column == 1,
    {
        Location { line: 1, column: 1 }
    }

    /// `line:column`.
    pub open spec fn text(self) -> Seq<char> {
        decimal(self.line as nat) + ":"@ + decimal(self.column as nat)
    }

    /// Renders the location as `line:column`.
    pub fn describe(&self) -> (s: String)
        ensures
            s@ == self.text(),
    {
        let l = decimal_string(self.line as u64);
        let c = decimal_string(self.column as u64);
        let parts = [l.as_str(), ":", c.as_str()];
        let s = concat_strs(&parts);
        proof {
            reveal_with_fuel(joined, 4);
        }
        s
    }
}

/// Everything that can go wrong turning bytes into an architecture.
#[derive(Clone, Debug, PartialEq, Eq)]
pub enum ParseError {
    /// The file's format could not be determined from its extension or contents.
    UnknownFormat {
        /// The file that could not be classified.
        path: String,
    },
    /// The document was not well-formed in its declared format.
    Syntax {
        /// The offending file.
        path: String,
        /// Where the parser gave up.
        location: Location,
        /// What the underlying format parser reported.
        message: String,
        /// A concrete suggestion, when one can be inferred.
        suggestion: Option<String>,
    },
    /// The document parsed, but a value violated a domain rule.
    Semantic {
        /// The offending file.
        path: String,
        /// What rule was violated.
        message: String,
        /// A concrete suggestion, when one can be inferred.
        suggestion: Option<String>,
    },
    /// A relationship referenced a node name or id that does not exist.
    UnresolvedReference {
        /// The offending file.
        path: String,
        /// Which end failed: `"source"` or `"target"`.
        endpoint: &'static str,
        /// The unresolvable reference as written.
        reference: String,
        /// The closest declared node name, if one is close enough to suggest.
        suggestion: Option<String>,
    },
    /// A pattern-conformance binding referenced a node that does not exist.
    UnresolvedBinding {
        /// The offending file.
        path: String,
        /// The pattern reference as written.
        pattern: String,
        /// The role that was bound.
        role: String,
        /// The unresolvable node reference as written.
        reference: String,
        /// The closest declared node name, if one is close enough to suggest.
        suggestion: Option<String>,
    },
    /// The document exceeded the configured size ceiling.
    TooLarge {
        /// The offending file.
        path: String,
        /// Actual size in bytes.
        size: u64,
        /// The configured ceiling.
        limit: u64,
    },
    /// Two files in a pattern library defined the same `name@version`.
    DuplicatePattern {
        /// The file that redefined it.
        path: String,
        /// The colliding `name@version` reference.
        pattern: String,
        /// The file that defined it first.
        first: String,
    },
    /// A pattern library directory held more pattern files than the ceiling allows.
    TooManyPatterns {
        /// The offending directory.
        path: String,
        /// How many pattern files it holds.
        count: usize,
        /// The configured ceiling.
        limit: usize,
    },
    /// The file could not be read.
    Io {
        /// The file that could not be read.
        path: String,
        /// The underlying I/O error message.
        message: String,
    },
    /// Serialising an architecture back to text failed.
    Emit {
        /// The target format.
        format: &'static str,
        /// The underlying serialiser message.
        message: String,
    },
}

impl ParseError {
    /// The one-line message for this error.
    pub open spec fn text(&self) -> Seq<char> {
        match self {
            ParseError::UnknownFormat { path } => "cannot determine the format of '"@ + path@
                + "': expected a .yaml, .yml, .json, or .toml extension"@,
            ParseError::Syntax { path, location, message, .. } => path@ + ":"@ + location.text()
                + ": "@ + message@,
            ParseError::Semantic { path, message, .. } => path@ + ": "@ + message@,
            ParseError::UnresolvedReference { path, endpoint, reference, .. } => path@
                + ": relationship "@ + endpoint@ + " '"@ + reference@
                + "' does not match any declared node"@,
            ParseError::UnresolvedBinding { path, pattern, role, reference, .. } => path@
                + ": pattern '"@ + pattern@ + "' binds role '"@ + role@ + "' to '"@ + reference@
                + "', which does not match any declared node"@,
            ParseError::TooLarge { path, size, limit } => "'"@ + path@ + "' is "@ + decimal(
                *size as nat,
            ) + " bytes, exceeding the "@ + decimal(*limit as nat) + "-byte parse limit"@,
            ParseError::DuplicatePattern { path, pattern, first } => path@ + ": pattern '"@
                + pattern@ + "' is already defined by '"@ + first@ + "'"@,
            ParseError::TooManyPatterns { path, count, limit } => "'"@ + path@ + "' holds "@
                + decimal(*count as nat) + " pattern files, exceeding the limit of "@ + decimal(
                *limit as nat,
            ),
            ParseError::Io { path, message } => "cannot read '"@ + path@ + "': "@ + message@,
            ParseError::Emit { format, message } => "cannot serialise architecture to "@
                + format@ + ": "@ + message@,
        }
    }

    /// The fix hint this error carries, if any.
    pub open spec fn hint(&self) -> Option<Seq<char>> {
        match self {
            ParseError::Syntax { suggestion, .. } | ParseError::Semantic { suggestion, .. }
            | ParseError::UnresolvedReference { suggestion, .. }
            | ParseError::UnresolvedBinding { suggestion, .. } => match suggestion {
                Some(s) => Some(s@),
                None => None,
            },
            _ => None,
        }
    }

    /// The file this error concerns, if it concerns one.
    pub fn path(&self) -> (p: Option<&str>)
        ensures
            match self {
                ParseError::Emit { .. } => p is None,
                ParseError::UnknownFormat { path } | ParseError::Syntax { path, .. }
                | ParseError::Semantic { path, .. } | ParseError::UnresolvedReference { path, .. }
                | ParseError::UnresolvedBinding { path, .. }
                | ParseError::DuplicatePattern { path, .. }
                | ParseError::TooManyPatterns { path, .. } | ParseError::TooLarge { path, .. }
                | ParseError::Io { path, .. } => p matches Some(q) && q@ == path@,
            },
    {
        match self {
            ParseError::UnknownFormat { path }
            | ParseError::Syntax { path, .. }
            | ParseError::Semantic { path, .. }
            | ParseError::UnresolvedReference { path, .. }
            | ParseError::UnresolvedBinding { path, .. }
            | ParseError::DuplicatePattern { path, .. }
            | ParseError::TooManyPatterns { path, .. }
            | ParseError::TooLarge { path, .. }
            | ParseError::Io { path, .. } => Some(path.as_str()),
            ParseError::Emit { .. } => None,
        }
    }

    /// Where in the file the failure occurred, when that is known: only a
    /// syntax error knows its position.
    pub fn location(&self) -> (l: Option<Location>)
        ensures
            l == match self {
                ParseError::Syntax { location, .. } => Some(*location),
                _ => None,
            },
    {
        match self {
            ParseError::Syntax { location, .. } => Some(*location),
            _ => None,
        }
    }

    /// The actionable fix hint, when one could be inferred.
    pub fn suggestion(&self) -> (s: Option<&str>)
        ensures
            match s {
                Some(h) => self.hint() == Some(h@),
                None => self.hint() is None,
            },
    {
        match self {
            ParseError::Syntax { suggestion, .. }
            | ParseError::Semantic { suggestion, .. }
            | ParseError::UnresolvedReference { suggestion, .. }
            | ParseError::UnresolvedBinding { suggestion, .. } => match suggestion {
                Some(s) => Some(s.as_str()),
                None => None,
            },
            _ => None,
        }
    }

    /// The one-line message: `path:line:column: message` for a syntax error,
    /// and a sentence naming the file for every other kind.
    pub fn describe(&self) -> (s: String)
        ensures
            s@ == self.text(),
    {
        let s = match self {
            ParseError::UnknownFormat { path } => concat_strs(
                &[
                    "cannot determine the format of '",
                    path.as_str(),
                    "': expected a .yaml, .yml, .json, or .toml extension",
                ],
            ),
            ParseError::Syntax { path, location, message, .. } => {
                let l = location.describe();
                concat_strs(&[path.as_str(), ":", l.as_str(), ": ", message.as_str()])
            },
            ParseError::Semantic { path, message, .. } => concat_strs(
                &[path.as_str(), ": ", message.as_str()],
            ),
            ParseError::UnresolvedReference { path, endpoint, reference, .. } => concat_strs(
                &[
                    path.as_str(),
                    ": relationship ",
                    endpoint,
                    " '",
                    reference.as_str(),
                    "' does not match any declared node",
                ],
            ),
            ParseError::UnresolvedBinding { path, pattern, role, reference, .. } => concat_strs(
                &[
                    path.as_str(),
                    ": pattern '",
                    pattern.as_str(),
                    "' binds role '",
                    role.as_str(),
                    "' to '",
                    reference.as_str(),
                    "', which does not match any declared node",
                ],
            ),
            ParseError::TooLarge { path, size, limit } => {
                let a = decimal_string(*size);
                let b = decimal_string(*limit);
                concat_strs(
                    &[
                        "'",
                        path.as_str(),
                        "' is ",
                        a.as_str(),
                        " bytes, exceeding the ",
                        b.as_str(),
                        "-byte parse limit",
                    ],
                )
            },
            ParseError::DuplicatePattern { path, pattern, first } => concat_strs(
                &[
                    path.as_str(),
                    ": pattern '",
                    pattern.as_str(),
                    "' is already defined by '",
                    first.as_str(),
                    "'",
                ],
            ),
            ParseError::TooManyPatterns { path, count, limit } => {
                let a = decimal_string(*count as u64);
                let b = decimal_string(*limit as u64);
                concat_strs(
                    &[
                        "'",
                        path.as_str(),
                        "' holds ",
                        a.as_str(),
                        " pattern files, exceeding the limit of ",
                        b.as_str(),
                    ],
                )
            },
            ParseError::Io { path, message } => concat_strs(
                &["cannot read '", path.as_str(), "': ", message.as_str()],
            ),
            ParseError::Emit { format, message } => concat_strs(
                &["cannot serialise architecture to ", format, ": ", message.as_str()],
            ),
        };
        proof {
            reveal_with_fuel(joined, 9);
        }
        s
    }

    /// Renders the error the way a compiler would: the message, then, when
    /// there is a hint, a second line `  help: <hint>`.
    pub fn render(&self) -> (s: String)
        ensures
            s@ == match self.hint() {
                Some(h) => self.text() + "\n  help: "@ + h,
                None => self.text(),
            },
    {
        let out = self.describe();
        match self.suggestion() {
            Some(hint) => {
                let s = concat_strs(&[out.as_str(), "\n  help: ", hint]);
                proof {
                    reveal_with_fuel(joined, 4);
                }
                s
            },
            None => out,
        }
    }
}

} // verus!
