//! CASIMIR: architecture documents, checked.
use vstd::prelude::*;

pub mod actions;
pub mod architecture;
pub mod catalog;
pub mod chars;
pub mod clock;
pub mod commands;
pub mod completion;
pub mod config;
pub mod conformance;
pub mod diagnostic;
pub mod diagnostics;
pub mod document;
pub mod documents;
pub mod error;
pub mod fmt;
pub mod graph;
pub mod format;
pub mod hover;
pub mod index;
pub mod library;
pub mod navigation;
pub mod otlp;
pub mod pattern;
pub mod pattern_doc;
pub mod record;
pub mod resolve;
pub mod recorder;
pub mod renderer;
pub mod rules;
pub mod sarif;
pub mod schema;
pub mod semver;
pub mod seqs;
pub mod sink;
pub mod sorting;
pub mod suggest;
pub mod syntax;
pub mod text;
pub mod validator;
pub mod words;

verus! {
}
