//! What the language server answers to the commands it advertises: a
//! Mermaid diagram of an open document, and a summary of the findings across
//! every open document.
use vstd::prelude::*;

use crate::actions::{GENERATE_DIAGRAM, VALIDATE_WORKSPACE};
use crate::chars::{clamp_usize, concat_strs, joined, owned, str_eq};
use crate::diagnostics::{DiagnosticV, Severity};
use crate::documents::{position_of, DocumentStore, EntryV};
use crate::fmt::{decimal, decimal_string};
use crate::renderer::{mermaid_text, Mermaid, Renderer};

verus! {

/// How many of `ds` are at `severity`.
pub open spec fn severity_count(ds: Seq<DiagnosticV>, severity: Severity) -> nat
    decreases ds.len(),
{
    if ds.len() == 0 {
        0
    } else {
        severity_count(ds.drop_last(), severity) + if ds.last().severity == severity {
            1nat
        } else {
            0nat
        }
    }
}

/// How many findings at `severity` the documents of `es` hold together.
pub open spec fn store_count(es: Seq<EntryV>, severity: Severity) -> nat
    decreases es.len(),
{
    if es.len() == 0 {
        0
    } else {
        store_count(es.drop_last(), severity) + severity_count(es.last().1.diagnostics, severity)
    }
}

/// The summary of the findings across every open document, each count
/// saturating at the largest `usize`.
pub open spec fn workspace_summary_text(es: Seq<EntryV>) -> Seq<char> {
    "checked "@ + decimal(es.len()) + " open document(s): "@ + decimal(
        clamp_usize(store_count(es, Severity::Error) as int) as nat,
    ) + " error(s), "@ + decimal(clamp_usize(store_count(es, Severity::Warning) as int) as nat) + " warning(s)"@
}

/// What stands in for a diagram when the document does not parse.
pub open spec fn unrendered_text() -> Seq<char> {
    "%% CASIMIR could not render: the document does not currently parse.\n"@
}

/// The diagram of the document open at `uri`: its architecture as a Mermaid
/// flowchart, or a note that it does not parse.
pub open spec fn diagram_of(es: Seq<EntryV>, uri: Seq<char>) -> Seq<char> {
    match position_of(es, uri) {
        Some(i) => match es[i].1.architecture {
            Some(a) => mermaid_text(a),
            None => unrendered_text(),
        },
        None => unrendered_text(),
    }
}

/// The answer to `command` with `uri` as its argument: the diagram, the
/// workspace summary, or an error naming a command that is not offered.
pub open spec fn command_response(es: Seq<EntryV>, command: Seq<char>, uri: Seq<char>) -> Result<Seq<char>, Seq<char>> {
    if command == GENERATE_DIAGRAM@ {
        Ok(diagram_of(es, uri))
    } else if command == VALIDATE_WORKSPACE@ {
        Ok(workspace_summary_text(es))
    } else {
        Err("casm-lsp: unknown command '"@ + command + "'"@)
    }
}

/// Summarises the findings across every open document.
pub fn workspace_summary(store: &DocumentStore) -> (s: String)
    ensures
        s@ == workspace_summary_text(store@.entries),
{
    let uris = store.uris();
    let ghost es = store@.entries;
    assert(uris@.len() == es.len()) by {
        assert(uris@.map_values(|u: String| u@).len() == es.map_values(|e: EntryV| e.0).len());
    }
    let mut documents: usize = 0;
    let mut errors: usize = 0;
    let mut warnings: usize = 0;
    let mut k: usize = 0;
    while k < uris.len()
        invariant
            k <= uris@.len(),
            es == store@.entries,
            uris@.map_values(|u: String| u@) == es.map_values(|e: EntryV| e.0),
            uris@.len() == es.len(),
            documents == k,
            errors == clamp_usize(store_count(es.take(k as int), Severity::Error) as int),
            warnings == clamp_usize(store_count(es.take(k as int), Severity::Warning) as int),
        decreases uris@.len() - k,
    {
        assert(es.take(k + 1).drop_last() =~= es.take(k as int));
        assert(uris@[k as int]@ == es[k as int].0) by {
            assert(uris@.map_values(|u: String| u@)[k as int] == es.map_values(|e: EntryV| e.0)[k as int]);
        }
        let document = match store.peek(uris[k].as_str()) {
            Some(d) => d,
            None => {
                assert(es[k as int].0 == uris@[k as int]@);
                k = k + 1;
                continue;
            },
        };
        assert(es[k as int].1 == document@);
        documents = documents + 1;
        let ds = document.diagnostics();
        let ghost dv = document@.diagnostics;
        let mut i: usize = 0;
        let ghost errors_before = store_count(es.take(k as int), Severity::Error);
        let ghost warnings_before = store_count(es.take(k as int), Severity::Warning);
        while i < ds.len()
            invariant
                i <= ds@.len(),
                ds@.map_values(|d: crate::diagnostics::Diagnostic| d@) == dv,
                errors == clamp_usize((errors_before + severity_count(dv.take(i as int), Severity::Error)) as int),
                warnings == clamp_usize((warnings_before + severity_count(dv.take(i as int), Severity::Warning)) as int),
            decreases ds@.len() - i,
        {
            assert(dv.take(i + 1).drop_last() =~= dv.take(i as int));
            assert(dv[i as int] == ds@[i as int]@);
            match ds[i].severity {
                Severity::Error => errors = errors.saturating_add(1),
                Severity::Warning => warnings = warnings.saturating_add(1),
                Severity::Info => {},
            }
            i = i + 1;
        }
        assert(dv.take(i as int) =~= dv);
        k = k + 1;
    }
    assert(es.take(k as int) =~= es);
    let s = concat_strs(
        &[
            "checked ",
            decimal_string(documents as u64).as_str(),
            " open document(s): ",
            decimal_string(errors as u64).as_str(),
            " error(s), ",
            decimal_string(warnings as u64).as_str(),
            " warning(s)",
        ],
    );
    proof {
        reveal_with_fuel(joined, 8);
    }
    s
}

/// The diagram of the document open at `uri`.
fn diagram(store: &DocumentStore, uri: &str) -> (s: String)
    ensures
        s@ == diagram_of(store@.entries, uri@),
{
    match store.peek(uri) {
        Some(document) => {
            let ghost es = store@.entries;
            proof {
                let i = choose|i: int| 0 <= i < es.len() && es[i] == (uri@, document@);
                assert(crate::documents::has_uri(es, uri@));
                let j = crate::documents::uri_index(es, uri@);
                assert(es[j].0 == uri@);
            }
            match document.architecture() {
                Some(architecture) => Mermaid.render(architecture),
                None => owned("%% CASIMIR could not render: the document does not currently parse.\n"),
            }
        },
        None => owned("%% CASIMIR could not render: the document does not currently parse.\n"),
    }
}

/// Answers `command`, whose first argument is `uri`: the diagram of that
/// document, the summary of the workspace, or an error for a command that is
/// not offered.
pub fn execute_command(store: &DocumentStore, command: &str, uri: &str) -> (r: Result<String, String>)
    ensures
        match (r, command_response(store@.entries, command@, uri@)) {
            (Ok(s), Ok(t)) => s@ == t,
            (Err(s), Err(t)) => s@ == t,
            _ => false,
        },
{
    if str_eq(command, GENERATE_DIAGRAM) {
        Ok(diagram(store, uri))
    } else if str_eq(command, VALIDATE_WORKSPACE) {
        Ok(workspace_summary(store))
    } else {
        let message = concat_strs(&["casm-lsp: unknown command '", command, "'"]);
        proof {
            reveal_with_fuel(joined, 4);
        }
        Err(message)
    }
}

} // verus!
