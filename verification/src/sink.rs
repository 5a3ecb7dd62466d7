//! How telemetry is rendered on the way out, once, at the end of a run.
use vstd::prelude::*;

use crate::chars::{concat_strs, joined};
use crate::fmt::{decimal, decimal_string};
use crate::recorder::{sat_add, Dropped};
use crate::words::is_word;

verus! {

/// How to render telemetry on the way out.
#[derive(Clone, Copy, Debug, Default, PartialEq, Eq, Structural)]
pub enum Format {
    /// One JSON object per line: spans, then events, then metrics.
    #[default]
    JsonLines,
    /// A single OTLP/HTTP JSON document carrying all three signals.
    Otlp,
    /// A short human summary: how long each operation took.
    Summary,
}

/// The format a command-line name selects.
pub open spec fn format_named(name: Seq<char>) -> Option<Format> {
    if name == "json"@ || name == "jsonl"@ || name == "json-lines"@ {
        Some(Format::JsonLines)
    } else if name == "otlp"@ {
        Some(Format::Otlp)
    } else if name == "summary"@ {
        Some(Format::Summary)
    } else {
        None
    }
}

impl Format {
    /// Parses a format name, as a command-line flag would give it.
    pub fn parse(name: &str) -> (f: Option<Format>)
        ensures
            f == format_named(name@),
    {
        let cs = crate::chars::chars_of(name);
        if is_word(cs.as_slice(), "json") || is_word(cs.as_slice(), "jsonl") || is_word(
            cs.as_slice(),
            "json-lines",
        ) {
            Some(Format::JsonLines)
        } else if is_word(cs.as_slice(), "otlp") {
            Some(Format::Otlp)
        } else if is_word(cs.as_slice(), "summary") {
            Some(Format::Summary)
        } else {
            None
        }
    }

    /// Every accepted name, for an error message that lists the alternatives.
    pub fn names() -> (r: &'static [&'static str])
        ensures
            r@.len() == 3,
            r@[0]@ == "json"@,
            r@[1]@ == "otlp"@,
            r@[2]@ == "summary"@,
    {
        &["json", "otlp", "summary"]
    }
}

/// The notice reporting discarded records, so a truncated run never looks
/// like a complete one.
pub open spec fn dropped_text(d: Dropped) -> Seq<char> {
    decimal(sat_add(sat_add(d.spans, d.events), d.metrics) as nat)
        + " telemetry record(s) were dropped at the retention ceiling ("@ + decimal(d.spans as nat)
        + " span(s), "@ + decimal(d.events as nat) + " event(s), "@ + decimal(d.metrics as nat)
        + " metric series)"@
}

/// The notice for discarded records, or `None` when nothing was discarded.
pub fn dropped_notice(dropped: &Dropped) -> (r: Option<String>)
    ensures
        match r {
            Some(s) => !(dropped.spans == 0 && dropped.events == 0 && dropped.metrics == 0)
                && s@ == dropped_text(*dropped),
            None => dropped.spans == 0 && dropped.events == 0 && dropped.metrics == 0,
        },
{
    if dropped.is_none() {
        return None;
    }
    let total = decimal_string(dropped.total() as u64);
    let spans = decimal_string(dropped.spans as u64);
    let events = decimal_string(dropped.events as u64);
    let metrics = decimal_string(dropped.metrics as u64);
    let s = concat_strs(
        &[
            total.as_str(),
            " telemetry record(s) were dropped at the retention ceiling (",
            spans.as_str(),
            " span(s), ",
            events.as_str(),
            " event(s), ",
            metrics.as_str(),
            " metric series)",
        ],
    );
    proof {
        reveal_with_fuel(joined, 9);
    }
    Some(s)
}

} // verus!
