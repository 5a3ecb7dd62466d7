//! The vocabulary of the architecture grammar: every key and enum value,
//! documented once, so that completion and hover cannot disagree.
use vstd::prelude::*;

use crate::chars::{concat_strs, joined, str_eq};
use crate::seqs::{first_match, lemma_first_match_is};

verus! {

/// One entry in the vocabulary.
#[derive(Clone, Copy, Debug, PartialEq, Eq)]
pub struct Term {
    /// The literal text inserted or matched.
    pub label: &'static str,
    /// A short right-hand annotation, shown inline in a completion list.
    pub detail: &'static str,
    /// The full explanation, shown on hover and in the expanded completion view.
    pub documentation: &'static str,
}

impl Term {
    /// Renders this term as Markdown for a hover tooltip:
    /// `**label** — _detail_`, a blank line, then the documentation.
    pub fn to_markdown(&self) -> (md: String)
        ensures
            md@ == "**"@ + self.label@ + "** — _"@ + self.detail@ + "_\n\n"@ + self.documentation@,
    {
        let parts = ["**", self.label, "** — _", self.detail, "_\n\n", self.documentation];
        let md = concat_strs(&parts);
        proof {
            reveal_with_fuel(joined, 7);
            let v = parts@.map_values(|p: &str| p@);
            assert(v.drop_last().drop_last().drop_last().drop_last().drop_last().drop_last()
                =~= Seq::<Seq<char>>::empty());
            assert(joined(v) =~= "**"@ + self.label@ + "** — _"@ + self.detail@ + "_\n\n"@
                + self.documentation@);
        }
        md
    }
}

/// Terms labelled `label`.
pub open spec fn labelled(label: Seq<char>) -> spec_fn(Term) -> bool {
    |t: Term| t.label@ == label
}

/// Looks up a term by its exact label.
pub fn find<'a>(terms: &'a [Term], label: &str) -> (r: Option<&'a Term>)
    ensures
        ({
            let k = first_match(terms@, labelled(label@));
            match r {
                Some(t) => k < terms@.len() && *t == terms@[k],
                None => k == terms@.len(),
            }
        }),
{
    let ghost p = labelled(label@);
    let mut i: usize = 0;
    while i < terms.len()
        invariant
            i <= terms.len(),
            p == labelled(label@),
            forall|j: int| 0 <= j < i ==> !p(#[trigger] terms@[j]),
        decreases terms.len() - i,
    {
        if str_eq(terms[i].label, label) {
            proof {
                lemma_first_match_is(terms@, p, i as int);
            }
            return Some(&terms[i]);
        }
        i = i + 1;
    }
    proof {
        lemma_first_match_is(terms@, p, i as int);
    }
    None
}

/// Keys valid at the top level of a document.
pub open spec fn root_keys_spec() -> Seq<Term> {
    seq![
    Term {
        label: "name",
        detail: "required",
        documentation: "The architecture's name. ASCII alphanumerics, `-`, `_`, and `.`, \
                        beginning with an alphanumeric.",
    },
    Term {
        label: "version",
        detail: "semver, defaults to 0.1.0",
        documentation: "The architecture's semantic version. Bump the major version when \
                        `casm diff` reports a breaking change.",
    },
    Term {
        label: "description",
        detail: "optional",
        documentation: "What this system does, in one sentence.",
    },
    Term {
        label: "nodes",
        detail: "sequence",
        documentation: "The participants in this architecture.",
    },
    Term {
        label: "relationships",
        detail: "sequence",
        documentation: "The directed edges between participants.",
    },
    Term {
        label: "patterns",
        detail: "sequence",
        documentation: "The patterns this architecture claims conformance to. A claim is \
                        checked, not stamped: see ADR-0012.",
    },
    Term {
        label: "metadata",
        detail: "mapping",
        documentation: "Arbitrary key/value annotations. Serialised in sorted key order.",
    },]
}

/// Keys valid at the top level of a document.
pub fn root_keys() -> (terms: &'static [Term])
    ensures
        terms@ == root_keys_spec(),
{
    let terms: &'static [Term] = &[
    Term {
        label: "name",
        detail: "required",
        documentation: "The architecture's name. ASCII alphanumerics, `-`, `_`, and `.`, \
                        beginning with an alphanumeric.",
    },
    Term {
        label: "version",
        detail: "semver, defaults to 0.1.0",
        documentation: "The architecture's semantic version. Bump the major version when \
                        `casm diff` reports a breaking change.",
    },
    Term {
        label: "description",
        detail: "optional",
        documentation: "What this system does, in one sentence.",
    },
    Term {
        label: "nodes",
        detail: "sequence",
        documentation: "The participants in this architecture.",
    },
    Term {
        label: "relationships",
        detail: "sequence",
        documentation: "The directed edges between participants.",
    },
    Term {
        label: "patterns",
        detail: "sequence",
        documentation: "The patterns this architecture claims conformance to. A claim is \
                        checked, not stamped: see ADR-0012.",
    },
    Term {
        label: "metadata",
        detail: "mapping",
        documentation: "Arbitrary key/value annotations. Serialised in sorted key order.",
    },];
    assert(terms@ =~= root_keys_spec());
    terms
}

/// Keys valid on a conformance claim.
pub open spec fn claim_keys_spec() -> Seq<Term> {
    seq![
    Term {
        label: "pattern",
        detail: "required, `name@version`",
        documentation: "The pattern being claimed, at an exact version. A claim naming a \
                        pattern the library does not hold is reported as unchecked, never \
                        assumed satisfied.",
    },
    Term {
        label: "bind",
        detail: "mapping, role to node",
        documentation: "Which node plays each role the pattern names. A role left unbound \
                        is inferred when exactly one node has the required type, and \
                        reported as ambiguous when several do.",
    },]
}

/// Keys valid on a conformance claim.
pub fn claim_keys() -> (terms: &'static [Term])
    ensures
        terms@ == claim_keys_spec(),
{
    let terms: &'static [Term] = &[
    Term {
        label: "pattern",
        detail: "required, `name@version`",
        documentation: "The pattern being claimed, at an exact version. A claim naming a \
                        pattern the library does not hold is reported as unchecked, never \
                        assumed satisfied.",
    },
    Term {
        label: "bind",
        detail: "mapping, role to node",
        documentation: "Which node plays each role the pattern names. A role left unbound \
                        is inferred when exactly one node has the required type, and \
                        reported as ambiguous when several do.",
    },];
    assert(terms@ =~= claim_keys_spec());
    terms
}

/// Keys valid on a node.
pub open spec fn node_keys_spec() -> Seq<Term> {
    seq![
    Term {
        label: "name",
        detail: "required, unique",
        documentation: "The node's name. Must be unique within the architecture — it is \
                        the handle relationships reference and diffs track.",
    },
    Term {
        label: "type",
        detail: "required",
        documentation: "The node's architectural role. Drives which validation rules apply.",
    },
    Term {
        label: "id",
        detail: "optional UUIDv7",
        documentation: "An explicit identifier. Generated when omitted. Pin it only when a \
                        reproducible build depends on it.",
    },
    Term {
        label: "description",
        detail: "optional",
        documentation: "What this node is responsible for.",
    },
    Term {
        label: "interfaces",
        detail: "sequence",
        documentation: "The protocol contracts this node exposes. A node called \
                        synchronously should declare the interface being called.",
    },
    Term {
        label: "controls",
        detail: "sequence",
        documentation: "The security, compliance, and operational constraints this node \
                        satisfies.",
    },
    Term {
        label: "metadata",
        detail: "mapping",
        documentation: "Arbitrary key/value annotations for this node.",
    },]
}

/// Keys valid on a node.
pub fn node_keys() -> (terms: &'static [Term])
    ensures
        terms@ == node_keys_spec(),
{
    let terms: &'static [Term] = &[
    Term {
        label: "name",
        detail: "required, unique",
        documentation: "The node's name. Must be unique within the architecture — it is \
                        the handle relationships reference and diffs track.",
    },
    Term {
        label: "type",
        detail: "required",
        documentation: "The node's architectural role. Drives which validation rules apply.",
    },
    Term {
        label: "id",
        detail: "optional UUIDv7",
        documentation: "An explicit identifier. Generated when omitted. Pin it only when a \
                        reproducible build depends on it.",
    },
    Term {
        label: "description",
        detail: "optional",
        documentation: "What this node is responsible for.",
    },
    Term {
        label: "interfaces",
        detail: "sequence",
        documentation: "The protocol contracts this node exposes. A node called \
                        synchronously should declare the interface being called.",
    },
    Term {
        label: "controls",
        detail: "sequence",
        documentation: "The security, compliance, and operational constraints this node \
                        satisfies.",
    },
    Term {
        label: "metadata",
        detail: "mapping",
        documentation: "Arbitrary key/value annotations for this node.",
    },];
    assert(terms@ =~= node_keys_spec());
    terms
}

/// Keys valid on a relationship.
pub open spec fn relationship_keys_spec() -> Seq<Term> {
    seq![
    Term {
        label: "source",
        detail: "required",
        documentation: "The originating node, by name or by id.",
    },
    Term {
        label: "target",
        detail: "required",
        documentation: "The receiving node, by name or by id.",
    },
    Term {
        label: "type",
        detail: "required",
        documentation: "The edge semantics. Determines whether this edge participates in \
                        cycle detection and latency budgeting.",
    },
    Term {
        label: "protocol",
        detail: "optional",
        documentation: "The wire protocol carrying this relationship.",
    },
    Term {
        label: "description",
        detail: "optional",
        documentation: "What flows across this edge.",
    },
    Term {
        label: "latency-budget-ms",
        detail: "optional, 1..=86400000",
        documentation: "The single-hop latency budget in milliseconds. Budgets are summed \
                        along blocking paths to check an end-to-end SLO is achievable.",
    },
    Term {
        label: "controls",
        detail: "sequence",
        documentation: "Constraints governing this edge, such as mutual TLS. Required on \
                        edges crossing the trust boundary.",
    },]
}

/// Keys valid on a relationship.
pub fn relationship_keys() -> (terms: &'static [Term])
    ensures
        terms@ == relationship_keys_spec(),
{
    let terms: &'static [Term] = &[
    Term {
        label: "source",
        detail: "required",
        documentation: "The originating node, by name or by id.",
    },
    Term {
        label: "target",
        detail: "required",
        documentation: "The receiving node, by name or by id.",
    },
    Term {
        label: "type",
        detail: "required",
        documentation: "The edge semantics. Determines whether this edge participates in \
                        cycle detection and latency budgeting.",
    },
    Term {
        label: "protocol",
        detail: "optional",
        documentation: "The wire protocol carrying this relationship.",
    },
    Term {
        label: "description",
        detail: "optional",
        documentation: "What flows across this edge.",
    },
    Term {
        label: "latency-budget-ms",
        detail: "optional, 1..=86400000",
        documentation: "The single-hop latency budget in milliseconds. Budgets are summed \
                        along blocking paths to check an end-to-end SLO is achievable.",
    },
    Term {
        label: "controls",
        detail: "sequence",
        documentation: "Constraints governing this edge, such as mutual TLS. Required on \
                        edges crossing the trust boundary.",
    },];
    assert(terms@ =~= relationship_keys_spec());
    terms
}

/// Keys valid on an interface.
pub open spec fn interface_keys_spec() -> Seq<Term> {
    seq![
    Term {
        label: "name",
        detail: "required, unique per node",
        documentation: "The interface's name. Must be unique within its node.",
    },
    Term {
        label: "protocol",
        detail: "required",
        documentation: "The wire protocol this interface speaks.",
    },
    Term {
        label: "version",
        detail: "semver",
        documentation: "The contract's semantic version. Consumers are checked for \
                        major-version compatibility.",
    },
    Term {
        label: "schema",
        detail: "optional",
        documentation: "Inline contract text, hashed with SHA3-256 at parse time. Mutually \
                        exclusive with `schema-hash`.",
    },
    Term {
        label: "schema-hash",
        detail: "optional, 64 hex chars",
        documentation: "A pinned SHA3-256 contract digest. If the schema changes by one \
                        byte, validation fails loudly instead of drifting silently.",
    },
    Term {
        label: "description",
        detail: "optional",
        documentation: "What this interface exposes.",
    },]
}

/// Keys valid on an interface.
pub fn interface_keys() -> (terms: &'static [Term])
    ensures
        terms@ == interface_keys_spec(),
{
    let terms: &'static [Term] = &[
    Term {
        label: "name",
        detail: "required, unique per node",
        documentation: "The interface's name. Must be unique within its node.",
    },
    Term {
        label: "protocol",
        detail: "required",
        documentation: "The wire protocol this interface speaks.",
    },
    Term {
        label: "version",
        detail: "semver",
        documentation: "The contract's semantic version. Consumers are checked for \
                        major-version compatibility.",
    },
    Term {
        label: "schema",
        detail: "optional",
        documentation: "Inline contract text, hashed with SHA3-256 at parse time. Mutually \
                        exclusive with `schema-hash`.",
    },
    Term {
        label: "schema-hash",
        detail: "optional, 64 hex chars",
        documentation: "A pinned SHA3-256 contract digest. If the schema changes by one \
                        byte, validation fails loudly instead of drifting silently.",
    },
    Term {
        label: "description",
        detail: "optional",
        documentation: "What this interface exposes.",
    },];
    assert(terms@ =~= interface_keys_spec());
    terms
}

/// Keys valid on a control.
pub open spec fn control_keys_spec() -> Seq<Term> {
    seq![
    Term {
        label: "type",
        detail: "required",
        documentation: "The dimension of risk this control addresses.",
    },
    Term {
        label: "standard",
        detail: "required",
        documentation: "The external standard identifier, for example `ISO27001-A.12.4`.",
    },
    Term {
        label: "description",
        detail: "required",
        documentation: "What this control actually asserts. A control with no description \
                        is indistinguishable from compliance theatre.",
    },
    Term {
        label: "evidence-required",
        detail: "boolean, defaults to false",
        documentation: "Whether an auditor must be shown evidence for this control.",
    },
    Term {
        label: "tags",
        detail: "sequence of strings",
        documentation: "Free-form tags used by policy rules for selection.",
    },]
}

/// Keys valid on a control.
pub fn control_keys() -> (terms: &'static [Term])
    ensures
        terms@ == control_keys_spec(),
{
    let terms: &'static [Term] = &[
    Term {
        label: "type",
        detail: "required",
        documentation: "The dimension of risk this control addresses.",
    },
    Term {
        label: "standard",
        detail: "required",
        documentation: "The external standard identifier, for example `ISO27001-A.12.4`.",
    },
    Term {
        label: "description",
        detail: "required",
        documentation: "What this control actually asserts. A control with no description \
                        is indistinguishable from compliance theatre.",
    },
    Term {
        label: "evidence-required",
        detail: "boolean, defaults to false",
        documentation: "Whether an auditor must be shown evidence for this control.",
    },
    Term {
        label: "tags",
        detail: "sequence of strings",
        documentation: "Free-form tags used by policy rules for selection.",
    },];
    assert(terms@ =~= control_keys_spec());
    terms
}

/// Every valid `type:` value for a node.
pub open spec fn node_types_spec() -> Seq<Term> {
    seq![
    Term {
        label: "service",
        detail: "stateless",
        documentation: "A deployable unit of business logic. Must declare at least two \
                        security controls.",
    },
    Term {
        label: "database",
        detail: "stateful",
        documentation: "A persistent data store. Must declare at least one control, and \
                        must not be reachable directly from outside the trust boundary.",
    },
    Term {
        label: "queue",
        detail: "stateful",
        documentation: "A message broker or queue.",
    },
    Term {
        label: "cache",
        detail: "stateful",
        documentation: "An in-memory cache.",
    },
    Term {
        label: "gateway",
        detail: "stateless",
        documentation: "An edge component routing traffic inward. Held to the same control \
                        requirements as a service.",
    },
    Term {
        label: "storage",
        detail: "stateful",
        documentation: "Object or block storage.",
    },
    Term {
        label: "external-system",
        detail: "outside the boundary",
        documentation: "A system outside this architecture's control. Edges to and from it \
                        must declare controls.",
    },
    Term {
        label: "legacy",
        detail: "inside the boundary",
        documentation: "A system that predates the current architecture and constrains it. \
                        Still ours, however unwelcome.",
    },
    Term {
        label: "human",
        detail: "outside the boundary",
        documentation: "A human actor or team in the flow.",
    },
    Term {
        label: "boundary",
        detail: "grouping",
        documentation: "A logical grouping of other nodes.",
    },]
}

/// Every valid `type:` value for a node.
pub fn node_types() -> (terms: &'static [Term])
    ensures
        terms@ == node_types_spec(),
{
    let terms: &'static [Term] = &[
    Term {
        label: "service",
        detail: "stateless",
        documentation: "A deployable unit of business logic. Must declare at least two \
                        security controls.",
    },
    Term {
        label: "database",
        detail: "stateful",
        documentation: "A persistent data store. Must declare at least one control, and \
                        must not be reachable directly from outside the trust boundary.",
    },
    Term {
        label: "queue",
        detail: "stateful",
        documentation: "A message broker or queue.",
    },
    Term {
        label: "cache",
        detail: "stateful",
        documentation: "An in-memory cache.",
    },
    Term {
        label: "gateway",
        detail: "stateless",
        documentation: "An edge component routing traffic inward. Held to the same control \
                        requirements as a service.",
    },
    Term {
        label: "storage",
        detail: "stateful",
        documentation: "Object or block storage.",
    },
    Term {
        label: "external-system",
        detail: "outside the boundary",
        documentation: "A system outside this architecture's control. Edges to and from it \
                        must declare controls.",
    },
    Term {
        label: "legacy",
        detail: "inside the boundary",
        documentation: "A system that predates the current architecture and constrains it. \
                        Still ours, however unwelcome.",
    },
    Term {
        label: "human",
        detail: "outside the boundary",
        documentation: "A human actor or team in the flow.",
    },
    Term {
        label: "boundary",
        detail: "grouping",
        documentation: "A logical grouping of other nodes.",
    },];
    assert(terms@ =~= node_types_spec());
    terms
}

/// Every valid `type:` value for a relationship.
pub open spec fn relationship_types_spec() -> Seq<Term> {
    seq![
    Term {
        label: "sync",
        detail: "blocking",
        documentation: "The source blocks awaiting the target's response. Participates in \
                        cycle detection and accumulates latency.",
    },
    Term {
        label: "async",
        detail: "non-blocking",
        documentation: "The source dispatches and continues. Excluded from cycle detection \
                        and from the critical path.",
    },
    Term {
        label: "event-driven",
        detail: "non-blocking",
        documentation: "The source publishes an event the target consumes; neither knows \
                        the other. A pub/sub loop is a valid topology, not a cycle.",
    },
    Term {
        label: "depends-on",
        detail: "blocking",
        documentation: "The source cannot function at all without the target.",
    },
    Term {
        label: "composed",
        detail: "blocking",
        documentation: "The target is a constituent part of the source.",
    },
    Term {
        label: "deployed-on",
        detail: "non-blocking",
        documentation: "The source deploys onto or runs within the target.",
    },
    Term {
        label: "quantum-entangled",
        detail: "blocking, symmetric invalidation",
        documentation: "Semantic coupling: a contract change at either end invalidates the \
                        other. Directed in topology, symmetric in invalidation.",
    },]
}

/// Every valid `type:` value for a relationship.
pub fn relationship_types() -> (terms: &'static [Term])
    ensures
        terms@ == relationship_types_spec(),
{
    let terms: &'static [Term] = &[
    Term {
        label: "sync",
        detail: "blocking",
        documentation: "The source blocks awaiting the target's response. Participates in \
                        cycle detection and accumulates latency.",
    },
    Term {
        label: "async",
        detail: "non-blocking",
        documentation: "The source dispatches and continues. Excluded from cycle detection \
                        and from the critical path.",
    },
    Term {
        label: "event-driven",
        detail: "non-blocking",
        documentation: "The source publishes an event the target consumes; neither knows \
                        the other. A pub/sub loop is a valid topology, not a cycle.",
    },
    Term {
        label: "depends-on",
        detail: "blocking",
        documentation: "The source cannot function at all without the target.",
    },
    Term {
        label: "composed",
        detail: "blocking",
        documentation: "The target is a constituent part of the source.",
    },
    Term {
        label: "deployed-on",
        detail: "non-blocking",
        documentation: "The source deploys onto or runs within the target.",
    },
    Term {
        label: "quantum-entangled",
        detail: "blocking, symmetric invalidation",
        documentation: "Semantic coupling: a contract change at either end invalidates the \
                        other. Directed in topology, symmetric in invalidation.",
    },];
    assert(terms@ =~= relationship_types_spec());
    terms
}

/// Every valid `protocol:` value.
pub open spec fn protocols_spec() -> Seq<Term> {
    seq![
    Term {
        label: "http1.1",
        detail: "synchronous",
        documentation: "HTTP/1.1. One in-flight request per connection, so concurrency \
                        costs connections. Also accepted as `http` or `http11`.",
    },
    Term {
        label: "http2",
        detail: "synchronous",
        documentation: "HTTP/2. Multiplexes concurrent streams over one connection, but a \
                        single lost packet stalls every stream on it.",
    },
    Term {
        label: "http3",
        detail: "synchronous",
        documentation: "HTTP/3 over QUIC. Multiplexed like HTTP/2 without the shared \
                        head-of-line blocking, at the cost of UDP reachability.",
    },
    Term {
        label: "grpc",
        detail: "synchronous",
        documentation: "gRPC over HTTP/2. Schema-first with generated stubs, which makes \
                        the interface version genuinely checkable.",
    },
    Term {
        label: "kafka",
        detail: "asynchronous",
        documentation: "Apache Kafka. A durable, replayable partitioned log — consumers \
                        may lag without the producer knowing or blocking.",
    },
    Term {
        label: "amqp",
        detail: "asynchronous",
        documentation: "AMQP 0-9-1 or 1.0. Broker-routed messaging with acknowledgement \
                        and delivery guarantees.",
    },
    Term {
        label: "mqtt",
        detail: "asynchronous",
        documentation: "MQTT. Lightweight publish/subscribe for constrained devices and \
                        unreliable links.",
    },
    Term {
        label: "graphql",
        detail: "synchronous",
        documentation: "GraphQL over HTTP. The client shapes the response, so one endpoint \
                        can carry widely varying cost per request.",
    },
    Term {
        label: "websocket",
        detail: "asynchronous",
        documentation: "WebSocket. A long-lived bidirectional channel; either side may send \
                        without the other having asked.",
    },
    Term {
        label: "tcp",
        detail: "synchronous",
        documentation: "A raw TCP or UDP socket protocol with no application framing that \
                        CASM models.",
    },
    Term {
        label: "sql",
        detail: "synchronous",
        documentation: "A SQL wire protocol such as PostgreSQL or MySQL. Version the \
                        interface so callers know which server major they depend on.",
    },]
}

/// Every valid `protocol:` value.
pub fn protocols() -> (terms: &'static [Term])
    ensures
        terms@ == protocols_spec(),
{
    let terms: &'static [Term] = &[
    Term {
        label: "http1.1",
        detail: "synchronous",
        documentation: "HTTP/1.1. One in-flight request per connection, so concurrency \
                        costs connections. Also accepted as `http` or `http11`.",
    },
    Term {
        label: "http2",
        detail: "synchronous",
        documentation: "HTTP/2. Multiplexes concurrent streams over one connection, but a \
                        single lost packet stalls every stream on it.",
    },
    Term {
        label: "http3",
        detail: "synchronous",
        documentation: "HTTP/3 over QUIC. Multiplexed like HTTP/2 without the shared \
                        head-of-line blocking, at the cost of UDP reachability.",
    },
    Term {
        label: "grpc",
        detail: "synchronous",
        documentation: "gRPC over HTTP/2. Schema-first with generated stubs, which makes \
                        the interface version genuinely checkable.",
    },
    Term {
        label: "kafka",
        detail: "asynchronous",
        documentation: "Apache Kafka. A durable, replayable partitioned log — consumers \
                        may lag without the producer knowing or blocking.",
    },
    Term {
        label: "amqp",
        detail: "asynchronous",
        documentation: "AMQP 0-9-1 or 1.0. Broker-routed messaging with acknowledgement \
                        and delivery guarantees.",
    },
    Term {
        label: "mqtt",
        detail: "asynchronous",
        documentation: "MQTT. Lightweight publish/subscribe for constrained devices and \
                        unreliable links.",
    },
    Term {
        label: "graphql",
        detail: "synchronous",
        documentation: "GraphQL over HTTP. The client shapes the response, so one endpoint \
                        can carry widely varying cost per request.",
    },
    Term {
        label: "websocket",
        detail: "asynchronous",
        documentation: "WebSocket. A long-lived bidirectional channel; either side may send \
                        without the other having asked.",
    },
    Term {
        label: "tcp",
        detail: "synchronous",
        documentation: "A raw TCP or UDP socket protocol with no application framing that \
                        CASM models.",
    },
    Term {
        label: "sql",
        detail: "synchronous",
        documentation: "A SQL wire protocol such as PostgreSQL or MySQL. Version the \
                        interface so callers know which server major they depend on.",
    },];
    assert(terms@ =~= protocols_spec());
    terms
}

/// Every valid `type:` value for a control.
pub open spec fn control_types_spec() -> Seq<Term> {
    seq![
    Term {
        label: "security",
        detail: "risk",
        documentation: "Protects confidentiality, integrity, or availability.",
    },
    Term {
        label: "compliance",
        detail: "auditable",
        documentation: "Satisfies an external regulatory or certification obligation.",
    },
    Term {
        label: "operational",
        detail: "risk",
        documentation: "Governs runtime behaviour: rate limits, retries, failover, capacity.",
    },
    Term {
        label: "data-governance",
        detail: "auditable",
        documentation: "Governs data handling: retention, residency, classification.",
    },]
}

/// Every valid `type:` value for a control.
pub fn control_types() -> (terms: &'static [Term])
    ensures
        terms@ == control_types_spec(),
{
    let terms: &'static [Term] = &[
    Term {
        label: "security",
        detail: "risk",
        documentation: "Protects confidentiality, integrity, or availability.",
    },
    Term {
        label: "compliance",
        detail: "auditable",
        documentation: "Satisfies an external regulatory or certification obligation.",
    },
    Term {
        label: "operational",
        detail: "risk",
        documentation: "Governs runtime behaviour: rate limits, retries, failover, capacity.",
    },
    Term {
        label: "data-governance",
        detail: "auditable",
        documentation: "Governs data handling: retention, residency, classification.",
    },];
    assert(terms@ =~= control_types_spec());
    terms
}

} // verus!
