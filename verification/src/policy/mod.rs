//! Deterministic local policy restrictions for daemon write requests.
//!
//! A local allow is never protocol authorisation: every explanation says so in its
//! authority statement.
use vstd::prelude::*;

use crate::bytes::{push_all, text_bytes};
use crate::text::{decimal_bytes, push_decimal_bytes};

pub mod approval;
mod eval;
mod registry;
mod source;
mod types;

pub use eval::{
    admits, constraints_admit, evaluate, evaluation, lemma_allow_needs_permit,
    lemma_matching_deny_denies, lemma_visiting_order_exists, lemma_visiting_order_unique,
    rule_order, valid_context, visiting_order, EvaluationInput, PolicyCapability, PolicySession,
    PolicySet, Rule, RuleConstraints, Selection,
};
pub use registry::{
    activate, dry_run, policy_fault, validate, DryRunResult, PolicyRegistry, PolicySnapshot,
    ValidationFault,
};
pub use source::{
    load_policy_source, source_outcome, SourceFault, SourceState, MAX_POLICY_LINE_BYTES,
    MAX_POLICY_RULES, MAX_POLICY_SOURCE_BYTES,
};
pub use types::{
    Activation, EvaluationFailure, PolicyAuditEntry, PolicyRequest, PolicySourceError,
    PolicyValidationError, RuleEffect, SequenceWindow,
};

verus! {

/// Authority statement attached to every local allow.
pub const LOCAL_ALLOW_NOTICE: &'static str =
    "local policy has no objection; this is a local restriction result, not protocol authorisation";

/// Authority statement attached to every local denial.
pub const LOCAL_DENY_NOTICE: &'static str =
    "local policy restriction refused the request; protocol authorisation was not evaluated";

/// The local policy outcome. An allow is never protocol authorisation.
#[derive(Clone, Copy, Debug, PartialEq, Eq, Structural)]
pub enum Outcome {
    Allow,
    Deny,
}

/// Stable reason for the final policy result.
#[derive(Clone, Copy, Debug, PartialEq, Eq, Structural)]
pub enum DecisionReason {
    PermittedByRule,
    ExplicitDeny,
    ApprovalRequired,
    NoPermittingRule,
    InvalidContext,
    EvaluationFailure,
}

/// Whether an explanation was produced for live or dry-run evaluation.
#[derive(Clone, Copy, Debug, PartialEq, Eq, Structural)]
pub enum EvaluationMode {
    Live,
    DryRun,
}

/// The texts held by a vector of strings.
pub open spec fn texts(v: Seq<String>) -> Seq<Seq<char>> {
    v.map_values(|s: String| s@)
}

/// The text held by an optional string.
pub open spec fn opt_text(v: Option<String>) -> Option<Seq<char>> {
    match v {
        Some(s) => Some(s@),
        None => None,
    }
}

/// Copies a vector of strings, text for text.
pub fn clone_texts(v: &Vec<String>) -> (r: Vec<String>)
    ensures
        texts(r@) == texts(v@),
{
    let mut out: Vec<String> = Vec::new();
    let mut i: usize = 0;
    while i < v.len()
        invariant
            i <= v.len(),
            texts(out@) == texts(v@.take(i as int)),
        decreases v.len() - i,
    {
        out.push(v[i].clone());
        assert(texts(v@.take(i + 1)) =~= texts(v@.take(i as int)).push(v@[i as int]@));
        i = i + 1;
    }
    assert(v@.take(i as int) =~= v@);
    out
}

/// Copies an optional string.
pub fn clone_opt_text(v: &Option<String>) -> (r: Option<String>)
    ensures
        opt_text(r) == opt_text(*v),
{
    match v {
        Some(s) => Some(s.clone()),
        None => None,
    }
}

/// What a decision states, as plain values.
pub struct DecisionView {
    pub outcome: Outcome,
    pub policy_version: Seq<char>,
    pub matched_rules: Seq<Seq<char>>,
    pub deciding_rule: Option<Seq<char>>,
    pub reason: DecisionReason,
}

/// Complete deterministic policy decision, including the loaded version.
#[derive(Debug, PartialEq, Eq)]
pub struct Decision {
    pub outcome: Outcome,
    pub policy_version: String,
    pub matched_rules: Vec<String>,
    pub deciding_rule: Option<String>,
    pub reason: DecisionReason,
}

impl View for Decision {
    type V = DecisionView;

    open spec fn view(&self) -> DecisionView {
        DecisionView {
            outcome: self.outcome,
            policy_version: self.policy_version@,
            matched_rules: texts(self.matched_rules@),
            deciding_rule: opt_text(self.deciding_rule),
            reason: self.reason,
        }
    }
}

impl Clone for Decision {
    fn clone(&self) -> (r: Self)
        ensures
            r@ == self@,
    {
        Decision {
            outcome: self.outcome,
            policy_version: self.policy_version.clone(),
            matched_rules: clone_texts(&self.matched_rules),
            deciding_rule: clone_opt_text(&self.deciding_rule),
            reason: self.reason,
        }
    }
}

impl Decision {
    /// A denial that matched nothing, for the given version and reason.
    pub fn deny(policy_version: &str, reason: DecisionReason) -> (r: Self)
        ensures
            r@ == (DecisionView {
                outcome: Outcome::Deny,
                policy_version: policy_version@,
                matched_rules: Seq::empty(),
                deciding_rule: None,
                reason,
            }),
    {
        let r = Decision {
            outcome: Outcome::Deny,
            policy_version: policy_version.to_owned(),
            matched_rules: Vec::new(),
            deciding_rule: None,
            reason,
        };
        assert(texts(r.matched_rules@) =~= Seq::empty());
        r
    }
}

/// What an explanation states, as plain values.
pub struct ExplanationView {
    pub schema_version: u16,
    pub mode: EvaluationMode,
    pub outcome: Outcome,
    pub policy_version: Seq<char>,
    pub matched_rules: Seq<Seq<char>>,
    pub deciding_rule: Option<Seq<char>>,
    pub reason: DecisionReason,
    pub authority_statement: Seq<char>,
}

/// Stable, machine-readable explanation of one policy decision.
#[derive(Debug, PartialEq, Eq)]
pub struct Explanation {
    pub schema_version: u16,
    pub mode: EvaluationMode,
    pub outcome: Outcome,
    pub policy_version: String,
    pub matched_rules: Vec<String>,
    pub deciding_rule: Option<String>,
    pub reason: DecisionReason,
    pub authority_statement: &'static str,
}

impl View for Explanation {
    type V = ExplanationView;

    open spec fn view(&self) -> ExplanationView {
        ExplanationView {
            schema_version: self.schema_version,
            mode: self.mode,
            outcome: self.outcome,
            policy_version: self.policy_version@,
            matched_rules: texts(self.matched_rules@),
            deciding_rule: opt_text(self.deciding_rule),
            reason: self.reason,
            authority_statement: self.authority_statement@,
        }
    }
}

/// The authority statement that accompanies an outcome.
pub open spec fn notice(outcome: Outcome) -> Seq<char> {
    match outcome {
        Outcome::Allow => LOCAL_ALLOW_NOTICE@,
        Outcome::Deny => LOCAL_DENY_NOTICE@,
    }
}

/// The explanation of a decision: schema 1, the mode, every field of the decision, and the
/// authority statement of its outcome.
pub open spec fn explained(d: DecisionView, mode: EvaluationMode) -> ExplanationView {
    ExplanationView {
        schema_version: 1,
        mode,
        outcome: d.outcome,
        policy_version: d.policy_version,
        matched_rules: d.matched_rules,
        deciding_rule: d.deciding_rule,
        reason: d.reason,
        authority_statement: notice(d.outcome),
    }
}

/// Builds the stable explanation of a live or dry-run decision.
pub fn explain(decision: &Decision, mode: EvaluationMode) -> (r: Explanation)
    ensures
        r@ == explained(decision@, mode),
{
    let authority_statement = match decision.outcome {
        Outcome::Allow => LOCAL_ALLOW_NOTICE,
        Outcome::Deny => LOCAL_DENY_NOTICE,
    };
    Explanation {
        schema_version: 1,
        mode,
        outcome: decision.outcome,
        policy_version: decision.policy_version.clone(),
        matched_rules: clone_texts(&decision.matched_rules),
        deciding_rule: clone_opt_text(&decision.deciding_rule),
        reason: decision.reason,
        authority_statement,
    }
}

/// One record line: `key=<decimal byte length of value>:<value>` and a newline.
pub open spec fn line(key: Seq<u8>, value: Seq<u8>) -> Seq<u8> {
    key + seq![61u8] + decimal_bytes(value.len()) + seq![58u8] + value + seq![10u8]
}

/// The name of an evaluation mode in explanation records.
pub open spec fn mode_name(mode: EvaluationMode) -> Seq<char> {
    match mode {
        EvaluationMode::Live => "live"@,
        EvaluationMode::DryRun => "dry_run"@,
    }
}

/// The name of an outcome in explanation records.
pub open spec fn outcome_name(outcome: Outcome) -> Seq<char> {
    match outcome {
        Outcome::Allow => "allow"@,
        Outcome::Deny => "deny"@,
    }
}

/// The name of a decision reason in explanation records.
pub open spec fn reason_name(reason: DecisionReason) -> Seq<char> {
    match reason {
        DecisionReason::PermittedByRule => "permitted_by_rule"@,
        DecisionReason::ExplicitDeny => "explicit_deny"@,
        DecisionReason::ApprovalRequired => "approval_required"@,
        DecisionReason::NoPermittingRule => "no_permitting_rule"@,
        DecisionReason::InvalidContext => "invalid_context"@,
        DecisionReason::EvaluationFailure => "evaluation_failure"@,
    }
}

/// One `matched_<index>` line per matched rule, in order.
pub open spec fn matched_lines(rules: Seq<Seq<char>>) -> Seq<u8>
    decreases rules.len(),
{
    if rules.len() == 0 {
        Seq::empty()
    } else {
        matched_lines(rules.drop_last()) + line(
            text_bytes("matched_"@) + decimal_bytes((rules.len() - 1) as nat),
            text_bytes(rules.last()),
        )
    }
}

/// The deciding rule's text, empty when there is none.
pub open spec fn deciding_text(rule: Option<Seq<char>>) -> Seq<char> {
    match rule {
        Some(r) => r,
        None => Seq::empty(),
    }
}

/// The deterministic record of an explanation: schema, mode, outcome, policy version,
/// matched count, one line per matched rule, deciding rule, reason and authority
/// statement, in that order.
pub open spec fn explanation_bytes(e: ExplanationView) -> Seq<u8> {
    line(text_bytes("schema"@), decimal_bytes(e.schema_version as nat))
        + line(text_bytes("mode"@), text_bytes(mode_name(e.mode)))
        + line(text_bytes("outcome"@), text_bytes(outcome_name(e.outcome)))
        + line(text_bytes("policy_version"@), text_bytes(e.policy_version))
        + line(text_bytes("matched_count"@), decimal_bytes(e.matched_rules.len()))
        + matched_lines(e.matched_rules)
        + line(text_bytes("deciding_rule"@), text_bytes(deciding_text(e.deciding_rule)))
        + line(text_bytes("reason"@), text_bytes(reason_name(e.reason)))
        + line(text_bytes("authority_statement"@), text_bytes(e.authority_statement))
}

fn push_line(output: &mut Vec<u8>, key: &[u8], value: &[u8])
    ensures
        final(output)@ == old(output)@ + line(key@, value@),
{
    push_all(output, key);
    output.push(61u8);
    push_decimal_bytes(output, value.len() as u64);
    output.push(58u8);
    push_all(output, value);
    output.push(10u8);
    assert(final(output)@ =~= old(output)@ + line(key@, value@));
}

fn decimal_vec(n: u64) -> (r: Vec<u8>)
    ensures
        r@ == decimal_bytes(n as nat),
{
    let mut out: Vec<u8> = Vec::new();
    push_decimal_bytes(&mut out, n);
    assert(out@ =~= decimal_bytes(n as nat));
    out
}

fn mode_text(mode: EvaluationMode) -> (r: &'static str)
    ensures
        r@ == mode_name(mode),
{
    match mode {
        EvaluationMode::Live => "live",
        EvaluationMode::DryRun => "dry_run",
    }
}

fn outcome_text(outcome: Outcome) -> (r: &'static str)
    ensures
        r@ == outcome_name(outcome),
{
    match outcome {
        Outcome::Allow => "allow",
        Outcome::Deny => "deny",
    }
}

fn reason_text(reason: DecisionReason) -> (r: &'static str)
    ensures
        r@ == reason_name(reason),
{
    match reason {
        DecisionReason::PermittedByRule => "permitted_by_rule",
        DecisionReason::ExplicitDeny => "explicit_deny",
        DecisionReason::ApprovalRequired => "approval_required",
        DecisionReason::NoPermittingRule => "no_permitting_rule",
        DecisionReason::InvalidContext => "invalid_context",
        DecisionReason::EvaluationFailure => "evaluation_failure",
    }
}

fn push_matched_lines(output: &mut Vec<u8>, rules: &Vec<String>)
    ensures
        final(output)@ == old(output)@ + matched_lines(texts(rules@)),
{
    let mut i: usize = 0;
    while i < rules.len()
        invariant
            i <= rules.len(),
            output@ == old(output)@ + matched_lines(texts(rules@.take(i as int))),
        decreases rules.len() - i,
    {
        let mut key: Vec<u8> = Vec::new();
        push_all(&mut key, "matched_".as_bytes());
        push_decimal_bytes(&mut key, i as u64);
        push_line(output, key.as_slice(), rules[i].as_str().as_bytes());
        proof {
            let before = texts(rules@.take(i as int));
            let after = texts(rules@.take(i + 1));
            assert(after =~= before.push(rules@[i as int]@));
            assert(after.drop_last() =~= before);
            assert(after.last() == rules@[i as int]@);
            assert(old(output)@ + matched_lines(after) =~= old(output)@ + matched_lines(before)
                + line(text_bytes("matched_"@) + decimal_bytes(i as nat), text_bytes(rules@[i as int]@)));
        }
        i = i + 1;
    }
    assert(rules@.take(i as int) =~= rules@);
}

impl Explanation {
    /// Encodes a deterministic length-delimited record suitable for audit diffs.
    pub fn machine_bytes(&self) -> (r: Vec<u8>)
        ensures
            r@ == explanation_bytes(self@),
    {
        let mut output: Vec<u8> = Vec::new();
        let schema = decimal_vec(self.schema_version as u64);
        push_line(&mut output, "schema".as_bytes(), schema.as_slice());
        push_line(&mut output, "mode".as_bytes(), mode_text(self.mode).as_bytes());
        push_line(&mut output, "outcome".as_bytes(), outcome_text(self.outcome).as_bytes());
        push_line(&mut output, "policy_version".as_bytes(), self.policy_version.as_str().as_bytes());
        let count = decimal_vec(self.matched_rules.len() as u64);
        push_line(&mut output, "matched_count".as_bytes(), count.as_slice());
        push_matched_lines(&mut output, &self.matched_rules);
        let deciding: &str = match &self.deciding_rule {
            Some(rule) => rule.as_str(),
            None => "",
        };
        proof {
            reveal_strlit("");
        }
        push_line(&mut output, "deciding_rule".as_bytes(), deciding.as_bytes());
        push_line(&mut output, "reason".as_bytes(), reason_text(self.reason).as_bytes());
        push_line(&mut output, "authority_statement".as_bytes(), self.authority_statement.as_bytes());
        assert(texts(self.matched_rules@).len() == self.matched_rules@.len());
        assert(output@ =~= explanation_bytes(self@));
        output
    }
}

} // verus!
