//! Policy requests, rules and the evidence of policy versions.
use vstd::prelude::*;

use crate::policy::Decision;

verus! {

/// One request offered to local policy evaluation.
#[derive(Debug)]
pub struct PolicyRequest {
    pub activity_type: u16,
    pub counterparty: [u8; 32],
    pub asset: [u8; 32],
    pub amount: u128,
    pub cumulative_amount: u128,
    pub cumulative_count: u64,
    pub purpose: String,
    pub core_sequence: u64,
    pub approval_present: bool,
}

/// Inclusive deterministic protocol-sequence window.
#[derive(Clone, Copy, Debug, PartialEq, Eq, Structural)]
pub struct SequenceWindow {
    pub first: u64,
    pub last: u64,
}

/// A matching rule either permits locally or refuses.
#[derive(Clone, Copy, Debug, PartialEq, Eq, Structural)]
pub enum RuleEffect {
    Permit,
    Deny,
}

/// Typed internal failure. Every variant maps to a denial.
#[derive(Clone, Copy, Debug, PartialEq, Eq, Structural)]
pub enum EvaluationFailure {
    InvalidRule,
    StepLimitExceeded,
    Internal,
}

/// Why a policy set cannot become active.
#[derive(Debug, PartialEq, Eq)]
pub enum PolicyValidationError {
    EmptyVersion,
    EmptyRuleId,
    DuplicateRuleId(String),
    EmptyPurpose,
    InvalidSequenceWindow,
    ZeroStepLimit,
    StepLimitTooSmall,
    VersionAlreadyRetained(String),
}

/// Bounded source-loader failures.
#[derive(Debug, PartialEq, Eq)]
pub enum PolicySourceError {
    TooLarge,
    InvalidUtf8,
    LineTooLarge,
    TooManyRules,
    InvalidDeclaration,
    InvalidInteger,
    InvalidEffect,
    Validation(PolicyValidationError),
}

/// Successful activation evidence.
#[derive(Debug, PartialEq, Eq)]
pub struct Activation {
    pub previous_version: String,
    pub active_version: String,
    pub generation: u64,
}

/// A retained decision and the request it answered.
#[derive(Debug)]
pub struct PolicyAuditEntry {
    pub request_id: [u8; 32],
    pub decision: Decision,
}

} // verus!
