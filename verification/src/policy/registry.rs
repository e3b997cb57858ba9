//! Policy validation, immutable request snapshots and retained version history.
use std::sync::Arc;

use vstd::prelude::*;

use crate::bytes::fixed_equal;
use crate::text::same_text;
use crate::policy::eval::{evaluate, evaluation, EvaluationInput, PolicySet, Rule};
use crate::policy::types::{Activation, PolicyAuditEntry, PolicyValidationError};
use crate::policy::{explain, explained, Decision, DecisionView, EvaluationMode, Explanation};

verus! {

/// A validation refusal as plain values.
pub enum ValidationFault {
    EmptyVersion,
    EmptyRuleId,
    DuplicateRuleId(Seq<char>),
    EmptyPurpose,
    InvalidSequenceWindow,
    ZeroStepLimit,
    StepLimitTooSmall,
    VersionAlreadyRetained(Seq<char>),
}

impl View for PolicyValidationError {
    type V = ValidationFault;

    open spec fn view(&self) -> ValidationFault {
        match self {
            PolicyValidationError::EmptyVersion => ValidationFault::EmptyVersion,
            PolicyValidationError::EmptyRuleId => ValidationFault::EmptyRuleId,
            PolicyValidationError::DuplicateRuleId(id) => ValidationFault::DuplicateRuleId(id@),
            PolicyValidationError::EmptyPurpose => ValidationFault::EmptyPurpose,
            PolicyValidationError::InvalidSequenceWindow => ValidationFault::InvalidSequenceWindow,
            PolicyValidationError::ZeroStepLimit => ValidationFault::ZeroStepLimit,
            PolicyValidationError::StepLimitTooSmall => ValidationFault::StepLimitTooSmall,
            PolicyValidationError::VersionAlreadyRetained(v) => ValidationFault::VersionAlreadyRetained(v@),
        }
    }
}

/// The first problem of rule `k`: an empty identifier, an identifier used by an earlier rule,
/// an empty purpose, or an inverted sequence window.
pub open spec fn rule_fault(rules: Seq<Rule>, k: int) -> Option<ValidationFault> {
    let rule = rules[k];
    if rule.id@.len() == 0 {
        Some(ValidationFault::EmptyRuleId)
    } else if exists|j: int| 0 <= j < k && (#[trigger] rules[j]).id@ == rule.id@ {
        Some(ValidationFault::DuplicateRuleId(rule.id@))
    } else if exists|p: int| 0 <= p < rule.constraints.purposes@.len()
        && (#[trigger] rule.constraints.purposes@[p])@.len() == 0 {
        Some(ValidationFault::EmptyPurpose)
    } else if rule.constraints.sequence_window matches Some(w) && w.first > w.last {
        Some(ValidationFault::InvalidSequenceWindow)
    } else {
        None
    }
}

/// The first problem among the first `upto` rules, in rule order.
pub open spec fn first_rule_fault(rules: Seq<Rule>, upto: int) -> Option<ValidationFault>
    decreases upto,
{
    if upto <= 0 {
        None
    } else {
        match first_rule_fault(rules, upto - 1) {
            Some(f) => Some(f),
            None => rule_fault(rules, upto - 1),
        }
    }
}

/// Why a policy set cannot become active, checked in this order: empty version, zero step
/// limit, more rules than steps, then the first faulty rule.
pub open spec fn policy_fault(policy: PolicySet) -> Option<ValidationFault> {
    if policy.version@.len() == 0 {
        Some(ValidationFault::EmptyVersion)
    } else if policy.evaluation_step_limit == 0 {
        Some(ValidationFault::ZeroStepLimit)
    } else if policy.rules@.len() > policy.evaluation_step_limit {
        Some(ValidationFault::StepLimitTooSmall)
    } else {
        first_rule_fault(policy.rules@, policy.rules@.len() as int)
    }
}

fn rule_problem(rules: &Vec<Rule>, k: usize) -> (r: Option<PolicyValidationError>)
    requires
        k < rules@.len(),
    ensures
        match r {
            Some(e) => rule_fault(rules@, k as int) == Some(e@),
            None => rule_fault(rules@, k as int) is None,
        },
{
    let rule = &rules[k];
    if rule.id.as_str().is_empty() {
        return Some(PolicyValidationError::EmptyRuleId);
    }
    let mut j: usize = 0;
    while j < k
        invariant
            j <= k,
            k < rules@.len(),
            rule == rules@[k as int],
            rule.id@.len() != 0,
            forall|q: int| 0 <= q < j ==> (#[trigger] rules@[q]).id@ != rule.id@,
        decreases k - j,
    {
        if rules[j].id == rule.id {
            assert(rules@[j as int].id@ == rules@[k as int].id@);
            return Some(PolicyValidationError::DuplicateRuleId(rule.id.clone()));
        }
        j = j + 1;
    }
    let mut p: usize = 0;
    while p < rule.constraints.purposes.len()
        invariant
            p <= rule.constraints.purposes@.len(),
            k < rules@.len(),
            rule == rules@[k as int],
            rule.id@.len() != 0,
            forall|q: int| 0 <= q < k ==> (#[trigger] rules@[q]).id@ != rule.id@,
            forall|q: int| 0 <= q < p ==> (#[trigger] rule.constraints.purposes@[q])@.len() != 0,
        decreases rule.constraints.purposes@.len() - p,
    {
        if rule.constraints.purposes[p].as_str().is_empty() {
            assert(rule.constraints.purposes@[p as int]@.len() == 0);
            return Some(PolicyValidationError::EmptyPurpose);
        }
        p = p + 1;
    }
    match rule.constraints.sequence_window {
        Some(w) => if w.first > w.last {
            return Some(PolicyValidationError::InvalidSequenceWindow);
        },
        None => {},
    }
    None
}

/// Validates a policy set before it can become active.
///
/// # Errors
///
/// Returns the first violation: an empty version, a zero step limit, a step limit below the
/// rule count, an empty or duplicated rule identifier, an empty purpose, or an inverted
/// sequence window.
pub fn validate(policy: &PolicySet) -> (r: Result<(), PolicyValidationError>)
    ensures
        match r {
            Ok(()) => policy_fault(*policy) is None,
            Err(e) => policy_fault(*policy) == Some(e@),
        },
{
    if policy.version.as_str().is_empty() {
        return Err(PolicyValidationError::EmptyVersion);
    }
    if policy.evaluation_step_limit == 0 {
        return Err(PolicyValidationError::ZeroStepLimit);
    }
    if policy.rules.len() as u64 > policy.evaluation_step_limit {
        return Err(PolicyValidationError::StepLimitTooSmall);
    }
    let mut k: usize = 0;
    while k < policy.rules.len()
        invariant
            k <= policy.rules@.len(),
            policy.version@.len() > 0,
            policy.evaluation_step_limit > 0,
            policy.rules@.len() <= policy.evaluation_step_limit,
            first_rule_fault(policy.rules@, k as int) is None,
        decreases policy.rules@.len() - k,
    {
        match rule_problem(&policy.rules, k) {
            Some(e) => {
                assert(first_rule_fault(policy.rules@, k + 1) == Some(e@));
                proof {
                    lemma_first_fault_persists(policy.rules@, k + 1, policy.rules@.len() as int);
                }
                return Err(e);
            },
            None => {},
        }
        k = k + 1;
    }
    Ok(())
}

proof fn lemma_first_fault_persists(rules: Seq<Rule>, at: int, upto: int)
    requires
        0 <= at <= upto,
        first_rule_fault(rules, at) is Some,
    ensures
        first_rule_fault(rules, upto) == first_rule_fault(rules, at),
    decreases upto - at,
{
    if upto > at {
        lemma_first_fault_persists(rules, at, upto - 1);
    }
}

/// `Arc::clone`: another pointer to the same policy set.
#[verifier::external_body]
fn share_policy(policy: &Arc<PolicySet>) -> (r: Arc<PolicySet>)
    ensures
        *r == **policy,
{
    Arc::clone(policy)
}

/// Immutable policy selection captured when a request is received.
#[derive(Debug)]
pub struct PolicySnapshot {
    policy: Arc<PolicySet>,
    generation: u64,
}

impl PolicySnapshot {
    /// The captured policy set.
    pub closed spec fn policy_set(&self) -> PolicySet {
        *self.policy
    }

    /// The generation the capture was made at.
    pub closed spec fn generation_at(&self) -> u64 {
        self.generation
    }

    pub fn policy(&self) -> (r: &PolicySet)
        ensures
            *r == self.policy_set(),
    {
        &self.policy
    }

    pub fn version(&self) -> (r: &str)
        ensures
            r@ == self.policy_set().version@,
    {
        self.policy.version.as_str()
    }

    pub fn generation(&self) -> (r: u64)
        ensures
            r == self.generation_at(),
    {
        self.generation
    }
}

/// The decisions recorded in an audit log, by request identifier; a later entry replaces an
/// earlier one for the same request.
pub open spec fn audit_map(entries: Seq<PolicyAuditEntry>) -> Map<Seq<u8>, DecisionView>
    decreases entries.len(),
{
    if entries.len() == 0 {
        Map::empty()
    } else {
        audit_map(entries.drop_last()).insert(entries.last().request_id@, entries.last().decision@)
    }
}

/// No two entries answer the same request.
pub open spec fn distinct_requests(entries: Seq<PolicyAuditEntry>) -> bool {
    forall|i: int, j: int|
        #![trigger entries[i], entries[j]]
        0 <= i < j < entries.len() ==> entries[i].request_id@ != entries[j].request_id@
}

/// No two retained policies share a version.
pub open spec fn distinct_versions(policies: Seq<PolicySet>) -> bool {
    forall|i: int, j: int|
        #![trigger policies[i], policies[j]]
        0 <= i < j < policies.len() ==> policies[i].version@ != policies[j].version@
}

/// The retained policy of a version, if any.
pub open spec fn retained_policy(policies: Seq<PolicySet>, version: Seq<char>) -> Option<PolicySet> {
    if exists|i: int| 0 <= i < policies.len() && (#[trigger] policies[i]).version@ == version {
        Some(policies[choose|i: int| 0 <= i < policies.len() && (#[trigger] policies[i]).version@ == version])
    } else {
        None
    }
}

proof fn lemma_retained_at(policies: Seq<PolicySet>, i: int)
    requires
        distinct_versions(policies),
        0 <= i < policies.len(),
    ensures
        retained_policy(policies, policies[i].version@) == Some(policies[i]),
{
    let v = policies[i].version@;
    let c = choose|c: int| 0 <= c < policies.len() && (#[trigger] policies[c]).version@ == v;
    if c != i {
        if c < i {
            assert(policies[c].version@ != policies[i].version@);
        } else {
            assert(policies[i].version@ != policies[c].version@);
        }
    }
}

proof fn lemma_audit_at(entries: Seq<PolicyAuditEntry>, i: int)
    requires
        distinct_requests(entries),
        0 <= i < entries.len(),
    ensures
        audit_map(entries).dom().contains(entries[i].request_id@),
        audit_map(entries)[entries[i].request_id@] == entries[i].decision@,
    decreases entries.len(),
{
    if i < entries.len() - 1 {
        let rest = entries.drop_last();
        assert(rest[i] == entries[i]);
        assert(distinct_requests(rest)) by {
            assert forall|a: int, b: int| 0 <= a < b < rest.len() implies rest[a].request_id@
                != rest[b].request_id@ by {
                assert(rest[a] == entries[a] && rest[b] == entries[b]);
            }
        }
        lemma_audit_at(rest, i);
        assert(entries[i].request_id@ != entries[entries.len() - 1].request_id@);
    }
}

proof fn lemma_audit_absent(entries: Seq<PolicyAuditEntry>, id: Seq<u8>)
    requires
        forall|i: int| 0 <= i < entries.len() ==> (#[trigger] entries[i]).request_id@ != id,
    ensures
        !audit_map(entries).dom().contains(id),
    decreases entries.len(),
{
    if entries.len() > 0 {
        let rest = entries.drop_last();
        assert forall|i: int| 0 <= i < rest.len() implies (#[trigger] rest[i]).request_id@ != id by {
            assert(rest[i] == entries[i]);
        }
        lemma_audit_absent(rest, id);
    }
}

proof fn lemma_audit_replace(entries: Seq<PolicyAuditEntry>, i: int, e: PolicyAuditEntry)
    requires
        distinct_requests(entries),
        0 <= i < entries.len(),
        e.request_id@ == entries[i].request_id@,
    ensures
        audit_map(entries.update(i, e)) == audit_map(entries).insert(e.request_id@, e.decision@),
        distinct_requests(entries.update(i, e)),
    decreases entries.len(),
{
    let next = entries.update(i, e);
    assert(distinct_requests(next)) by {
        assert forall|a: int, b: int| 0 <= a < b < next.len() implies next[a].request_id@
            != next[b].request_id@ by {
            assert(entries[a].request_id@ != entries[b].request_id@);
        }
    }
    let rest = entries.drop_last();
    if i == entries.len() - 1 {
        assert(next.drop_last() =~= rest);
        assert(audit_map(next) =~= audit_map(entries).insert(e.request_id@, e.decision@));
    } else {
        assert(distinct_requests(rest)) by {
            assert forall|a: int, b: int| 0 <= a < b < rest.len() implies rest[a].request_id@
                != rest[b].request_id@ by {
                assert(rest[a] == entries[a] && rest[b] == entries[b]);
            }
        }
        assert(next.drop_last() =~= rest.update(i, e));
        lemma_audit_replace(rest, i, e);
        let last = entries.last();
        assert(last.request_id@ != e.request_id@) by {
            assert(entries[i].request_id@ != entries[entries.len() - 1].request_id@);
        }
        assert(audit_map(next) =~= audit_map(entries).insert(e.request_id@, e.decision@));
    }
}

/// Active policy plus all versions and decisions retained for reconstruction.
#[derive(Debug)]
pub struct PolicyRegistry {
    active_version: String,
    generation: u64,
    versions: Vec<Arc<PolicySet>>,
    audit: Vec<PolicyAuditEntry>,
}

impl PolicyRegistry {
    /// The active version.
    pub closed spec fn active(&self) -> Seq<char> {
        self.active_version@
    }

    /// The activation generation.
    pub closed spec fn current_generation(&self) -> u64 {
        self.generation
    }

    /// Every retained policy set, oldest first.
    pub closed spec fn policies(&self) -> Seq<PolicySet> {
        self.versions@.map_values(|p: Arc<PolicySet>| *p)
    }

    /// Every retained decision, by request identifier.
    pub closed spec fn decisions(&self) -> Map<Seq<u8>, DecisionView> {
        audit_map(self.audit@)
    }

    /// The retained entries themselves.
    pub closed spec fn entries(&self) -> Seq<PolicyAuditEntry> {
        self.audit@
    }

    /// The registry's invariant: distinct versions, the active one among them, and at most
    /// one retained decision per request.
    pub closed spec fn wf(&self) -> bool {
        &&& distinct_versions(self.policies())
        &&& forall|i: int| 0 <= i < self.policies().len() ==> policy_fault(#[trigger] self.policies()[i]) is None
        &&& retained_policy(self.policies(), self.active_version@) is Some
        &&& distinct_requests(self.audit@)
    }

    /// The active policy set.
    pub open spec fn active_policy(&self) -> PolicySet {
        retained_policy(self.policies(), self.active()).unwrap()
    }

    /// Every retained policy set, the active one included, passed validation.
    pub proof fn lemma_retained_valid(&self, version: Seq<char>)
        requires
            self.wf(),
            retained_policy(self.policies(), version) is Some,
        ensures
            policy_fault(retained_policy(self.policies(), version).unwrap()) is None,
    {
        let c = choose|c: int| 0 <= c < self.policies().len() && (#[trigger] self.policies()[c]).version@ == version;
        assert(policy_fault(self.policies()[c]) is None);
    }

    /// Seeds the registry with a validated initial policy at generation 1.
    ///
    /// # Errors
    ///
    /// Returns the validation failure of the initial policy.
    pub fn new(initial: PolicySet) -> (r: Result<Self, PolicyValidationError>)
        ensures
            match r {
                Ok(reg) => {
                    &&& reg.wf()
                    &&& policy_fault(initial) is None
                    &&& reg.active() == initial.version@
                    &&& reg.current_generation() == 1
                    &&& reg.policies() == seq![initial]
                    &&& reg.decisions() == Map::<Seq<u8>, DecisionView>::empty()
                },
                Err(e) => policy_fault(initial) == Some(e@),
            },
    {
        match validate(&initial) {
            Err(e) => {
                return Err(e);
            },
            Ok(()) => {},
        }
        let ghost init = initial;
        let active_version = initial.version.clone();
        let mut versions: Vec<Arc<PolicySet>> = Vec::new();
        versions.push(Arc::new(initial));
        let reg = PolicyRegistry { active_version, generation: 1, versions, audit: Vec::new() };
        proof {
            assert(reg.policies() =~= seq![init]);
            assert(policy_fault(reg.policies()[0]) is None);
            lemma_retained_at(reg.policies(), 0);
            assert(audit_map(reg.audit@) =~= Map::<Seq<u8>, DecisionView>::empty());
        }
        Ok(reg)
    }

    fn position(&self, version: &str) -> (r: Option<usize>)
        ensures
            match r {
                Some(i) => i < self.policies().len() && self.policies()[i as int].version@ == version@,
                None => forall|i: int| 0 <= i < self.policies().len() ==> (#[trigger] self.policies()[i]).version@ != version@,
            },
    {
        let mut i: usize = 0;
        while i < self.versions.len()
            invariant
                i <= self.versions@.len(),
                self.policies().len() == self.versions@.len(),
                forall|q: int| 0 <= q < i ==> (#[trigger] self.policies()[q]).version@ != version@,
            decreases self.versions@.len() - i,
        {
            let p: &PolicySet = &self.versions[i];
            assert(*p == self.policies()[i as int]);
            if same_text(p.version.as_str(), version) {
                return Some(i);
            }
            i = i + 1;
        }
        None
    }

    fn active_index(&self) -> (i: usize)
        requires
            self.wf(),
        ensures
            i < self.policies().len(),
            self.policies()[i as int] == self.active_policy(),
    {
        let ghost c = choose|c: int| 0 <= c < self.policies().len()
            && (#[trigger] self.policies()[c]).version@ == self.active_version@;
        let mut i: usize = 0;
        while i < self.versions.len() && !same_text(self.versions[i].version.as_str(), self.active_version.as_str())
            invariant
                i <= self.versions@.len(),
                self.policies().len() == self.versions@.len(),
                0 <= c < self.policies().len(),
                self.policies()[c].version@ == self.active_version@,
                forall|q: int| 0 <= q < i ==> (#[trigger] self.policies()[q]).version@ != self.active_version@,
            decreases self.versions@.len() - i,
        {
            i = i + 1;
        }
        proof {
            if i >= self.versions@.len() {
                assert(self.policies()[c].version@ != self.active_version@);
            }
            assert(self.policies()[i as int] == *self.versions@[i as int]);
            lemma_retained_at(self.policies(), i as int);
        }
        i
    }

    /// Captures the policy that applies before request processing begins.
    pub fn begin_request(&self) -> (r: PolicySnapshot)
        requires
            self.wf(),
        ensures
            r.policy_set() == self.active_policy(),
            r.generation_at() == self.current_generation(),
    {
        let i = self.active_index();
        PolicySnapshot { policy: share_policy(&self.versions[i]), generation: self.generation }
    }

    /// The active version.
    pub fn active_version(&self) -> (r: &str)
        ensures
            r@ == self.active(),
    {
        self.active_version.as_str()
    }

    /// The retained policy set of a version.
    pub fn retained(&self, version: &str) -> (r: Option<&PolicySet>)
        requires
            self.wf(),
        ensures
            match r {
                Some(p) => retained_policy(self.policies(), version@) == Some(*p),
                None => retained_policy(self.policies(), version@) is None,
            },
    {
        match self.position(version) {
            Some(i) => {
                proof {
                    lemma_retained_at(self.policies(), i as int);
                }
                let p: &PolicySet = &self.versions[i];
                Some(p)
            },
            None => None,
        }
    }

    /// Retains a decision for a request, replacing an earlier one for the same request.
    pub fn record_decision(&mut self, request_id: [u8; 32], decision: Decision)
        requires
            old(self).wf(),
        ensures
            final(self).wf(),
            final(self).decisions() == old(self).decisions().insert(request_id@, decision@),
            final(self).active() == old(self).active(),
            final(self).current_generation() == old(self).current_generation(),
            final(self).policies() == old(self).policies(),
    {
        let entry = PolicyAuditEntry { request_id, decision };
        let mut i: usize = 0;
        while i < self.audit.len()
            invariant
                i <= self.audit@.len(),
                *self == *old(self),
                self.wf(),
                entry.request_id == request_id,
                entry.decision@ == decision@,
                forall|q: int| 0 <= q < i ==> (#[trigger] self.audit@[q]).request_id@ != request_id@,
            decreases self.audit@.len() - i,
        {
            if fixed_equal(&self.audit[i].request_id, &request_id) {
                proof {
                    lemma_audit_replace(self.audit@, i as int, entry);
                }
                self.audit.set(i, entry);
                return;
            }
            i = i + 1;
        }
        proof {
            let entries = self.audit@;
            let next = entries.push(entry);
            assert(next.drop_last() =~= entries);
            assert(distinct_requests(next)) by {
                assert forall|a: int, b: int| 0 <= a < b < next.len() implies next[a].request_id@
                    != next[b].request_id@ by {
                    if b == entries.len() {
                        assert(next[a] == entries[a]);
                    } else {
                        assert(next[a] == entries[a] && next[b] == entries[b]);
                    }
                }
            }
        }
        self.audit.push(entry);
    }

    /// The retained decision record of a request.
    pub fn audit_entry(&self, request_id: [u8; 32]) -> (r: Option<&PolicyAuditEntry>)
        requires
            self.wf(),
        ensures
            match r {
                Some(e) => self.decisions().dom().contains(request_id@) && e.request_id@ == request_id@
                    && e.decision@ == self.decisions()[request_id@],
                None => !self.decisions().dom().contains(request_id@),
            },
    {
        let mut i: usize = 0;
        while i < self.audit.len()
            invariant
                i <= self.audit@.len(),
                self.wf(),
                forall|q: int| 0 <= q < i ==> (#[trigger] self.audit@[q]).request_id@ != request_id@,
            decreases self.audit@.len() - i,
        {
            if fixed_equal(&self.audit[i].request_id, &request_id) {
                proof {
                    lemma_audit_at(self.audit@, i as int);
                }
                return Some(&self.audit[i]);
            }
            i = i + 1;
        }
        proof {
            lemma_audit_absent(self.audit@, request_id@);
        }
        None
    }
}

/// Atomically activates a validated policy version for future requests.
///
/// # Errors
///
/// Returns the validation failure of the offered set, or `VersionAlreadyRetained` when the
/// registry already holds that version; the registry is then unchanged.
pub fn activate(registry: &mut PolicyRegistry, policy: PolicySet) -> (r: Result<Activation, PolicyValidationError>)
    requires
        old(registry).wf(),
    ensures
        final(registry).wf(),
        match r {
            Ok(a) => {
                &&& policy_fault(policy) is None
                &&& retained_policy(old(registry).policies(), policy.version@) is None
                &&& a.previous_version@ == old(registry).active()
                &&& a.active_version@ == policy.version@
                &&& a.generation == (if old(registry).current_generation() == u64::MAX {
                    u64::MAX
                } else {
                    (old(registry).current_generation() + 1) as u64
                })
                &&& final(registry).active() == policy.version@
                &&& final(registry).active_policy() == policy
                &&& final(registry).current_generation() == a.generation
                &&& final(registry).policies() == old(registry).policies().push(policy)
                &&& final(registry).decisions() == old(registry).decisions()
            },
            Err(e) => {
                &&& (policy_fault(policy) is Some ==> policy_fault(policy) == Some(e@))
                &&& (policy_fault(policy) is None ==> e@ == ValidationFault::VersionAlreadyRetained(policy.version@)
                    && retained_policy(old(registry).policies(), policy.version@) is Some)
                &&& *final(registry) == *old(registry)
            },
        },
{
    match validate(&policy) {
        Err(e) => {
            return Err(e);
        },
        Ok(()) => {},
    }
    match registry.position(policy.version.as_str()) {
        Some(i) => {
            proof {
                lemma_retained_at(registry.policies(), i as int);
            }
            return Err(PolicyValidationError::VersionAlreadyRetained(policy.version));
        },
        None => {},
    }
    let previous_version = registry.active_version.clone();
    let active_version = policy.version.clone();
    let generation = registry.generation.saturating_add(1);
    let ghost offered = policy;
    let ghost before = registry.policies();
    let new_active = active_version.clone();
    proof {
        let next = before.push(offered);
        assert(distinct_versions(next)) by {
            assert forall|a: int, b: int| 0 <= a < b < next.len() implies next[a].version@
                != next[b].version@ by {
                if b == before.len() {
                    assert(next[a] == before[a]);
                } else {
                    assert(next[a] == before[a] && next[b] == before[b]);
                }
            }
        }
        lemma_retained_at(next, before.len() as int);
    }
    registry.versions.push(Arc::new(policy));
    registry.active_version = new_active;
    registry.generation = generation;
    assert(registry.policies() =~= before.push(offered));
    Ok(Activation { previous_version, active_version, generation })
}

/// Dry-run output; the audit insertion is its only mutable effect.
#[derive(Debug)]
pub struct DryRunResult {
    pub decision: Decision,
    pub explanation: Explanation,
}

/// Evaluates without creating a preparation, signature or submission, and retains the
/// decision for the request.
pub fn dry_run(
    registry: &mut PolicyRegistry,
    request_id: [u8; 32],
    policy: &PolicySet,
    input: &EvaluationInput,
) -> (r: DryRunResult)
    requires
        old(registry).wf(),
    ensures
        final(registry).wf(),
        r.decision@ == evaluation(*policy, *input),
        r.explanation@ == explained(evaluation(*policy, *input), EvaluationMode::DryRun),
        final(registry).decisions() == old(registry).decisions().insert(request_id@, r.decision@),
        final(registry).active() == old(registry).active(),
        final(registry).current_generation() == old(registry).current_generation(),
        final(registry).policies() == old(registry).policies(),
{
    let decision = evaluate(policy, input);
    let explanation = explain(&decision, EvaluationMode::DryRun);
    registry.record_decision(request_id, decision.clone());
    DryRunResult { decision, explanation }
}

} // verus!
