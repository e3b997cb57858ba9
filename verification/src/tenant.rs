//! Tenant authorization classes and the evidence the common tenant gate emits.
use vstd::prelude::*;

use crate::store::TenantId;

verus! {

/// Every public surface that must use the same authenticated tenant resolution.
#[derive(Clone, Copy, Debug, PartialEq, Eq, Structural, PartialOrd, Ord)]
pub enum Surface {
    Contract,
    RustSdk,
    TypeScriptSdk,
    PythonSdk,
    Mcp,
    Subscription,
    Export,
}

impl Surface {
    /// Every surface, in declaration order.
    pub const ALL: [Surface; 7] = [
        Surface::Contract,
        Surface::RustSdk,
        Surface::TypeScriptSdk,
        Surface::PythonSdk,
        Surface::Mcp,
        Surface::Subscription,
        Surface::Export,
    ];
}

/// Every class of token-gated operation.
#[derive(Clone, Copy, Debug, PartialEq, Eq, Structural, PartialOrd, Ord)]
pub enum OperationClass {
    Read,
    Subscribe,
    Prepare,
    Export,
    Approve,
    Write,
}

/// The scope a token must carry for an operation class.
pub open spec fn class_scope(c: OperationClass) -> Seq<char> {
    match c {
        OperationClass::Read => "read"@,
        OperationClass::Subscribe => "subscribe"@,
        OperationClass::Prepare => "prepare"@,
        OperationClass::Export => "export"@,
        OperationClass::Approve => "approve"@,
        OperationClass::Write => "write"@,
    }
}

impl OperationClass {
    /// Every class, in declaration order.
    pub const ALL: [OperationClass; 6] = [
        OperationClass::Read,
        OperationClass::Subscribe,
        OperationClass::Prepare,
        OperationClass::Export,
        OperationClass::Approve,
        OperationClass::Write,
    ];

    /// The scope a token must carry for this operation class.
    pub fn scope(self) -> (r: &'static str)
        ensures
            r@ == class_scope(self),
    {
        match self {
            OperationClass::Read => "read",
            OperationClass::Subscribe => "subscribe",
            OperationClass::Prepare => "prepare",
            OperationClass::Export => "export",
            OperationClass::Approve => "approve",
            OperationClass::Write => "write",
        }
    }
}

/// How an authorization attempt ended.
#[derive(Clone, Copy, Debug, PartialEq, Eq, Structural, PartialOrd, Ord)]
pub enum AuthorizationOutcome {
    Allowed,
    NotAuthorized,
    ScopeDenied,
    Expired,
    Revoked,
    InvalidRequest,
}

/// Why an authorization attempt was refused.
#[derive(Clone, Copy, Debug, PartialEq, Eq, Structural)]
pub enum AuthorizationError {
    NotAuthorized,
    ScopeDenied,
    Expired,
    Revoked,
    InvalidRequest,
}

/// The outcome recorded for a refusal.
pub open spec fn error_outcome(e: AuthorizationError) -> AuthorizationOutcome {
    match e {
        AuthorizationError::NotAuthorized => AuthorizationOutcome::NotAuthorized,
        AuthorizationError::ScopeDenied => AuthorizationOutcome::ScopeDenied,
        AuthorizationError::Expired => AuthorizationOutcome::Expired,
        AuthorizationError::Revoked => AuthorizationOutcome::Revoked,
        AuthorizationError::InvalidRequest => AuthorizationOutcome::InvalidRequest,
    }
}

impl AuthorizationError {
    /// The outcome recorded for this refusal.
    pub fn outcome(&self) -> (r: AuthorizationOutcome)
        ensures
            r == error_outcome(*self),
    {
        match self {
            AuthorizationError::NotAuthorized => AuthorizationOutcome::NotAuthorized,
            AuthorizationError::ScopeDenied => AuthorizationOutcome::ScopeDenied,
            AuthorizationError::Expired => AuthorizationOutcome::Expired,
            AuthorizationError::Revoked => AuthorizationOutcome::Revoked,
            AuthorizationError::InvalidRequest => AuthorizationOutcome::InvalidRequest,
        }
    }
}

/// Law: a refusal is never recorded as allowed.
pub proof fn lemma_refusal_not_allowed(e: AuthorizationError)
    ensures
        error_outcome(e) != AuthorizationOutcome::Allowed,
{
}

/// One audited authorization attempt. The token appears only as a correlation digest.
#[derive(Debug)]
pub struct TenantAuditEntry {
    pub tenant: TenantId,
    pub token_correlation: [u8; 32],
    pub surface: Surface,
    pub operation: String,
    pub outcome: AuthorizationOutcome,
}

/// The labels of one authorization counter.
#[derive(Debug)]
pub struct MetricKey {
    pub tenant: TenantId,
    pub surface: Surface,
    pub outcome: AuthorizationOutcome,
}

/// One traced authorization attempt.
#[derive(Debug)]
pub struct TenantTrace {
    pub tenant: TenantId,
    pub surface: Surface,
    pub operation: String,
    pub outcome: AuthorizationOutcome,
}

/// The content of one recorded attempt.
pub struct AttemptView {
    pub tenant: Seq<char>,
    pub token_correlation: Seq<u8>,
    pub surface: Surface,
    pub operation: Seq<char>,
    pub outcome: AuthorizationOutcome,
}

/// The labels of one counter.
pub type CounterKey = (Seq<char>, Surface, AuthorizationOutcome);

/// Observable evidence emitted by the common tenant gate: the audit log, one counter per
/// tenant, surface and outcome (in order of first use), and the traces.
#[derive(Debug)]
pub struct TenantObservability {
    audit: Vec<TenantAuditEntry>,
    metrics: Vec<(MetricKey, u64)>,
    traces: Vec<TenantTrace>,
}

impl TenantObservability {
    /// The audited attempts, in order.
    pub closed spec fn audit_view(&self) -> Seq<AttemptView> {
        self.audit@.map_values(|e: TenantAuditEntry| AttemptView { tenant: e.tenant@, token_correlation: e.token_correlation@, surface: e.surface, operation: e.operation@, outcome: e.outcome })
    }

    /// The traced attempts, in order, with no token correlation.
    pub closed spec fn trace_view(&self) -> Seq<(Seq<char>, Surface, Seq<char>, AuthorizationOutcome)> {
        self.traces@.map_values(|t: TenantTrace| (t.tenant@, t.surface, t.operation@, t.outcome))
    }

    /// The counters, in order of first use.
    pub closed spec fn counter_view(&self) -> Seq<(CounterKey, u64)> {
        self.metrics@.map_values(|m: (MetricKey, u64)| ((m.0.tenant@, m.0.surface, m.0.outcome), m.1))
    }

    /// The invariant: one counter per label set.
    pub closed spec fn wf(&self) -> bool {
        forall|a: int, b: int| 0 <= a < b < self.metrics.len() ==> (#[trigger] self.counter_view()[a]).0 != (#[trigger] self.counter_view()[b]).0
    }

    /// Nothing observed yet.
    pub fn new() -> (r: Self)
        ensures
            r.wf(),
            r.audit_view().len() == 0,
            r.trace_view().len() == 0,
            r.counter_view().len() == 0,
    {
        let r = TenantObservability { audit: Vec::new(), metrics: Vec::new(), traces: Vec::new() };
        assert(r.audit_view() =~= Seq::<AttemptView>::empty());
        assert(r.trace_view() =~= Seq::<(Seq<char>, Surface, Seq<char>, AuthorizationOutcome)>::empty());
        assert(r.counter_view() =~= Seq::<(CounterKey, u64)>::empty());
        r
    }

    /// The audited attempts.
    pub fn audit(&self) -> (r: &[TenantAuditEntry])
        ensures
            r@.map_values(|e: TenantAuditEntry| AttemptView { tenant: e.tenant@, token_correlation: e.token_correlation@, surface: e.surface, operation: e.operation@, outcome: e.outcome }) == self.audit_view(),
    {
        self.audit.as_slice()
    }

    /// The counters.
    pub fn metrics(&self) -> (r: &[(MetricKey, u64)])
        ensures
            r@.map_values(|m: (MetricKey, u64)| ((m.0.tenant@, m.0.surface, m.0.outcome), m.1)) == self.counter_view(),
    {
        self.metrics.as_slice()
    }

    /// The traced attempts.
    pub fn traces(&self) -> (r: &[TenantTrace])
        ensures
            r@.map_values(|t: TenantTrace| (t.tenant@, t.surface, t.operation@, t.outcome)) == self.trace_view(),
    {
        self.traces.as_slice()
    }

    /// Records one authorization attempt: an audit entry, one more count under its labels
    /// (saturating), and a trace.
    pub fn record(&mut self, tenant: &TenantId, token_correlation: [u8; 32], surface: Surface, operation: &str, outcome: AuthorizationOutcome)
        requires
            old(self).wf(),
        ensures
            final(self).wf(),
            final(self).audit_view() == old(self).audit_view().push(AttemptView { tenant: tenant@, token_correlation: token_correlation@, surface, operation: operation@, outcome }),
            final(self).trace_view() == old(self).trace_view().push((tenant@, surface, operation@, outcome)),
            ({
                let key = (tenant@, surface, outcome);
                let before = old(self).counter_view();
                let after = final(self).counter_view();
                if exists|i: int| 0 <= i < before.len() && (#[trigger] before[i]).0 == key {
                    let i = choose|i: int| 0 <= i < before.len() && (#[trigger] before[i]).0 == key;
                    after == before.update(i, (key, if before[i].1 < u64::MAX { (before[i].1 + 1) as u64 } else { u64::MAX }))
                } else {
                    after == before.push((key, 1u64))
                }
            }),
    {
        let ghost key = (tenant@, surface, outcome);
        let ghost before_audit = self.audit_view();
        let ghost before_traces = self.trace_view();
        let ghost before = self.counter_view();
        self.audit.push(TenantAuditEntry { tenant: tenant.clone(), token_correlation, surface, operation: operation.to_owned(), outcome });
        self.traces.push(TenantTrace { tenant: tenant.clone(), surface, operation: operation.to_owned(), outcome });
        proof {
            assert(self.audit_view() =~= before_audit.push(AttemptView { tenant: tenant@, token_correlation: token_correlation@, surface, operation: operation@, outcome }));
            assert(self.trace_view() =~= before_traces.push((tenant@, surface, operation@, outcome)));
        }
        let mut i: usize = 0;
        while i < self.metrics.len()
            invariant
                self.wf(),
                before == self.counter_view(),
                before == old(self).counter_view(),
                self.audit_view() == old(self).audit_view().push(AttemptView { tenant: tenant@, token_correlation: token_correlation@, surface, operation: operation@, outcome }),
                self.trace_view() == old(self).trace_view().push((tenant@, surface, operation@, outcome)),
                key == (tenant@, surface, outcome),
                i <= self.metrics.len(),
                forall|a: int| 0 <= a < i ==> (#[trigger] before[a]).0 != key,
            decreases self.metrics.len() - i,
        {
            assert(before[i as int] == ((self.metrics@[i as int].0.tenant@, self.metrics@[i as int].0.surface, self.metrics@[i as int].0.outcome), self.metrics@[i as int].1));
            if self.metrics[i].0.tenant.same(tenant) && self.metrics[i].0.surface == surface && self.metrics[i].0.outcome == outcome {
                let count = self.metrics[i].1;
                let next = if count < u64::MAX { count + 1 } else { u64::MAX };
                let (k, _) = self.metrics.remove(i);
                self.metrics.insert(i, (k, next));
                proof {
                    let c = choose|c: int| 0 <= c < before.len() && (#[trigger] before[c]).0 == key;
                    if c != i {
                        if c < i {
                            assert(before[c].0 != key);
                        } else {
                            assert(before[i as int].0 != before[c].0);
                        }
                    }
                    assert(self.counter_view() =~= before.update(i as int, (key, next)));
                }
                return;
            }
            i = i + 1;
        }
        self.metrics.push((MetricKey { tenant: tenant.clone(), surface, outcome }, 1u64));
        proof {
            assert(self.counter_view() =~= before.push((key, 1u64)));
            assert forall|a: int, b: int| 0 <= a < b < self.metrics.len() implies (#[trigger] self.counter_view()[a]).0 != (#[trigger] self.counter_view()[b]).0 by {
                if b < before.len() {
                    assert(before[a].0 != before[b].0);
                }
            }
        }
    }
}

} // verus!
