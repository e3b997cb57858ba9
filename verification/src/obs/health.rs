//! Liveness and write-readiness evaluation.
use vstd::prelude::*;

verus! {

/// Connectivity of the core boundary.
#[derive(Clone, Copy, Debug, PartialEq, Eq, Structural)]
pub enum BoundaryConnectivity {
    Ready,
    Backpressured,
    Unavailable,
    VersionMismatch,
}

/// A reason the daemon runs degraded.
#[derive(Clone, Copy, Debug, PartialEq, Eq, Structural, PartialOrd, Ord)]
pub enum DegradedMode {
    CoreUnavailable,
    CoreBehind,
    CoreHalted,
    Emergency,
    DataUnavailable,
    ReadOnly,
    BudgetDivergence,
}

/// A reason writes are refused, listed in reporting order.
#[derive(Clone, Copy, Debug, PartialEq, Eq, Structural, PartialOrd, Ord)]
pub enum WriteBlocker {
    NotLive,
    BoundaryBackpressured,
    BoundaryUnavailable,
    BoundaryVersionMismatch,
    AuditUnavailable,
    RecoveryIncomplete,
    VerificationBacklog,
    UnknownBacklog,
    Degraded,
}

/// Whether writes may proceed; blockers are listed once each, in declaration order.
#[derive(Clone, Debug, PartialEq, Eq)]
pub enum WriteReadiness {
    Ready,
    NotReady(Vec<WriteBlocker>),
}

/// Everything write readiness depends on.
#[derive(Clone, Debug, PartialEq, Eq)]
pub struct HealthInput {
    pub live: bool,
    pub boundary: BoundaryConnectivity,
    pub audit_writable: bool,
    pub recovery_complete: bool,
    pub verification_backlog: u64,
    pub maximum_verification_backlog: u64,
    pub unknown_backlog: u64,
    pub maximum_unknown_backlog: u64,
    pub degraded_modes: Vec<DegradedMode>,
}

/// Evaluated health.
#[derive(Clone, Debug, PartialEq, Eq)]
pub struct Health {
    pub live: bool,
    pub write_readiness: WriteReadiness,
    pub boundary: BoundaryConnectivity,
    pub verification_backlog: u64,
    pub unknown_backlog: u64,
    pub degraded_modes: Vec<DegradedMode>,
}

/// A refused write with the complete blocker list.
#[derive(Clone, Debug, PartialEq, Eq)]
pub struct WriteRefused {
    pub blockers: Vec<WriteBlocker>,
}

/// Appends `b` when `condition` holds.
pub open spec fn add_if(s: Seq<WriteBlocker>, condition: bool, b: WriteBlocker) -> Seq<WriteBlocker> {
    if condition {
        s.push(b)
    } else {
        s
    }
}

/// Every blocker the input raises, in declaration order.
pub open spec fn blockers_of(input: HealthInput) -> Seq<WriteBlocker> {
    let s0 = add_if(Seq::empty(), !input.live, WriteBlocker::NotLive);
    let s1 = add_if(
        s0,
        input.boundary == BoundaryConnectivity::Backpressured,
        WriteBlocker::BoundaryBackpressured,
    );
    let s2 = add_if(
        s1,
        input.boundary == BoundaryConnectivity::Unavailable,
        WriteBlocker::BoundaryUnavailable,
    );
    let s3 = add_if(
        s2,
        input.boundary == BoundaryConnectivity::VersionMismatch,
        WriteBlocker::BoundaryVersionMismatch,
    );
    let s4 = add_if(s3, !input.audit_writable, WriteBlocker::AuditUnavailable);
    let s5 = add_if(s4, !input.recovery_complete, WriteBlocker::RecoveryIncomplete);
    let s6 = add_if(
        s5,
        input.verification_backlog > input.maximum_verification_backlog,
        WriteBlocker::VerificationBacklog,
    );
    let s7 = add_if(
        s6,
        input.unknown_backlog > input.maximum_unknown_backlog,
        WriteBlocker::UnknownBacklog,
    );
    add_if(s7, input.degraded_modes@.len() > 0, WriteBlocker::Degraded)
}

impl Health {
    /// Admits a write only while readiness carries no blockers.
    ///
    /// # Errors
    ///
    /// Returns the complete blocker list whenever write readiness is `NotReady`.
    pub fn require_write_ready(&self) -> (r: Result<(), WriteRefused>)
        ensures
            match self.write_readiness {
                WriteReadiness::Ready => r is Ok,
                WriteReadiness::NotReady(blockers) => r matches Err(e) && e.blockers@
                    == blockers@,
            },
    {
        match &self.write_readiness {
            WriteReadiness::Ready => Ok(()),
            WriteReadiness::NotReady(blockers) => Err(WriteRefused { blockers: blockers.clone() }),
        }
    }
}

fn push_if(blockers: &mut Vec<WriteBlocker>, condition: bool, b: WriteBlocker)
    ensures
        final(blockers)@ == add_if(old(blockers)@, condition, b),
{
    if condition {
        blockers.push(b);
    }
}

/// Evaluates write readiness: ready exactly when no blocker applies.
pub fn evaluate(input: HealthInput) -> (r: Health)
    ensures
        r.live == input.live,
        r.boundary == input.boundary,
        r.verification_backlog == input.verification_backlog,
        r.unknown_backlog == input.unknown_backlog,
        r.degraded_modes@ == input.degraded_modes@,
        blockers_of(input).len() == 0 ==> r.write_readiness == WriteReadiness::Ready,
        blockers_of(input).len() > 0 ==> (r.write_readiness matches WriteReadiness::NotReady(b) && b@
            == blockers_of(input)),
{
    let mut blockers: Vec<WriteBlocker> = Vec::new();
    push_if(&mut blockers, !input.live, WriteBlocker::NotLive);
    push_if(
        &mut blockers,
        input.boundary == BoundaryConnectivity::Backpressured,
        WriteBlocker::BoundaryBackpressured,
    );
    push_if(
        &mut blockers,
        input.boundary == BoundaryConnectivity::Unavailable,
        WriteBlocker::BoundaryUnavailable,
    );
    push_if(
        &mut blockers,
        input.boundary == BoundaryConnectivity::VersionMismatch,
        WriteBlocker::BoundaryVersionMismatch,
    );
    push_if(&mut blockers, !input.audit_writable, WriteBlocker::AuditUnavailable);
    push_if(&mut blockers, !input.recovery_complete, WriteBlocker::RecoveryIncomplete);
    push_if(
        &mut blockers,
        input.verification_backlog > input.maximum_verification_backlog,
        WriteBlocker::VerificationBacklog,
    );
    push_if(
        &mut blockers,
        input.unknown_backlog > input.maximum_unknown_backlog,
        WriteBlocker::UnknownBacklog,
    );
    push_if(&mut blockers, input.degraded_modes.len() > 0, WriteBlocker::Degraded);
    let ready = blockers.len() == 0;
    Health {
        live: input.live,
        write_readiness: if ready {
            WriteReadiness::Ready
        } else {
            WriteReadiness::NotReady(blockers)
        },
        boundary: input.boundary,
        verification_backlog: input.verification_backlog,
        unknown_backlog: input.unknown_backlog,
        degraded_modes: input.degraded_modes,
    }
}

/// Runs an operation only behind a passing write-readiness check.
///
/// # Errors
///
/// Returns the complete blocker list, without running the operation, whenever write readiness
/// is `NotReady`.
pub fn guard_write<T, F: FnOnce() -> T>(health: &Health, operation: F) -> (r: Result<T, WriteRefused>)
    requires
        call_requires(operation, ()),
    ensures
        match health.write_readiness {
            WriteReadiness::Ready => r matches Ok(v) && call_ensures(operation, (), v),
            WriteReadiness::NotReady(blockers) => r matches Err(e) && e.blockers@ == blockers@,
        },
{
    match health.require_write_ready() {
        Err(refused) => Err(refused),
        Ok(()) => Ok(operation()),
    }
}

} // verus!
