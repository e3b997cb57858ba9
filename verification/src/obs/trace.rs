//! Per-request traces: one span per pipeline stage, entered strictly in stage order.
use vstd::prelude::*;

use crate::bytes::fixed_equal;
use crate::store::TenantId;
use crate::text::{hex_text, to_hex};

verus! {

/// The pipeline stages a request passes through, in order.
#[derive(Clone, Copy, Debug, PartialEq, Eq, Structural)]
pub enum TraceStage {
    Caller,
    Policy,
    Preparation,
    Signing,
    Submission,
    ReceiptResolution,
}

/// The number of pipeline stages.
pub const STAGES: usize = 6;

/// The stage at a position of the pipeline order.
pub open spec fn stage_at(i: int) -> TraceStage {
    if i == 0 {
        TraceStage::Caller
    } else if i == 1 {
        TraceStage::Policy
    } else if i == 2 {
        TraceStage::Preparation
    } else if i == 3 {
        TraceStage::Signing
    } else if i == 4 {
        TraceStage::Submission
    } else {
        TraceStage::ReceiptResolution
    }
}

impl TraceStage {
    /// Every stage, in pipeline order.
    pub const ALL: [TraceStage; 6] = [
        TraceStage::Caller,
        TraceStage::Policy,
        TraceStage::Preparation,
        TraceStage::Signing,
        TraceStage::Submission,
        TraceStage::ReceiptResolution,
    ];

    /// The stage at a pipeline position.
    pub fn at(i: usize) -> (r: TraceStage)
        requires
            i < STAGES,
        ensures
            r == stage_at(i as int),
    {
        match i {
            0 => TraceStage::Caller,
            1 => TraceStage::Policy,
            2 => TraceStage::Preparation,
            3 => TraceStage::Signing,
            4 => TraceStage::Submission,
            _ => TraceStage::ReceiptResolution,
        }
    }
}

/// How a stage ended.
#[derive(Clone, Copy, Debug, PartialEq, Eq, Structural)]
pub enum TraceOutcome {
    Started,
    Allowed,
    Completed,
    Refused,
    Failed,
}

/// The request identifier that ties a trace to its audit entry.
#[derive(Clone, Copy, Debug, PartialEq, Eq)]
pub struct CorrelationId {
    bytes: [u8; 32],
}

impl View for CorrelationId {
    type V = Seq<u8>;

    closed spec fn view(&self) -> Seq<u8> {
        self.bytes@
    }
}

impl CorrelationId {
    /// The 32 identifier bytes.
    pub fn bytes(self) -> (r: [u8; 32])
        ensures
            r@ == self@,
    {
        self.bytes
    }

    /// The identifier as 64 lowercase hexadecimal digits.
    pub fn to_hex(&self) -> (r: String)
        ensures
            r@ == hex_text(self@),
    {
        to_hex(&self.bytes)
    }
}

/// One entered stage.
#[derive(Clone, Copy, Debug, PartialEq, Eq, Structural)]
pub struct Span {
    pub stage: TraceStage,
    pub outcome: TraceOutcome,
}

/// Why a trace operation was refused.
#[derive(Clone, Copy, Debug, PartialEq, Eq, Structural)]
pub enum TraceError {
    StageOutOfOrder,
    TraceIncomplete,
}

/// A request trace for one tenant.
#[derive(Debug)]
pub struct Trace {
    tenant: TenantId,
    correlation_id: CorrelationId,
    spans: Vec<Span>,
}

/// Spans that follow the pipeline order from its first stage.
pub open spec fn in_stage_order(spans: Seq<Span>) -> bool {
    &&& spans.len() <= 6
    &&& forall|i: int| 0 <= i < spans.len() ==> (#[trigger] spans[i]).stage == stage_at(i)
}

impl Trace {
    /// The tenant the trace belongs to.
    pub closed spec fn tenant_view(&self) -> Seq<char> {
        self.tenant@
    }

    /// The correlation bytes.
    pub closed spec fn correlation_view(&self) -> Seq<u8> {
        self.correlation_id@
    }

    /// The spans entered so far.
    pub closed spec fn spans_view(&self) -> Seq<Span> {
        self.spans@
    }

    /// Starts an empty trace for a request.
    pub fn start(tenant: TenantId, request_id: [u8; 32]) -> (r: Trace)
        ensures
            r.tenant_view() == tenant@,
            r.correlation_view() == request_id@,
            r.spans_view() == Seq::<Span>::empty(),
    {
        Trace { tenant, correlation_id: CorrelationId { bytes: request_id }, spans: Vec::new() }
    }

    /// Enters the next stage; any stage other than the next one in order is refused.
    ///
    /// # Errors
    ///
    /// Returns `StageOutOfOrder` when `stage` is not the next pipeline stage.
    pub fn enter(&mut self, stage: TraceStage, outcome: TraceOutcome) -> (r: Result<(), TraceError>)
        ensures
            r is Ok <==> (old(self).spans_view().len() < 6 && stage == stage_at(
                old(self).spans_view().len() as int,
            )),
            r is Ok ==> final(self).spans_view() == old(self).spans_view().push(
                Span { stage, outcome },
            ),
            r matches Err(e) ==> e == TraceError::StageOutOfOrder && final(self).spans_view()
                == old(self).spans_view(),
            final(self).tenant_view() == old(self).tenant_view(),
            final(self).correlation_view() == old(self).correlation_view(),
            in_stage_order(old(self).spans_view()) ==> in_stage_order(final(self).spans_view()),
    {
        let n = self.spans.len();
        if n >= STAGES || TraceStage::at(n) != stage {
            return Err(TraceError::StageOutOfOrder);
        }
        self.spans.push(Span { stage, outcome });
        Ok(())
    }

    /// Completes a trace that has entered every stage.
    ///
    /// # Errors
    ///
    /// Returns `TraceIncomplete` when a stage is missing.
    pub fn finish(self) -> (r: Result<Trace, TraceError>)
        ensures
            r is Ok <==> self.spans_view().len() == 6,
            r matches Ok(t) ==> t.spans_view() == self.spans_view() && t.tenant_view()
                == self.tenant_view() && t.correlation_view() == self.correlation_view(),
            r matches Err(e) ==> e == TraceError::TraceIncomplete,
    {
        if self.spans.len() == STAGES {
            Ok(self)
        } else {
            Err(TraceError::TraceIncomplete)
        }
    }

    /// The tenant the trace belongs to.
    pub fn tenant(&self) -> (r: &TenantId)
        ensures
            r@ == self.tenant_view(),
    {
        &self.tenant
    }

    /// The correlation identifier.
    pub fn correlation_id(&self) -> (r: CorrelationId)
        ensures
            r@ == self.correlation_view(),
    {
        self.correlation_id
    }

    /// The spans entered so far.
    pub fn spans(&self) -> (r: &[Span])
        ensures
            r@ == self.spans_view(),
    {
        self.spans.as_slice()
    }

    /// Whether an audit entry for `tenant` and `request_id` belongs to this trace.
    pub fn correlates(&self, tenant: &TenantId, request_id: &[u8; 32]) -> (r: bool)
        ensures
            r == (self.tenant_view() == tenant@ && self.correlation_view() == request_id@),
    {
        self.tenant.same(tenant) && fixed_equal(&self.correlation_id.bytes, request_id)
    }
}

/// Law: a trace built by `start` and `enter` alone always lists its spans in pipeline order,
/// so a finished trace holds exactly one span per stage, in order.
pub proof fn lemma_finished_trace_complete(spans: Seq<Span>)
    requires
        in_stage_order(spans),
        spans.len() == 6,
    ensures
        forall|i: int| 0 <= i < 6 ==> (#[trigger] spans[i]).stage == stage_at(i),
        forall|i: int, j: int| 0 <= i < j < 6 ==> (#[trigger] spans[i]).stage != (#[trigger] spans[j]).stage,
{
}

} // verus!
