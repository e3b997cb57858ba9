//! The evidence of a program simulation and its check against the context it was asked in.
use vstd::prelude::*;

use crate::bytes::{fixed_equal, push_all, push_u64, u64_be};
use crate::digest::{sha256, sha256_digest};

verus! {

/// The domain tag of simulation evidence: `LayerX/agent/program-simulation-evidence/v1` and a
/// zero byte.
pub open spec fn simulation_evidence_domain() -> Seq<u8> {
    seq![76u8, 97u8, 121u8, 101u8, 114u8, 88u8, 47u8, 97u8, 103u8, 101u8, 110u8, 116u8, 47u8, 112u8, 114u8, 111u8, 103u8, 114u8, 97u8, 109u8, 45u8, 115u8, 105u8, 109u8, 117u8, 108u8, 97u8, 116u8, 105u8, 111u8, 110u8, 45u8, 101u8, 118u8, 105u8, 100u8, 101u8, 110u8, 99u8, 101u8, 47u8, 118u8, 49u8, 0u8]
}

/// What a simulator attests of one simulated activity.
#[derive(Clone, Debug, PartialEq, Eq)]
pub struct ProgramSimulationEvidence {
    pub boundary_id: [u8; 32],
    pub activity_id: [u8; 32],
    pub previous_state_root: [u8; 32],
    pub hypothetical_state_root: [u8; 32],
    pub observed_sequence: u64,
    pub observed_at: u64,
    pub committed: bool,
}

/// A simulator's raw answer: the receipt, the terminal payload and the call graph it
/// produced, with its evidence and the signature over the evidence.
#[derive(Debug)]
pub struct RawProgramSimulation {
    pub receipt: Vec<u8>,
    pub terminal_payload: Vec<u8>,
    pub call_graph: Vec<u8>,
    pub evidence: ProgramSimulationEvidence,
    pub evidence_signature: [u8; 64],
}

/// The bytes the evidence signature covers: the domain tag, the four identifiers, the
/// sequence and time in big-endian order, and one byte for `committed`.
pub open spec fn simulation_preimage(e: ProgramSimulationEvidence) -> Seq<u8> {
    simulation_evidence_domain() + e.boundary_id@ + e.activity_id@ + e.previous_state_root@
        + e.hypothetical_state_root@ + u64_be(e.observed_sequence) + u64_be(e.observed_at)
        + seq![if e.committed { 1u8 } else { 0u8 }]
}

/// Whether the evidence attests an uncommitted simulation of exactly this context.
pub open spec fn evidence_matches(
    e: ProgramSimulationEvidence,
    boundary_id: [u8; 32],
    activity_id: [u8; 32],
    previous_state_root: [u8; 32],
    hypothetical_state_root: [u8; 32],
    observed_sequence: u64,
    observed_at: u64,
) -> bool {
    &&& !e.committed
    &&& e.boundary_id@ == boundary_id@
    &&& e.activity_id@ == activity_id@
    &&& e.previous_state_root@ == previous_state_root@
    &&& e.hypothetical_state_root@ == hypothetical_state_root@
    &&& e.observed_sequence == observed_sequence
    &&& e.observed_at == observed_at
}

impl ProgramSimulationEvidence {
    /// The SHA-256 digest the evidence signature is made over.
    pub fn signing_digest(&self) -> (r: [u8; 32])
        ensures
            r@ == sha256(simulation_preimage(*self)),
    {
        let domain: [u8; 44] = [76, 97, 121, 101, 114, 88, 47, 97, 103, 101, 110, 116, 47, 112, 114, 111, 103, 114, 97, 109, 45, 115, 105, 109, 117, 108, 97, 116, 105, 111, 110, 45, 101, 118, 105, 100, 101, 110, 99, 101, 47, 118, 49, 0];
        let mut bytes: Vec<u8> = Vec::new();
        push_all(&mut bytes, &domain);
        push_all(&mut bytes, &self.boundary_id);
        push_all(&mut bytes, &self.activity_id);
        push_all(&mut bytes, &self.previous_state_root);
        push_all(&mut bytes, &self.hypothetical_state_root);
        push_u64(&mut bytes, self.observed_sequence);
        push_u64(&mut bytes, self.observed_at);
        bytes.push(if self.committed { 1 } else { 0 });
        assert(domain@ =~= simulation_evidence_domain());
        assert(bytes@ =~= simulation_preimage(*self));
        sha256_digest(bytes.as_slice())
    }

    /// Whether the evidence attests an uncommitted simulation of exactly this context: a
    /// committed claim, or any other boundary, activity, state root, sequence or time, is
    /// refused before the signature is looked at.
    pub fn matches_context(
        &self,
        boundary_id: [u8; 32],
        activity_id: [u8; 32],
        previous_state_root: [u8; 32],
        hypothetical_state_root: [u8; 32],
        observed_sequence: u64,
        observed_at: u64,
    ) -> (r: bool)
        ensures
            r == evidence_matches(
                *self,
                boundary_id,
                activity_id,
                previous_state_root,
                hypothetical_state_root,
                observed_sequence,
                observed_at,
            ),
    {
        !self.committed && fixed_equal(&self.boundary_id, &boundary_id)
            && fixed_equal(&self.activity_id, &activity_id)
            && fixed_equal(&self.previous_state_root, &previous_state_root)
            && fixed_equal(&self.hypothetical_state_root, &hypothetical_state_root)
            && self.observed_sequence == observed_sequence && self.observed_at == observed_at
    }
}

} // verus!
