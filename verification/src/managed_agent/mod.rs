//! Durable tenant-owned projection of agents created through the Human plane.
use vstd::prelude::*;

use crate::bytes::{is_zero32, text_bytes};
use crate::managed_agent::codec::{copy_fixeds, copy_u32s, seed_fields};
use crate::policy::clone_texts;

pub mod authority;
pub mod codec;
pub mod fields;
pub mod finalize;
pub mod listing;
pub mod observations;
pub mod records;
pub mod responses;

verus! {

/// The most verified evidence digests an agent carries.
pub const MAX_EVIDENCE: usize = 64;

/// Refusals of managed-agent operations.
#[derive(Debug, PartialEq, Eq, Structural)]
pub enum HumanOperationError {
    Refused,
    Unavailable,
}

/// What the Human plane records when it creates an agent: its identity, budget, custody,
/// recovery, capability and session terms.
#[derive(Debug)]
pub struct HumanAgentLifecycleSeed {
    pub agent_id: String,
    pub name: String,
    pub purpose: String,
    pub currency: String,
    pub monthly_limit: u128,
    pub period_start: u64,
    pub period_end: u64,
    pub created_at: u64,
    pub updated_at: u64,
    pub verified_evidence: Vec<[u8; 32]>,
    pub actor: String,
    pub primary_authority: String,
    pub custody_key: String,
    pub custody_public_key: [u8; 32],
    pub owner_account: String,
    pub budget_account: String,
    pub budget_asset: [u8; 32],
    pub purpose_hash: [u8; 32],
    pub recovery_root: [u8; 32],
    pub recovery_threshold: u16,
    pub capability_id: [u8; 32],
    pub activity_types: Vec<u32>,
    pub counterparties: Vec<[u8; 32]>,
    pub assets: Vec<[u8; 32]>,
    pub amount_ceiling: u128,
    pub rate_maximum_uses: u64,
    pub rate_window_sequences: u64,
    pub purposes: Vec<String>,
    pub capability_expiry_sequence: u64,
    pub session_scopes: Vec<String>,
    pub session_expiry_unix_seconds: u64,
    pub protocol_grant_id: [u8; 32],
    pub budget_period_seconds: u64,
    pub budget_expiry_seconds: u64,
    pub initial_funding: u128,
    pub network_id: u32,
    pub creation_receipt_roots: Vec<[u8; 32]>,
}

/// Evidence that a governance action reached finality.
#[derive(Clone, Copy, Debug, PartialEq, Eq)]
pub struct FinalizationEvidence {
    pub action_key: [u8; 32],
    pub activity_id: [u8; 32],
    pub receipt_digest: [u8; 32],
    pub observed_sequence: u64,
    pub verification: u8,
    pub finalized_at: u64,
}

/// The daemon's record of one managed agent.
#[derive(Debug)]
pub struct ManagedAgent {
    pub agent_id: String,
    pub name: String,
    pub purpose: String,
    pub state: u8,
    pub monthly_limit: u128,
    pub currency: String,
    pub period_start: u64,
    pub period_end: u64,
    pub spent: u128,
    pub created_at: u64,
    pub updated_at: u64,
    pub verified_evidence: Vec<[u8; 32]>,
    pub context: HumanAgentLifecycleSeed,
    pub agent_did: String,
    pub session_id: [u8; 32],
    pub session_token_id: [u8; 32],
    pub protocol_grant_id: [u8; 32],
    pub active_budget_id: [u8; 32],
}

/// Thirty-two zero bytes.
pub open spec fn zero32() -> Seq<u8> {
    Seq::new(32, |_i: int| 0u8)
}

/// Whether a text is empty.
pub open spec fn blank(t: Seq<char>) -> bool {
    text_bytes(t).len() == 0
}

/// Whether some 32-byte value is all zeros.
pub open spec fn has_zero(v: Seq<[u8; 32]>) -> bool {
    exists|i: int| 0 <= i < v.len() && (#[trigger] v[i])@ == zero32()
}

/// Whether a seed's lifecycle terms are complete: every text, key, account and list is
/// present, and every threshold, limit, period and identifier is non-zero.
pub open spec fn context_valid(c: HumanAgentLifecycleSeed) -> bool {
    &&& !blank(c.actor@)
    &&& !blank(c.primary_authority@)
    &&& !blank(c.custody_key@)
    &&& c.custody_public_key@ != zero32()
    &&& !blank(c.owner_account@)
    &&& !blank(c.budget_account@)
    &&& c.budget_asset@ != zero32()
    &&& c.purpose_hash@ != zero32()
    &&& c.recovery_root@ != zero32()
    &&& c.recovery_threshold != 0
    &&& c.capability_id@ != zero32()
    &&& c.activity_types@.len() > 0
    &&& c.counterparties@.len() > 0
    &&& c.assets@.len() > 0
    &&& c.amount_ceiling != 0
    &&& c.rate_maximum_uses != 0
    &&& c.rate_window_sequences != 0
    &&& c.purposes@.len() > 0
    &&& c.capability_expiry_sequence != 0
    &&& c.session_scopes@.len() > 0
    &&& c.session_expiry_unix_seconds != 0
    &&& c.budget_period_seconds != 0
    &&& c.budget_expiry_seconds != 0
    &&& c.initial_funding != 0
    &&& c.network_id != 0
    &&& c.creation_receipt_roots@.len() > 0
}

/// Whether verified evidence is acceptable: between one and 64 digests, none all zeros.
pub open spec fn evidence_valid(v: Seq<[u8; 32]>) -> bool {
    0 < v.len() <= MAX_EVIDENCE && !has_zero(v)
}

/// Whether an agent record is consistent: it has a budget, an identifier, a DID, a bound
/// session and token, names, a known state, a positive limit not overspent, ordered
/// periods and times, acceptable evidence, and complete terms for the same agent.
#[verifier::opaque]
pub open spec fn agent_valid(a: ManagedAgent) -> bool {
    &&& a.active_budget_id@ != zero32()
    &&& !blank(a.agent_id@)
    &&& !blank(a.agent_did@)
    &&& a.session_id@ != zero32()
    &&& a.session_token_id@ != zero32()
    &&& !blank(a.name@)
    &&& !blank(a.purpose@)
    &&& !blank(a.currency@)
    &&& a.state <= 4
    &&& a.monthly_limit != 0
    &&& a.period_end > a.period_start
    &&& a.updated_at >= a.created_at
    &&& a.spent <= a.monthly_limit
    &&& evidence_valid(a.verified_evidence@)
    &&& a.context.agent_id@ == a.agent_id@
    &&& context_valid(a.context)
}

/// Whether a text is empty.
pub fn is_blank(t: &str) -> (r: bool)
    ensures
        r == blank(t@),
{
    t.as_bytes().len() == 0
}

/// Whether some 32-byte value is all zeros.
pub fn any_zero(v: &Vec<[u8; 32]>) -> (r: bool)
    ensures
        r == has_zero(v@),
{
    let mut i: usize = 0;
    while i < v.len()
        invariant
            i <= v@.len(),
            forall|q: int| 0 <= q < i ==> (#[trigger] v@[q])@ != zero32(),
        decreases v@.len() - i,
    {
        if is_zero32(&v[i]) {
            assert(v@[i as int]@ == zero32());
            return true;
        }
        i = i + 1;
    }
    false
}

/// Checks a seed's lifecycle terms.
///
/// # Errors
///
/// `Refused` unless `context_valid` holds.
pub fn validate_context(c: &HumanAgentLifecycleSeed) -> (r: Result<(), HumanOperationError>)
    ensures
        r is Ok <==> context_valid(*c),
        r matches Err(e) ==> e == HumanOperationError::Refused,
{
    if is_blank(c.actor.as_str()) || is_blank(c.primary_authority.as_str()) || is_blank(
        c.custody_key.as_str(),
    ) || is_zero32(&c.custody_public_key) || is_blank(c.owner_account.as_str()) || is_blank(
        c.budget_account.as_str(),
    ) || is_zero32(&c.budget_asset) || is_zero32(&c.purpose_hash) || is_zero32(&c.recovery_root)
        || c.recovery_threshold == 0 || is_zero32(&c.capability_id) || c.activity_types.len() == 0
        || c.counterparties.len() == 0 || c.assets.len() == 0 || c.amount_ceiling == 0
        || c.rate_maximum_uses == 0 || c.rate_window_sequences == 0 || c.purposes.len() == 0
        || c.capability_expiry_sequence == 0 || c.session_scopes.len() == 0
        || c.session_expiry_unix_seconds == 0 || c.budget_period_seconds == 0
        || c.budget_expiry_seconds == 0 || c.initial_funding == 0 || c.network_id == 0
        || c.creation_receipt_roots.len() == 0 {
        return Err(HumanOperationError::Refused);
    }
    Ok(())
}

impl ManagedAgent {
    /// Checks the record's consistency.
    ///
    /// # Errors
    ///
    /// `Refused` unless `agent_valid` holds.
    pub fn validate(&self) -> (r: Result<(), HumanOperationError>)
        ensures
            r is Ok <==> agent_valid(*self),
            r matches Err(e) ==> e == HumanOperationError::Refused,
    {
        proof {
            reveal(agent_valid);
        }
        if is_zero32(&self.active_budget_id) {
            return Err(HumanOperationError::Refused);
        }
        if is_blank(self.agent_id.as_str()) || is_blank(self.agent_did.as_str()) || is_zero32(
            &self.session_id,
        ) || is_zero32(&self.session_token_id) || is_blank(self.name.as_str()) || is_blank(
            self.purpose.as_str(),
        ) || is_blank(self.currency.as_str()) || self.state > 4 || self.monthly_limit == 0
            || self.period_end <= self.period_start || self.updated_at < self.created_at
            || self.spent > self.monthly_limit || self.verified_evidence.len() == 0
            || self.verified_evidence.len() > MAX_EVIDENCE || any_zero(&self.verified_evidence)
            || !crate::text::same_text(self.context.agent_id.as_str(), self.agent_id.as_str()) {
            return Err(HumanOperationError::Refused);
        }
        validate_context(&self.context)
    }
}

/// The value of a lowercase hexadecimal digit.
pub open spec fn hex_value(c: u8) -> Option<u8> {
    if 48 <= c <= 57 {
        Some((c - 48) as u8)
    } else if 97 <= c <= 102 {
        Some((c - 87) as u8)
    } else {
        None
    }
}

/// The digest an agent identifier names: `agt_` and 64 lowercase hexadecimal digits, not
/// all zero.
pub open spec fn agent_digest(t: Seq<char>) -> Option<Seq<u8>> {
    let b = text_bytes(t);
    if b.len() != 68 || b.take(4) != seq![97u8, 103u8, 116u8, 95u8] || !(forall|i: int|
        4 <= i < 68 ==> #[trigger] hex_value(b[i]) is Some) {
        None
    } else {
        let d = Seq::new(
            32,
            |i: int| (hex_value(b[4 + 2 * i])->Some_0 * 16 + hex_value(b[5 + 2 * i])->Some_0) as u8,
        );
        if d == zero32() {
            None
        } else {
            Some(d)
        }
    }
}

fn hex_digit_value(c: u8) -> (r: Option<u8>)
    ensures
        r == hex_value(c),
{
    if 48 <= c && c <= 57 {
        Some(c - 48)
    } else if 97 <= c && c <= 102 {
        Some(c - 87)
    } else {
        None
    }
}

/// Reads the digest an agent identifier names.
///
/// # Errors
///
/// `Refused` unless `agent_digest` names one.
pub fn parse_agent_digest(value: &str) -> (r: Result<[u8; 32], HumanOperationError>)
    ensures
        match agent_digest(value@) {
            None => r == Err::<[u8; 32], HumanOperationError>(HumanOperationError::Refused),
            Some(d) => r matches Ok(x) && x@ == d,
        },
{
    let b = value.as_bytes();
    if b.len() != 68 || b[0] != 97 || b[1] != 103 || b[2] != 116 || b[3] != 95 {
        proof {
            if b@.len() == 68 && b@.take(4) == seq![97u8, 103u8, 116u8, 95u8] {
                assert(b@[0] == b@.take(4)[0] && b@[1] == b@.take(4)[1]);
                assert(b@[2] == b@.take(4)[2] && b@[3] == b@.take(4)[3]);
            }
        }
        return Err(HumanOperationError::Refused);
    }
    assert(b@.take(4) =~= seq![97u8, 103u8, 116u8, 95u8]);
    let mut out = [0u8; 32];
    let mut i: usize = 0;
    while i < 32
        invariant
            i <= 32,
            b@.len() == 68,
            b@ == text_bytes(value@),
            out@.len() == 32,
            forall|k: int| 4 <= k < 4 + 2 * i ==> #[trigger] hex_value(b@[k]) is Some,
            forall|k: int|
                0 <= k < i ==> out@[k] == (hex_value(b@[4 + 2 * k])->Some_0 * 16 + hex_value(
                    b@[5 + 2 * k],
                )->Some_0) as u8,
        decreases 32 - i,
    {
        let hi = match hex_digit_value(b[4 + 2 * i]) {
            Some(x) => x,
            None => {
                assert(!(hex_value(b@[4 + 2 * i]) is Some));
                return Err(HumanOperationError::Refused);
            },
        };
        let lo = match hex_digit_value(b[5 + 2 * i]) {
            Some(x) => x,
            None => {
                assert(!(hex_value(b@[5 + 2 * i]) is Some));
                return Err(HumanOperationError::Refused);
            },
        };
        out[i] = hi * 16 + lo;
        i = i + 1;
    }
    let ghost d = Seq::new(
        32,
        |k: int| (hex_value(b@[4 + 2 * k])->Some_0 * 16 + hex_value(b@[5 + 2 * k])->Some_0) as u8,
    );
    assert(out@ =~= d);
    if is_zero32(&out) {
        return Err(HumanOperationError::Refused);
    }
    Ok(out)
}

/// A copy of a lifecycle seed.
pub fn clone_seed(c: &HumanAgentLifecycleSeed) -> (r: HumanAgentLifecycleSeed)
    ensures
        seed_fields(r) == seed_fields(*c),
{
    proof {
        reveal(seed_fields);
    }
    let r = HumanAgentLifecycleSeed {
        agent_id: c.agent_id.clone(),
        name: c.name.clone(),
        purpose: c.purpose.clone(),
        currency: c.currency.clone(),
        monthly_limit: c.monthly_limit,
        period_start: c.period_start,
        period_end: c.period_end,
        created_at: c.created_at,
        updated_at: c.updated_at,
        verified_evidence: copy_fixeds(&c.verified_evidence),
        actor: c.actor.clone(),
        primary_authority: c.primary_authority.clone(),
        custody_key: c.custody_key.clone(),
        custody_public_key: c.custody_public_key,
        owner_account: c.owner_account.clone(),
        budget_account: c.budget_account.clone(),
        budget_asset: c.budget_asset,
        purpose_hash: c.purpose_hash,
        recovery_root: c.recovery_root,
        recovery_threshold: c.recovery_threshold,
        capability_id: c.capability_id,
        activity_types: copy_u32s(&c.activity_types),
        counterparties: copy_fixeds(&c.counterparties),
        assets: copy_fixeds(&c.assets),
        amount_ceiling: c.amount_ceiling,
        rate_maximum_uses: c.rate_maximum_uses,
        rate_window_sequences: c.rate_window_sequences,
        purposes: clone_texts(&c.purposes),
        capability_expiry_sequence: c.capability_expiry_sequence,
        session_scopes: clone_texts(&c.session_scopes),
        session_expiry_unix_seconds: c.session_expiry_unix_seconds,
        protocol_grant_id: c.protocol_grant_id,
        budget_period_seconds: c.budget_period_seconds,
        budget_expiry_seconds: c.budget_expiry_seconds,
        initial_funding: c.initial_funding,
        network_id: c.network_id,
        creation_receipt_roots: copy_fixeds(&c.creation_receipt_roots),
    };
    assert(seed_fields(r) =~= seed_fields(*c));
    r
}

/// Whether creation refuses a seed before its terms are checked: an installed agent DID, a
/// session, a token, an identifier, names, a positive limit, ordered periods and times and
/// acceptable evidence are all required.
pub open spec fn creation_refused(
    seed: HumanAgentLifecycleSeed,
    installed_agent: Seq<char>,
    session_id: Seq<u8>,
    session_token_id: Seq<u8>,
) -> bool {
    ||| blank(installed_agent)
    ||| session_id == zero32()
    ||| session_token_id == zero32()
    ||| blank(seed.agent_id@)
    ||| blank(seed.name@)
    ||| blank(seed.purpose@)
    ||| blank(seed.currency@)
    ||| seed.monthly_limit == 0
    ||| seed.period_end <= seed.period_start
    ||| seed.updated_at < seed.created_at
    ||| !evidence_valid(seed.verified_evidence@)
}

impl ManagedAgent {
    /// The record of an agent the Human plane just created: active, nothing spent, bound to
    /// the installed DID, session and token, its budget named by its identifier.
    ///
    /// # Errors
    ///
    /// `Refused` when `creation_refused` holds, the seed's terms are incomplete, or the
    /// identifier names no digest.
    pub fn from_creation(
        seed: &HumanAgentLifecycleSeed,
        installed_agent: &str,
        session_id: [u8; 32],
        session_token_id: [u8; 32],
    ) -> (r: Result<Self, HumanOperationError>)
        ensures
            r is Ok <==> !creation_refused(*seed, installed_agent@, session_id@, session_token_id@)
                && context_valid(*seed) && agent_digest(seed.agent_id@) is Some,
            r matches Err(e) ==> e == HumanOperationError::Refused,
            r matches Ok(a) ==> {
                &&& a.agent_id@ == seed.agent_id@
                &&& a.name@ == seed.name@
                &&& a.purpose@ == seed.purpose@
                &&& a.state == 1
                &&& a.monthly_limit == seed.monthly_limit
                &&& a.currency@ == seed.currency@
                &&& a.period_start == seed.period_start
                &&& a.period_end == seed.period_end
                &&& a.spent == 0
                &&& a.created_at == seed.created_at
                &&& a.updated_at == seed.updated_at
                &&& a.verified_evidence@ == seed.verified_evidence@
                &&& seed_fields(a.context) == seed_fields(*seed)
                &&& a.agent_did@ == installed_agent@
                &&& a.session_id == session_id
                &&& a.session_token_id == session_token_id
                &&& a.protocol_grant_id == seed.protocol_grant_id
                &&& a.active_budget_id@ == agent_digest(seed.agent_id@)->Some_0
            },
    {
        if is_blank(installed_agent) || is_zero32(&session_id) || is_zero32(&session_token_id)
            || is_blank(seed.agent_id.as_str()) || is_blank(seed.name.as_str()) || is_blank(
            seed.purpose.as_str(),
        ) || is_blank(seed.currency.as_str()) || seed.monthly_limit == 0 || seed.period_end
            <= seed.period_start || seed.updated_at < seed.created_at
            || seed.verified_evidence.len() == 0 || seed.verified_evidence.len() > MAX_EVIDENCE
            || any_zero(&seed.verified_evidence) {
            return Err(HumanOperationError::Refused);
        }
        validate_context(seed)?;
        let active_budget_id = parse_agent_digest(seed.agent_id.as_str())?;
        Ok(
            ManagedAgent {
                agent_id: seed.agent_id.clone(),
                name: seed.name.clone(),
                purpose: seed.purpose.clone(),
                state: 1,
                monthly_limit: seed.monthly_limit,
                currency: seed.currency.clone(),
                period_start: seed.period_start,
                period_end: seed.period_end,
                spent: 0,
                created_at: seed.created_at,
                updated_at: seed.updated_at,
                verified_evidence: copy_fixeds(&seed.verified_evidence),
                context: clone_seed(seed),
                agent_did: installed_agent.to_string(),
                session_id,
                session_token_id,
                protocol_grant_id: seed.protocol_grant_id,
                active_budget_id,
            },
        )
    }
}

} // verus!
