//! Pure, bounded policy evaluation.
//!
//! Rules are visited in the order of their identifiers (byte-wise, ties kept in set order).
//! An explicit deny wins over a permit that still needs approval, which wins over a plain
//! permit; with none of them the request is denied. Every failure denies.
use vstd::prelude::*;

use crate::bytes::{
    compare_bytes, fixed_equal, lemma_lex_asymmetric, lemma_lex_irreflexive, lemma_lex_total,
    lemma_lex_transitive, lex_lt, text_bytes, Precedence,
};
use crate::policy::types::{PolicyRequest, RuleEffect, SequenceWindow};
use crate::policy::{texts, opt_text, Decision, DecisionReason, DecisionView, Outcome};
use crate::session::SessionId;
use crate::store::TenantId;

verus! {

/// Every constraint supported by the policy vocabulary; an empty list admits anything.
#[derive(Debug)]
pub struct RuleConstraints {
    pub activity_types: Vec<u16>,
    pub counterparties: Vec<[u8; 32]>,
    pub assets: Vec<[u8; 32]>,
    pub maximum_amount: Option<u128>,
    pub maximum_cumulative_amount: Option<u128>,
    pub maximum_cumulative_count: Option<u64>,
    pub purposes: Vec<String>,
    pub capability_ids: Vec<[u8; 32]>,
    pub session_ids: Vec<SessionId>,
    pub agents: Vec<String>,
    pub tenants: Vec<TenantId>,
    pub sequence_window: Option<SequenceWindow>,
    pub required_approval: bool,
}

impl RuleConstraints {
    /// Constraints that admit every request and need no approval.
    pub fn unconstrained() -> (r: Self)
        ensures
            r.activity_types@.len() == 0,
            r.counterparties@.len() == 0,
            r.assets@.len() == 0,
            r.maximum_amount is None,
            r.maximum_cumulative_amount is None,
            r.maximum_cumulative_count is None,
            r.purposes@.len() == 0,
            r.capability_ids@.len() == 0,
            r.session_ids@.len() == 0,
            r.agents@.len() == 0,
            r.tenants@.len() == 0,
            r.sequence_window is None,
            !r.required_approval,
    {
        RuleConstraints {
            activity_types: Vec::new(),
            counterparties: Vec::new(),
            assets: Vec::new(),
            maximum_amount: None,
            maximum_cumulative_amount: None,
            maximum_cumulative_count: None,
            purposes: Vec::new(),
            capability_ids: Vec::new(),
            session_ids: Vec::new(),
            agents: Vec::new(),
            tenants: Vec::new(),
            sequence_window: None,
            required_approval: false,
        }
    }
}

/// One named deterministic policy rule.
#[derive(Debug)]
pub struct Rule {
    pub id: String,
    pub effect: RuleEffect,
    pub constraints: RuleConstraints,
}

/// Loaded immutable policy version.
#[derive(Debug)]
pub struct PolicySet {
    pub version: String,
    pub rules: Vec<Rule>,
    pub evaluation_step_limit: u64,
}

/// The session a request arrives on, as policy sees it.
#[derive(Debug)]
pub struct PolicySession {
    pub session_id: SessionId,
    pub agent: String,
    pub tenant: TenantId,
    pub policy_version: String,
    pub open: bool,
}

/// The capability a request is made under, with the capability check's own verdict on the
/// prepared intent.
#[derive(Debug)]
pub struct PolicyCapability {
    pub id: [u8; 32],
    pub tenant: TenantId,
    pub permits_intent: bool,
}

/// Inputs admitted to deterministic local evaluation. Without a remaining protocol budget
/// issued by reconciliation, evaluation denies with `InvalidContext`.
#[derive(Debug)]
pub struct EvaluationInput {
    pub request: PolicyRequest,
    pub session: PolicySession,
    pub capability: PolicyCapability,
    pub verified_budget_remaining: Option<u128>,
}

impl EvaluationInput {
    /// An input with no canonical protocol-budget authority.
    pub fn without_protocol_budget(
        request: PolicyRequest,
        session: PolicySession,
        capability: PolicyCapability,
    ) -> (r: Self)
        ensures
            r.request == request,
            r.session == session,
            r.capability == capability,
            r.verified_budget_remaining is None,
    {
        EvaluationInput { request, session, capability, verified_budget_remaining: None }
    }

    /// Binds the remaining budget issued by protocol-budget reconciliation.
    pub fn with_verified_protocol_budget(
        request: PolicyRequest,
        session: PolicySession,
        capability: PolicyCapability,
        remaining: u128,
    ) -> (r: Self)
        ensures
            r.request == request,
            r.session == session,
            r.capability == capability,
            r.verified_budget_remaining == Some(remaining),
    {
        EvaluationInput { request, session, capability, verified_budget_remaining: Some(remaining) }
    }
}

/// Whether a 32-byte value occurs in a list.
pub open spec fn has_fixed(v: Seq<[u8; 32]>, x: [u8; 32]) -> bool {
    exists|i: int| 0 <= i < v.len() && (#[trigger] v[i])@ == x@
}

/// Whether a session identifier occurs in a list.
pub open spec fn has_session(v: Seq<SessionId>, x: SessionId) -> bool {
    exists|i: int| 0 <= i < v.len() && (#[trigger] v[i]).0@ == x.0@
}

/// The identifiers held by a list of tenants.
pub open spec fn tenant_texts(v: Seq<TenantId>) -> Seq<Seq<char>> {
    v.map_values(|t: TenantId| t@)
}

/// Whether every constraint of a rule admits the input.
pub open spec fn admits(c: RuleConstraints, input: EvaluationInput) -> bool {
    let request = input.request;
    &&& (c.activity_types@.len() == 0 || c.activity_types@.contains(request.activity_type))
    &&& (c.counterparties@.len() == 0 || has_fixed(c.counterparties@, request.counterparty))
    &&& (c.assets@.len() == 0 || has_fixed(c.assets@, request.asset))
    &&& (c.maximum_amount matches Some(m) ==> (request.amount <= m))
    &&& (c.maximum_cumulative_amount matches Some(m) ==> (request.cumulative_amount <= m))
    &&& (c.maximum_cumulative_count matches Some(m) ==> (request.cumulative_count <= m))
    &&& (c.purposes@.len() == 0 || texts(c.purposes@).contains(request.purpose@))
    &&& (c.capability_ids@.len() == 0 || has_fixed(c.capability_ids@, input.capability.id))
    &&& (c.session_ids@.len() == 0 || has_session(c.session_ids@, input.session.session_id))
    &&& (c.agents@.len() == 0 || texts(c.agents@).contains(input.session.agent@))
    &&& (c.tenants@.len() == 0 || tenant_texts(c.tenants@).contains(input.session.tenant@))
    &&& (c.sequence_window matches Some(w) ==> (w.first <= request.core_sequence
        && request.core_sequence <= w.last))
}

/// Whether evaluation may proceed: a verified budget covering the amount, a non-empty policy
/// version equal to the session's, an open session, the capability in the session's tenant,
/// and the capability check permitting the intent.
pub open spec fn valid_context(policy: PolicySet, input: EvaluationInput) -> bool {
    &&& input.verified_budget_remaining matches Some(remaining)
    &&& input.request.amount <= remaining
    &&& policy.version@.len() > 0
    &&& policy.version@ == input.session.policy_version@
    &&& input.session.open
    &&& input.session.tenant@ == input.capability.tenant@
    &&& input.capability.permits_intent
}

/// Evaluation fails when the rules exceed the step limit or a rule has an empty identifier.
pub open spec fn evaluation_fails(policy: PolicySet) -> bool {
    ||| policy.rules@.len() > policy.evaluation_step_limit
    ||| exists|k: int| 0 <= k < policy.rules@.len() && (#[trigger] policy.rules@[k]).id@.len() == 0
}

/// The identifier bytes of rule `i`.
pub open spec fn rule_key(rules: Seq<Rule>, i: int) -> Seq<u8> {
    text_bytes(rules[i].id@)
}

/// Rule `i` is visited before rule `j`: smaller identifier, or the same identifier earlier in
/// the set.
pub open spec fn visited_before(rules: Seq<Rule>, i: int, j: int) -> bool {
    ||| lex_lt(rule_key(rules, i), rule_key(rules, j))
    ||| (rule_key(rules, i) == rule_key(rules, j) && i < j)
}

/// `order` lists distinct rule positions below `bound` in visiting order.
pub open spec fn ordered_below(rules: Seq<Rule>, order: Seq<usize>, bound: int) -> bool {
    &&& forall|k: int| 0 <= k < order.len() ==> #[trigger] order[k] < bound
    &&& forall|i: int, j: int|
        #![trigger order[i], order[j]]
        0 <= i < j < order.len() ==> visited_before(rules, order[i] as int, order[j] as int)
}

/// `order` is the visiting order of all the rules.
pub open spec fn visiting_order(rules: Seq<Rule>, order: Seq<usize>) -> bool {
    order.len() == rules.len() && ordered_below(rules, order, rules.len() as int)
}

/// The rules in the given order.
pub open spec fn in_order(rules: Seq<Rule>, order: Seq<usize>) -> Seq<Rule> {
    Seq::new(order.len(), |k: int| rules[order[k] as int])
}

/// A matching permit rule still waits for an approval that the request lacks.
pub open spec fn awaits_approval(rule: Rule, input: EvaluationInput) -> bool {
    rule.constraints.required_approval && !input.request.approval_present
}

/// Identifiers of the matching rules, in order.
pub open spec fn matched_ids(rules: Seq<Rule>, input: EvaluationInput) -> Seq<Seq<char>>
    decreases rules.len(),
{
    if rules.len() == 0 {
        Seq::empty()
    } else {
        let before = matched_ids(rules.drop_last(), input);
        if admits(rules.last().constraints, input) {
            before.push(rules.last().id@)
        } else {
            before
        }
    }
}

/// Which matching rules a selection looks for.
pub enum Selection {
    Denying,
    AwaitingApproval,
    Permitting,
}

/// Whether a matching rule belongs to a selection.
pub open spec fn selected(rule: Rule, input: EvaluationInput, which: Selection) -> bool {
    admits(rule.constraints, input) && match which {
        Selection::Denying => rule.effect == RuleEffect::Deny,
        Selection::AwaitingApproval => rule.effect == RuleEffect::Permit && awaits_approval(
            rule,
            input,
        ),
        Selection::Permitting => rule.effect == RuleEffect::Permit && !awaits_approval(rule, input),
    }
}

/// The identifier of the first matching rule of a selection, in order.
pub open spec fn first_selected(rules: Seq<Rule>, input: EvaluationInput, which: Selection) -> Option<
    Seq<char>,
>
    decreases rules.len(),
{
    if rules.len() == 0 {
        None
    } else {
        match first_selected(rules.drop_last(), input, which) {
            Some(id) => Some(id),
            None => if selected(rules.last(), input, which) {
                Some(rules.last().id@)
            } else {
                None
            },
        }
    }
}

/// A denial that matched nothing.
pub open spec fn denial(version: Seq<char>, reason: DecisionReason) -> DecisionView {
    DecisionView {
        outcome: Outcome::Deny,
        policy_version: version,
        matched_rules: Seq::empty(),
        deciding_rule: None,
        reason,
    }
}

/// The decision for rules already in visiting order.
pub open spec fn decided_in_order(version: Seq<char>, rules: Seq<Rule>, input: EvaluationInput) -> DecisionView {
    let matched = matched_ids(rules, input);
    let (outcome, deciding_rule, reason) = if first_selected(rules, input, Selection::Denying) is Some {
        (Outcome::Deny, first_selected(rules, input, Selection::Denying), DecisionReason::ExplicitDeny)
    } else if first_selected(rules, input, Selection::AwaitingApproval) is Some {
        (
            Outcome::Deny,
            first_selected(rules, input, Selection::AwaitingApproval),
            DecisionReason::ApprovalRequired,
        )
    } else if first_selected(rules, input, Selection::Permitting) is Some {
        (Outcome::Allow, first_selected(rules, input, Selection::Permitting), DecisionReason::PermittedByRule)
    } else {
        (Outcome::Deny, None, DecisionReason::NoPermittingRule)
    };
    DecisionView { outcome, policy_version: version, matched_rules: matched, deciding_rule, reason }
}

/// The decision of a policy on an input, given the visiting order of its rules.
pub open spec fn decided(policy: PolicySet, input: EvaluationInput, order: Seq<usize>) -> DecisionView {
    if !valid_context(policy, input) {
        denial(policy.version@, DecisionReason::InvalidContext)
    } else if evaluation_fails(policy) {
        denial(policy.version@, DecisionReason::EvaluationFailure)
    } else {
        decided_in_order(policy.version@, in_order(policy.rules@, order), input)
    }
}

proof fn lemma_insert_ordered(rules: Seq<Rule>, order: Seq<usize>, k: usize, p: int)
    requires
        k < rules.len(),
        order.len() == k,
        ordered_below(rules, order, k as int),
        0 <= p <= order.len(),
        forall|q: int| 0 <= q < p ==> !lex_lt(rule_key(rules, k as int), #[trigger] rule_key(rules, order[q] as int)),
        p < order.len() ==> lex_lt(rule_key(rules, k as int), rule_key(rules, order[p] as int)),
    ensures
        ordered_below(rules, order.insert(p, k), k + 1),
{
    let next = order.insert(p, k);
    let kk = k as int;
    assert forall|i: int, j: int| 0 <= i < j < next.len() implies visited_before(
        rules,
        #[trigger] next[i] as int,
        #[trigger] next[j] as int,
    ) by {
        if j < p {
            assert(next[i] == order[i] && next[j] == order[j]);
        } else if j == p {
            assert(next[i] == order[i]);
            assert(next[j] == k);
            lemma_lex_total(rule_key(rules, order[i] as int), rule_key(rules, kk));
            assert(!lex_lt(rule_key(rules, kk), rule_key(rules, order[i] as int)));
            assert(order[i] < k);
        } else if i == p {
            assert(next[i] == k);
            assert(next[j] == order[j - 1]);
            let first = rule_key(rules, order[p] as int);
            let other = rule_key(rules, order[j - 1] as int);
            if j - 1 > p {
                assert(visited_before(rules, order[p] as int, order[j - 1] as int));
                if lex_lt(first, other) {
                    lemma_lex_transitive(rule_key(rules, kk), first, other);
                }
            }
        } else if i < p {
            assert(next[i] == order[i]);
            assert(next[j] == order[j - 1]);
        } else {
            assert(next[i] == order[i - 1]);
            assert(next[j] == order[j - 1]);
        }
    }
    assert forall|q: int| 0 <= q < next.len() implies #[trigger] next[q] < k + 1 by {
        if q < p {
            assert(next[q] == order[q]);
        } else if q > p {
            assert(next[q] == order[q - 1]);
        }
    }
}

proof fn lemma_before_asymmetric(rules: Seq<Rule>, a: int, b: int)
    ensures
        !(visited_before(rules, a, b) && visited_before(rules, b, a)),
        !visited_before(rules, a, a),
{
    lemma_lex_asymmetric(rule_key(rules, a), rule_key(rules, b));
    lemma_lex_irreflexive(rule_key(rules, a));
}

proof fn lemma_order_covers(rules: Seq<Rule>, order: Seq<usize>)
    requires
        visiting_order(rules, order),
    ensures
        forall|x: usize| x < rules.len() ==> #[trigger] order.contains(x),
{
    broadcast use vstd::seq_lib::seq_to_set_is_finite;

    let n = rules.len() as int;
    let ints = order.map_values(|v: usize| v as int);
    assert(ints.no_duplicates()) by {
        assert forall|i: int, j: int| 0 <= i < ints.len() && 0 <= j < ints.len() && i != j implies ints[i] != ints[j] by {
            if i < j {
                lemma_before_asymmetric(rules, order[i] as int, order[j] as int);
                assert(visited_before(rules, order[i] as int, order[j] as int));
            } else {
                lemma_before_asymmetric(rules, order[j] as int, order[i] as int);
                assert(visited_before(rules, order[j] as int, order[i] as int));
            }
        }
    }
    ints.unique_seq_to_set();
    vstd::set_lib::lemma_int_range(0, n);
    assert(ints.to_set().subset_of(vstd::set_lib::set_int_range(0, n))) by {
        assert forall|x: int| ints.to_set().contains(x) implies vstd::set_lib::set_int_range(0, n).contains(x) by {
            let k = choose|k: int| 0 <= k < ints.len() && ints[k] == x;
            assert(order[k] < n);
        }
    }
    vstd::set_lib::lemma_subset_equality(ints.to_set(), vstd::set_lib::set_int_range(0, n));
    assert forall|x: usize| x < rules.len() implies #[trigger] order.contains(x) by {
        assert(vstd::set_lib::set_int_range(0, n).contains(x as int));
        assert(ints.to_set().contains(x as int));
        let k = choose|k: int| 0 <= k < ints.len() && ints[k] == x as int;
        assert(order[k] == x);
    }
}

proof fn lemma_orders_agree(rules: Seq<Rule>, o1: Seq<usize>, o2: Seq<usize>, i: int)
    requires
        visiting_order(rules, o1),
        visiting_order(rules, o2),
        0 <= i <= o1.len(),
    ensures
        forall|k: int| 0 <= k < i ==> o1[k] == o2[k],
    decreases i,
{
    if i > 0 {
        lemma_orders_agree(rules, o1, o2, i - 1);
        let m = i - 1;
        let a = o1[m] as int;
        let b = o2[m] as int;
        if a != b {
            lemma_order_covers(rules, o1);
            lemma_order_covers(rules, o2);
            assert(o1.contains(o2[m]));
            assert(o2.contains(o1[m]));
            let j = choose|k: int| 0 <= k < o1.len() && o1[k] == o2[m];
            let jj = choose|k: int| 0 <= k < o2.len() && o2[k] == o1[m];
            if j < m {
                assert(o2[j] == b);
                lemma_before_asymmetric(rules, b, b);
                assert(visited_before(rules, o2[j] as int, o2[m] as int));
            }
            if jj < m {
                assert(o1[jj] == a);
                lemma_before_asymmetric(rules, a, a);
                assert(visited_before(rules, o1[jj] as int, o1[m] as int));
            }
            assert(visited_before(rules, o1[m] as int, o1[j] as int));
            assert(visited_before(rules, o2[m] as int, o2[jj] as int));
            lemma_before_asymmetric(rules, a, b);
        }
    }
}

/// A policy's rules have exactly one visiting order, so evaluation is deterministic.
pub proof fn lemma_visiting_order_unique(rules: Seq<Rule>, o1: Seq<usize>, o2: Seq<usize>)
    requires
        visiting_order(rules, o1),
        visiting_order(rules, o2),
    ensures
        o1 == o2,
{
    lemma_orders_agree(rules, o1, o2, o1.len() as int);
    assert(o1 =~= o2);
}

/// The visiting order of a policy's rules.
pub open spec fn the_visiting_order(rules: Seq<Rule>) -> Seq<usize> {
    choose|order: Seq<usize>| visiting_order(rules, order)
}

/// The decision of a policy on an input.
pub open spec fn evaluation(policy: PolicySet, input: EvaluationInput) -> DecisionView {
    decided(policy, input, the_visiting_order(policy.rules@))
}

fn insert_position(rules: &Vec<Rule>, order: &Vec<usize>, k: usize) -> (p: usize)
    requires
        k < rules@.len(),
        order@.len() == k,
        ordered_below(rules@, order@, k as int),
    ensures
        p <= order@.len(),
        forall|q: int| 0 <= q < p ==> !lex_lt(rule_key(rules@, k as int), #[trigger] rule_key(rules@, order@[q] as int)),
        p < order@.len() ==> lex_lt(rule_key(rules@, k as int), rule_key(rules@, order@[p as int] as int)),
{
    let key = rules[k].id.as_str().as_bytes();
    let mut p: usize = 0;
    while p < order.len()
        invariant
            p <= order@.len(),
            order@.len() == k,
            k < rules@.len(),
            ordered_below(rules@, order@, k as int),
            key@ == rule_key(rules@, k as int),
            forall|q: int| 0 <= q < p ==> !lex_lt(rule_key(rules@, k as int), #[trigger] rule_key(rules@, order@[q] as int)),
        decreases order@.len() - p,
    {
        let o = order[p];
        assert(order@[p as int] < k);
        let other = rules[o].id.as_str().as_bytes();
        match compare_bytes(key, other) {
            Precedence::Before => {
                return p;
            },
            _ => {},
        }
        p = p + 1;
    }
    p
}

/// The visiting order of a policy's rules: by identifier bytes, ties in set order.
pub fn rule_order(rules: &Vec<Rule>) -> (order: Vec<usize>)
    ensures
        visiting_order(rules@, order@),
{
    let mut order: Vec<usize> = Vec::new();
    let mut k: usize = 0;
    while k < rules.len()
        invariant
            k <= rules@.len(),
            order@.len() == k,
            ordered_below(rules@, order@, k as int),
        decreases rules@.len() - k,
    {
        let p = insert_position(rules, &order, k);
        proof {
            lemma_insert_ordered(rules@, order@, k, p as int);
        }
        order.insert(p, k);
        k = k + 1;
    }
    order
}

fn has_u16(v: &Vec<u16>, x: u16) -> (r: bool)
    ensures
        r == v@.contains(x),
{
    let mut i: usize = 0;
    while i < v.len()
        invariant
            i <= v@.len(),
            forall|q: int| 0 <= q < i ==> v@[q] != x,
        decreases v@.len() - i,
    {
        if v[i] == x {
            return true;
        }
        i = i + 1;
    }
    false
}

fn has_fixed_exec(v: &Vec<[u8; 32]>, x: &[u8; 32]) -> (r: bool)
    ensures
        r == has_fixed(v@, *x),
{
    let mut i: usize = 0;
    while i < v.len()
        invariant
            i <= v@.len(),
            forall|q: int| 0 <= q < i ==> (#[trigger] v@[q])@ != x@,
        decreases v@.len() - i,
    {
        if fixed_equal(&v[i], x) {
            return true;
        }
        i = i + 1;
    }
    false
}

fn has_session_exec(v: &Vec<SessionId>, x: &SessionId) -> (r: bool)
    ensures
        r == has_session(v@, *x),
{
    let mut i: usize = 0;
    while i < v.len()
        invariant
            i <= v@.len(),
            forall|q: int| 0 <= q < i ==> (#[trigger] v@[q]).0@ != x.0@,
        decreases v@.len() - i,
    {
        if fixed_equal(&v[i].0, &x.0) {
            return true;
        }
        i = i + 1;
    }
    false
}

fn has_text(v: &Vec<String>, x: &String) -> (r: bool)
    ensures
        r == texts(v@).contains(x@),
{
    let mut i: usize = 0;
    while i < v.len()
        invariant
            i <= v@.len(),
            forall|q: int| 0 <= q < i ==> (#[trigger] v@[q])@ != x@,
        decreases v@.len() - i,
    {
        if v[i] == *x {
            assert(texts(v@)[i as int] == x@);
            return true;
        }
        i = i + 1;
    }
    assert forall|q: int| 0 <= q < texts(v@).len() implies texts(v@)[q] != x@ by {
        assert(texts(v@)[q] == v@[q]@);
    }
    false
}

fn has_tenant(v: &Vec<TenantId>, x: &TenantId) -> (r: bool)
    ensures
        r == tenant_texts(v@).contains(x@),
{
    let mut i: usize = 0;
    while i < v.len()
        invariant
            i <= v@.len(),
            forall|q: int| 0 <= q < i ==> (#[trigger] v@[q])@ != x@,
        decreases v@.len() - i,
    {
        if v[i].same(x) {
            assert(tenant_texts(v@)[i as int] == x@);
            return true;
        }
        i = i + 1;
    }
    assert forall|q: int| 0 <= q < tenant_texts(v@).len() implies tenant_texts(v@)[q] != x@ by {
        assert(tenant_texts(v@)[q] == v@[q]@);
    }
    false
}

/// Whether every constraint of a rule admits the input.
pub fn constraints_admit(c: &RuleConstraints, input: &EvaluationInput) -> (r: bool)
    ensures
        r == admits(*c, *input),
{
    let request = &input.request;
    if c.activity_types.len() > 0 && !has_u16(&c.activity_types, request.activity_type) {
        return false;
    }
    if c.counterparties.len() > 0 && !has_fixed_exec(&c.counterparties, &request.counterparty) {
        return false;
    }
    if c.assets.len() > 0 && !has_fixed_exec(&c.assets, &request.asset) {
        return false;
    }
    match c.maximum_amount {
        Some(m) => if request.amount > m {
            return false;
        },
        None => {},
    }
    match c.maximum_cumulative_amount {
        Some(m) => if request.cumulative_amount > m {
            return false;
        },
        None => {},
    }
    match c.maximum_cumulative_count {
        Some(m) => if request.cumulative_count > m {
            return false;
        },
        None => {},
    }
    if c.purposes.len() > 0 && !has_text(&c.purposes, &request.purpose) {
        return false;
    }
    if c.capability_ids.len() > 0 && !has_fixed_exec(&c.capability_ids, &input.capability.id) {
        return false;
    }
    if c.session_ids.len() > 0 && !has_session_exec(&c.session_ids, &input.session.session_id) {
        return false;
    }
    if c.agents.len() > 0 && !has_text(&c.agents, &input.session.agent) {
        return false;
    }
    if c.tenants.len() > 0 && !has_tenant(&c.tenants, &input.session.tenant) {
        return false;
    }
    match c.sequence_window {
        Some(w) => request.core_sequence >= w.first && request.core_sequence <= w.last,
        None => true,
    }
}

fn context_is_valid(policy: &PolicySet, input: &EvaluationInput) -> (r: bool)
    ensures
        r == valid_context(*policy, *input),
{
    match input.verified_budget_remaining {
        None => false,
        Some(remaining) => {
            input.request.amount <= remaining && !policy.version.as_str().is_empty()
                && policy.version == input.session.policy_version && input.session.open
                && input.session.tenant.same(&input.capability.tenant) && input.capability.permits_intent
        },
    }
}

fn fails(policy: &PolicySet) -> (r: bool)
    ensures
        r == evaluation_fails(*policy),
{
    if policy.rules.len() as u64 > policy.evaluation_step_limit {
        return true;
    }
    let mut k: usize = 0;
    while k < policy.rules.len()
        invariant
            k <= policy.rules@.len(),
            forall|q: int| 0 <= q < k ==> (#[trigger] policy.rules@[q]).id@.len() != 0,
        decreases policy.rules@.len() - k,
    {
        if policy.rules[k].id.as_str().is_empty() {
            return true;
        }
        k = k + 1;
    }
    false
}

proof fn lemma_step(rules: Seq<Rule>, i: int, input: EvaluationInput)
    requires
        0 <= i < rules.len(),
    ensures
        rules.take(i + 1).drop_last() == rules.take(i),
        rules.take(i + 1).last() == rules[i],
        matched_ids(rules.take(i + 1), input) == if admits(rules[i].constraints, input) {
            matched_ids(rules.take(i), input).push(rules[i].id@)
        } else {
            matched_ids(rules.take(i), input)
        },
        forall|which: Selection| #[trigger] first_selected(rules.take(i + 1), input, which) == match first_selected(rules.take(i), input, which) {
            Some(id) => Some(id),
            None => if selected(rules[i], input, which) {
                Some(rules[i].id@)
            } else {
                None
            },
        },
{
    assert(rules.take(i + 1).drop_last() =~= rules.take(i));
}

fn note_first(slot: &mut Option<String>, id: &String)
    ensures
        opt_text(*final(slot)) == match opt_text(*old(slot)) {
            Some(s) => Some(s),
            None => Some(id@),
        },
{
    if slot.is_none() {
        *slot = Some(id.clone());
    }
}

fn decide_in_order(policy: &PolicySet, input: &EvaluationInput, order: &Vec<usize>) -> (r: Decision)
    requires
        visiting_order(policy.rules@, order@),
    ensures
        r@ == decided_in_order(policy.version@, in_order(policy.rules@, order@), *input),
{
    let ghost sorted = in_order(policy.rules@, order@);
    let mut matched: Vec<String> = Vec::new();
    let mut denied: Option<String> = None;
    let mut held: Option<String> = None;
    let mut permitted: Option<String> = None;
    let mut i: usize = 0;
    while i < order.len()
        invariant
            i <= order@.len(),
            visiting_order(policy.rules@, order@),
            sorted == in_order(policy.rules@, order@),
            texts(matched@) == matched_ids(sorted.take(i as int), *input),
            opt_text(denied) == first_selected(sorted.take(i as int), *input, Selection::Denying),
            opt_text(held) == first_selected(sorted.take(i as int), *input, Selection::AwaitingApproval),
            opt_text(permitted) == first_selected(sorted.take(i as int), *input, Selection::Permitting),
        decreases order@.len() - i,
    {
        let at = order[i];
        let rule = &policy.rules[at];
        proof {
            lemma_step(sorted, i as int, *input);
            assert(sorted[i as int] == *rule);
        }
        if constraints_admit(&rule.constraints, input) {
            let ghost before = matched@;
            matched.push(rule.id.clone());
            assert(texts(matched@) =~= texts(before).push(rule.id@));
            match rule.effect {
                RuleEffect::Deny => note_first(&mut denied, &rule.id),
                RuleEffect::Permit => {
                    if rule.constraints.required_approval && !input.request.approval_present {
                        note_first(&mut held, &rule.id);
                    } else {
                        note_first(&mut permitted, &rule.id);
                    }
                },
            }
        }
        i = i + 1;
    }
    assert(sorted.take(i as int) =~= sorted);
    let (outcome, deciding_rule, reason) = if denied.is_some() {
        (Outcome::Deny, denied, DecisionReason::ExplicitDeny)
    } else if held.is_some() {
        (Outcome::Deny, held, DecisionReason::ApprovalRequired)
    } else if permitted.is_some() {
        (Outcome::Allow, permitted, DecisionReason::PermittedByRule)
    } else {
        (Outcome::Deny, None, DecisionReason::NoPermittingRule)
    };
    Decision {
        outcome,
        policy_version: policy.version.clone(),
        matched_rules: matched,
        deciding_rule,
        reason,
    }
}

/// Evaluates a request with no ambient inputs and denies on every failure.
///
/// An invalid context denies with `InvalidContext`; more rules than the step limit or a rule
/// without an identifier denies with `EvaluationFailure`; otherwise the rules are visited in
/// identifier order and the first explicit deny, then the first permit awaiting approval, then
/// the first plain permit decides.
pub fn evaluate(policy: &PolicySet, input: &EvaluationInput) -> (r: Decision)
    ensures
        r@ == evaluation(*policy, *input),
{
    let order = rule_order(&policy.rules);
    proof {
        lemma_visiting_order_unique(policy.rules@, order@, the_visiting_order(policy.rules@));
    }
    if !context_is_valid(policy, input) {
        let r = Decision::deny(policy.version.as_str(), DecisionReason::InvalidContext);
        assert(r@ == decided(*policy, *input, order@));
        return r;
    }
    if fails(policy) {
        let r = Decision::deny(policy.version.as_str(), DecisionReason::EvaluationFailure);
        assert(r@ == decided(*policy, *input, order@));
        return r;
    }
    let r = decide_in_order(policy, input, &order);
    assert(r@ == decided(*policy, *input, order@));
    r
}


proof fn find_insert_position(rules: Seq<Rule>, order: Seq<usize>, k: usize, q: int) -> (p: int)
    requires
        k < rules.len(),
        order.len() == k,
        ordered_below(rules, order, k as int),
        0 <= q <= order.len(),
        forall|r: int| 0 <= r < q ==> !lex_lt(rule_key(rules, k as int), #[trigger] rule_key(rules, order[r] as int)),
    ensures
        0 <= p <= order.len(),
        forall|r: int| 0 <= r < p ==> !lex_lt(rule_key(rules, k as int), #[trigger] rule_key(rules, order[r] as int)),
        p < order.len() ==> lex_lt(rule_key(rules, k as int), rule_key(rules, order[p] as int)),
    decreases order.len() - q,
{
    if q == order.len() {
        q
    } else if lex_lt(rule_key(rules, k as int), rule_key(rules, order[q] as int)) {
        q
    } else {
        find_insert_position(rules, order, k, q + 1)
    }
}

proof fn ordering_of_first(rules: Seq<Rule>, k: usize) -> (order: Seq<usize>)
    requires
        k <= rules.len(),
    ensures
        order.len() == k,
        ordered_below(rules, order, k as int),
    decreases k,
{
    if k == 0 {
        Seq::empty()
    } else {
        let before = ordering_of_first(rules, (k - 1) as usize);
        let p = find_insert_position(rules, before, (k - 1) as usize, 0);
        lemma_insert_ordered(rules, before, (k - 1) as usize, p);
        before.insert(p, (k - 1) as usize)
    }
}

/// Every policy's rules have a visiting order.
pub proof fn lemma_visiting_order_exists(rules: Seq<Rule>)
    requires
        rules.len() <= usize::MAX,
    ensures
        visiting_order(rules, the_visiting_order(rules)),
{
    let order = ordering_of_first(rules, rules.len() as usize);
    assert(visiting_order(rules, order));
}

proof fn lemma_first_selected_found(rules: Seq<Rule>, input: EvaluationInput, which: Selection, k: int)
    requires
        0 <= k < rules.len(),
        selected(rules[k], input, which),
    ensures
        first_selected(rules, input, which) is Some,
    decreases rules.len(),
{
    if k < rules.len() - 1 {
        assert(rules.drop_last()[k] == rules[k]);
        lemma_first_selected_found(rules.drop_last(), input, which, k);
    }
}

proof fn lemma_first_selected_witness(rules: Seq<Rule>, input: EvaluationInput, which: Selection)
    requires
        first_selected(rules, input, which) is Some,
    ensures
        exists|k: int| 0 <= k < rules.len() && selected(#[trigger] rules[k], input, which),
    decreases rules.len(),
{
    if first_selected(rules.drop_last(), input, which) is Some {
        lemma_first_selected_witness(rules.drop_last(), input, which);
        let k = choose|k: int| 0 <= k < rules.drop_last().len() && selected(#[trigger] rules.drop_last()[k], input, which);
        assert(rules[k] == rules.drop_last()[k]);
    } else {
        assert(selected(rules[rules.len() - 1], input, which));
    }
}

/// A rule that matches the request and denies makes the decision a denial, whatever else
/// matches; when evaluation gets as far as the rules, the reason is the explicit deny.
pub proof fn lemma_matching_deny_denies(policy: PolicySet, input: EvaluationInput, k: int)
    requires
        policy.rules@.len() <= usize::MAX,
        0 <= k < policy.rules@.len(),
        admits(policy.rules@[k].constraints, input),
        policy.rules@[k].effect == RuleEffect::Deny,
    ensures
        evaluation(policy, input).outcome == Outcome::Deny,
        valid_context(policy, input) && !evaluation_fails(policy) ==> evaluation(policy, input).reason
            == DecisionReason::ExplicitDeny,
{
    let rules = policy.rules@;
    lemma_visiting_order_exists(rules);
    let order = the_visiting_order(rules);
    lemma_order_covers(rules, order);
    assert(order.contains(k as usize));
    let m = choose|m: int| 0 <= m < order.len() && order[m] == k as usize;
    let sorted = in_order(rules, order);
    assert(sorted[m] == rules[k]);
    lemma_first_selected_found(sorted, input, Selection::Denying, m);
}

/// Local allow happens only in a valid context, with evaluation within its limits, for a
/// matching permit rule whose approval needs are met, and never past a matching deny.
pub proof fn lemma_allow_needs_permit(policy: PolicySet, input: EvaluationInput)
    requires
        policy.rules@.len() <= usize::MAX,
        evaluation(policy, input).outcome == Outcome::Allow,
    ensures
        valid_context(policy, input),
        !evaluation_fails(policy),
        evaluation(policy, input).reason == DecisionReason::PermittedByRule,
        exists|k: int| 0 <= k < policy.rules@.len() && selected(#[trigger] policy.rules@[k], input, Selection::Permitting),
        forall|k: int| 0 <= k < policy.rules@.len() ==> !selected(#[trigger] policy.rules@[k], input, Selection::Denying),
{
    let rules = policy.rules@;
    lemma_visiting_order_exists(rules);
    let order = the_visiting_order(rules);
    let sorted = in_order(rules, order);
    lemma_first_selected_witness(sorted, input, Selection::Permitting);
    let m = choose|m: int| 0 <= m < sorted.len() && selected(#[trigger] sorted[m], input, Selection::Permitting);
    assert(rules[order[m] as int] == sorted[m]);
    assert forall|k: int| 0 <= k < rules.len() implies !selected(#[trigger] rules[k], input, Selection::Denying) by {
        if selected(rules[k], input, Selection::Denying) {
            lemma_matching_deny_denies(policy, input, k);
        }
    }
}

/// Whether a rule's numeric bounds hold for a request: its sequence window, when it has
/// one, contains the request's core sequence, and its amount, cumulative amount and
/// cumulative count limits, when it has them, are not exceeded.
pub open spec fn within_bounds(c: RuleConstraints, input: EvaluationInput) -> bool {
    let q = input.request;
    &&& (c.sequence_window is Some ==> c.sequence_window->Some_0.first <= q.core_sequence
        && q.core_sequence <= c.sequence_window->Some_0.last)
    &&& (c.maximum_amount is Some ==> q.amount <= c.maximum_amount->Some_0)
    &&& (c.maximum_cumulative_amount is Some ==> q.cumulative_amount <= c.maximum_cumulative_amount->Some_0)
    &&& (c.maximum_cumulative_count is Some ==> q.cumulative_count <= c.maximum_cumulative_count->Some_0)
}

/// Law: evaluation allows a request only through a permit rule whose bounds all hold for
/// it; a request whose core sequence lies before or after the window of every permit rule
/// (or exceeds each one's amount limit) is never allowed, whatever else the rules say.
pub proof fn lemma_allow_within_rule_bounds(policy: PolicySet, input: EvaluationInput)
    requires
        policy.rules@.len() <= usize::MAX,
        evaluation(policy, input).outcome == Outcome::Allow,
    ensures
        exists|k: int|
            0 <= k < policy.rules@.len() && (#[trigger] policy.rules@[k]).effect == RuleEffect::Permit && within_bounds(
                policy.rules@[k].constraints,
                input,
            ),
{
    lemma_allow_needs_permit(policy, input);
    let k = choose|k: int| 0 <= k < policy.rules@.len() && selected(#[trigger] policy.rules@[k], input, Selection::Permitting);
    assert(within_bounds(policy.rules@[k].constraints, input));
}

/// Law: a request outside a rule's sequence window never matches that rule, so a policy
/// whose permit rules all have windows that miss the request's core sequence denies it.
pub proof fn lemma_window_excludes(policy: PolicySet, input: EvaluationInput)
    requires
        policy.rules@.len() <= usize::MAX,
        forall|k: int|
            0 <= k < policy.rules@.len() && (#[trigger] policy.rules@[k]).effect == RuleEffect::Permit ==> policy.rules@[k].constraints.sequence_window
                is Some && !(policy.rules@[k].constraints.sequence_window->Some_0.first <= input.request.core_sequence
                && input.request.core_sequence <= policy.rules@[k].constraints.sequence_window->Some_0.last),
    ensures
        evaluation(policy, input).outcome == Outcome::Deny,
{
    if evaluation(policy, input).outcome == Outcome::Allow {
        lemma_allow_within_rule_bounds(policy, input);
    }
}

} // verus!
