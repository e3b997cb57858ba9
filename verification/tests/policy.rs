use layerx_agentd::policy::approval::{every_hold_reserved, ApprovalError, ApproverId};
use layerx_agentd::policy::{
    activate, dry_run, evaluate, explain, load_policy_source, rule_order, validate, Decision,
    DecisionReason, PolicySourceError,
    EvaluationInput, EvaluationMode, Outcome, PolicyCapability, PolicyRegistry, PolicyRequest,
    PolicySession, PolicySet, PolicyValidationError, Rule, RuleConstraints, RuleEffect,
    SequenceWindow, LOCAL_ALLOW_NOTICE, LOCAL_DENY_NOTICE,
};
use layerx_agentd::session::SessionId;
use layerx_agentd::store::TenantId;

fn tenant(name: &str) -> TenantId {
    TenantId::new(name.to_owned()).unwrap()
}

fn request(amount: u128) -> PolicyRequest {
    PolicyRequest {
        activity_type: 7,
        counterparty: [1; 32],
        asset: [2; 32],
        amount,
        cumulative_amount: amount,
        cumulative_count: 1,
        purpose: "payroll".to_owned(),
        core_sequence: 50,
        approval_present: false,
    }
}

fn session(version: &str) -> PolicySession {
    PolicySession {
        session_id: SessionId([9; 32]),
        agent: "did:lx:agent".to_owned(),
        tenant: tenant("acme"),
        policy_version: version.to_owned(),
        open: true,
    }
}

fn capability() -> PolicyCapability {
    PolicyCapability { id: [4; 32], tenant: tenant("acme"), permits_intent: true }
}

fn input(amount: u128, remaining: u128) -> EvaluationInput {
    EvaluationInput::with_verified_protocol_budget(request(amount), session("v1"), capability(), remaining)
}

fn rule(id: &str, effect: RuleEffect) -> Rule {
    Rule { id: id.to_owned(), effect, constraints: RuleConstraints::unconstrained() }
}

fn policy(rules: Vec<Rule>) -> PolicySet {
    PolicySet { version: "v1".to_owned(), rules, evaluation_step_limit: 16 }
}

fn texts(v: &[&str]) -> Vec<String> {
    v.iter().map(|s| (*s).to_owned()).collect()
}

#[test]
fn permit_allows_with_local_notice() {
    let decision = evaluate(&policy(vec![rule("p", RuleEffect::Permit)]), &input(10, 100));
    assert_eq!(decision.outcome, Outcome::Allow);
    assert_eq!(decision.reason, DecisionReason::PermittedByRule);
    assert_eq!(decision.deciding_rule, Some("p".to_owned()));
    assert_eq!(decision.matched_rules, texts(&["p"]));
    let explanation = explain(&decision, EvaluationMode::Live);
    assert_eq!(explanation.schema_version, 1);
    assert_eq!(explanation.authority_statement, LOCAL_ALLOW_NOTICE);
}

#[test]
fn explicit_deny_wins_over_permit() {
    let set = policy(vec![rule("b-permit", RuleEffect::Permit), rule("z-deny", RuleEffect::Deny)]);
    let decision = evaluate(&set, &input(10, 100));
    assert_eq!(decision.outcome, Outcome::Deny);
    assert_eq!(decision.reason, DecisionReason::ExplicitDeny);
    assert_eq!(decision.deciding_rule, Some("z-deny".to_owned()));
    assert_eq!(decision.matched_rules, texts(&["b-permit", "z-deny"]));
    assert_eq!(explain(&decision, EvaluationMode::Live).authority_statement, LOCAL_DENY_NOTICE);
}

#[test]
fn missing_approval_denies_before_plain_permit() {
    let mut held = rule("a-held", RuleEffect::Permit);
    held.constraints.required_approval = true;
    let set = policy(vec![rule("b-plain", RuleEffect::Permit), held]);
    let decision = evaluate(&set, &input(10, 100));
    assert_eq!(decision.reason, DecisionReason::ApprovalRequired);
    assert_eq!(decision.deciding_rule, Some("a-held".to_owned()));
    let mut approved = input(10, 100);
    approved.request.approval_present = true;
    let decision = evaluate(&set, &approved);
    assert_eq!(decision.outcome, Outcome::Allow);
    assert_eq!(decision.deciding_rule, Some("a-held".to_owned()));
}

#[test]
fn no_matching_permit_denies() {
    let mut narrow = rule("narrow", RuleEffect::Permit);
    narrow.constraints.activity_types = vec![1, 2];
    let decision = evaluate(&policy(vec![narrow]), &input(10, 100));
    assert_eq!(decision.outcome, Outcome::Deny);
    assert_eq!(decision.reason, DecisionReason::NoPermittingRule);
    assert_eq!(decision.deciding_rule, None);
    assert!(decision.matched_rules.is_empty());
}

#[test]
fn invalid_context_denies() {
    let set = policy(vec![rule("p", RuleEffect::Permit)]);
    let unbudgeted = EvaluationInput::without_protocol_budget(request(1), session("v1"), capability());
    assert_eq!(evaluate(&set, &unbudgeted), Decision::deny("v1", DecisionReason::InvalidContext));
    assert_eq!(evaluate(&set, &input(101, 100)).reason, DecisionReason::InvalidContext);
    let mut other_version = input(1, 100);
    other_version.session.policy_version = "v2".to_owned();
    assert_eq!(evaluate(&set, &other_version).reason, DecisionReason::InvalidContext);
    let mut closed = input(1, 100);
    closed.session.open = false;
    assert_eq!(evaluate(&set, &closed).reason, DecisionReason::InvalidContext);
    let mut foreign = input(1, 100);
    foreign.capability.tenant = tenant("other");
    assert_eq!(evaluate(&set, &foreign).reason, DecisionReason::InvalidContext);
    let mut refused = input(1, 100);
    refused.capability.permits_intent = false;
    assert_eq!(evaluate(&set, &refused).reason, DecisionReason::InvalidContext);
}

#[test]
fn evaluation_failures_deny() {
    let mut tight = policy(vec![rule("a", RuleEffect::Permit), rule("b", RuleEffect::Permit)]);
    tight.evaluation_step_limit = 1;
    assert_eq!(evaluate(&tight, &input(1, 100)), Decision::deny("v1", DecisionReason::EvaluationFailure));
    let unnamed = policy(vec![rule("", RuleEffect::Permit)]);
    assert_eq!(evaluate(&unnamed, &input(1, 100)).reason, DecisionReason::EvaluationFailure);
}

#[test]
fn rules_are_visited_by_identifier() {
    let rules = vec![
        rule("c", RuleEffect::Permit),
        rule("a", RuleEffect::Permit),
        rule("b", RuleEffect::Permit),
        rule("a", RuleEffect::Deny),
    ];
    assert_eq!(rule_order(&rules), vec![1, 3, 2, 0]);
    let decision = evaluate(&policy(rules), &input(1, 100));
    assert_eq!(decision.matched_rules, texts(&["a", "a", "b", "c"]));
    assert_eq!(decision.reason, DecisionReason::ExplicitDeny);
}

#[test]
fn constraints_are_all_checked() {
    let mut r = rule("limits", RuleEffect::Permit);
    r.constraints.counterparties = vec![[1; 32]];
    r.constraints.assets = vec![[2; 32]];
    r.constraints.maximum_amount = Some(50);
    r.constraints.maximum_cumulative_count = Some(1);
    r.constraints.purposes = texts(&["payroll"]);
    r.constraints.capability_ids = vec![[4; 32]];
    r.constraints.session_ids = vec![SessionId([9; 32])];
    r.constraints.agents = texts(&["did:lx:agent"]);
    r.constraints.tenants = vec![tenant("acme")];
    r.constraints.sequence_window = Some(SequenceWindow { first: 40, last: 60 });
    let set = policy(vec![r]);
    assert_eq!(evaluate(&set, &input(50, 100)).outcome, Outcome::Allow);
    assert_eq!(evaluate(&set, &input(51, 100)).reason, DecisionReason::NoPermittingRule);
    let mut late = input(1, 100);
    late.request.core_sequence = 61;
    assert_eq!(evaluate(&set, &late).reason, DecisionReason::NoPermittingRule);
    let mut other_purpose = input(1, 100);
    other_purpose.request.purpose = "rent".to_owned();
    assert_eq!(evaluate(&set, &other_purpose).reason, DecisionReason::NoPermittingRule);
    let mut other_agent = input(1, 100);
    other_agent.session.agent = "did:lx:else".to_owned();
    assert_eq!(evaluate(&set, &other_agent).reason, DecisionReason::NoPermittingRule);
}

#[test]
fn explanation_record_is_exact() {
    let decision = Decision {
        outcome: Outcome::Deny,
        policy_version: "v1".to_owned(),
        matched_rules: texts(&["a", "b"]),
        deciding_rule: Some("b".to_owned()),
        reason: DecisionReason::ExplicitDeny,
    };
    let explanation = explain(&decision, EvaluationMode::DryRun);
    let expected = format!(
        "schema=1:1\nmode=7:dry_run\noutcome=4:deny\npolicy_version=2:v1\nmatched_count=1:2\n\
         matched_0=1:a\nmatched_1=1:b\ndeciding_rule=1:b\nreason=13:explicit_deny\n\
         authority_statement=86:{LOCAL_DENY_NOTICE}\n"
    );
    assert_eq!(explanation.machine_bytes(), expected.into_bytes());
}

#[test]
fn explanation_without_deciding_rule_has_empty_value() {
    let decision = Decision::deny("v9", DecisionReason::NoPermittingRule);
    let bytes = explain(&decision, EvaluationMode::Live).machine_bytes();
    let text = String::from_utf8(bytes).unwrap();
    assert!(text.contains("mode=4:live\n"));
    assert!(text.contains("matched_count=1:0\n"));
    assert!(text.contains("deciding_rule=0:\n"));
    assert!(text.contains("reason=18:no_permitting_rule\n"));
}

#[test]
fn validation_reports_first_violation() {
    let mut empty_version = policy(vec![]);
    empty_version.version = String::new();
    assert_eq!(validate(&empty_version), Err(PolicyValidationError::EmptyVersion));
    let mut zero = policy(vec![]);
    zero.evaluation_step_limit = 0;
    assert_eq!(validate(&zero), Err(PolicyValidationError::ZeroStepLimit));
    let mut small = policy(vec![rule("a", RuleEffect::Permit), rule("b", RuleEffect::Permit)]);
    small.evaluation_step_limit = 1;
    assert_eq!(validate(&small), Err(PolicyValidationError::StepLimitTooSmall));
    assert_eq!(validate(&policy(vec![rule("", RuleEffect::Deny)])), Err(PolicyValidationError::EmptyRuleId));
    assert_eq!(
        validate(&policy(vec![rule("a", RuleEffect::Deny), rule("a", RuleEffect::Permit)])),
        Err(PolicyValidationError::DuplicateRuleId("a".to_owned()))
    );
    let mut purpose = rule("p", RuleEffect::Permit);
    purpose.constraints.purposes = texts(&["ok", ""]);
    assert_eq!(validate(&policy(vec![purpose])), Err(PolicyValidationError::EmptyPurpose));
    let mut window = rule("w", RuleEffect::Permit);
    window.constraints.sequence_window = Some(SequenceWindow { first: 5, last: 4 });
    assert_eq!(validate(&policy(vec![window])), Err(PolicyValidationError::InvalidSequenceWindow));
    assert_eq!(validate(&policy(vec![rule("a", RuleEffect::Permit)])), Ok(()));
}

#[test]
fn activation_is_versioned_and_atomic() {
    let mut registry = PolicyRegistry::new(policy(vec![rule("a", RuleEffect::Permit)])).unwrap();
    assert_eq!(registry.active_version(), "v1");
    assert_eq!(registry.begin_request().generation(), 1);
    let snapshot = registry.begin_request();
    let mut next = policy(vec![rule("b", RuleEffect::Deny)]);
    next.version = "v2".to_owned();
    let activation = activate(&mut registry, next).unwrap();
    assert_eq!(activation.previous_version, "v1");
    assert_eq!(activation.active_version, "v2");
    assert_eq!(activation.generation, 2);
    assert_eq!(registry.begin_request().version(), "v2");
    assert_eq!(registry.begin_request().policy().rules[0].id, "b");
    assert_eq!(snapshot.version(), "v1");
    assert_eq!(snapshot.policy().rules[0].id, "a");
    assert!(registry.retained("v1").is_some());
    assert!(registry.retained("v3").is_none());
    let again = policy(vec![]);
    assert_eq!(
        activate(&mut registry, again),
        Err(PolicyValidationError::VersionAlreadyRetained("v1".to_owned()))
    );
    let mut invalid = policy(vec![]);
    invalid.version = "v3".to_owned();
    invalid.evaluation_step_limit = 0;
    assert_eq!(activate(&mut registry, invalid), Err(PolicyValidationError::ZeroStepLimit));
    assert_eq!(registry.active_version(), "v2");
    assert_eq!(registry.begin_request().generation(), 2);
}

#[test]
fn registry_refuses_an_invalid_seed() {
    let mut seed = policy(vec![]);
    seed.version = String::new();
    assert!(matches!(PolicyRegistry::new(seed), Err(PolicyValidationError::EmptyVersion)));
}

#[test]
fn dry_run_retains_decision_and_explains() {
    let set = policy(vec![rule("p", RuleEffect::Permit)]);
    let mut registry = PolicyRegistry::new(policy(vec![rule("p", RuleEffect::Permit)])).unwrap();
    let result = dry_run(&mut registry, [5; 32], &set, &input(1, 10));
    assert_eq!(result.decision.outcome, Outcome::Allow);
    assert_eq!(result.explanation.mode, EvaluationMode::DryRun);
    assert_eq!(registry.audit_entry([5; 32]).unwrap().decision, result.decision);
    assert!(registry.audit_entry([6; 32]).is_none());
    registry.record_decision([5; 32], Decision::deny("v1", DecisionReason::InvalidContext));
    assert_eq!(registry.audit_entry([5; 32]).unwrap().decision.reason, DecisionReason::InvalidContext);
    assert_eq!(registry.active_version(), "v1");
}

#[test]
fn approver_identity_must_be_named() {
    assert_eq!(ApproverId::new(String::new()).unwrap_err(), ApprovalError::InvalidApprover);
    assert_eq!(ApproverId::new("alice".to_owned()).unwrap().as_str(), "alice");
}

fn load(text: &str) -> Result<PolicySet, PolicySourceError> {
    load_policy_source(text.as_bytes())
}

#[test]
fn policy_sources_load_in_order() {
    let set = load("# local rules\n  version=v1  \nsteps=+4\r\n\nrule=b,deny\r\nrule=a,permit").unwrap();
    assert_eq!(set.version, "v1");
    assert_eq!(set.evaluation_step_limit, 4);
    let rules: Vec<(String, RuleEffect)> = set.rules.iter().map(|r| (r.id.clone(), r.effect)).collect();
    assert_eq!(rules, vec![("b".to_owned(), RuleEffect::Deny), ("a".to_owned(), RuleEffect::Permit)]);
    assert!(set.rules[0].constraints.purposes.is_empty());
    assert!(!set.rules[0].constraints.required_approval);
}

#[test]
fn policy_source_declarations_are_strict() {
    assert_eq!(load("steps=1\n").unwrap_err(), PolicySourceError::InvalidDeclaration);
    assert_eq!(load("version=a\nversion=b\nsteps=1").unwrap_err(), PolicySourceError::InvalidDeclaration);
    assert_eq!(load("version=a\nsteps=1\nsteps=x").unwrap_err(), PolicySourceError::InvalidInteger);
    assert_eq!(load("version=a\nsteps=1\nsteps=2").unwrap_err(), PolicySourceError::InvalidDeclaration);
    assert_eq!(load("version=a\nsteps=-1").unwrap_err(), PolicySourceError::InvalidInteger);
    assert_eq!(load("version=a\nsteps=18446744073709551616").unwrap_err(), PolicySourceError::InvalidInteger);
    assert_eq!(load("version=a\nsteps=18446744073709551615").unwrap().evaluation_step_limit, u64::MAX);
    assert_eq!(load("version=a\nsteps=2\nrule=x").unwrap_err(), PolicySourceError::InvalidDeclaration);
    assert_eq!(load("version=a\nsteps=2\nrule=x,maybe").unwrap_err(), PolicySourceError::InvalidEffect);
    assert_eq!(load("version=a\nsteps=2\nlimit=3").unwrap_err(), PolicySourceError::InvalidDeclaration);
}

#[test]
fn policy_source_bounds_are_enforced() {
    assert_eq!(load_policy_source(&[0xff, 0xfe]).unwrap_err(), PolicySourceError::InvalidUtf8);
    assert_eq!(load_policy_source(&vec![b' '; 1_048_577]).unwrap_err(), PolicySourceError::TooLarge);
    let long = format!("# {}\nversion=a\nsteps=1", "x".repeat(4095));
    assert_eq!(load(&long).unwrap_err(), PolicySourceError::LineTooLarge);
    let mut many = String::from("version=a\nsteps=5000\n");
    for i in 0..4097 {
        many.push_str(&format!("rule=r{i},deny\n"));
    }
    assert_eq!(load(&many).unwrap_err(), PolicySourceError::TooManyRules);
}

#[test]
fn loaded_policy_sources_are_validated() {
    assert_eq!(
        load("version=v\nsteps=1\nrule=a,deny\nrule=b,deny").unwrap_err(),
        PolicySourceError::Validation(PolicyValidationError::StepLimitTooSmall)
    );
    assert_eq!(
        load("version=v\nsteps=3\nrule=a,deny\nrule=a,permit").unwrap_err(),
        PolicySourceError::Validation(PolicyValidationError::DuplicateRuleId("a".to_owned()))
    );
    assert_eq!(
        load("version=v\nsteps=3\nrule=,permit").unwrap_err(),
        PolicySourceError::Validation(PolicyValidationError::EmptyRuleId)
    );
    assert_eq!(
        load("version=\nsteps=3").unwrap_err(),
        PolicySourceError::Validation(PolicyValidationError::EmptyVersion)
    );
}

#[test]
fn every_hold_needs_its_reservation() {
    assert!(every_hold_reserved(&vec![], &vec![]));
    assert!(every_hold_reserved(&vec![[1; 32], [2; 32]], &vec![[2; 32], [3; 32], [1; 32]]));
    assert!(!every_hold_reserved(&vec![[1; 32], [4; 32]], &vec![[1; 32], [2; 32]]));
}
