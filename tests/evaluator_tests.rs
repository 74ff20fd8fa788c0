use policy_engine::policy::RuleBuilder;
use policy_engine::types::{
    Action, ActionType, CombiningAlgorithm, Condition, ConditionOperator, Effect, Identity,
    Resource, ResourceType, Role, Tenant, TenantType,
};
use policy_engine::{
    Decision, EvaluationContext, JsonNumber, JsonValue, Policy, PolicyError, PolicyEvaluator,
};

fn create_test_context(role: Role) -> EvaluationContext {
    EvaluationContext::new(
        Identity {
            user_id: "u:test".to_string(),
            email: "test@example.com".to_string(),
            email_domain: "example.com".to_string(),
            groups: vec!["developers".to_string()],
            is_service: false,
        },
        Tenant { tenant_id: "t:example.com".to_string(), tenant_type: TenantType::Customer },
        Resource {
            resource_type: ResourceType::Room,
            resource_id: "r:general".to_string(),
            owner_id: None,
            agreement_id: None,
        },
        Action { action_type: ActionType::Write, action_name: "messenger.send".to_string() },
    )
    .with_role(role)
}

fn text(s: &str) -> JsonValue {
    JsonValue::String(s.to_string())
}

fn num(x: f64, t: &str) -> JsonValue {
    JsonValue::Number(JsonNumber { bits: x.to_bits(), text: t.to_string() })
}

fn cond(field: &str, operator: ConditionOperator, value: JsonValue) -> Condition {
    Condition { field: field.to_string(), operator, value }
}

fn basic_policy() -> Policy {
    Policy::new("basic", "Basic Policy")
        .with_rule(
            RuleBuilder::new("allow-members")
                .allow()
                .condition(cond("role", ConditionOperator::Equals, text("member")))
                .priority(10)
                .build(),
        )
        .with_default_effect(Effect::Deny)
}

fn deny_override_policy() -> Policy {
    Policy::new("deny-override-policy", "Deny Override Policy")
        .with_combining_algorithm(CombiningAlgorithm::DenyOverrides)
        .with_rule(RuleBuilder::new("allow-all").allow().priority(1).build())
        .with_rule(
            RuleBuilder::new("deny-guests")
                .deny()
                .condition(cond("role", ConditionOperator::Equals, text("guest")))
                .priority(10)
                .build(),
        )
        .with_default_effect(Effect::Deny)
}

fn single(policy: Policy) -> PolicyEvaluator {
    let mut evaluator = PolicyEvaluator::new();
    evaluator.add_policy(policy);
    evaluator
}

fn holds(condition: Condition, ctx: &EvaluationContext) -> Result<bool, PolicyError> {
    let evaluator = single(
        Policy::new("p", "P")
            .with_rule(RuleBuilder::new("r").allow().condition(condition).build()),
    );
    evaluator.evaluate(ctx).map(|d| !d.is_default)
}

#[test]
fn test_basic_evaluation() {
    let evaluator = single(basic_policy());
    let decision = evaluator.evaluate(&create_test_context(Role::Member)).unwrap();
    assert!(decision.is_allowed());
    let decision = evaluator.evaluate(&create_test_context(Role::Guest)).unwrap();
    assert!(decision.is_denied());
}

#[test]
fn test_deny_overrides() {
    let evaluator = single(deny_override_policy());
    let decision = evaluator.evaluate(&create_test_context(Role::Member)).unwrap();
    assert!(decision.is_allowed());
    let decision = evaluator.evaluate(&create_test_context(Role::Guest)).unwrap();
    assert!(decision.is_denied());
}

#[test]
fn role_match_allows_with_rule_id() {
    let evaluator = single(basic_policy());
    let d = evaluator.evaluate(&create_test_context(Role::Member)).unwrap();
    assert_eq!(d.decision, Decision::Allow);
    assert_eq!(d.rule_id.as_deref(), Some("allow-members"));
    assert_eq!(d.policy_id.as_deref(), Some("basic"));
    assert!(!d.is_default);
    assert!(d.evaluation_time_us.is_some());
}

#[test]
fn role_mismatch_takes_default() {
    let evaluator = single(basic_policy());
    let d = evaluator.evaluate(&create_test_context(Role::Guest)).unwrap();
    assert_eq!(d.decision, Decision::Deny);
    assert!(d.is_default);
    assert_eq!(d.reason, "No matching rules - default deny");
    assert_eq!(d.policy_id.as_deref(), Some("basic"));
}

#[test]
fn deny_overrides_names_the_denying_rule() {
    let evaluator = single(deny_override_policy());
    let d = evaluator.evaluate(&create_test_context(Role::Guest)).unwrap();
    assert_eq!(d.decision, Decision::Deny);
    assert_eq!(d.rule_id.as_deref(), Some("deny-guests"));
    assert_eq!(d.reason, "Rule 'deny-guests' denies");
    let d = evaluator.evaluate(&create_test_context(Role::Member)).unwrap();
    assert_eq!(d.decision, Decision::Allow);
    assert_eq!(d.rule_id.as_deref(), Some("allow-all"));
    assert_eq!(d.reason, "All matching rules allow");
}

#[test]
fn missing_user_id_is_an_error() {
    let evaluator = single(basic_policy());
    let mut ctx = create_test_context(Role::Member);
    ctx.identity.user_id = String::new();
    match evaluator.evaluate(&ctx) {
        Err(PolicyError::MissingField(f)) => assert_eq!(f, "identity.user_id"),
        other => panic!("unexpected {:?}", other),
    }
}

#[test]
fn no_policies_denies_by_default() {
    let evaluator = PolicyEvaluator::new();
    let d = evaluator.evaluate(&create_test_context(Role::Owner)).unwrap();
    assert!(d.is_denied());
    assert!(d.is_default);
    assert_eq!(evaluator.policy_count(), 0);
}

#[test]
fn empty_rules_yield_default_effect() {
    let evaluator = single(Policy::new("open", "Open").with_default_effect(Effect::Allow));
    let d = evaluator.evaluate(&create_test_context(Role::Guest)).unwrap();
    assert!(d.is_allowed());
    assert!(d.is_default);
    assert_eq!(d.reason, "No matching rules - default allow");
}

#[test]
fn first_applicable_respects_priority() {
    let policy = Policy::new("p", "P")
        .with_combining_algorithm(CombiningAlgorithm::FirstApplicable)
        .with_rule(RuleBuilder::new("low").allow().priority(1).build())
        .with_rule(RuleBuilder::new("high").deny().priority(5).build());
    let d = single(policy).evaluate(&create_test_context(Role::Member)).unwrap();
    assert_eq!(d.decision, Decision::Deny);
    assert_eq!(d.rule_id.as_deref(), Some("high"));
    assert_eq!(d.reason, "Rule 'high' matched");
}

#[test]
fn equal_priorities_keep_input_order() {
    let policy = Policy::new("p", "P")
        .with_combining_algorithm(CombiningAlgorithm::FirstApplicable)
        .with_rule(RuleBuilder::new("first").allow().build())
        .with_rule(RuleBuilder::new("second").deny().build());
    let d = single(policy).evaluate(&create_test_context(Role::Member)).unwrap();
    assert_eq!(d.rule_id.as_deref(), Some("first"));
    let sorted = Policy::new("q", "Q")
        .with_rule(RuleBuilder::new("a").priority(1).build())
        .with_rule(RuleBuilder::new("b").priority(3).build())
        .with_rule(RuleBuilder::new("c").priority(1).build());
    let ids: Vec<&str> = sorted.sorted_rules().iter().map(|r| r.id.as_str()).collect();
    assert_eq!(ids, vec!["b", "a", "c"]);
}

#[test]
fn other_combining_algorithms() {
    let rules = |alg| {
        Policy::new("p", "P")
            .with_combining_algorithm(alg)
            .with_rule(RuleBuilder::new("yes").allow().priority(2).build())
            .with_rule(RuleBuilder::new("no").deny().priority(1).build())
    };
    let ctx = create_test_context(Role::Member);
    let d = single(rules(CombiningAlgorithm::AllowOverrides)).evaluate(&ctx).unwrap();
    assert_eq!((d.decision, d.reason.as_str()), (Decision::Allow, "Rule 'yes' allows"));
    let d = single(rules(CombiningAlgorithm::UnanimousAllow)).evaluate(&ctx).unwrap();
    assert_eq!(
        (d.decision, d.reason.as_str()),
        (Decision::Deny, "Rule 'no' denies (unanimous allow required)")
    );
    let d = single(rules(CombiningAlgorithm::UnanimousDeny)).evaluate(&ctx).unwrap();
    assert_eq!(
        (d.decision, d.reason.as_str()),
        (Decision::Allow, "Rule 'yes' allows (unanimous deny required)")
    );
}

#[test]
fn deny_dominates_across_policies() {
    let mut evaluator = PolicyEvaluator::new();
    evaluator.add_policy(Policy::new("a", "A").with_rule(RuleBuilder::new("ok").allow().build()));
    evaluator.add_policy(Policy::new("d", "D").with_rule(RuleBuilder::new("no").deny().build()));
    let d = evaluator.evaluate(&create_test_context(Role::Member)).unwrap();
    assert!(d.is_denied());
    assert_eq!(d.policy_id.as_deref(), Some("d"));
    assert_eq!(evaluator.policy_count(), 2);
}

#[test]
fn repeated_evaluation_gives_equal_decisions() {
    let evaluator = single(deny_override_policy());
    let ctx = create_test_context(Role::Guest);
    let a = evaluator.evaluate(&ctx).unwrap();
    let b = evaluator.evaluate(&ctx).unwrap();
    assert_eq!(a.decision, b.decision);
    assert_eq!(a.reason, b.reason);
    assert_eq!(a.rule_id, b.rule_id);
    assert_eq!(a.policy_id, b.policy_id);
    assert_eq!(a.is_default, b.is_default);
}

#[test]
fn string_operators() {
    let ctx = create_test_context(Role::Member);
    let c = |op, v: &str| holds(cond("identity.email", op, text(v)), &ctx).unwrap();
    assert!(c(ConditionOperator::Contains, "@example"));
    assert!(!c(ConditionOperator::Contains, "@other"));
    assert!(c(ConditionOperator::NotContains, "@other"));
    assert!(c(ConditionOperator::StartsWith, "test@"));
    assert!(!c(ConditionOperator::StartsWith, "example"));
    assert!(c(ConditionOperator::EndsWith, ".com"));
    assert!(c(ConditionOperator::Matches, "^[a-z]+@example\\.com$"));
    assert!(!c(ConditionOperator::Matches, "^admin@"));
    assert!(c(ConditionOperator::NotEquals, "x"));
}

#[test]
fn invalid_regex_is_an_error() {
    let ctx = create_test_context(Role::Member);
    match holds(cond("identity.email", ConditionOperator::Matches, text("(")), &ctx) {
        Err(PolicyError::ConditionError(m)) => assert!(m.starts_with("Invalid regex: ")),
        other => panic!("unexpected {:?}", other),
    }
}

#[test]
fn array_operators() {
    let ctx = create_test_context(Role::Member);
    assert!(holds(cond("identity.groups", ConditionOperator::Contains, text("developers")), &ctx)
        .unwrap());
    let roles = JsonValue::Array(vec![text("member"), text("admin")]);
    assert!(holds(cond("role", ConditionOperator::In, roles), &ctx).unwrap());
    let roles = JsonValue::Array(vec![text("owner")]);
    assert!(holds(cond("role", ConditionOperator::NotIn, roles), &ctx).unwrap());
    assert!(!holds(cond("role", ConditionOperator::In, text("member")), &ctx).unwrap());
}

#[test]
fn existence_operators() {
    let ctx = create_test_context(Role::Member);
    assert!(holds(cond("resource.resource_id", ConditionOperator::Exists, JsonValue::Null), &ctx)
        .unwrap());
    assert!(holds(cond("resource.owner_id", ConditionOperator::NotExists, JsonValue::Null), &ctx)
        .unwrap());
    match holds(cond("resource.owner_id", ConditionOperator::Equals, text("x")), &ctx) {
        Err(PolicyError::ConditionError(m)) => assert_eq!(m, "Field 'resource.owner_id' not found"),
        other => panic!("unexpected {:?}", other),
    }
}

#[test]
fn numeric_operators() {
    let ctx = create_test_context(Role::Member).with_attribute("score", num(7.5, "7.5"));
    let c = |op, v: f64| holds(cond("attributes.score", op, num(v, &v.to_string())), &ctx);
    assert!(c(ConditionOperator::GreaterThan, 7.0).unwrap());
    assert!(!c(ConditionOperator::GreaterThan, 7.5).unwrap());
    assert!(c(ConditionOperator::GreaterThanOrEqual, 7.5).unwrap());
    assert!(c(ConditionOperator::LessThan, 10.0).unwrap());
    assert!(c(ConditionOperator::LessThanOrEqual, -1.0).is_ok_and(|b| !b));
    assert!(c(ConditionOperator::Equals, 7.5).unwrap());
    let ctx2 = create_test_context(Role::Member).with_attribute("neg", num(-2.0, "-2"));
    assert!(holds(cond("attributes.neg", ConditionOperator::LessThan, num(-1.5, "-1.5")), &ctx2)
        .unwrap());
    match holds(cond("role", ConditionOperator::GreaterThan, num(1.0, "1")), &ctx) {
        Err(PolicyError::ConditionError(m)) => assert_eq!(m, "Left value is not a number"),
        other => panic!("unexpected {:?}", other),
    }
    match holds(cond("attributes.score", ConditionOperator::LessThan, text("1")), &ctx) {
        Err(PolicyError::ConditionError(m)) => assert_eq!(m, "Right value is not a number"),
        other => panic!("unexpected {:?}", other),
    }
}

#[test]
fn condition_error_stops_evaluation() {
    let policy = Policy::new("p", "P")
        .with_rule(RuleBuilder::new("ok").allow().priority(5).build())
        .with_rule(
            RuleBuilder::new("broken")
                .allow()
                .condition(cond("nothing.here", ConditionOperator::Equals, JsonValue::Null))
                .build(),
        );
    assert!(matches!(
        single(policy).evaluate(&create_test_context(Role::Member)),
        Err(PolicyError::ConditionError(_))
    ));
}
