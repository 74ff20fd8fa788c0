use policy_engine::policy::{default_effect, RuleBuilder};
use policy_engine::types::{CombiningAlgorithm, Condition, ConditionOperator, Effect};
use policy_engine::{JsonValue, Policy, PolicyError};

#[test]
fn test_rule_builder() {
    let rule = RuleBuilder::new("test-rule")
        .description("Test rule")
        .allow()
        .condition(Condition {
            field: "role".to_string(),
            operator: ConditionOperator::Equals,
            value: JsonValue::String("member".to_string()),
        })
        .priority(10)
        .build();

    assert_eq!(rule.id, "test-rule");
    assert_eq!(rule.effect, Effect::Allow);
    assert_eq!(rule.conditions.len(), 1);
}

#[test]
fn new_policy_defaults() {
    let p = Policy::new("id", "Name");
    assert_eq!(p.version, "1.0.0");
    assert_eq!(p.combining_algorithm, CombiningAlgorithm::DenyOverrides);
    assert_eq!(p.default_effect, Effect::Deny);
    assert_eq!(default_effect(), Effect::Deny);
    assert_eq!(CombiningAlgorithm::default(), CombiningAlgorithm::DenyOverrides);
    assert!(p.validate().is_ok());
}

fn validation_text(p: &Policy) -> String {
    match p.validate() {
        Err(PolicyError::ValidationError(m)) => m,
        other => panic!("unexpected {:?}", other),
    }
}

#[test]
fn validation_errors() {
    assert_eq!(validation_text(&Policy::new("", "Name")), "Policy ID is required");
    assert_eq!(validation_text(&Policy::new("id", "")), "Policy name is required");
    let p = Policy::new("id", "Name").with_rule(RuleBuilder::new("").build());
    assert_eq!(validation_text(&p), "Rule ID is required");
    let p = Policy::new("id", "Name").with_rule(
        RuleBuilder::new("r")
            .condition(Condition {
                field: String::new(),
                operator: ConditionOperator::Exists,
                value: JsonValue::Null,
            })
            .build(),
    );
    assert_eq!(validation_text(&p), "Condition field is required in rule 'r'");
}

#[test]
fn builder_sets_every_field() {
    let rule = RuleBuilder::new("r").deny().effect(Effect::Allow).description("d").priority(-3).build();
    assert_eq!(rule.effect, Effect::Allow);
    assert_eq!(rule.description.as_deref(), Some("d"));
    assert_eq!(rule.priority, -3);
    assert!(rule.conditions.is_empty());
}
