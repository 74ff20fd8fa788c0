use policy_engine::decision::Decision;
use policy_engine::types::Effect;
use policy_engine::{JsonValue, PolicyDecision, PolicyError};

#[test]
fn test_allow_decision() {
    let decision = PolicyDecision::allow("Test allow");
    assert!(decision.is_allowed());
    assert!(!decision.is_denied());
}

#[test]
fn test_deny_decision() {
    let decision = PolicyDecision::deny("Test deny");
    assert!(decision.is_denied());
    assert!(!decision.is_allowed());
}

#[test]
fn test_default_decisions() {
    let allow = PolicyDecision::default_allow();
    assert!(allow.is_allowed());
    assert!(allow.is_default);

    let deny = PolicyDecision::default_deny();
    assert!(deny.is_denied());
    assert!(deny.is_default);
}

#[test]
fn builders_attach_identifiers() {
    let d = PolicyDecision::deny("r")
        .with_rule_id("rule")
        .with_policy_id("pol")
        .with_evaluation_time(7)
        .with_metadata("k", JsonValue::Null)
        .with_metadata("k", JsonValue::Bool(true));
    assert_eq!(d.rule_id.as_deref(), Some("rule"));
    assert_eq!(d.policy_id.as_deref(), Some("pol"));
    assert_eq!(d.evaluation_time_us, Some(7));
    assert_eq!(d.metadata.len(), 1);
    assert!(matches!(d.metadata[0].1, JsonValue::Bool(true)));
    assert_eq!(PolicyDecision::default_allow().reason, "No matching rules - default allow");
}

#[test]
fn effects_convert_to_decisions() {
    assert_eq!(Decision::from(Effect::Allow), Decision::Allow);
    assert_eq!(Decision::from(Effect::Deny), Decision::Deny);
}

#[test]
fn error_messages() {
    assert_eq!(
        PolicyError::MissingField("identity.user_id".to_string()).message(),
        "Missing required field: identity.user_id"
    );
    assert_eq!(
        PolicyError::InvalidFieldValue { field: "f".to_string(), message: "bad".to_string() }
            .message(),
        "Invalid field value for 'f': bad"
    );
}
