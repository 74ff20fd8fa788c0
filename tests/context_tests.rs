use policy_engine::types::{
    Action, ActionType, Environment, Identity, Resource, ResourceType, Role, Tenant, TenantType,
};
use policy_engine::canonicalization::canonicalize;
use policy_engine::{EvaluationContext, JsonValue, PolicyError};

fn create_test_context() -> EvaluationContext {
    EvaluationContext::new(
        Identity {
            user_id: "u:test".to_string(),
            email: "test@example.com".to_string(),
            email_domain: "example.com".to_string(),
            groups: vec!["admin".to_string()],
            is_service: false,
        },
        Tenant { tenant_id: "t:example.com".to_string(), tenant_type: TenantType::Customer },
        Resource {
            resource_type: ResourceType::Room,
            resource_id: "r:general".to_string(),
            owner_id: Some("u:owner".to_string()),
            agreement_id: Some("a:room:r:general".to_string()),
        },
        Action { action_type: ActionType::Write, action_name: "messenger.send".to_string() },
    )
    .with_role(Role::Member)
}

fn text_of(v: Option<JsonValue>) -> Option<String> {
    v.map(|x| canonicalize(&x).unwrap())
}

#[test]
fn test_get_identity_field() {
    let ctx = create_test_context();
    assert_eq!(text_of(ctx.get_value("identity.user_id")), Some("\"u:test\"".to_string()));
    assert_eq!(text_of(ctx.get_value("identity.email")), Some("\"test@example.com\"".to_string()));
}

#[test]
fn test_get_role() {
    let ctx = create_test_context();
    assert_eq!(text_of(ctx.get_value("role")), Some("\"member\"".to_string()));
}

#[test]
fn test_validate() {
    let ctx = create_test_context();
    assert!(ctx.validate().is_ok());
}

#[test]
fn resolves_every_scope_field() {
    let ctx = create_test_context();
    let get = |p: &str| text_of(ctx.get_value(p));
    assert_eq!(get("identity.groups"), Some("[\"admin\"]".to_string()));
    assert_eq!(get("identity.is_service"), Some("false".to_string()));
    assert_eq!(get("tenant.tenant_type"), Some("\"customer\"".to_string()));
    assert_eq!(get("resource.resource_type"), Some("\"room\"".to_string()));
    assert_eq!(get("resource.owner_id"), Some("\"u:owner\"".to_string()));
    assert_eq!(get("action.action_type"), Some("\"write\"".to_string()));
    assert_eq!(get("action.action_name"), Some("\"messenger.send\"".to_string()));
}

#[test]
fn whole_scopes_serialize() {
    let ctx = create_test_context();
    assert_eq!(
        text_of(ctx.get_value("tenant")),
        Some("{\"tenant_id\":\"t:example.com\",\"tenant_type\":\"customer\"}".to_string())
    );
    assert_eq!(
        text_of(ctx.get_value("action")),
        Some("{\"action_name\":\"messenger.send\",\"action_type\":\"write\"}".to_string())
    );
}

#[test]
fn unknown_and_deep_paths_resolve_to_nothing() {
    let ctx = create_test_context();
    assert!(ctx.get_value("").is_none());
    assert!(ctx.get_value("nothing").is_none());
    assert!(ctx.get_value("identity.nothing").is_none());
    assert!(ctx.get_value("identity.user_id.more").is_none());
    assert!(ctx.get_value("environment.timestamp").is_none());
}

#[test]
fn attributes_resolve_by_key() {
    let mut env = Environment::default();
    env.ip_address = Some("10.0.0.1".to_string());
    env.attributes.push(("region".to_string(), JsonValue::String("eu".to_string())));
    let ctx = create_test_context()
        .with_environment(env)
        .with_attribute("plan", JsonValue::String("free".to_string()))
        .with_attribute("plan", JsonValue::String("pro".to_string()));
    assert_eq!(text_of(ctx.get_value("attributes.plan")), Some("\"pro\"".to_string()));
    assert_eq!(text_of(ctx.get_value("attributes")), Some("{\"plan\":\"pro\"}".to_string()));
    assert_eq!(
        text_of(ctx.get_value("environment.attributes.region")),
        Some("\"eu\"".to_string())
    );
    assert_eq!(text_of(ctx.get_value("environment.ip_address")), Some("\"10.0.0.1\"".to_string()));
    assert!(ctx.get_value("attributes.missing").is_none());
}

#[test]
fn role_absent_resolves_to_nothing() {
    let mut ctx = create_test_context();
    ctx.role = None;
    assert!(ctx.get_value("role").is_none());
}

#[test]
fn validate_reports_first_missing_identifier() {
    let mut ctx = create_test_context();
    ctx.tenant.tenant_id = String::new();
    match ctx.validate() {
        Err(PolicyError::MissingField(f)) => assert_eq!(f, "tenant.tenant_id"),
        other => panic!("unexpected {:?}", other),
    }
    ctx.identity.user_id = String::new();
    match ctx.validate() {
        Err(PolicyError::MissingField(f)) => assert_eq!(f, "identity.user_id"),
        other => panic!("unexpected {:?}", other),
    }
    let mut ctx = create_test_context();
    ctx.resource.resource_id = String::new();
    match ctx.validate() {
        Err(PolicyError::MissingField(f)) => assert_eq!(f, "resource.resource_id"),
        other => panic!("unexpected {:?}", other),
    }
}

#[test]
fn role_order_and_tags() {
    assert!(Role::Owner.has_permission(Role::Admin));
    assert!(Role::Member.has_permission(Role::Member));
    assert!(!Role::Guest.has_permission(Role::Member));
    assert_eq!(Role::Admin.as_str(), "admin");
    assert_eq!(ResourceType::Receipt.as_str(), "receipt");
    assert_eq!(ActionType::Execute.as_str(), "execute");
}
