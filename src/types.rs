//! The entities of a request context and of a policy document.
use vstd::prelude::*;
use crate::json::JsonValue;

verus! {

/// The identity making a request.
#[derive(Debug)]
pub struct Identity {
    pub user_id: String,
    pub email: String,
    pub email_domain: String,
    pub groups: Vec<String>,
    pub is_service: bool,
}

/// The tenant a request is made in.
#[derive(Debug)]
pub struct Tenant {
    pub tenant_id: String,
    pub tenant_type: TenantType,
}

/// Kind of tenant.
#[derive(Debug, Clone, Copy, PartialEq, Eq, Structural)]
pub enum TenantType {
    Platform,
    Customer,
}

pub open spec fn tenant_type_name(t: TenantType) -> Seq<char> {
    match t {
        TenantType::Platform => "platform"@,
        TenantType::Customer => "customer"@,
    }
}

impl TenantType {
    /// The lowercase tag of this tenant type.
    pub fn as_str(&self) -> (r: &'static str)
        ensures
            r@ == tenant_type_name(*self),
    {
        match self {
            TenantType::Platform => "platform",
            TenantType::Customer => "customer",
        }
    }
}

/// The resource being accessed.
#[derive(Debug)]
pub struct Resource {
    pub resource_type: ResourceType,
    pub resource_id: String,
    pub owner_id: Option<String>,
    pub agreement_id: Option<String>,
}

/// Kind of resource.
#[derive(Debug, Clone, Copy, PartialEq, Eq, Structural)]
pub enum ResourceType {
    Tenant,
    Room,
    Message,
    Workspace,
    Document,
    Tool,
    Receipt,
}

pub open spec fn resource_type_name(t: ResourceType) -> Seq<char> {
    match t {
        ResourceType::Tenant => "tenant"@,
        ResourceType::Room => "room"@,
        ResourceType::Message => "message"@,
        ResourceType::Workspace => "workspace"@,
        ResourceType::Document => "document"@,
        ResourceType::Tool => "tool"@,
        ResourceType::Receipt => "receipt"@,
    }
}

impl ResourceType {
    /// The lowercase tag of this resource type.
    pub fn as_str(&self) -> (r: &'static str)
        ensures
            r@ == resource_type_name(*self),
    {
        match self {
            ResourceType::Tenant => "tenant",
            ResourceType::Room => "room",
            ResourceType::Message => "message",
            ResourceType::Workspace => "workspace",
            ResourceType::Document => "document",
            ResourceType::Tool => "tool",
            ResourceType::Receipt => "receipt",
        }
    }
}

/// The action being performed.
#[derive(Debug)]
pub struct Action {
    pub action_type: ActionType,
    pub action_name: String,
}

/// Kind of action.
#[derive(Debug, Clone, Copy, PartialEq, Eq, Structural)]
pub enum ActionType {
    Read,
    Write,
    Create,
    Delete,
    Execute,
    Admin,
}

pub open spec fn action_type_name(t: ActionType) -> Seq<char> {
    match t {
        ActionType::Read => "read"@,
        ActionType::Write => "write"@,
        ActionType::Create => "create"@,
        ActionType::Delete => "delete"@,
        ActionType::Execute => "execute"@,
        ActionType::Admin => "admin"@,
    }
}

impl ActionType {
    /// The lowercase tag of this action type.
    pub fn as_str(&self) -> (r: &'static str)
        ensures
            r@ == action_type_name(*self),
    {
        match self {
            ActionType::Read => "read",
            ActionType::Write => "write",
            ActionType::Create => "create",
            ActionType::Delete => "delete",
            ActionType::Execute => "execute",
            ActionType::Admin => "admin",
        }
    }
}

/// Role of the identity in the context; totally ordered from guest to owner.
#[derive(Debug, Clone, Copy, PartialEq, Eq, Structural, PartialOrd, Ord)]
pub enum Role {
    Guest,
    Member,
    Admin,
    Owner,
}

pub open spec fn role_name(r: Role) -> Seq<char> {
    match r {
        Role::Guest => "guest"@,
        Role::Member => "member"@,
        Role::Admin => "admin"@,
        Role::Owner => "owner"@,
    }
}

/// The place of a role in the order `guest < member < admin < owner`.
pub open spec fn role_rank(r: Role) -> int {
    match r {
        Role::Guest => 0,
        Role::Member => 1,
        Role::Admin => 2,
        Role::Owner => 3,
    }
}

impl Role {
    /// The lowercase tag of this role.
    pub fn as_str(&self) -> (r: &'static str)
        ensures
            r@ == role_name(*self),
    {
        match self {
            Role::Guest => "guest",
            Role::Member => "member",
            Role::Admin => "admin",
            Role::Owner => "owner",
        }
    }

    fn rank(&self) -> (r: u8)
        ensures
            r == role_rank(*self),
    {
        match self {
            Role::Guest => 0,
            Role::Member => 1,
            Role::Admin => 2,
            Role::Owner => 3,
        }
    }

    /// Whether this role is at least `required`.
    pub fn has_permission(&self, required: Role) -> (r: bool)
        ensures
            r == (role_rank(*self) >= role_rank(required)),
    {
        self.rank() >= required.rank()
    }
}

/// Environment of a request.
#[derive(Debug)]
pub struct Environment {
    pub timestamp: Option<String>,
    pub request_id: Option<String>,
    pub ip_address: Option<String>,
    pub user_agent: Option<String>,
    /// Free-form attributes, one entry per key.
    pub attributes: Vec<(String, JsonValue)>,
}

impl Environment {
    /// An environment with nothing set.
    pub fn empty() -> (r: Environment)
        ensures
            r.timestamp is None,
            r.request_id is None,
            r.ip_address is None,
            r.user_agent is None,
            r.attributes@.len() == 0,
    {
        Environment {
            timestamp: None,
            request_id: None,
            ip_address: None,
            user_agent: None,
            attributes: Vec::new(),
        }
    }
}

impl Default for Environment {
    fn default() -> (r: Environment)
        ensures
            r.timestamp is None,
            r.request_id is None,
            r.ip_address is None,
            r.user_agent is None,
            r.attributes@.len() == 0,
    {
        Environment::empty()
    }
}

/// Operator of a condition.
#[derive(Debug, Clone, Copy, PartialEq, Eq, Structural)]
pub enum ConditionOperator {
    Equals,
    NotEquals,
    Contains,
    NotContains,
    StartsWith,
    EndsWith,
    Matches,
    In,
    NotIn,
    GreaterThan,
    LessThan,
    GreaterThanOrEqual,
    LessThanOrEqual,
    Exists,
    NotExists,
}

/// A test of one context field against a literal value.
#[derive(Debug)]
pub struct Condition {
    /// Dotted path of the field, such as `identity.user_id`.
    pub field: String,
    pub operator: ConditionOperator,
    pub value: JsonValue,
}

/// Outcome that a rule declares.
#[derive(Debug, Clone, Copy, PartialEq, Eq, Structural)]
pub enum Effect {
    Allow,
    Deny,
}

/// A rule: its effect applies when all its conditions hold.
#[derive(Debug)]
pub struct Rule {
    pub id: String,
    pub description: Option<String>,
    pub effect: Effect,
    pub conditions: Vec<Condition>,
    /// Higher priorities are considered first.
    pub priority: i32,
}

/// How the matching rules of a policy, or the decisions of several
/// policies, are combined into one.
#[derive(Debug, Clone, Copy, PartialEq, Eq, Structural)]
pub enum CombiningAlgorithm {
    /// The first applicable rule wins.
    FirstApplicable,
    /// A deny takes precedence.
    DenyOverrides,
    /// An allow takes precedence.
    AllowOverrides,
    /// Every rule must allow.
    UnanimousAllow,
    /// Every rule must deny.
    UnanimousDeny,
}

impl Default for CombiningAlgorithm {
    fn default() -> (r: CombiningAlgorithm)
        ensures
            r == CombiningAlgorithm::DenyOverrides,
    {
        CombiningAlgorithm::DenyOverrides
    }
}

} // verus!
