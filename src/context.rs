//! The request context and the resolution of dotted field paths in it.
use vstd::prelude::*;
use vstd::string::StringExecFns;
use crate::canonicalization::without_key;
use crate::error::{PolicyError, PolicyFault};
use crate::json::{Json, JsonValue, entries_view};
use crate::text::{split_on, split_text};
use crate::types::{
    Action,
    Environment,
    Identity,
    Resource,
    Role,
    Tenant,
    action_type_name,
    resource_type_name,
    role_name,
    tenant_type_name,
};

verus! {

/// Everything a policy decision is made over.
#[derive(Debug)]
pub struct EvaluationContext {
    /// The identity making the request.
    pub identity: Identity,
    /// The tenant context.
    pub tenant: Tenant,
    /// The resource being accessed.
    pub resource: Resource,
    /// The action being performed.
    pub action: Action,
    /// The role of the identity in the current context.
    pub role: Option<Role>,
    /// Environment information.
    pub environment: Environment,
    /// Additional attributes, one entry per key.
    pub attributes: Vec<(String, JsonValue)>,
}

/// The model of an optional JSON value.
pub open spec fn opt_json(v: Option<JsonValue>) -> Option<Json> {
    match v {
        Some(x) => Some(x@),
        None => None,
    }
}

/// An optional text as JSON: a string, or null when absent.
pub open spec fn opt_text_json(o: Option<String>) -> Json {
    match o {
        Some(s) => Json::Str(s@),
        None => Json::Null,
    }
}

/// An optional text as an optional JSON string.
pub open spec fn present_text(o: Option<String>) -> Option<Json> {
    match o {
        Some(s) => Some(Json::Str(s@)),
        None => None,
    }
}

/// A list of texts as a JSON array of strings.
pub open spec fn texts_json(v: Seq<String>) -> Json {
    Json::Array(text_items(v))
}

pub open spec fn text_items(v: Seq<String>) -> Seq<Json> {
    Seq::new(v.len(), |i: int| Json::Str(v[i]@))
}

pub open spec fn identity_json(id: Identity) -> Json {
    Json::Object(
        seq![
            ("user_id"@, Json::Str(id.user_id@)),
            ("email"@, Json::Str(id.email@)),
            ("email_domain"@, Json::Str(id.email_domain@)),
            ("groups"@, texts_json(id.groups@)),
            ("is_service"@, Json::Bool(id.is_service)),
        ],
    )
}

pub open spec fn tenant_json(t: Tenant) -> Json {
    Json::Object(
        seq![
            ("tenant_id"@, Json::Str(t.tenant_id@)),
            ("tenant_type"@, Json::Str(tenant_type_name(t.tenant_type))),
        ],
    )
}

pub open spec fn resource_json(r: Resource) -> Json {
    Json::Object(
        seq![
            ("resource_type"@, Json::Str(resource_type_name(r.resource_type))),
            ("resource_id"@, Json::Str(r.resource_id@)),
            ("owner_id"@, opt_text_json(r.owner_id)),
            ("agreement_id"@, opt_text_json(r.agreement_id)),
        ],
    )
}

pub open spec fn action_json(a: Action) -> Json {
    Json::Object(
        seq![
            ("action_type"@, Json::Str(action_type_name(a.action_type))),
            ("action_name"@, Json::Str(a.action_name@)),
        ],
    )
}

pub open spec fn environment_json(e: Environment) -> Json {
    Json::Object(
        seq![
            ("timestamp"@, opt_text_json(e.timestamp)),
            ("request_id"@, opt_text_json(e.request_id)),
            ("ip_address"@, opt_text_json(e.ip_address)),
            ("user_agent"@, opt_text_json(e.user_agent)),
            ("attributes"@, Json::Object(entries_view(e.attributes@))),
        ],
    )
}

/// The value of the first entry with the given key.
pub open spec fn lookup_entry(es: Seq<(Seq<char>, Json)>, key: Seq<char>) -> Option<Json>
    decreases es.len(),
{
    if es.len() == 0 {
        None
    } else if es[0].0 == key {
        Some(es[0].1)
    } else {
        lookup_entry(es.subrange(1, es.len() as int), key)
    }
}

/// A dotted path split into its segments; there is always at least one.
pub open spec fn split_path(s: Seq<char>) -> Seq<Seq<char>> {
    split_on(s, '.')
}

pub open spec fn identity_field(id: Identity, f: Seq<char>) -> Option<Json> {
    if f == "user_id"@ {
        Some(Json::Str(id.user_id@))
    } else if f == "email"@ {
        Some(Json::Str(id.email@))
    } else if f == "email_domain"@ {
        Some(Json::Str(id.email_domain@))
    } else if f == "groups"@ {
        Some(texts_json(id.groups@))
    } else if f == "is_service"@ {
        Some(Json::Bool(id.is_service))
    } else {
        None
    }
}

pub open spec fn tenant_field(t: Tenant, f: Seq<char>) -> Option<Json> {
    if f == "tenant_id"@ {
        Some(Json::Str(t.tenant_id@))
    } else if f == "tenant_type"@ {
        Some(Json::Str(tenant_type_name(t.tenant_type)))
    } else {
        None
    }
}

pub open spec fn resource_field(r: Resource, f: Seq<char>) -> Option<Json> {
    if f == "resource_type"@ {
        Some(Json::Str(resource_type_name(r.resource_type)))
    } else if f == "resource_id"@ {
        Some(Json::Str(r.resource_id@))
    } else if f == "owner_id"@ {
        present_text(r.owner_id)
    } else if f == "agreement_id"@ {
        present_text(r.agreement_id)
    } else {
        None
    }
}

pub open spec fn action_field(a: Action, f: Seq<char>) -> Option<Json> {
    if f == "action_type"@ {
        Some(Json::Str(action_type_name(a.action_type)))
    } else if f == "action_name"@ {
        Some(Json::Str(a.action_name@))
    } else {
        None
    }
}

pub open spec fn environment_field(e: Environment, f: Seq<char>) -> Option<Json> {
    if f == "timestamp"@ {
        present_text(e.timestamp)
    } else if f == "request_id"@ {
        present_text(e.request_id)
    } else if f == "ip_address"@ {
        present_text(e.ip_address)
    } else if f == "user_agent"@ {
        present_text(e.user_agent)
    } else if f == "attributes"@ {
        Some(Json::Object(entries_view(e.attributes@)))
    } else {
        None
    }
}

/// The whole of a root scope.
pub open spec fn scope_value(ctx: EvaluationContext, scope: Seq<char>) -> Option<Json> {
    if scope == "identity"@ {
        Some(identity_json(ctx.identity))
    } else if scope == "tenant"@ {
        Some(tenant_json(ctx.tenant))
    } else if scope == "resource"@ {
        Some(resource_json(ctx.resource))
    } else if scope == "action"@ {
        Some(action_json(ctx.action))
    } else if scope == "role"@ {
        match ctx.role {
            Some(r) => Some(Json::Str(role_name(r))),
            None => None,
        }
    } else if scope == "environment"@ {
        Some(environment_json(ctx.environment))
    } else if scope == "attributes"@ {
        Some(Json::Object(entries_view(ctx.attributes@)))
    } else {
        None
    }
}

/// A named field of a root scope.
pub open spec fn scope_field(ctx: EvaluationContext, scope: Seq<char>, f: Seq<char>) -> Option<
    Json,
> {
    if scope == "identity"@ {
        identity_field(ctx.identity, f)
    } else if scope == "tenant"@ {
        tenant_field(ctx.tenant, f)
    } else if scope == "resource"@ {
        resource_field(ctx.resource, f)
    } else if scope == "action"@ {
        action_field(ctx.action, f)
    } else if scope == "environment"@ {
        environment_field(ctx.environment, f)
    } else if scope == "attributes"@ {
        lookup_entry(entries_view(ctx.attributes@), f)
    } else {
        None
    }
}

/// The value a dotted path names in a context, if any.
pub open spec fn resolve_path(ctx: EvaluationContext, path: Seq<char>) -> Option<Json> {
    let parts = split_path(path);
    if parts.len() == 1 {
        scope_value(ctx, parts[0])
    } else if parts.len() == 2 {
        scope_field(ctx, parts[0], parts[1])
    } else if parts.len() == 3 && parts[0] == "environment"@ && parts[1] == "attributes"@ {
        lookup_entry(entries_view(ctx.environment.attributes@), parts[2])
    } else {
        None
    }
}

/// The first required identifier of a context that is empty, if any.
pub open spec fn context_fault(ctx: EvaluationContext) -> Option<PolicyFault> {
    if ctx.identity.user_id@.len() == 0 {
        Some(PolicyFault::MissingField("identity.user_id"@))
    } else if ctx.tenant.tenant_id@.len() == 0 {
        Some(PolicyFault::MissingField("tenant.tenant_id"@))
    } else if ctx.resource.resource_id@.len() == 0 {
        Some(PolicyFault::MissingField("resource.resource_id"@))
    } else {
        None
    }
}

/// Whether `s` holds exactly the characters of `lit`.
fn text_is(s: &String, lit: &str) -> (r: bool)
    ensures
        r == (s@ == lit@),
{
    let l = String::from_str(lit);
    *s == l
}

/// A JSON string holding the characters of `lit`.
fn json_text(lit: &str) -> (r: JsonValue)
    ensures
        r@ == Json::Str(lit@),
{
    JsonValue::String(String::from_str(lit))
}

/// A copy of an entry list.
fn copy_entries(es: &Vec<(String, JsonValue)>) -> (r: Vec<(String, JsonValue)>)
    ensures
        entries_view(r@) == entries_view(es@),
{
    let mut out: Vec<(String, JsonValue)> = Vec::new();
    let mut i: usize = 0;
    while i < es.len()
        invariant
            i <= es@.len(),
            out@.len() == i,
            forall|k: int|
                0 <= k < i ==> #[trigger] out@[k].0@ == es@[k].0@ && out@[k].1@ == es@[k].1@,
        decreases es@.len() - i,
    {
        out.push((es[i].0.clone(), es[i].1.deep_copy()));
        i += 1;
    }
    assert(entries_view(out@) =~= entries_view(es@));
    out
}

/// The value of the first entry with key `key`, copied.
fn lookup_in(es: &Vec<(String, JsonValue)>, key: &String) -> (r: Option<JsonValue>)
    ensures
        opt_json(r) == lookup_entry(entries_view(es@), key@),
{
    let ghost ev = entries_view(es@);
    let n = es.len();
    let mut i: usize = 0;
    assert(ev.subrange(0, n as int) =~= ev);
    while i < n
        invariant
            n == es@.len(),
            ev == entries_view(es@),
            i <= n,
            lookup_entry(ev, key@) == lookup_entry(ev.subrange(i as int, n as int), key@),
        decreases n - i,
    {
        let ghost rest = ev.subrange(i as int, n as int);
        assert(rest[0] == (es@[i as int].0@, es@[i as int].1@));
        if es[i].0 == *key {
            return Some(es[i].1.deep_copy());
        }
        assert(rest.subrange(1, rest.len() as int) =~= ev.subrange(i + 1, n as int));
        i += 1;
    }
    None
}

/// An optional text as JSON: a string, or null when absent.
fn opt_text_value(o: &Option<String>) -> (r: JsonValue)
    ensures
        r@ == opt_text_json(*o),
{
    match o {
        Some(s) => JsonValue::String(s.clone()),
        None => JsonValue::Null,
    }
}

/// An optional text as an optional JSON string.
fn present_text_value(o: &Option<String>) -> (r: Option<JsonValue>)
    ensures
        opt_json(r) == present_text(*o),
{
    match o {
        Some(s) => Some(JsonValue::String(s.clone())),
        None => None,
    }
}

/// A list of texts as a JSON array of strings.
fn texts_value(v: &Vec<String>) -> (r: JsonValue)
    ensures
        r@ == texts_json(v@),
{
    let mut out: Vec<JsonValue> = Vec::new();
    let mut i: usize = 0;
    while i < v.len()
        invariant
            i <= v@.len(),
            out@.len() == i,
            forall|k: int| 0 <= k < i ==> #[trigger] out@[k]@ == Json::Str(v@[k]@),
        decreases v@.len() - i,
    {
        out.push(JsonValue::String(v[i].clone()));
        i += 1;
    }
    let r = JsonValue::Array(out);
    assert(r@ == texts_json(v@)) by {
        assert forall|k: int| 0 <= k < out@.len() implies crate::json::items_view(out@)[k]
            == text_items(v@)[k] by {
            assert(out@[k]@ == Json::Str(v@[k]@));
        }
        assert(crate::json::items_view(out@) =~= text_items(v@));
    }
    r
}

/// The JSON form of an identity.
fn identity_value(id: &Identity) -> (r: JsonValue)
    ensures
        r@ == identity_json(*id),
{
    let mut out: Vec<(String, JsonValue)> = Vec::new();
    out.push((String::from_str("user_id"), JsonValue::String(id.user_id.clone())));
    out.push((String::from_str("email"), JsonValue::String(id.email.clone())));
    out.push((String::from_str("email_domain"), JsonValue::String(id.email_domain.clone())));
    out.push((String::from_str("groups"), texts_value(&id.groups)));
    out.push((String::from_str("is_service"), JsonValue::Bool(id.is_service)));
    let r = JsonValue::Object(out);
    assert(entries_view(out@) =~= identity_json(*id)->Object_0);
    r
}

/// The JSON form of a tenant.
fn tenant_value(t: &Tenant) -> (r: JsonValue)
    ensures
        r@ == tenant_json(*t),
{
    let mut out: Vec<(String, JsonValue)> = Vec::new();
    out.push((String::from_str("tenant_id"), JsonValue::String(t.tenant_id.clone())));
    out.push((String::from_str("tenant_type"), json_text(t.tenant_type.as_str())));
    let r = JsonValue::Object(out);
    assert(entries_view(out@) =~= tenant_json(*t)->Object_0);
    r
}

/// The JSON form of a resource; absent identifiers are null.
fn resource_value(res: &Resource) -> (r: JsonValue)
    ensures
        r@ == resource_json(*res),
{
    let mut out: Vec<(String, JsonValue)> = Vec::new();
    out.push((String::from_str("resource_type"), json_text(res.resource_type.as_str())));
    out.push((String::from_str("resource_id"), JsonValue::String(res.resource_id.clone())));
    out.push((String::from_str("owner_id"), opt_text_value(&res.owner_id)));
    out.push((String::from_str("agreement_id"), opt_text_value(&res.agreement_id)));
    let r = JsonValue::Object(out);
    assert(entries_view(out@) =~= resource_json(*res)->Object_0);
    r
}

/// The JSON form of an action.
fn action_value(a: &Action) -> (r: JsonValue)
    ensures
        r@ == action_json(*a),
{
    let mut out: Vec<(String, JsonValue)> = Vec::new();
    out.push((String::from_str("action_type"), json_text(a.action_type.as_str())));
    out.push((String::from_str("action_name"), JsonValue::String(a.action_name.clone())));
    let r = JsonValue::Object(out);
    assert(entries_view(out@) =~= action_json(*a)->Object_0);
    r
}

/// The JSON form of an environment; absent values are null.
fn environment_value(e: &Environment) -> (r: JsonValue)
    ensures
        r@ == environment_json(*e),
{
    let mut out: Vec<(String, JsonValue)> = Vec::new();
    out.push((String::from_str("timestamp"), opt_text_value(&e.timestamp)));
    out.push((String::from_str("request_id"), opt_text_value(&e.request_id)));
    out.push((String::from_str("ip_address"), opt_text_value(&e.ip_address)));
    out.push((String::from_str("user_agent"), opt_text_value(&e.user_agent)));
    out.push((String::from_str("attributes"), JsonValue::Object(copy_entries(&e.attributes))));
    let r = JsonValue::Object(out);
    assert(entries_view(out@) =~= environment_json(*e)->Object_0);
    r
}

impl EvaluationContext {
    /// A context with no role, an empty environment and no attributes.
    pub fn new(identity: Identity, tenant: Tenant, resource: Resource, action: Action) -> (r: Self)
        ensures
            r.identity == identity,
            r.tenant == tenant,
            r.resource == resource,
            r.action == action,
            r.role is None,
            r.environment.timestamp is None,
            r.environment.request_id is None,
            r.environment.ip_address is None,
            r.environment.user_agent is None,
            r.environment.attributes@.len() == 0,
            r.attributes@.len() == 0,
    {
        EvaluationContext {
            identity,
            tenant,
            resource,
            action,
            role: None,
            environment: Environment::empty(),
            attributes: Vec::new(),
        }
    }

    /// This context with the given role.
    pub fn with_role(self, role: Role) -> (r: Self)
        ensures
            r == (EvaluationContext { role: Some(role), ..self }),
    {
        let mut c = self;
        c.role = Some(role);
        c
    }

    /// This context with the given environment.
    pub fn with_environment(self, environment: Environment) -> (r: Self)
        ensures
            r == (EvaluationContext { environment, ..self }),
    {
        let mut c = self;
        c.environment = environment;
        c
    }

    /// This context with attribute `key` set to `value`, replacing any
    /// earlier value of that key.
    pub fn with_attribute(self, key: &str, value: JsonValue) -> (r: Self)
        ensures
            r.identity == self.identity,
            r.tenant == self.tenant,
            r.resource == self.resource,
            r.action == self.action,
            r.role == self.role,
            r.environment == self.environment,
            entries_view(r.attributes@) == without_key(entries_view(self.attributes@), key@).push(
                (key@, value@),
            ),
    {
        let EvaluationContext { identity, tenant, resource, action, role, environment, attributes } =
            self;
        let ghost es = entries_view(attributes@);
        let k = String::from_str(key);
        let mut kept: Vec<(String, JsonValue)> = Vec::new();
        let mut rest = attributes;
        let ghost all = rest@;
        let total = rest.len();
        let mut taken: usize = 0;
        while rest.len() > 0
            invariant
                es == entries_view(all),
                total == all.len(),
                taken + rest@.len() == all.len(),
                rest@ == all.subrange(taken as int, all.len() as int),
                entries_view(kept@) == without_key(es.subrange(0, taken as int), key@),
                k@ == key@,
            decreases rest@.len(),
        {
            let ghost pre = es.subrange(0, taken as int + 1);
            assert(pre.subrange(0, pre.len() - 1) =~= es.subrange(0, taken as int));
            assert(pre.last() == (all[taken as int].0@, all[taken as int].1@));
            let (name, v) = rest.remove(0);
            if name != k {
                let ghost before = kept@;
                kept.push((name, v));
                assert(entries_view(kept@) =~= entries_view(before).push(pre.last()));
            }
            taken += 1;
            assert(rest@ =~= all.subrange(taken as int, all.len() as int));
        }
        assert(es.subrange(0, total as int) =~= es);
        let ghost before = kept@;
        kept.push((k, value));
        assert(entries_view(kept@) =~= entries_view(before).push((key@, value@)));
        EvaluationContext { identity, tenant, resource, action, role, environment, attributes: kept }
    }

    fn get_identity_field(&self, f: &String) -> (r: Option<JsonValue>)
        ensures
            opt_json(r) == identity_field(self.identity, f@),
    {
        if text_is(f, "user_id") {
            Some(JsonValue::String(self.identity.user_id.clone()))
        } else if text_is(f, "email") {
            Some(JsonValue::String(self.identity.email.clone()))
        } else if text_is(f, "email_domain") {
            Some(JsonValue::String(self.identity.email_domain.clone()))
        } else if text_is(f, "groups") {
            Some(texts_value(&self.identity.groups))
        } else if text_is(f, "is_service") {
            Some(JsonValue::Bool(self.identity.is_service))
        } else {
            None
        }
    }

    fn get_tenant_field(&self, f: &String) -> (r: Option<JsonValue>)
        ensures
            opt_json(r) == tenant_field(self.tenant, f@),
    {
        if text_is(f, "tenant_id") {
            Some(JsonValue::String(self.tenant.tenant_id.clone()))
        } else if text_is(f, "tenant_type") {
            Some(json_text(self.tenant.tenant_type.as_str()))
        } else {
            None
        }
    }

    fn get_resource_field(&self, f: &String) -> (r: Option<JsonValue>)
        ensures
            opt_json(r) == resource_field(self.resource, f@),
    {
        if text_is(f, "resource_type") {
            Some(json_text(self.resource.resource_type.as_str()))
        } else if text_is(f, "resource_id") {
            Some(JsonValue::String(self.resource.resource_id.clone()))
        } else if text_is(f, "owner_id") {
            present_text_value(&self.resource.owner_id)
        } else if text_is(f, "agreement_id") {
            present_text_value(&self.resource.agreement_id)
        } else {
            None
        }
    }

    fn get_action_field(&self, f: &String) -> (r: Option<JsonValue>)
        ensures
            opt_json(r) == action_field(self.action, f@),
    {
        if text_is(f, "action_type") {
            Some(json_text(self.action.action_type.as_str()))
        } else if text_is(f, "action_name") {
            Some(JsonValue::String(self.action.action_name.clone()))
        } else {
            None
        }
    }

    fn get_environment_field(&self, f: &String) -> (r: Option<JsonValue>)
        ensures
            opt_json(r) == environment_field(self.environment, f@),
    {
        if text_is(f, "timestamp") {
            present_text_value(&self.environment.timestamp)
        } else if text_is(f, "request_id") {
            present_text_value(&self.environment.request_id)
        } else if text_is(f, "ip_address") {
            present_text_value(&self.environment.ip_address)
        } else if text_is(f, "user_agent") {
            present_text_value(&self.environment.user_agent)
        } else if text_is(f, "attributes") {
            Some(JsonValue::Object(copy_entries(&self.environment.attributes)))
        } else {
            None
        }
    }

    fn get_scope(&self, scope: &String) -> (r: Option<JsonValue>)
        ensures
            opt_json(r) == scope_value(*self, scope@),
    {
        if text_is(scope, "identity") {
            Some(identity_value(&self.identity))
        } else if text_is(scope, "tenant") {
            Some(tenant_value(&self.tenant))
        } else if text_is(scope, "resource") {
            Some(resource_value(&self.resource))
        } else if text_is(scope, "action") {
            Some(action_value(&self.action))
        } else if text_is(scope, "role") {
            match self.role {
                Some(role) => Some(json_text(role.as_str())),
                None => None,
            }
        } else if text_is(scope, "environment") {
            Some(environment_value(&self.environment))
        } else if text_is(scope, "attributes") {
            Some(JsonValue::Object(copy_entries(&self.attributes)))
        } else {
            None
        }
    }

    fn get_scope_field(&self, scope: &String, f: &String) -> (r: Option<JsonValue>)
        ensures
            opt_json(r) == scope_field(*self, scope@, f@),
    {
        if text_is(scope, "identity") {
            self.get_identity_field(f)
        } else if text_is(scope, "tenant") {
            self.get_tenant_field(f)
        } else if text_is(scope, "resource") {
            self.get_resource_field(f)
        } else if text_is(scope, "action") {
            self.get_action_field(f)
        } else if text_is(scope, "environment") {
            self.get_environment_field(f)
        } else if text_is(scope, "attributes") {
            lookup_in(&self.attributes, f)
        } else {
            None
        }
    }

    /// The value that a dotted field path names, such as `identity.user_id`,
    /// `role` or `environment.attributes.region`; `None` when it names nothing.
    pub fn get_value(&self, field_path: &str) -> (r: Option<JsonValue>)
        ensures
            opt_json(r) == resolve_path(*self, field_path@),
    {
        let parts = split_text(field_path, '.');
        let ghost ps = split_path(field_path@);
        assert(parts@.len() == ps.len());
        assert(forall|k: int| 0 <= k < parts@.len() ==> #[trigger] parts@[k]@ == ps[k]);
        if parts.len() == 1 {
            self.get_scope(&parts[0])
        } else if parts.len() == 2 {
            self.get_scope_field(&parts[0], &parts[1])
        } else if parts.len() == 3 && text_is(&parts[0], "environment") && text_is(
            &parts[1],
            "attributes",
        ) {
            lookup_in(&self.environment.attributes, &parts[2])
        } else {
            None
        }
    }

    /// Checks that the required identifiers are present.
    pub fn validate(&self) -> (r: Result<(), PolicyError>)
        ensures
            match r {
                Ok(()) => context_fault(*self) is None,
                Err(e) => context_fault(*self) == Some(e@),
            },
    {
        if self.identity.user_id.as_str().is_empty() {
            return Err(PolicyError::MissingField(String::from_str("identity.user_id")));
        }
        if self.tenant.tenant_id.as_str().is_empty() {
            return Err(PolicyError::MissingField(String::from_str("tenant.tenant_id")));
        }
        if self.resource.resource_id.as_str().is_empty() {
            return Err(PolicyError::MissingField(String::from_str("resource.resource_id")));
        }
        Ok(())
    }
}

} // verus!
