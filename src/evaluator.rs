//! Evaluation of policies against a request context.
use vstd::prelude::*;
use vstd::string::StringExecFns;
use crate::context::{EvaluationContext, context_fault, opt_json, resolve_path};
use crate::decision::{
    Decision,
    DecisionModel,
    PolicyDecision,
    default_decision,
    effect_decision,
};
use crate::error::{PolicyError, PolicyFault};
use crate::json::{
    Json,
    JsonValue,
    float_order_key,
    is_nan_bits,
    items_view,
    json_eq,
    json_equal,
};
use crate::policy::{Policy, priority_order, priority_order_of};
use crate::text::{
    has_prefix,
    has_substring,
    has_suffix,
    text_contains,
    text_ends_with,
    text_starts_with,
};
use crate::types::{CombiningAlgorithm, Condition, ConditionOperator, Effect, Rule};

verus! {

/// Why a pattern fails to compile as a regular expression, if it does.
pub uninterp spec fn regex_compile_error(pattern: Seq<char>) -> Option<Seq<char>>;

/// Whether a compiled pattern matches anywhere in a haystack.
pub uninterp spec fn regex_matches(pattern: Seq<char>, haystack: Seq<char>) -> bool;

/// Relies on regex's `Regex::new`, which compiles `pattern` or reports why it
/// cannot, and on `Regex::is_match`, which tells whether the compiled pattern
/// matches anywhere in `haystack`. Both depend on their arguments alone.
#[verifier::external_body]
fn regex_search(pattern: &str, haystack: &str) -> (r: Result<bool, String>)
    ensures
        match r {
            Ok(b) => regex_compile_error(pattern@) is None && b == regex_matches(
                pattern@,
                haystack@,
            ),
            Err(t) => regex_compile_error(pattern@) == Some(t@),
        },
{
    match regex::Regex::new(pattern) {
        Ok(re) => Ok(re.is_match(haystack)),
        Err(e) => Err(e.to_string()),
    }
}

#[verifier::external_type_specification]
#[verifier::external_body]
pub struct ExInstant(std::time::Instant);

/// Relies on `Instant::now`: a reading of the monotonic clock.
pub assume_specification[ std::time::Instant::now ]() -> std::time::Instant;

/// Relies on `Instant::elapsed`: the time since the reading.
pub assume_specification[ std::time::Instant::elapsed ](
    start: &std::time::Instant,
) -> core::time::Duration;

/// Relies on `Duration::as_micros`: the whole microseconds of a duration.
pub assume_specification[ core::time::Duration::as_micros ](d: &core::time::Duration) -> u128;

/// Some element of `xs` equals `x`.
pub open spec fn json_member(xs: Seq<Json>, x: Json) -> bool {
    exists|i: int| 0 <= i < xs.len() && #[trigger] json_eq(xs[i], x)
}

/// `Contains`: a substring of a string, or an element of an array.
pub open spec fn contains_holds(l: Json, r: Json) -> bool {
    match l {
        Json::Str(a) => match r {
            Json::Str(b) => has_substring(a, b),
            _ => false,
        },
        Json::Array(xs) => json_member(xs, r),
        _ => false,
    }
}

/// `In`: `l` is an element of the array `r`.
pub open spec fn in_holds(l: Json, r: Json) -> bool {
    match r {
        Json::Array(ys) => json_member(ys, l),
        _ => false,
    }
}

/// A string test on two strings; false when either is not a string.
pub open spec fn text_test(l: Json, r: Json, prefix: bool) -> bool {
    match l {
        Json::Str(a) => match r {
            Json::Str(b) => if prefix {
                has_prefix(a, b)
            } else {
                has_suffix(a, b)
            },
            _ => false,
        },
        _ => false,
    }
}

/// An ordering comparison of two binary64 values; false when either is NaN.
pub open spec fn numeric_holds(op: ConditionOperator, a: u64, b: u64) -> bool {
    let x = float_order_key(a);
    let y = float_order_key(b);
    !is_nan_bits(a) && !is_nan_bits(b) && match op {
        ConditionOperator::GreaterThan => x > y,
        ConditionOperator::LessThan => x < y,
        ConditionOperator::GreaterThanOrEqual => x >= y,
        ConditionOperator::LessThanOrEqual => x <= y,
        _ => false,
    }
}

/// An ordering comparison; both sides must be numbers.
pub open spec fn compare_outcome(op: ConditionOperator, l: Json, r: Json) -> Result<
    bool,
    PolicyFault,
> {
    match l {
        Json::Number(a, _) => match r {
            Json::Number(b, _) => Ok(numeric_holds(op, a, b)),
            _ => Err(PolicyFault::ConditionError("Right value is not a number"@)),
        },
        _ => Err(PolicyFault::ConditionError("Left value is not a number"@)),
    }
}

/// `Matches`: the pattern `r` matches somewhere in `l`; false unless both
/// are strings.
pub open spec fn regex_outcome(l: Json, r: Json) -> Result<bool, PolicyFault> {
    match l {
        Json::Str(a) => match r {
            Json::Str(p) => match regex_compile_error(p) {
                Some(t) => Err(PolicyFault::ConditionError("Invalid regex: "@ + t)),
                None => Ok(regex_matches(p, a)),
            },
            _ => Ok(false),
        },
        _ => Ok(false),
    }
}

/// The result of applying an operator to a field value `l` and a literal `r`.
pub open spec fn operator_outcome(op: ConditionOperator, l: Json, r: Json) -> Result<
    bool,
    PolicyFault,
> {
    match op {
        ConditionOperator::Equals => Ok(json_eq(l, r)),
        ConditionOperator::NotEquals => Ok(!json_eq(l, r)),
        ConditionOperator::Contains => Ok(contains_holds(l, r)),
        ConditionOperator::NotContains => Ok(!contains_holds(l, r)),
        ConditionOperator::StartsWith => Ok(text_test(l, r, true)),
        ConditionOperator::EndsWith => Ok(text_test(l, r, false)),
        ConditionOperator::Matches => regex_outcome(l, r),
        ConditionOperator::In => Ok(in_holds(l, r)),
        ConditionOperator::NotIn => Ok(!in_holds(l, r)),
        ConditionOperator::GreaterThan => compare_outcome(op, l, r),
        ConditionOperator::LessThan => compare_outcome(op, l, r),
        ConditionOperator::GreaterThanOrEqual => compare_outcome(op, l, r),
        ConditionOperator::LessThanOrEqual => compare_outcome(op, l, r),
        ConditionOperator::Exists => Ok(false),
        ConditionOperator::NotExists => Ok(false),
    }
}

/// The result of a condition in a context.
pub open spec fn condition_outcome(c: Condition, ctx: EvaluationContext) -> Result<
    bool,
    PolicyFault,
> {
    let left = resolve_path(ctx, c.field@);
    match c.operator {
        ConditionOperator::Exists => Ok(left is Some),
        ConditionOperator::NotExists => Ok(left is None),
        _ => match left {
            Some(l) => operator_outcome(c.operator, l, c.value@),
            None => Err(PolicyFault::ConditionError("Field '"@ + c.field@ + "' not found"@)),
        },
    }
}

/// Whether all conditions hold, tried in order: the first one that fails
/// decides, and an error stops the evaluation.
pub open spec fn conditions_outcome(conds: Seq<Condition>, ctx: EvaluationContext) -> Result<
    bool,
    PolicyFault,
>
    decreases conds.len(),
{
    if conds.len() == 0 {
        Ok(true)
    } else {
        match condition_outcome(conds[0], ctx) {
            Err(e) => Err(e),
            Ok(false) => Ok(false),
            Ok(true) => conditions_outcome(conds.subrange(1, conds.len() as int), ctx),
        }
    }
}

/// The rules among `order` that match, in that order; the first error in
/// that order stops the evaluation.
pub open spec fn matched_rules(rules: Seq<Rule>, order: Seq<usize>, ctx: EvaluationContext) -> Result<
    Seq<usize>,
    PolicyFault,
>
    decreases order.len(),
{
    if order.len() == 0 {
        Ok(Seq::empty())
    } else {
        match matched_rules(rules, order.subrange(0, order.len() - 1), ctx) {
            Err(e) => Err(e),
            Ok(m) => {
                let j = order.last();
                match conditions_outcome(rules[j as int].conditions@, ctx) {
                    Err(e) => Err(e),
                    Ok(true) => Ok(m.push(j)),
                    Ok(false) => Ok(m),
                }
            },
        }
    }
}

/// The first rule index in `m` whose rule has effect `e`.
pub open spec fn first_with_effect(rules: Seq<Rule>, m: Seq<usize>, e: Effect) -> Option<usize>
    decreases m.len(),
{
    if m.len() == 0 {
        None
    } else if rules[m[0] as int].effect == e {
        Some(m[0])
    } else {
        first_with_effect(rules, m.subrange(1, m.len() as int), e)
    }
}

/// A decision made by a rule of a policy.
pub open spec fn rule_made(
    decision: Decision,
    reason: Seq<char>,
    rule_id: Seq<char>,
    policy_id: Seq<char>,
) -> DecisionModel {
    DecisionModel {
        decision,
        reason,
        rule_id: Some(rule_id),
        policy_id: Some(policy_id),
        is_default: false,
        metadata: Seq::empty(),
    }
}

/// `Rule '<id>'` followed by `suffix`.
pub open spec fn rule_reason(id: Seq<char>, suffix: Seq<char>) -> Seq<char> {
    "Rule '"@ + id + suffix
}

/// The decision of a policy whose matching rules, in priority order, are `m`.
pub open spec fn policy_decision(p: Policy, m: Seq<usize>) -> DecisionModel {
    let rules = p.rules@;
    if m.len() == 0 {
        DecisionModel {
            policy_id: Some(p.id@),
            ..default_decision(effect_decision(p.default_effect))
        }
    } else {
        let top = rules[m[0] as int];
        match p.combining_algorithm {
            CombiningAlgorithm::FirstApplicable => rule_made(
                effect_decision(top.effect),
                rule_reason(top.id@, "' matched"@),
                top.id@,
                p.id@,
            ),
            CombiningAlgorithm::DenyOverrides => match first_with_effect(rules, m, Effect::Deny) {
                Some(j) => rule_made(
                    Decision::Deny,
                    rule_reason(rules[j as int].id@, "' denies"@),
                    rules[j as int].id@,
                    p.id@,
                ),
                None => rule_made(Decision::Allow, "All matching rules allow"@, top.id@, p.id@),
            },
            CombiningAlgorithm::AllowOverrides => match first_with_effect(rules, m, Effect::Allow) {
                Some(j) => rule_made(
                    Decision::Allow,
                    rule_reason(rules[j as int].id@, "' allows"@),
                    rules[j as int].id@,
                    p.id@,
                ),
                None => rule_made(Decision::Deny, "All matching rules deny"@, top.id@, p.id@),
            },
            CombiningAlgorithm::UnanimousAllow => match first_with_effect(rules, m, Effect::Deny) {
                Some(j) => rule_made(
                    Decision::Deny,
                    rule_reason(rules[j as int].id@, "' denies (unanimous allow required)"@),
                    rules[j as int].id@,
                    p.id@,
                ),
                None => rule_made(Decision::Allow, "All rules unanimously allow"@, top.id@, p.id@),
            },
            CombiningAlgorithm::UnanimousDeny => match first_with_effect(rules, m, Effect::Allow) {
                Some(j) => rule_made(
                    Decision::Allow,
                    rule_reason(rules[j as int].id@, "' allows (unanimous deny required)"@),
                    rules[j as int].id@,
                    p.id@,
                ),
                None => rule_made(Decision::Deny, "All rules unanimously deny"@, top.id@, p.id@),
            },
        }
    }
}

/// The outcome of one policy in a context.
pub open spec fn policy_outcome(p: Policy, ctx: EvaluationContext) -> Result<
    DecisionModel,
    PolicyFault,
> {
    match matched_rules(p.rules@, priority_order(p.rules@), ctx) {
        Err(e) => Err(e),
        Ok(m) => Ok(policy_decision(p, m)),
    }
}

/// The index of the first decision in `ds` that is `d`.
pub open spec fn first_decision(ds: Seq<DecisionModel>, d: Decision) -> Option<int>
    decreases ds.len(),
{
    if ds.len() == 0 {
        None
    } else if ds[0].decision == d {
        Some(0)
    } else {
        match first_decision(ds.subrange(1, ds.len() as int), d) {
            Some(i) => Some(i + 1),
            None => None,
        }
    }
}

/// The decision at the first index of `ds` that is `d`, or `fallback`.
pub open spec fn first_or(ds: Seq<DecisionModel>, d: Decision, fallback: DecisionModel) -> DecisionModel {
    match first_decision(ds, d) {
        Some(i) => ds[i],
        None => fallback,
    }
}

/// Several decisions combined into one.
pub open spec fn combined_decision(ds: Seq<DecisionModel>, alg: CombiningAlgorithm) -> DecisionModel {
    if ds.len() == 0 {
        default_decision(Decision::Deny)
    } else {
        match alg {
            CombiningAlgorithm::FirstApplicable => ds[0],
            CombiningAlgorithm::DenyOverrides => match first_decision(ds, Decision::Deny) {
                Some(i) => ds[i],
                None => first_or(ds, Decision::Allow, default_decision(Decision::Deny)),
            },
            CombiningAlgorithm::AllowOverrides => match first_decision(ds, Decision::Allow) {
                Some(i) => ds[i],
                None => first_or(ds, Decision::Deny, default_decision(Decision::Deny)),
            },
            CombiningAlgorithm::UnanimousAllow => if first_decision(ds, Decision::Deny) is None {
                ds[0]
            } else {
                first_or(ds, Decision::Deny, default_decision(Decision::Deny))
            },
            CombiningAlgorithm::UnanimousDeny => if first_decision(ds, Decision::Allow) is None {
                ds[0]
            } else {
                first_or(ds, Decision::Allow, default_decision(Decision::Allow))
            },
        }
    }
}

/// The decisions of the policies, in order; the first error stops the
/// evaluation.
pub open spec fn policies_outcome(ps: Seq<Policy>, ctx: EvaluationContext) -> Result<
    Seq<DecisionModel>,
    PolicyFault,
>
    decreases ps.len(),
{
    if ps.len() == 0 {
        Ok(Seq::empty())
    } else {
        match policies_outcome(ps.subrange(0, ps.len() - 1), ctx) {
            Err(e) => Err(e),
            Ok(ds) => match policy_outcome(ps.last(), ctx) {
                Err(e) => Err(e),
                Ok(d) => Ok(ds.push(d)),
            },
        }
    }
}

/// The outcome of an evaluation: the context is checked first; with no
/// policies the answer is a default deny; otherwise the policies' decisions
/// are combined with deny-overrides.
pub open spec fn evaluation_outcome(ps: Seq<Policy>, ctx: EvaluationContext) -> Result<
    DecisionModel,
    PolicyFault,
> {
    match context_fault(ctx) {
        Some(f) => Err(f),
        None => if ps.len() == 0 {
            Ok(default_decision(Decision::Deny))
        } else {
            match policies_outcome(ps, ctx) {
                Err(e) => Err(e),
                Ok(ds) => Ok(combined_decision(ds, CombiningAlgorithm::DenyOverrides)),
            }
        },
    }
}

/// The model of a result that carries a value with no model of its own.
pub open spec fn bool_result(r: Result<bool, PolicyError>) -> Result<bool, PolicyFault> {
    match r {
        Ok(b) => Ok(b),
        Err(e) => Err(e@),
    }
}

/// The model of a result that carries a decision.
pub open spec fn decision_result(r: Result<PolicyDecision, PolicyError>) -> Result<
    DecisionModel,
    PolicyFault,
> {
    match r {
        Ok(d) => Ok(d@),
        Err(e) => Err(e@),
    }
}

/// The models of a list of decisions.
pub open spec fn decisions_view(ds: Seq<PolicyDecision>) -> Seq<DecisionModel> {
    Seq::new(ds.len(), |i: int| ds[i]@)
}

/// Whether some element of `xs` equals `x`.
fn member_of(xs: &Vec<JsonValue>, x: &JsonValue) -> (r: bool)
    ensures
        r == json_member(items_view(xs@), x@),
{
    let ghost v = items_view(xs@);
    let mut i: usize = 0;
    while i < xs.len()
        invariant
            v == items_view(xs@),
            i <= xs@.len(),
            forall|q: int| 0 <= q < i ==> !#[trigger] json_eq(v[q], x@),
        decreases xs@.len() - i,
    {
        assert(v[i as int] == xs@[i as int]@);
        if json_equal(&xs[i], x) {
            return true;
        }
        i += 1;
    }
    false
}

/// `Rule '<id>'` followed by `suffix`.
fn rule_reason_text(id: &String, suffix: &str) -> (r: String)
    ensures
        r@ == rule_reason(id@, suffix@),
{
    let mut out = String::from_str("Rule '");
    out.append(id.as_str());
    out.append(suffix);
    out
}

proof fn lemma_matched_error_persists(
    rules: Seq<Rule>,
    order: Seq<usize>,
    k: int,
    ctx: EvaluationContext,
)
    requires
        0 <= k <= order.len(),
        matched_rules(rules, order.subrange(0, k), ctx) is Err,
    ensures
        matched_rules(rules, order, ctx) == matched_rules(rules, order.subrange(0, k), ctx),
    decreases order.len() - k,
{
    if k == order.len() {
        assert(order.subrange(0, k) =~= order);
    } else {
        let next = order.subrange(0, k + 1);
        assert(next.subrange(0, next.len() - 1) =~= order.subrange(0, k));
        lemma_matched_error_persists(rules, order, k + 1, ctx);
    }
}

proof fn lemma_policies_error_persists(ps: Seq<Policy>, k: int, ctx: EvaluationContext)
    requires
        0 <= k <= ps.len(),
        policies_outcome(ps.subrange(0, k), ctx) is Err,
    ensures
        policies_outcome(ps, ctx) == policies_outcome(ps.subrange(0, k), ctx),
    decreases ps.len() - k,
{
    if k == ps.len() {
        assert(ps.subrange(0, k) =~= ps);
    } else {
        let next = ps.subrange(0, k + 1);
        assert(next.subrange(0, next.len() - 1) =~= ps.subrange(0, k));
        lemma_policies_error_persists(ps, k + 1, ctx);
    }
}

proof fn lemma_first_decision_at(ds: Seq<DecisionModel>, d: Decision, k: int)
    requires
        0 <= k <= ds.len(),
        forall|q: int| 0 <= q < k ==> (#[trigger] ds[q]).decision != d,
        k < ds.len() ==> ds[k].decision == d,
    ensures
        first_decision(ds, d) == if k < ds.len() {
            Some(k)
        } else {
            None::<int>
        },
    decreases k,
{
    if k > 0 {
        let tail = ds.subrange(1, ds.len() as int);
        assert forall|q: int| 0 <= q < k - 1 implies (#[trigger] tail[q]).decision != d by {
            assert(tail[q] == ds[q + 1]);
        }
        if k < ds.len() {
            assert(tail[k - 1] == ds[k]);
        }
        lemma_first_decision_at(tail, d, k - 1);
    }
}

/// The first rule index in `matched` whose rule has effect `e`.
fn find_effect(rules: &Vec<Rule>, matched: &Vec<usize>, e: Effect) -> (r: Option<usize>)
    requires
        forall|k: int| 0 <= k < matched@.len() ==> #[trigger] matched@[k] < rules@.len(),
    ensures
        r == first_with_effect(rules@, matched@, e),
        r matches Some(j) ==> j < rules@.len(),
{
    let n = matched.len();
    let mut k: usize = 0;
    assert(matched@.subrange(0, n as int) =~= matched@);
    while k < n
        invariant
            n == matched@.len(),
            forall|q: int| 0 <= q < matched@.len() ==> #[trigger] matched@[q] < rules@.len(),
            k <= n,
            first_with_effect(rules@, matched@, e) == first_with_effect(
                rules@,
                matched@.subrange(k as int, n as int),
                e,
            ),
        decreases n - k,
    {
        let ghost rest = matched@.subrange(k as int, n as int);
        assert(rest[0] == matched@[k as int]);
        assert(rest.subrange(1, rest.len() as int) =~= matched@.subrange(k + 1, n as int));
        if rules[matched[k]].effect == e {
            return Some(matched[k]);
        }
        k += 1;
    }
    None
}

/// The index of the first decision in `ds` that is `d`.
fn find_decision(ds: &Vec<PolicyDecision>, d: Decision) -> (r: Option<usize>)
    ensures
        match r {
            Some(i) => i < ds@.len() && first_decision(decisions_view(ds@), d) == Some(i as int),
            None => first_decision(decisions_view(ds@), d) is None,
        },
{
    let ghost v = decisions_view(ds@);
    let mut k: usize = 0;
    while k < ds.len()
        invariant
            v == decisions_view(ds@),
            k <= ds@.len(),
            forall|q: int| 0 <= q < k ==> (#[trigger] v[q]).decision != d,
        decreases ds@.len() - k,
    {
        assert(v[k as int] == ds@[k as int]@);
        if ds[k].decision == d {
            proof {
                lemma_first_decision_at(v, d, k as int);
            }
            return Some(k);
        }
        k += 1;
    }
    proof {
        lemma_first_decision_at(v, d, k as int);
    }
    None
}

/// A rule with no conditions matches in every context.
pub proof fn lemma_empty_rule_matches(rule: Rule, ctx: EvaluationContext)
    requires
        rule.conditions@.len() == 0,
    ensures
        conditions_outcome(rule.conditions@, ctx) == Ok::<bool, PolicyFault>(true),
{
}

/// A policy with no rules yields its default effect, marked as a default
/// decision; alone in an evaluator with a valid context, that is the answer.
pub proof fn lemma_default_effect_reachable(p: Policy, ctx: EvaluationContext)
    requires
        p.rules@.len() == 0,
    ensures
        policy_outcome(p, ctx) matches Ok(d) && d.decision == effect_decision(p.default_effect)
            && d.is_default && d.policy_id == Some(p.id@),
        context_fault(ctx) is None ==> (evaluation_outcome(seq![p], ctx) matches Ok(d)
            && d.decision == effect_decision(p.default_effect) && d.is_default),
{
    assert(priority_order(p.rules@) =~= Seq::<usize>::empty());
    let ps = seq![p];
    assert(ps.subrange(0, 0) =~= Seq::<Policy>::empty());
    assert(ps.last() == p);
    let ds = seq![policy_decision(p, Seq::empty())];
    assert(policies_outcome(ps.subrange(0, 0), ctx) == Ok::<Seq<DecisionModel>, PolicyFault>(
        Seq::empty(),
    ));
    assert(matched_rules(p.rules@, priority_order(p.rules@), ctx) == Ok::<Seq<usize>, PolicyFault>(
        Seq::empty(),
    ));
    assert(policy_outcome(p, ctx) == Ok::<DecisionModel, PolicyFault>(
        policy_decision(p, Seq::empty()),
    ));
    assert(policies_outcome(ps, ctx) == Ok::<Seq<DecisionModel>, PolicyFault>(ds)) by {
        assert(Seq::<DecisionModel>::empty().push(policy_decision(p, Seq::empty())) =~= ds);
    }
    let d = ds[0];
    if d.decision == Decision::Deny {
        assert(first_decision(ds, Decision::Deny) == Some(0int));
    } else {
        assert(ds.subrange(1, 1) =~= Seq::<DecisionModel>::empty());
        assert(first_decision(ds.subrange(1, 1), Decision::Deny) is None);
        assert(first_decision(ds, Decision::Deny) is None);
        assert(first_decision(ds, Decision::Allow) == Some(0int));
    }
}

proof fn lemma_first_decision_found(ds: Seq<DecisionModel>, d: Decision, i: int)
    requires
        0 <= i < ds.len(),
        ds[i].decision == d,
    ensures
        first_decision(ds, d) matches Some(k) && 0 <= k < ds.len() && ds[k].decision == d,
    decreases ds.len(),
{
    if ds[0].decision != d {
        let tail = ds.subrange(1, ds.len() as int);
        assert(tail[i - 1] == ds[i]);
        lemma_first_decision_found(tail, d, i - 1);
        let k = first_decision(tail, d)->Some_0;
        assert(tail[k] == ds[k + 1]);
    }
}

/// Across policies a deny wins: when some policy denies (and others
/// allow), the combined decision is a deny, and so is the answer of an
/// evaluation whose policies decide so.
pub proof fn lemma_deny_dominates(ps: Seq<Policy>, ctx: EvaluationContext, ds: Seq<DecisionModel>)
    requires
        context_fault(ctx) is None,
        policies_outcome(ps, ctx) == Ok::<Seq<DecisionModel>, PolicyFault>(ds),
        exists|i: int| 0 <= i < ds.len() && (#[trigger] ds[i]).decision == Decision::Deny,
        exists|j: int| 0 <= j < ds.len() && (#[trigger] ds[j]).decision == Decision::Allow,
    ensures
        combined_decision(ds, CombiningAlgorithm::DenyOverrides).decision == Decision::Deny,
        evaluation_outcome(ps, ctx) matches Ok(d) && d.decision == Decision::Deny,
{
    let i = choose|i: int| 0 <= i < ds.len() && (#[trigger] ds[i]).decision == Decision::Deny;
    lemma_first_decision_found(ds, Decision::Deny, i);
    lemma_policies_outcome_len(ps, ctx);
}

proof fn lemma_policies_outcome_len(ps: Seq<Policy>, ctx: EvaluationContext)
    ensures
        policies_outcome(ps, ctx) matches Ok(ds) ==> ds.len() == ps.len(),
    decreases ps.len(),
{
    if ps.len() > 0 {
        lemma_policies_outcome_len(ps.subrange(0, ps.len() - 1), ctx);
    }
}

/// Evaluation is a function of the policies and the context alone: any two
/// results that meet the contract of `evaluate` on the same inputs agree on
/// everything but the timing.
pub proof fn lemma_evaluation_is_pure(
    ps: Seq<Policy>,
    ctx: EvaluationContext,
    r1: Result<PolicyDecision, PolicyError>,
    r2: Result<PolicyDecision, PolicyError>,
)
    requires
        decision_result(r1) == evaluation_outcome(ps, ctx),
        decision_result(r2) == evaluation_outcome(ps, ctx),
    ensures
        decision_result(r1) == decision_result(r2),
        r1 matches Ok(d1) ==> (r2 matches Ok(d2) && d1.decision == d2.decision && d1.reason@
            == d2.reason@ && d1@.rule_id == d2@.rule_id && d1@.policy_id == d2@.policy_id
            && d1.is_default == d2.is_default && d1@.metadata == d2@.metadata),
{
}

proof fn lemma_matched_first(rules: Seq<Rule>, order: Seq<usize>, ctx: EvaluationContext)
    requires
        forall|k: int|
            0 <= k < order.len() ==> (#[trigger] conditions_outcome(
                rules[order[k] as int].conditions@,
                ctx,
            )) is Ok,
    ensures
        matched_rules(rules, order, ctx) matches Ok(m) && (m.len() > 0 ==> exists|pos: int|
            0 <= pos < order.len() && m[0] == order[pos] && conditions_outcome(
                rules[order[pos] as int].conditions@,
                ctx,
            ) == Ok::<bool, PolicyFault>(true) && forall|q: int|
                0 <= q < pos ==> conditions_outcome(rules[order[q] as int].conditions@, ctx)
                    == Ok::<bool, PolicyFault>(false)) && (m.len() == 0 ==> forall|q: int|
            0 <= q < order.len() ==> conditions_outcome(rules[order[q] as int].conditions@, ctx)
                == Ok::<bool, PolicyFault>(false)),
    decreases order.len(),
{
    if order.len() > 0 {
        let n = order.len();
        let init = order.subrange(0, n - 1);
        assert forall|k: int| 0 <= k < init.len() implies (#[trigger] conditions_outcome(
            rules[init[k] as int].conditions@,
            ctx,
        )) is Ok by {
            assert(init[k] == order[k]);
            assert(conditions_outcome(rules[order[k] as int].conditions@, ctx) is Ok);
        }
        lemma_matched_first(rules, init, ctx);
        assert(conditions_outcome(rules[order[n - 1] as int].conditions@, ctx) is Ok);
        let m0 = matched_rules(rules, init, ctx)->Ok_0;
        if m0.len() > 0 {
            let pos = choose|pos: int|
                0 <= pos < init.len() && m0[0] == init[pos] && conditions_outcome(
                    rules[init[pos] as int].conditions@,
                    ctx,
                ) == Ok::<bool, PolicyFault>(true) && forall|q: int|
                    0 <= q < pos ==> conditions_outcome(rules[init[q] as int].conditions@, ctx)
                        == Ok::<bool, PolicyFault>(false);
            assert(init[pos] == order[pos]);
            assert forall|q: int| 0 <= q < pos implies conditions_outcome(
                rules[order[q] as int].conditions@,
                ctx,
            ) == Ok::<bool, PolicyFault>(false) by {
                assert(init[q] == order[q]);
            }
        } else {
            assert forall|q: int| 0 <= q < n - 1 implies conditions_outcome(
                rules[order[q] as int].conditions@,
                ctx,
            ) == Ok::<bool, PolicyFault>(false) by {
                assert(init[q] == order[q]);
            }
        }
    }
}

/// Under first-applicable, the matching rule of highest priority decides:
/// when rules `hi` and `lo` both match and `hi` has the higher priority, the
/// decision is that of `hi`. This holds when every rule evaluates without
/// error and no other matching rule reaches the priority of `hi`.
pub proof fn lemma_priority_respected(p: Policy, ctx: EvaluationContext, hi: int, lo: int)
    requires
        p.combining_algorithm == CombiningAlgorithm::FirstApplicable,
        p.rules@.len() <= usize::MAX,
        0 <= hi < p.rules@.len(),
        0 <= lo < p.rules@.len(),
        p.rules@[hi].priority > p.rules@[lo].priority,
        conditions_outcome(p.rules@[hi].conditions@, ctx) == Ok::<bool, PolicyFault>(true),
        conditions_outcome(p.rules@[lo].conditions@, ctx) == Ok::<bool, PolicyFault>(true),
        forall|k: int|
            0 <= k < p.rules@.len() ==> (#[trigger] conditions_outcome(
                p.rules@[k].conditions@,
                ctx,
            )) is Ok,
        forall|k: int|
            0 <= k < p.rules@.len() && k != hi && conditions_outcome(
                #[trigger] p.rules@[k].conditions@,
                ctx,
            ) == Ok::<bool, PolicyFault>(true) ==> p.rules@[k].priority < p.rules@[hi].priority,
    ensures
        policy_outcome(p, ctx) matches Ok(d) && d.decision == effect_decision(p.rules@[hi].effect)
            && d.rule_id == Some(p.rules@[hi].id@),
{
    let rules = p.rules@;
    let n = rules.len();
    crate::policy::lemma_priority_order(rules, n);
    let order = priority_order(rules);
    assert forall|k: int| 0 <= k < order.len() implies (#[trigger] conditions_outcome(
        rules[order[k] as int].conditions@,
        ctx,
    )) is Ok by {
        assert(order[k] < n);
        assert(conditions_outcome(rules[order[k] as int].conditions@, ctx) is Ok);
    }
    lemma_matched_first(rules, order, ctx);
    let m = matched_rules(rules, order, ctx)->Ok_0;
    assert(order.contains(hi as usize));
    let ph = choose|k: int| 0 <= k < order.len() && order[k] == hi as usize;
    assert(m.len() > 0);
    let pos = choose|pos: int|
        0 <= pos < order.len() && m[0] == order[pos] && conditions_outcome(
            rules[order[pos] as int].conditions@,
            ctx,
        ) == Ok::<bool, PolicyFault>(true) && forall|q: int|
            0 <= q < pos ==> conditions_outcome(rules[order[q] as int].conditions@, ctx)
                == Ok::<bool, PolicyFault>(false);
    if pos > ph {
        assert(conditions_outcome(rules[order[ph] as int].conditions@, ctx)
            == Ok::<bool, PolicyFault>(false));
    }
    if order[pos] != hi as usize {
        assert(pos != ph);
        let k = order[pos] as int;
        assert(order[pos] < n);
        assert(conditions_outcome(rules[k].conditions@, ctx) == Ok::<bool, PolicyFault>(true));
        assert(rules[k].priority < rules[hi].priority);
        assert(rules[order[pos] as int].priority >= rules[order[ph] as int].priority);
    }
}

/// Whole microseconds since `start`, saturated to 64 bits.
fn elapsed_micros(start: &std::time::Instant) -> u64 {
    let us = start.elapsed().as_micros();
    if us > u64::MAX as u128 {
        u64::MAX
    } else {
        us as u64
    }
}

/// Evaluates requests against a set of policies.
#[derive(Debug)]
pub struct PolicyEvaluator {
    policies: Vec<Policy>,
}

impl View for PolicyEvaluator {
    type V = Seq<Policy>;

    closed spec fn view(&self) -> Seq<Policy> {
        self.policies@
    }
}

impl Default for PolicyEvaluator {
    fn default() -> (r: Self)
        ensures
            r@ == Seq::<Policy>::empty(),
    {
        PolicyEvaluator::new()
    }
}

impl PolicyEvaluator {
    /// An evaluator with no policies.
    pub fn new() -> (r: Self)
        ensures
            r@ == Seq::<Policy>::empty(),
    {
        let r = PolicyEvaluator { policies: Vec::new() };
        assert(r@ =~= Seq::<Policy>::empty());
        r
    }

    /// Adds a policy after those already held.
    pub fn add_policy(&mut self, policy: Policy)
        ensures
            final(self)@ == old(self)@.push(policy),
    {
        self.policies.push(policy);
    }

    /// The number of policies held.
    pub fn policy_count(&self) -> (r: usize)
        ensures
            r == self@.len(),
    {
        self.policies.len()
    }

    /// An ordering comparison of two numbers.
    fn compare_numbers(&self, op: ConditionOperator, left: &JsonValue, right: &JsonValue) -> (r:
        Result<bool, PolicyError>)
        ensures
            bool_result(r) == compare_outcome(op, left@, right@),
    {
        match left {
            JsonValue::Number(a) => match right {
                JsonValue::Number(b) => {
                    if a.is_nan() || b.is_nan() {
                        return Ok(false);
                    }
                    let x = a.order_key();
                    let y = b.order_key();
                    let holds = match op {
                        ConditionOperator::GreaterThan => x > y,
                        ConditionOperator::LessThan => x < y,
                        ConditionOperator::GreaterThanOrEqual => x >= y,
                        ConditionOperator::LessThanOrEqual => x <= y,
                        _ => false,
                    };
                    Ok(holds)
                },
                _ => Err(
                    PolicyError::ConditionError(String::from_str("Right value is not a number")),
                ),
            },
            _ => Err(PolicyError::ConditionError(String::from_str("Left value is not a number"))),
        }
    }

    /// `Contains` on a field value and a literal.
    fn contains(&self, left: &JsonValue, right: &JsonValue) -> (r: bool)
        ensures
            r == contains_holds(left@, right@),
    {
        match left {
            JsonValue::String(a) => match right {
                JsonValue::String(b) => text_contains(a.as_str(), b.as_str()),
                _ => false,
            },
            JsonValue::Array(xs) => member_of(xs, right),
            _ => false,
        }
    }

    /// `In` on a field value and a literal.
    fn is_in(&self, left: &JsonValue, right: &JsonValue) -> (r: bool)
        ensures
            r == in_holds(left@, right@),
    {
        match right {
            JsonValue::Array(ys) => member_of(ys, left),
            _ => false,
        }
    }

    /// Applies an operator to a field value and a literal.
    fn evaluate_operator(&self, operator: ConditionOperator, left: &JsonValue, right: &JsonValue) -> (r:
        Result<bool, PolicyError>)
        ensures
            bool_result(r) == operator_outcome(operator, left@, right@),
    {
        match operator {
            ConditionOperator::Equals => Ok(json_equal(left, right)),
            ConditionOperator::NotEquals => Ok(!json_equal(left, right)),
            ConditionOperator::Contains => Ok(self.contains(left, right)),
            ConditionOperator::NotContains => Ok(!self.contains(left, right)),
            ConditionOperator::StartsWith => match left {
                JsonValue::String(a) => match right {
                    JsonValue::String(b) => Ok(text_starts_with(a.as_str(), b.as_str())),
                    _ => Ok(false),
                },
                _ => Ok(false),
            },
            ConditionOperator::EndsWith => match left {
                JsonValue::String(a) => match right {
                    JsonValue::String(b) => Ok(text_ends_with(a.as_str(), b.as_str())),
                    _ => Ok(false),
                },
                _ => Ok(false),
            },
            ConditionOperator::Matches => match left {
                JsonValue::String(a) => match right {
                    JsonValue::String(p) => match regex_search(p.as_str(), a.as_str()) {
                        Ok(b) => Ok(b),
                        Err(t) => {
                            let mut text = String::from_str("Invalid regex: ");
                            text.append(t.as_str());
                            Err(PolicyError::ConditionError(text))
                        },
                    },
                    _ => Ok(false),
                },
                _ => Ok(false),
            },
            ConditionOperator::In => Ok(self.is_in(left, right)),
            ConditionOperator::NotIn => Ok(!self.is_in(left, right)),
            ConditionOperator::GreaterThan => self.compare_numbers(operator, left, right),
            ConditionOperator::LessThan => self.compare_numbers(operator, left, right),
            ConditionOperator::GreaterThanOrEqual => self.compare_numbers(operator, left, right),
            ConditionOperator::LessThanOrEqual => self.compare_numbers(operator, left, right),
            ConditionOperator::Exists => Ok(false),
            ConditionOperator::NotExists => Ok(false),
        }
    }

    /// Evaluates one condition in a context.
    fn evaluate_condition(&self, condition: &Condition, context: &EvaluationContext) -> (r: Result<
        bool,
        PolicyError,
    >)
        ensures
            bool_result(r) == condition_outcome(*condition, *context),
    {
        let field_value = context.get_value(condition.field.as_str());
        match condition.operator {
            ConditionOperator::Exists => Ok(field_value.is_some()),
            ConditionOperator::NotExists => Ok(field_value.is_none()),
            _ => match field_value {
                Some(l) => self.evaluate_operator(condition.operator, &l, &condition.value),
                None => {
                    let mut text = String::from_str("Field '");
                    text.append(condition.field.as_str());
                    text.append("' not found");
                    Err(PolicyError::ConditionError(text))
                },
            },
        }
    }

    /// Whether every condition of `rule` holds in a context.
    fn evaluate_rule(&self, rule: &Rule, context: &EvaluationContext) -> (r: Result<
        bool,
        PolicyError,
    >)
        ensures
            bool_result(r) == conditions_outcome(rule.conditions@, *context),
    {
        let ghost cs = rule.conditions@;
        let n = rule.conditions.len();
        let mut i: usize = 0;
        assert(cs.subrange(0, n as int) =~= cs);
        while i < n
            invariant
                n == cs.len(),
                cs == rule.conditions@,
                i <= n,
                conditions_outcome(cs, *context) == conditions_outcome(
                    cs.subrange(i as int, n as int),
                    *context,
                ),
            decreases n - i,
        {
            let ghost rest = cs.subrange(i as int, n as int);
            assert(rest[0] == cs[i as int]);
            assert(rest.subrange(1, rest.len() as int) =~= cs.subrange(i + 1, n as int));
            let holds = self.evaluate_condition(&rule.conditions[i], context)?;
            if !holds {
                return Ok(false);
            }
            i += 1;
        }
        Ok(true)
    }

    /// A rule decision attributed to its rule and policy.
    fn rule_decision(
        &self,
        decision: Decision,
        reason: &String,
        rule_id: &String,
        policy_id: &String,
    ) -> (r: PolicyDecision)
        ensures
            r@ == rule_made(decision, reason@, rule_id@, policy_id@),
    {
        let d = match decision {
            Decision::Allow => PolicyDecision::allow(reason.as_str()),
            Decision::Deny => PolicyDecision::deny(reason.as_str()),
        };
        d.with_rule_id(rule_id.as_str()).with_policy_id(policy_id.as_str())
    }

    /// Evaluates one policy: its rules by priority, then its combining
    /// algorithm over those that match.
    #[verifier::loop_isolation(false)]
    fn evaluate_policy(&self, policy: &Policy, context: &EvaluationContext) -> (r: Result<
        PolicyDecision,
        PolicyError,
    >)
        ensures
            decision_result(r) == policy_outcome(*policy, *context),
    {
        let ghost rs = policy.rules@;
        let order = priority_order_of(&policy.rules);
        let n = order.len();
        let mut matched: Vec<usize> = Vec::new();
        let mut i: usize = 0;
        while i < n
            invariant
                n == order@.len(),
                i <= n,
                matched_rules(rs, order@.subrange(0, i as int), *context) == Ok::<
                    Seq<usize>,
                    PolicyFault,
                >(matched@),
                forall|k: int| 0 <= k < matched@.len() ==> #[trigger] matched@[k] < rs.len(),
            decreases n - i,
        {
            let j = order[i];
            let ghost pre = order@.subrange(0, i as int + 1);
            assert(pre.subrange(0, pre.len() - 1) =~= order@.subrange(0, i as int));
            assert(pre.last() == j);
            match self.evaluate_rule(&policy.rules[j], context) {
                Err(e) => {
                    proof {
                        lemma_matched_error_persists(rs, order@, i as int + 1, *context);
                    }
                    return Err(e);
                },
                Ok(hit) => {
                    if hit {
                        matched.push(j);
                    }
                },
            }
            i += 1;
        }
        assert(order@.subrange(0, n as int) =~= order@);
        if matched.len() == 0 {
            let d = match policy.default_effect {
                Effect::Allow => PolicyDecision::default_allow(),
                Effect::Deny => PolicyDecision::default_deny(),
            };
            return Ok(d.with_policy_id(policy.id.as_str()));
        }
        let top = &policy.rules[matched[0]];
        let decision = match policy.combining_algorithm {
            CombiningAlgorithm::FirstApplicable => {
                let reason = rule_reason_text(&top.id, "' matched");
                self.rule_decision(Decision::from(top.effect), &reason, &top.id, &policy.id)
            },
            CombiningAlgorithm::DenyOverrides => match find_effect(
                &policy.rules,
                &matched,
                Effect::Deny,
            ) {
                Some(j) => {
                    let reason = rule_reason_text(&policy.rules[j].id, "' denies");
                    self.rule_decision(Decision::Deny, &reason, &policy.rules[j].id, &policy.id)
                },
                None => {
                    let reason = String::from_str("All matching rules allow");
                    self.rule_decision(Decision::Allow, &reason, &top.id, &policy.id)
                },
            },
            CombiningAlgorithm::AllowOverrides => match find_effect(
                &policy.rules,
                &matched,
                Effect::Allow,
            ) {
                Some(j) => {
                    let reason = rule_reason_text(&policy.rules[j].id, "' allows");
                    self.rule_decision(Decision::Allow, &reason, &policy.rules[j].id, &policy.id)
                },
                None => {
                    let reason = String::from_str("All matching rules deny");
                    self.rule_decision(Decision::Deny, &reason, &top.id, &policy.id)
                },
            },
            CombiningAlgorithm::UnanimousAllow => match find_effect(
                &policy.rules,
                &matched,
                Effect::Deny,
            ) {
                Some(j) => {
                    let reason = rule_reason_text(
                        &policy.rules[j].id,
                        "' denies (unanimous allow required)",
                    );
                    self.rule_decision(Decision::Deny, &reason, &policy.rules[j].id, &policy.id)
                },
                None => {
                    let reason = String::from_str("All rules unanimously allow");
                    self.rule_decision(Decision::Allow, &reason, &top.id, &policy.id)
                },
            },
            CombiningAlgorithm::UnanimousDeny => match find_effect(
                &policy.rules,
                &matched,
                Effect::Allow,
            ) {
                Some(j) => {
                    let reason = rule_reason_text(
                        &policy.rules[j].id,
                        "' allows (unanimous deny required)",
                    );
                    self.rule_decision(Decision::Allow, &reason, &policy.rules[j].id, &policy.id)
                },
                None => {
                    let reason = String::from_str("All rules unanimously deny");
                    self.rule_decision(Decision::Deny, &reason, &top.id, &policy.id)
                },
            },
        };
        Ok(decision)
    }

    /// Several decisions combined into one with `algorithm`.
    fn combine_decisions(&self, decisions: Vec<PolicyDecision>, algorithm: CombiningAlgorithm) -> (r:
        PolicyDecision)
        ensures
            r@ == combined_decision(decisions_view(decisions@), algorithm),
    {
        let ghost v = decisions_view(decisions@);
        let mut ds = decisions;
        if ds.len() == 0 {
            return PolicyDecision::default_deny();
        }
        let pick: Option<usize> = match algorithm {
            CombiningAlgorithm::FirstApplicable => Some(0),
            CombiningAlgorithm::DenyOverrides => match find_decision(&ds, Decision::Deny) {
                Some(i) => Some(i),
                None => find_decision(&ds, Decision::Allow),
            },
            CombiningAlgorithm::AllowOverrides => match find_decision(&ds, Decision::Allow) {
                Some(i) => Some(i),
                None => find_decision(&ds, Decision::Deny),
            },
            CombiningAlgorithm::UnanimousAllow => match find_decision(&ds, Decision::Deny) {
                None => Some(0),
                Some(i) => Some(i),
            },
            CombiningAlgorithm::UnanimousDeny => match find_decision(&ds, Decision::Allow) {
                None => Some(0),
                Some(i) => Some(i),
            },
        };
        match pick {
            Some(i) => {
                assert(v[i as int] == ds@[i as int]@);
                ds.remove(i)
            },
            None => match algorithm {
                CombiningAlgorithm::UnanimousDeny => PolicyDecision::default_allow(),
                _ => PolicyDecision::default_deny(),
            },
        }
    }

    /// Evaluates every policy against `context` and combines their
    /// decisions with deny-overrides; the context is checked first, and the
    /// first error stops the evaluation. The decision carries the time taken.
    #[verifier::loop_isolation(false)]
    pub fn evaluate(&self, context: &EvaluationContext) -> (r: Result<PolicyDecision, PolicyError>)
        ensures
            decision_result(r) == evaluation_outcome(self@, *context),
            r matches Ok(d) ==> d.evaluation_time_us is Some,
    {
        let start = std::time::Instant::now();
        match context.validate() {
            Err(e) => {
                return Err(e);
            },
            Ok(()) => {},
        }
        if self.policies.len() == 0 {
            let micros = elapsed_micros(&start);
            return Ok(PolicyDecision::default_deny().with_evaluation_time(micros));
        }
        let ghost ps = self.policies@;
        let n = self.policies.len();
        let mut decisions: Vec<PolicyDecision> = Vec::new();
        assert(decisions_view(decisions@) =~= Seq::<DecisionModel>::empty());
        assert(ps.subrange(0, 0) =~= Seq::<Policy>::empty());
        let mut i: usize = 0;
        while i < n
            invariant
                n == ps.len(),
                i <= n,
                policies_outcome(ps.subrange(0, i as int), *context) == Ok::<
                    Seq<DecisionModel>,
                    PolicyFault,
                >(decisions_view(decisions@)),
            decreases n - i,
        {
            let ghost pre = ps.subrange(0, i as int + 1);
            assert(pre.subrange(0, pre.len() - 1) =~= ps.subrange(0, i as int));
            assert(pre.last() == ps[i as int]);
            match self.evaluate_policy(&self.policies[i], context) {
                Err(e) => {
                    proof {
                        lemma_policies_error_persists(ps, i as int + 1, *context);
                    }
                    return Err(e);
                },
                Ok(d) => {
                    let ghost before = decisions_view(decisions@);
                    decisions.push(d);
                    assert(decisions_view(decisions@) =~= before.push(d@));
                },
            }
            i += 1;
        }
        assert(ps.subrange(0, n as int) =~= ps);
        let final_decision = self.combine_decisions(decisions, CombiningAlgorithm::DenyOverrides);
        let micros = elapsed_micros(&start);
        Ok(final_decision.with_evaluation_time(micros))
    }
}

} // verus!
