//! Policies: rules with a combining algorithm and a default effect.
use vstd::prelude::*;
use vstd::string::StringExecFns;
use crate::error::{PolicyError, PolicyFault};
use crate::json::JsonValue;
use crate::types::{CombiningAlgorithm, Condition, Effect, Rule};

verus! {

/// A complete policy.
#[derive(Debug)]
pub struct Policy {
    /// Unique identifier of the policy.
    pub id: String,
    /// Version of the policy.
    pub version: String,
    /// Human-readable name.
    pub name: String,
    /// What this policy does.
    pub description: Option<String>,
    /// The rules of this policy.
    pub rules: Vec<Rule>,
    /// How the matching rules are combined.
    pub combining_algorithm: CombiningAlgorithm,
    /// The effect when no rule matches.
    pub default_effect: Effect,
    /// Policy metadata, one entry per key.
    pub metadata: Vec<(String, JsonValue)>,
}

/// The effect a policy document gets when it names none.
pub fn default_effect() -> (r: Effect)
    ensures
        r == Effect::Deny,
{
    Effect::Deny
}

/// The first condition of `conds` with an empty field, reported for rule `id`.
pub open spec fn condition_fault(conds: Seq<Condition>, id: Seq<char>) -> Option<PolicyFault>
    decreases conds.len(),
{
    if conds.len() == 0 {
        None
    } else if conds[0].field@.len() == 0 {
        Some(
            PolicyFault::ValidationError(
                "Condition field is required in rule '"@ + id + "'"@,
            ),
        )
    } else {
        condition_fault(conds.subrange(1, conds.len() as int), id)
    }
}

/// The first fault among the rules, in order.
pub open spec fn rules_fault(rules: Seq<Rule>) -> Option<PolicyFault>
    decreases rules.len(),
{
    if rules.len() == 0 {
        None
    } else if rules[0].id@.len() == 0 {
        Some(PolicyFault::ValidationError("Rule ID is required"@))
    } else {
        match condition_fault(rules[0].conditions@, rules[0].id@) {
            Some(f) => Some(f),
            None => rules_fault(rules.subrange(1, rules.len() as int)),
        }
    }
}

/// What makes a policy invalid, if anything.
pub open spec fn policy_fault(p: Policy) -> Option<PolicyFault> {
    if p.id@.len() == 0 {
        Some(PolicyFault::ValidationError("Policy ID is required"@))
    } else if p.name@.len() == 0 {
        Some(PolicyFault::ValidationError("Policy name is required"@))
    } else {
        rules_fault(p.rules@)
    }
}

/// The stable insertion of rule index `j` into `order`: after every rule of
/// the same or a higher priority.
pub open spec fn insert_by_priority(order: Seq<usize>, j: usize, rules: Seq<Rule>) -> Seq<usize>
    decreases order.len(),
{
    if order.len() == 0 {
        seq![j]
    } else if rules[j as int].priority > rules[order[0] as int].priority {
        seq![j] + order
    } else {
        seq![order[0]] + insert_by_priority(order.subrange(1, order.len() as int), j, rules)
    }
}

/// The first `n` rule indices, stably sorted by descending priority.
pub open spec fn priority_order_upto(rules: Seq<Rule>, n: nat) -> Seq<usize>
    decreases n,
{
    if n == 0 {
        Seq::empty()
    } else {
        insert_by_priority(priority_order_upto(rules, (n - 1) as nat), (n - 1) as usize, rules)
    }
}

/// The rule indices of a policy, by descending priority; rules of equal
/// priority keep their order.
pub open spec fn priority_order(rules: Seq<Rule>) -> Seq<usize> {
    priority_order_upto(rules, rules.len())
}

proof fn lemma_insert_by_priority_at(order: Seq<usize>, j: usize, rules: Seq<Rule>, p: int)
    requires
        0 <= p <= order.len(),
        forall|k: int|
            0 <= k < p ==> rules[j as int].priority <= #[trigger] rules[order[k] as int].priority,
        p < order.len() ==> rules[j as int].priority > rules[order[p] as int].priority,
    ensures
        insert_by_priority(order, j, rules) == order.subrange(0, p).push(j) + order.subrange(
            p,
            order.len() as int,
        ),
    decreases order.len(),
{
    if order.len() == 0 {
        assert(order.subrange(0, p).push(j) + order.subrange(p, order.len() as int) =~= seq![j]);
    } else if p == 0 {
        assert(order.subrange(0, p).push(j) + order.subrange(p, order.len() as int) =~= seq![j]
            + order);
    } else {
        let tail = order.subrange(1, order.len() as int);
        assert forall|k: int| 0 <= k < p - 1 implies rules[j as int].priority
            <= #[trigger] rules[tail[k] as int].priority by {
            assert(tail[k] == order[k + 1]);
        }
        lemma_insert_by_priority_at(tail, j, rules, p - 1);
        assert(seq![order[0]] + (tail.subrange(0, p - 1).push(j) + tail.subrange(
            p - 1,
            tail.len() as int,
        )) =~= order.subrange(0, p).push(j) + order.subrange(p, order.len() as int));
    }
}

proof fn lemma_priority_insert_shape(order: Seq<usize>, j: usize, rules: Seq<Rule>) -> (p: int)
    ensures
        0 <= p <= order.len(),
        forall|k: int|
            0 <= k < p ==> rules[j as int].priority <= #[trigger] rules[order[k] as int].priority,
        p < order.len() ==> rules[j as int].priority > rules[order[p] as int].priority,
        insert_by_priority(order, j, rules) == order.subrange(0, p).push(j) + order.subrange(
            p,
            order.len() as int,
        ),
    decreases order.len(),
{
    if order.len() == 0 || rules[j as int].priority > rules[order[0] as int].priority {
        lemma_insert_by_priority_at(order, j, rules, 0);
        0
    } else {
        let tail = order.subrange(1, order.len() as int);
        let q = lemma_priority_insert_shape(tail, j, rules);
        assert forall|k: int| 0 <= k < q + 1 implies rules[j as int].priority
            <= #[trigger] rules[order[k] as int].priority by {
            if k > 0 {
                assert(tail[k - 1] == order[k]);
            }
        }
        if q + 1 < order.len() {
            assert(tail[q] == order[q + 1]);
        }
        lemma_insert_by_priority_at(order, j, rules, q + 1);
        q + 1
    }
}

/// The priority order holds every rule index, and its priorities never
/// increase.
pub proof fn lemma_priority_order(rules: Seq<Rule>, n: nat)
    requires
        n <= rules.len(),
        rules.len() <= usize::MAX,
    ensures
        priority_order_upto(rules, n).len() == n,
        forall|k: int| 0 <= k < n ==> #[trigger] priority_order_upto(rules, n)[k] < n,
        forall|i: usize| i < n ==> #[trigger] priority_order_upto(rules, n).contains(i),
        forall|a: int, b: int|
            0 <= a < b < n ==> #[trigger] rules[priority_order_upto(rules, n)[a] as int].priority
                >= #[trigger] rules[priority_order_upto(rules, n)[b] as int].priority,
    decreases n,
{
    if n > 0 {
        let m = (n - 1) as nat;
        lemma_priority_order(rules, m);
        let prev = priority_order_upto(rules, m);
        let j = m as usize;
        let p = lemma_priority_insert_shape(prev, j, rules);
        let o = priority_order_upto(rules, n);
        assert(o == prev.subrange(0, p).push(j) + prev.subrange(p, prev.len() as int));
        assert forall|k: int| 0 <= k < n implies #[trigger] o[k] == (if k < p {
            prev[k]
        } else if k == p {
            j
        } else {
            prev[k - 1]
        }) by {}
        assert forall|k: int| 0 <= k < n implies #[trigger] o[k] < n by {
            if k < p {
                assert(prev[k] < m);
            } else if k > p {
                assert(prev[k - 1] < m);
            }
        }
        assert forall|i: usize| i < n implies #[trigger] o.contains(i) by {
            if i == m {
                assert(o[p] == i);
            } else {
                assert(prev.contains(i));
                let k0 = choose|k: int| 0 <= k < m && #[trigger] prev[k] == i;
                if k0 < p {
                    assert(o[k0] == i);
                } else {
                    assert(o[k0 + 1] == i);
                }
            }
        }
        let pj = rules[j as int].priority;
        assert forall|a: int, b: int| 0 <= a < b < n implies #[trigger] rules[o[a] as int].priority
            >= #[trigger] rules[o[b] as int].priority by {
            if b < p {
                assert(o[a] == prev[a] && o[b] == prev[b]);
                assert(rules[prev[a] as int].priority >= rules[prev[b] as int].priority);
            } else if b == p {
                assert(o[a] == prev[a] && o[b] == j);
                assert(pj <= rules[prev[a] as int].priority);
            } else if a == p {
                assert(o[a] == j && o[b] == prev[b - 1]);
                assert(pj > rules[prev[p] as int].priority);
                if b - 1 > p {
                    assert(rules[prev[p] as int].priority >= rules[prev[b - 1] as int].priority);
                }
            } else if a < p {
                assert(o[a] == prev[a] && o[b] == prev[b - 1]);
                assert(rules[prev[a] as int].priority >= rules[prev[b - 1] as int].priority);
            } else {
                assert(o[a] == prev[a - 1] && o[b] == prev[b - 1]);
                assert(rules[prev[a - 1] as int].priority >= rules[prev[b - 1] as int].priority);
            }
        }
    }
}

/// The rule indices of `rules` by descending priority, ties in input order.
pub fn priority_order_of(rules: &Vec<Rule>) -> (r: Vec<usize>)
    ensures
        r@ == priority_order(rules@),
        r@.len() == rules@.len(),
        forall|k: int| 0 <= k < r@.len() ==> #[trigger] r@[k] < rules@.len(),
{
    let n = rules.len();
    let mut order: Vec<usize> = Vec::new();
    let mut i: usize = 0;
    while i < n
        invariant
            n == rules@.len(),
            i <= n,
            order@ == priority_order_upto(rules@, i as nat),
            order@.len() == i,
            forall|k: int| 0 <= k < order@.len() ==> #[trigger] order@[k] < i,
        decreases n - i,
    {
        let mut p: usize = 0;
        while p < order.len() && rules[i].priority <= rules[order[p]].priority
            invariant
                n == rules@.len(),
                i < n,
                order@.len() == i,
                forall|k: int| 0 <= k < order@.len() ==> #[trigger] order@[k] < i,
                p <= order@.len(),
                forall|k: int|
                    0 <= k < p ==> rules@[i as int].priority
                        <= #[trigger] rules@[order@[k] as int].priority,
            decreases order@.len() - p,
        {
            p += 1;
        }
        proof {
            lemma_insert_by_priority_at(order@, i, rules@, p as int);
        }
        order.insert(p, i);
        assert(order@ =~= priority_order_upto(rules@, (i + 1) as nat));
        i += 1;
    }
    order
}

impl Policy {
    /// A policy with version `1.0.0`, no rules, deny-overrides combining and
    /// a deny default.
    pub fn new(id: &str, name: &str) -> (r: Self)
        ensures
            r.id@ == id@,
            r.version@ == "1.0.0"@,
            r.name@ == name@,
            r.description is None,
            r.rules@.len() == 0,
            r.combining_algorithm == CombiningAlgorithm::DenyOverrides,
            r.default_effect == Effect::Deny,
            r.metadata@.len() == 0,
    {
        Policy {
            id: String::from_str(id),
            version: String::from_str("1.0.0"),
            name: String::from_str(name),
            description: None,
            rules: Vec::new(),
            combining_algorithm: CombiningAlgorithm::default(),
            default_effect: Effect::Deny,
            metadata: Vec::new(),
        }
    }

    /// This policy with `rule` appended.
    pub fn with_rule(self, rule: Rule) -> (r: Self)
        ensures
            r.rules@ == self.rules@.push(rule),
            r == (Policy { rules: r.rules, ..self }),
    {
        let mut p = self;
        p.rules.push(rule);
        p
    }

    /// This policy with the given combining algorithm.
    pub fn with_combining_algorithm(self, algorithm: CombiningAlgorithm) -> (r: Self)
        ensures
            r == (Policy { combining_algorithm: algorithm, ..self }),
    {
        let mut p = self;
        p.combining_algorithm = algorithm;
        p
    }

    /// This policy with the given default effect.
    pub fn with_default_effect(self, effect: Effect) -> (r: Self)
        ensures
            r == (Policy { default_effect: effect, ..self }),
    {
        let mut p = self;
        p.default_effect = effect;
        p
    }

    /// Checks that the policy, its rules and their conditions carry the
    /// required fields; the first fault found is reported.
    #[verifier::loop_isolation(false)]
    pub fn validate(&self) -> (r: Result<(), PolicyError>)
        ensures
            match r {
                Ok(()) => policy_fault(*self) is None,
                Err(e) => policy_fault(*self) == Some(e@),
            },
    {
        if self.id.as_str().is_empty() {
            return Err(PolicyError::ValidationError(String::from_str("Policy ID is required")));
        }
        if self.name.as_str().is_empty() {
            return Err(PolicyError::ValidationError(String::from_str("Policy name is required")));
        }
        let ghost rs = self.rules@;
        let n = self.rules.len();
        let mut i: usize = 0;
        assert(rs.subrange(0, n as int) =~= rs);
        while i < n
            invariant
                n == rs.len(),
                rs == self.rules@,
                i <= n,
                rules_fault(rs) == rules_fault(rs.subrange(i as int, n as int)),
            decreases n - i,
        {
            let rule = &self.rules[i];
            let ghost rest = rs.subrange(i as int, n as int);
            assert(rest[0] == *rule);
            assert(rest.subrange(1, rest.len() as int) =~= rs.subrange(i + 1, n as int));
            if rule.id.as_str().is_empty() {
                return Err(PolicyError::ValidationError(String::from_str("Rule ID is required")));
            }
            let ghost cs = rule.conditions@;
            let m = rule.conditions.len();
            let mut j: usize = 0;
            assert(cs.subrange(0, m as int) =~= cs);
            while j < m
                invariant
                    m == cs.len(),
                    cs == rule.conditions@,
                    j <= m,
                    condition_fault(cs, rule.id@) == condition_fault(
                        cs.subrange(j as int, m as int),
                        rule.id@,
                    ),
                decreases m - j,
            {
                let ghost crest = cs.subrange(j as int, m as int);
                assert(crest[0] == rule.conditions@[j as int]);
                assert(crest.subrange(1, crest.len() as int) =~= cs.subrange(j + 1, m as int));
                if rule.conditions[j].field.as_str().is_empty() {
                    let mut text = String::from_str("Condition field is required in rule '");
                    text.append(rule.id.as_str());
                    text.append("'");
                    return Err(PolicyError::ValidationError(text));
                }
                j += 1;
            }
            assert(condition_fault(cs.subrange(m as int, m as int), rule.id@) is None);
            i += 1;
        }
        Ok(())
    }

    /// The rules by descending priority; rules of equal priority keep their
    /// order.
    pub fn sorted_rules(&self) -> (r: Vec<&Rule>)
        ensures
            r@.len() == self.rules@.len(),
            forall|k: int|
                0 <= k < r@.len() ==> *#[trigger] r@[k] == self.rules@[priority_order(
                    self.rules@,
                )[k] as int],
    {
        let order = priority_order_of(&self.rules);
        let mut out: Vec<&Rule> = Vec::new();
        let mut i: usize = 0;
        while i < order.len()
            invariant
                order@ == priority_order(self.rules@),
                order@.len() == self.rules@.len(),
                forall|k: int| 0 <= k < order@.len() ==> #[trigger] order@[k] < self.rules@.len(),
                i <= order@.len(),
                out@.len() == i,
                forall|k: int|
                    0 <= k < i ==> *#[trigger] out@[k] == self.rules@[order@[k] as int],
            decreases order@.len() - i,
        {
            out.push(&self.rules[order[i]]);
            i += 1;
        }
        out
    }
}

/// What a rule builder holds so far.
pub struct RuleDraft {
    pub id: Seq<char>,
    pub description: Option<Seq<char>>,
    pub effect: Effect,
    pub conditions: Seq<Condition>,
    pub priority: i32,
}

/// Builds a rule step by step.
#[derive(Debug)]
pub struct RuleBuilder {
    id: String,
    description: Option<String>,
    effect: Effect,
    conditions: Vec<Condition>,
    priority: i32,
}

impl View for RuleBuilder {
    type V = RuleDraft;

    closed spec fn view(&self) -> RuleDraft {
        RuleDraft {
            id: self.id@,
            description: match self.description {
                Some(d) => Some(d@),
                None => None,
            },
            effect: self.effect,
            conditions: self.conditions@,
            priority: self.priority,
        }
    }
}

impl RuleBuilder {
    /// A builder for an allow rule with the given id, no conditions and
    /// priority 0.
    pub fn new(id: &str) -> (r: Self)
        ensures
            r@ == (RuleDraft {
                id: id@,
                description: None,
                effect: Effect::Allow,
                conditions: Seq::empty(),
                priority: 0,
            }),
    {
        let r = RuleBuilder {
            id: String::from_str(id),
            description: None,
            effect: Effect::Allow,
            conditions: Vec::new(),
            priority: 0,
        };
        assert(r@.conditions =~= Seq::<Condition>::empty());
        r
    }

    /// Sets the description.
    pub fn description(self, description: &str) -> (r: Self)
        ensures
            r@ == (RuleDraft { description: Some(description@), ..self@ }),
    {
        let mut b = self;
        b.description = Some(String::from_str(description));
        b
    }

    /// Sets the effect.
    pub fn effect(self, effect: Effect) -> (r: Self)
        ensures
            r@ == (RuleDraft { effect, ..self@ }),
    {
        let mut b = self;
        b.effect = effect;
        b
    }

    /// Sets the effect to allow.
    pub fn allow(self) -> (r: Self)
        ensures
            r@ == (RuleDraft { effect: Effect::Allow, ..self@ }),
    {
        self.effect(Effect::Allow)
    }

    /// Sets the effect to deny.
    pub fn deny(self) -> (r: Self)
        ensures
            r@ == (RuleDraft { effect: Effect::Deny, ..self@ }),
    {
        self.effect(Effect::Deny)
    }

    /// Appends a condition.
    pub fn condition(self, condition: Condition) -> (r: Self)
        ensures
            r@ == (RuleDraft { conditions: self@.conditions.push(condition), ..self@ }),
    {
        let mut b = self;
        b.conditions.push(condition);
        b
    }

    /// Sets the priority.
    pub fn priority(self, priority: i32) -> (r: Self)
        ensures
            r@ == (RuleDraft { priority, ..self@ }),
    {
        let mut b = self;
        b.priority = priority;
        b
    }

    /// The rule built so far.
    pub fn build(self) -> (r: Rule)
        ensures
            r.id@ == self@.id,
            match r.description {
                Some(d) => self@.description == Some(d@),
                None => self@.description is None,
            },
            r.effect == self@.effect,
            r.conditions@ == self@.conditions,
            r.priority == self@.priority,
    {
        Rule {
            id: self.id,
            description: self.description,
            effect: self.effect,
            conditions: self.conditions,
            priority: self.priority,
        }
    }
}

} // verus!
