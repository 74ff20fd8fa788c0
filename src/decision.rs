//! Decisions that evaluation produces.
use vstd::prelude::*;
use vstd::string::StringExecFns;
use crate::canonicalization::without_key;
use crate::json::{Json, JsonValue, entries_view};
use crate::types::Effect;

verus! {

/// The final answer of an evaluation.
#[derive(Debug, Clone, Copy, PartialEq, Eq, Structural)]
pub enum Decision {
    Allow,
    Deny,
}

/// The decision that an effect stands for.
pub open spec fn effect_decision(e: Effect) -> Decision {
    match e {
        Effect::Allow => Decision::Allow,
        Effect::Deny => Decision::Deny,
    }
}

impl From<Effect> for Decision {
    fn from(effect: Effect) -> (r: Decision) {
        match effect {
            Effect::Allow => Decision::Allow,
            Effect::Deny => Decision::Deny,
        }
    }
}

impl vstd::std_specs::convert::FromSpecImpl<Effect> for Decision {
    open spec fn obeys_from_spec() -> bool {
        true
    }

    open spec fn from_spec(v: Effect) -> Decision {
        effect_decision(v)
    }
}

/// A decision with the reason and the rule and policy behind it.
#[derive(Debug)]
pub struct PolicyDecision {
    /// The final decision.
    pub decision: Decision,
    /// Why the decision was made.
    pub reason: String,
    /// The rule that made the decision, if any.
    pub rule_id: Option<String>,
    /// The policy that made the decision, if any.
    pub policy_id: Option<String>,
    /// Whether no rule matched and a default applied.
    pub is_default: bool,
    /// Time taken to evaluate, in microseconds.
    pub evaluation_time_us: Option<u64>,
    /// Additional metadata, one entry per key.
    pub metadata: Vec<(String, JsonValue)>,
}

/// The mathematical form of a decision, without its timing.
pub struct DecisionModel {
    pub decision: Decision,
    pub reason: Seq<char>,
    pub rule_id: Option<Seq<char>>,
    pub policy_id: Option<Seq<char>>,
    pub is_default: bool,
    pub metadata: Seq<(Seq<char>, Json)>,
}

pub open spec fn opt_text(o: Option<String>) -> Option<Seq<char>> {
    match o {
        Some(s) => Some(s@),
        None => None,
    }
}

impl View for PolicyDecision {
    type V = DecisionModel;

    open spec fn view(&self) -> DecisionModel {
        DecisionModel {
            decision: self.decision,
            reason: self.reason@,
            rule_id: opt_text(self.rule_id),
            policy_id: opt_text(self.policy_id),
            is_default: self.is_default,
            metadata: entries_view(self.metadata@),
        }
    }
}

/// A decision made by a rule, with no identifiers attached yet.
pub open spec fn plain_decision(decision: Decision, reason: Seq<char>) -> DecisionModel {
    DecisionModel {
        decision,
        reason,
        rule_id: None,
        policy_id: None,
        is_default: false,
        metadata: Seq::empty(),
    }
}

/// The decision taken when no rule matches.
pub open spec fn default_decision(decision: Decision) -> DecisionModel {
    DecisionModel {
        decision,
        reason: match decision {
            Decision::Allow => "No matching rules - default allow"@,
            Decision::Deny => "No matching rules - default deny"@,
        },
        rule_id: None,
        policy_id: None,
        is_default: true,
        metadata: Seq::empty(),
    }
}

/// An empty metadata list.
fn no_metadata() -> (r: Vec<(String, JsonValue)>)
    ensures
        entries_view(r@) == Seq::<(Seq<char>, Json)>::empty(),
{
    let r: Vec<(String, JsonValue)> = Vec::new();
    assert(entries_view(r@) =~= Seq::<(Seq<char>, Json)>::empty());
    r
}

impl PolicyDecision {
    /// An allow decision with the given reason.
    pub fn allow(reason: &str) -> (r: Self)
        ensures
            r@ == plain_decision(Decision::Allow, reason@),
            r.evaluation_time_us is None,
    {
        PolicyDecision {
            decision: Decision::Allow,
            reason: String::from_str(reason),
            rule_id: None,
            policy_id: None,
            is_default: false,
            evaluation_time_us: None,
            metadata: no_metadata(),
        }
    }

    /// A deny decision with the given reason.
    pub fn deny(reason: &str) -> (r: Self)
        ensures
            r@ == plain_decision(Decision::Deny, reason@),
            r.evaluation_time_us is None,
    {
        PolicyDecision {
            decision: Decision::Deny,
            reason: String::from_str(reason),
            rule_id: None,
            policy_id: None,
            is_default: false,
            evaluation_time_us: None,
            metadata: no_metadata(),
        }
    }

    /// The allow decision taken when no rule matches.
    pub fn default_allow() -> (r: Self)
        ensures
            r@ == default_decision(Decision::Allow),
            r.evaluation_time_us is None,
    {
        PolicyDecision {
            decision: Decision::Allow,
            reason: String::from_str("No matching rules - default allow"),
            rule_id: None,
            policy_id: None,
            is_default: true,
            evaluation_time_us: None,
            metadata: no_metadata(),
        }
    }

    /// The deny decision taken when no rule matches.
    pub fn default_deny() -> (r: Self)
        ensures
            r@ == default_decision(Decision::Deny),
            r.evaluation_time_us is None,
    {
        PolicyDecision {
            decision: Decision::Deny,
            reason: String::from_str("No matching rules - default deny"),
            rule_id: None,
            policy_id: None,
            is_default: true,
            evaluation_time_us: None,
            metadata: no_metadata(),
        }
    }

    /// This decision attributed to the given rule.
    pub fn with_rule_id(self, rule_id: &str) -> (r: Self)
        ensures
            r@ == (DecisionModel { rule_id: Some(rule_id@), ..self@ }),
            r.evaluation_time_us == self.evaluation_time_us,
    {
        let mut d = self;
        d.rule_id = Some(String::from_str(rule_id));
        d
    }

    /// This decision attributed to the given policy.
    pub fn with_policy_id(self, policy_id: &str) -> (r: Self)
        ensures
            r@ == (DecisionModel { policy_id: Some(policy_id@), ..self@ }),
            r.evaluation_time_us == self.evaluation_time_us,
    {
        let mut d = self;
        d.policy_id = Some(String::from_str(policy_id));
        d
    }

    /// This decision with the given evaluation time.
    pub fn with_evaluation_time(self, time_us: u64) -> (r: Self)
        ensures
            r@ == self@,
            r.evaluation_time_us == Some(time_us),
    {
        let mut d = self;
        d.evaluation_time_us = Some(time_us);
        d
    }

    /// This decision with metadata entry `key` set to `value`.
    pub fn with_metadata(self, key: &str, value: JsonValue) -> (r: Self)
        ensures
            r@ == (DecisionModel {
                metadata: without_key(self@.metadata, key@).push((key@, value@)),
                ..self@
            }),
            r.evaluation_time_us == self.evaluation_time_us,
    {
        let PolicyDecision {
            decision,
            reason,
            rule_id,
            policy_id,
            is_default,
            evaluation_time_us,
            metadata,
        } = self;
        let ghost es = entries_view(metadata@);
        let k = String::from_str(key);
        let mut kept: Vec<(String, JsonValue)> = Vec::new();
        let mut rest = metadata;
        let ghost all = rest@;
        let total = rest.len();
        let mut taken: usize = 0;
        while rest.len() > 0
            invariant
                es == entries_view(all),
                total == all.len(),
                taken + rest@.len() == all.len(),
                rest@ == all.subrange(taken as int, all.len() as int),
                entries_view(kept@) == without_key(es.subrange(0, taken as int), key@),
                k@ == key@,
            decreases rest@.len(),
        {
            let ghost pre = es.subrange(0, taken as int + 1);
            assert(pre.subrange(0, pre.len() - 1) =~= es.subrange(0, taken as int));
            assert(pre.last() == (all[taken as int].0@, all[taken as int].1@));
            let (name, v) = rest.remove(0);
            if name != k {
                let ghost before = kept@;
                kept.push((name, v));
                assert(entries_view(kept@) =~= entries_view(before).push(pre.last()));
            }
            taken += 1;
            assert(rest@ =~= all.subrange(taken as int, all.len() as int));
        }
        assert(es.subrange(0, total as int) =~= es);
        let ghost before = kept@;
        kept.push((k, value));
        assert(entries_view(kept@) =~= entries_view(before).push((key@, value@)));
        PolicyDecision {
            decision,
            reason,
            rule_id,
            policy_id,
            is_default,
            evaluation_time_us,
            metadata: kept,
        }
    }

    /// Whether the decision is allow.
    pub fn is_allowed(&self) -> (r: bool)
        ensures
            r == (self.decision == Decision::Allow),
    {
        self.decision == Decision::Allow
    }

    /// Whether the decision is deny.
    pub fn is_denied(&self) -> (r: bool)
        ensures
            r == (self.decision == Decision::Deny),
    {
        self.decision == Decision::Deny
    }
}

} // verus!
