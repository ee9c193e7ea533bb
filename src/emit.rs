use vstd::prelude::*;
use crate::ir::{
    config_view, Condition, ConditionModel, ConfigField, ConfigFieldModel, PolicyDefinition,
    PolicyModel, Rule, RuleModel,
};

verus! {

/// Where the builder comes from: the engine's default constructor, or a
/// builder the caller supplies under the name given by `USE`.
#[derive(Debug, PartialEq, Eq)]
pub enum BuilderSource {
    Default,
    External(String),
}

pub enum SourceModel {
    Default,
    External(Seq<char>),
}

impl View for BuilderSource {
    type V = SourceModel;

    open spec fn view(&self) -> SourceModel {
        match self {
            BuilderSource::Default => SourceModel::Default,
            BuilderSource::External(s) => SourceModel::External(s@),
        }
    }
}

/// One call on the builder.
#[derive(Debug, PartialEq, Eq)]
pub enum BuildStep {
    /// Merge these entries over the engine's defaults.
    Configure(Vec<ConfigField>),
    /// Append this rule.
    AddRule(Rule),
}

pub enum StepModel {
    Configure(Seq<ConfigFieldModel>),
    AddRule(RuleModel),
}

impl View for BuildStep {
    type V = StepModel;

    open spec fn view(&self) -> StepModel {
        match self {
            BuildStep::Configure(c) => StepModel::Configure(config_view(c@)),
            BuildStep::AddRule(r) => StepModel::AddRule(r@),
        }
    }
}

/// The builder calls that a policy definition stands for, in the order they
/// are made; the engine's own `build()` comes after them.
#[derive(Debug, PartialEq, Eq)]
pub struct BuildPlan {
    pub source: BuilderSource,
    pub steps: Vec<BuildStep>,
}

pub struct PlanModel {
    pub source: SourceModel,
    pub steps: Seq<StepModel>,
}

pub open spec fn steps_view(v: Seq<BuildStep>) -> Seq<StepModel> {
    v.map_values(|s: BuildStep| s@)
}

impl View for BuildPlan {
    type V = PlanModel;

    open spec fn view(&self) -> PlanModel {
        PlanModel { source: self.source@, steps: steps_view(self.steps@) }
    }
}

/// The condition the engine receives: `attr NEQ v` becomes
/// `NOT (attr EQ v)`; every other node is kept.
pub open spec fn lower_spec(c: ConditionModel) -> ConditionModel
    decreases c,
{
    match c {
        ConditionModel::NotEquals(a, v) => ConditionModel::Not(
            Box::new(ConditionModel::Equals(a, v)),
        ),
        ConditionModel::And(l, r) => ConditionModel::And(
            Box::new(lower_spec(*l)),
            Box::new(lower_spec(*r)),
        ),
        ConditionModel::Or(l, r) => ConditionModel::Or(
            Box::new(lower_spec(*l)),
            Box::new(lower_spec(*r)),
        ),
        ConditionModel::Not(x) => ConditionModel::Not(Box::new(lower_spec(*x))),
        _ => c,
    }
}

pub open spec fn lower_rule_spec(r: RuleModel) -> RuleModel {
    RuleModel {
        condition: match r.condition {
            Some(c) => Some(lower_spec(c)),
            None => None,
        },
        ..r
    }
}

/// The steps for a definition: one configuration step if it has a `CONFIG`
/// block, then one rule step per rule, in the definition's order.
pub open spec fn plan_steps(m: PolicyModel) -> Seq<StepModel> {
    let rules = m.rules.map_values(|r: RuleModel| StepModel::AddRule(lower_rule_spec(r)));
    match m.config {
        Some(c) => seq![StepModel::Configure(c)] + rules,
        None => rules,
    }
}

pub open spec fn plan_spec(m: PolicyModel) -> PlanModel {
    PlanModel {
        source: match m.use_builder {
            Some(u) => SourceModel::External(u),
            None => SourceModel::Default,
        },
        steps: plan_steps(m),
    }
}

/// Lowers `NEQ` comparisons to negated equalities throughout `c`.
pub fn lower(c: Condition) -> (r: Condition)
    ensures
        r@ == lower_spec(c@),
    decreases c,
{
    match c {
        Condition::NotEquals { attr, value } => {
            let eq = Condition::Equals { attr, value };
            assert(eq@ == ConditionModel::Equals(attr@, value@));
            Condition::Not(Box::new(eq))
        },
        Condition::And(l, r) => Condition::And(Box::new(lower(*l)), Box::new(lower(*r))),
        Condition::Or(l, r) => Condition::Or(Box::new(lower(*l)), Box::new(lower(*r))),
        Condition::Not(x) => Condition::Not(Box::new(lower(*x))),
        other => other,
    }
}

fn lower_rule(r: Rule) -> (o: Rule)
    ensures
        o@ == lower_rule_spec(r@),
{
    let Rule { effect, target, condition, reason } = r;
    let condition = match condition {
        Some(c) => Some(lower(c)),
        None => None,
    };
    Rule { effect, target, condition, reason }
}

/// The builder calls for `def`: where the builder comes from, then the
/// configuration step if any, then one rule step per rule in source order.
pub fn emit(def: PolicyDefinition) -> (p: BuildPlan)
    ensures
        p@ == plan_spec(def@),
{
    let ghost m = def@;
    let PolicyDefinition { use_builder, config, rules } = def;
    let source = match use_builder {
        Some(u) => BuilderSource::External(u),
        None => BuilderSource::Default,
    };
    let mut steps: Vec<BuildStep> = Vec::new();
    let ghost head: Seq<StepModel> = match m.config {
        Some(c) => seq![StepModel::Configure(c)],
        None => Seq::empty(),
    };
    match config {
        Some(c) => steps.push(BuildStep::Configure(c)),
        None => {},
    }
    assert(steps_view(steps@) =~= head);
    let ghost all = rules@;
    for r in it: rules.into_iter()
        invariant
            all == it.seq(),
            m.rules == crate::ir::rules_view(all),
            steps_view(steps@) =~= head + m.rules.subrange(0, it.index() as int).map_values(
                |x: RuleModel| StepModel::AddRule(lower_rule_spec(x)),
            ),
    {
        let ghost before = steps@;
        let ghost k = it.index();
        steps.push(BuildStep::AddRule(lower_rule(r)));
        assert(m.rules.subrange(0, k + 1) =~= m.rules.subrange(0, k as int).push(m.rules[k as int]));
        assert(steps_view(steps@) =~= steps_view(before).push(
            StepModel::AddRule(lower_rule_spec(m.rules[k as int])),
        ));
    }
    assert(m.rules.subrange(0, m.rules.len() as int) =~= m.rules);
    BuildPlan { source, steps }
}

} // verus!
