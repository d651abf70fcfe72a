use vstd::prelude::*;
use crate::fixed_rule::{MagicFixedRuleApply, SpecFixedRuleApply};
use crate::magic::{MagicSymbol, SpecMagicSymbol};
use crate::program::{Aggregation, MagicAtom, MagicInlineRule, SpecAggregation, SpecAtom, SpecRule};
use crate::ra::{RelAlgebra, SpecPlan};
use crate::value::{DataValue, SpecDataValue};

verus! {

/// Whether a rule applies a derived relation once or more than once.
#[derive(Clone, Copy, Debug, PartialEq, Eq, Structural)]
pub enum ContainedRuleMultiplicity {
    One,
    Many,
}

/// What kind of aggregation the head of a rule set carries.
#[derive(Clone, Copy, Debug, PartialEq, Eq, Structural)]
pub enum AggrKind {
    NoAggr,
    Normal,
    Meet,
}

/// The mathematical value of a [`CompiledRule`].
pub struct SpecCompiledRule {
    pub aggr: Seq<Option<(SpecAggregation, Seq<SpecDataValue>)>>,
    pub relation: SpecPlan,
    pub contained_rules: Seq<(SpecMagicSymbol, ContainedRuleMultiplicity)>,
}

/// The mathematical value of a [`CompiledRuleSet`].
pub enum SpecCompiledRuleSet {
    Rules(Seq<SpecCompiledRule>),
    Fixed(SpecFixedRuleApply),
}

/// One compiled clause of a derived relation: the aggregation of each head
/// position, the plan, and the derived relations that the clause applies.
#[derive(Debug)]
pub struct CompiledRule {
    pub aggr: Vec<Option<(Aggregation, Vec<DataValue>)>>,
    pub relation: RelAlgebra,
    pub contained_rules: Vec<(MagicSymbol, ContainedRuleMultiplicity)>,
}

/// What a derived relation compiles to: its clauses, or the application of
/// a fixed rule.
#[derive(Debug)]
pub enum CompiledRuleSet {
    Rules(Vec<CompiledRule>),
    Fixed(MagicFixedRuleApply),
}

impl View for CompiledRule {
    type V = SpecCompiledRule;

    open spec fn view(&self) -> SpecCompiledRule {
        SpecCompiledRule {
            aggr: self.aggr.deep_view(),
            relation: self.relation@,
            contained_rules: self.contained_rules.deep_view(),
        }
    }
}

impl DeepView for CompiledRule {
    type V = SpecCompiledRule;

    open spec fn deep_view(&self) -> SpecCompiledRule {
        self@
    }
}

impl DeepView for ContainedRuleMultiplicity {
    type V = ContainedRuleMultiplicity;

    open spec fn deep_view(&self) -> ContainedRuleMultiplicity {
        *self
    }
}

impl View for CompiledRuleSet {
    type V = SpecCompiledRuleSet;

    open spec fn view(&self) -> SpecCompiledRuleSet {
        match self {
            CompiledRuleSet::Rules(rules) => SpecCompiledRuleSet::Rules(rules.deep_view()),
            CompiledRuleSet::Fixed(fixed) => SpecCompiledRuleSet::Fixed(fixed@),
        }
    }
}

impl DeepView for CompiledRuleSet {
    type V = SpecCompiledRuleSet;

    open spec fn deep_view(&self) -> SpecCompiledRuleSet {
        self@
    }
}

/// The kind of aggregation of a head, told from the aggregation of each
/// position. A head without any aggregation has none. Meet aggregations
/// count as such only where every aggregation is one and no position
/// without aggregation follows one with.
pub open spec fn aggr_kind_of(aggr: Seq<Option<(SpecAggregation, Seq<SpecDataValue>)>>) -> AggrKind {
    let flags = aggr_flags(aggr);
    if !flags.0 {
        AggrKind::NoAggr
    } else if flags.1 {
        AggrKind::Normal
    } else {
        AggrKind::Meet
    }
}

/// Whether any position carries an aggregation, and whether the head fails
/// to be a pure meet aggregation.
pub open spec fn aggr_flags(aggr: Seq<Option<(SpecAggregation, Seq<SpecDataValue>)>>) -> (bool, bool)
    decreases aggr.len(),
{
    if aggr.len() == 0 {
        (false, false)
    } else {
        let prev = aggr_flags(aggr.drop_last());
        match aggr.last() {
            None => (prev.0, prev.1 || prev.0),
            Some((a, _)) => (true, prev.1 || !a.is_meet),
        }
    }
}

impl SpecCompiledRuleSet {
    /// The number of columns of the relation.
    pub open spec fn arity(self) -> int {
        match self {
            SpecCompiledRuleSet::Rules(rules) => rules[0].aggr.len() as int,
            SpecCompiledRuleSet::Fixed(fixed) => fixed.arity as int,
        }
    }

    /// The kind of aggregation of the relation: that of its first clause.
    pub open spec fn aggr_kind(self) -> AggrKind {
        match self {
            SpecCompiledRuleSet::Rules(rules) => aggr_kind_of(rules[0].aggr),
            SpecCompiledRuleSet::Fixed(_) => AggrKind::NoAggr,
        }
    }

    /// Whether the set, if it is one of clauses, has a clause.
    pub open spec fn has_clause(self) -> bool {
        self matches SpecCompiledRuleSet::Rules(rules) ==> rules.len() > 0
    }
}

impl CompiledRuleSet {
    /// The number of columns of the relation. A set of clauses must have a
    /// clause.
    pub fn arity(&self) -> (n: usize)
        requires
            self@.has_clause(),
        ensures
            n == self@.arity(),
    {
        match self {
            CompiledRuleSet::Rules(rs) => {
                assert(rs.deep_view()[0] == rs[0]@);
                rs[0].aggr.len()
            },
            CompiledRuleSet::Fixed(fixed) => fixed.arity,
        }
    }

    /// The kind of aggregation of the relation. A set of clauses must have
    /// a clause.
    pub fn aggr_kind(&self) -> (k: AggrKind)
        requires
            self@.has_clause(),
        ensures
            k == self@.aggr_kind(),
    {
        match self {
            CompiledRuleSet::Rules(rules) => {
                let mut has_non_meet = false;
                let mut has_aggr = false;
                let aggr = &rules[0].aggr;
                let ghost all = aggr.deep_view();
                assert(rules.deep_view()[0] == rules[0]@);
                let mut i: usize = 0;
                while i < aggr.len()
                    invariant
                        i <= aggr.len(),
                        all == aggr.deep_view(),
                        (has_aggr, has_non_meet) == aggr_flags(all.take(i as int)),
                    decreases aggr.len() - i,
                {
                    proof {
                        assert(all.take(i + 1).drop_last() =~= all.take(i as int));
                        assert(all.take(i + 1).last() == aggr[i as int].deep_view());
                    }
                    match &aggr[i] {
                        None => {
                            if has_aggr {
                                has_non_meet = true
                            }
                        },
                        Some((a, _)) => {
                            has_aggr = true;
                            has_non_meet = has_non_meet || !a.is_meet
                        },
                    }
                    i += 1;
                }
                assert(all.take(aggr.len() as int) =~= all);
                if !has_aggr {
                    AggrKind::NoAggr
                } else if has_non_meet {
                    AggrKind::Normal
                } else {
                    AggrKind::Meet
                }
            },
            CompiledRuleSet::Fixed(_) => AggrKind::NoAggr,
        }
    }
}

/// The position of the first entry for the relation `key`, if there is one.
pub open spec fn entry_position(entries: Seq<(SpecMagicSymbol, ContainedRuleMultiplicity)>, key: SpecMagicSymbol)
    -> Option<int>
    decreases entries.len(),
{
    if entries.len() == 0 {
        None
    } else {
        match entry_position(entries.drop_last(), key) {
            Some(p) => Some(p),
            None => if entries.last().0.same_relation(key) {
                Some(entries.len() - 1)
            } else {
                None
            },
        }
    }
}

/// The entries with one more application of the relation `key` counted: a
/// relation that has an entry is applied many times, any other gets an
/// entry of its own behind the others.
pub open spec fn count_application(
    entries: Seq<(SpecMagicSymbol, ContainedRuleMultiplicity)>,
    key: SpecMagicSymbol,
) -> Seq<(SpecMagicSymbol, ContainedRuleMultiplicity)> {
    match entry_position(entries, key) {
        Some(p) => entries.update(p, (entries[p].0, ContainedRuleMultiplicity::Many)),
        None => entries.push((key, ContainedRuleMultiplicity::One)),
    }
}

/// The derived relations that the atoms apply, negated or not, in the order
/// in which they first occur, each with whether it is applied once or more
/// often.
pub open spec fn contained_rules_of(body: Seq<SpecAtom>) -> Seq<(SpecMagicSymbol, ContainedRuleMultiplicity)>
    decreases body.len(),
{
    if body.len() == 0 {
        Seq::empty()
    } else {
        let prev = contained_rules_of(body.drop_last());
        match body.last() {
            SpecAtom::Rule(app) => count_application(prev, app.name),
            SpecAtom::NegatedRule(app) => count_application(prev, app.name),
            _ => prev,
        }
    }
}

/// Where the relation stands among the entries, if it does.
fn find_entry(entries: &Vec<(MagicSymbol, ContainedRuleMultiplicity)>, key: &MagicSymbol) -> (r: Option<usize>)
    ensures
        match r {
            Some(p) => p < entries.len() && entry_position(entries.deep_view(), key@) == Some(p as int),
            None => entry_position(entries.deep_view(), key@) is None,
        },
{
    let ghost all = entries.deep_view();
    let mut i: usize = 0;
    while i < entries.len()
        invariant
            i <= entries.len(),
            all == entries.deep_view(),
            entry_position(all.take(i as int), key@) is None,
        decreases entries.len() - i,
    {
        proof {
            assert(all.take(i + 1).drop_last() =~= all.take(i as int));
            assert(all.take(i + 1).last().0 == entries[i as int].0@);
        }
        if entries[i].0.same_relation(key) {
            proof {
                lemma_entry_position_prefix(all, key@, i + 1);
            }
            return Some(i);
        }
        i += 1;
    }
    assert(all.take(entries.len() as int) =~= all);
    None
}

/// Once a prefix of the entries has one for the relation, the whole list
/// reports that same entry.
pub proof fn lemma_entry_position_prefix(
    entries: Seq<(SpecMagicSymbol, ContainedRuleMultiplicity)>,
    key: SpecMagicSymbol,
    k: int,
)
    requires
        0 <= k <= entries.len(),
        entry_position(entries.take(k), key) is Some,
    ensures
        entry_position(entries, key) == entry_position(entries.take(k), key),
    decreases entries.len() - k,
{
    if k < entries.len() {
        assert(entries.take(k + 1).drop_last() =~= entries.take(k));
        lemma_entry_position_prefix(entries, key, k + 1);
    } else {
        assert(entries.take(k) =~= entries);
    }
}

/// Records one more application of the relation.
fn count_one(entries: &mut Vec<(MagicSymbol, ContainedRuleMultiplicity)>, key: &MagicSymbol)
    ensures
        final(entries).deep_view() == count_application(old(entries).deep_view(), key@),
{
    let ghost before = entries.deep_view();
    match find_entry(entries, key) {
        Some(p) => {
            let name = entries[p].0.clone();
            entries[p] = (name, ContainedRuleMultiplicity::Many);
            assert(entries.deep_view() =~= before.update(p as int, (before[p as int].0, ContainedRuleMultiplicity::Many)));
        },
        None => {
            entries.push((key.clone(), ContainedRuleMultiplicity::One));
            assert(entries.deep_view() =~= before.push((key@, ContainedRuleMultiplicity::One)));
        },
    }
}

impl MagicInlineRule {
    /// The derived relations that the body applies, each with whether it is
    /// applied once or more often.
    pub fn contained_rules(&self) -> (r: Vec<(MagicSymbol, ContainedRuleMultiplicity)>)
        ensures
            r.deep_view() == contained_rules_of(self@.body),
    {
        let mut coll: Vec<(MagicSymbol, ContainedRuleMultiplicity)> = Vec::new();
        let ghost all = self.body.deep_view();
        let mut i: usize = 0;
        assert(coll.deep_view() =~= contained_rules_of(all.take(0)));
        while i < self.body.len()
            invariant
                i <= self.body.len(),
                all == self.body.deep_view(),
                coll.deep_view() == contained_rules_of(all.take(i as int)),
            decreases self.body.len() - i,
        {
            proof {
                assert(all.take(i + 1).drop_last() =~= all.take(i as int));
                assert(all.take(i + 1).last() == self.body[i as int]@);
            }
            match &self.body[i] {
                MagicAtom::Rule(rule) => {
                    count_one(&mut coll, &rule.name);
                },
                MagicAtom::NegatedRule(rule) => {
                    count_one(&mut coll, &rule.name);
                },
                _ => {},
            }
            i += 1;
        }
        assert(all.take(self.body.len() as int) =~= all);
        coll
    }
}

/// The mathematical value of a [`MagicRulesOrFixed`].
pub enum SpecRulesOrFixed {
    Rules { rules: Seq<SpecRule> },
    Fixed { fixed: SpecFixedRuleApply },
}

/// What defines a derived relation: its clauses, or the application of a
/// fixed rule.
#[derive(Debug)]
pub enum MagicRulesOrFixed {
    Rules { rules: Vec<MagicInlineRule> },
    Fixed { fixed: MagicFixedRuleApply },
}

impl View for MagicRulesOrFixed {
    type V = SpecRulesOrFixed;

    open spec fn view(&self) -> SpecRulesOrFixed {
        match self {
            MagicRulesOrFixed::Rules { rules } => SpecRulesOrFixed::Rules { rules: rules.deep_view() },
            MagicRulesOrFixed::Fixed { fixed } => SpecRulesOrFixed::Fixed { fixed: fixed@ },
        }
    }
}

impl DeepView for MagicRulesOrFixed {
    type V = SpecRulesOrFixed;

    open spec fn deep_view(&self) -> SpecRulesOrFixed {
        self@
    }
}

impl SpecRulesOrFixed {
    /// Whether the definition can be compiled: a set of clauses has a
    /// clause, and no clause has a negated atom.
    pub open spec fn well_formed(self) -> bool {
        self matches SpecRulesOrFixed::Rules { rules } ==> rules.len() > 0 && forall|i: int|
            0 <= i < rules.len() ==> (#[trigger] rules[i]).is_positive()
    }

    /// The number of columns of the relation: the length of the head of the
    /// first clause, or what the fixed rule declares.
    pub open spec fn arity(self) -> usize {
        match self {
            SpecRulesOrFixed::Rules { rules } => rules[0].head.len() as usize,
            SpecRulesOrFixed::Fixed { fixed } => fixed.arity,
        }
    }
}

/// Whether no clause has a negated atom.
fn all_positive(rules: &Vec<MagicInlineRule>) -> (b: bool)
    ensures
        b == forall|i: int| 0 <= i < rules.len() ==> (#[trigger] rules.deep_view()[i]).is_positive(),
{
    let mut i: usize = 0;
    while i < rules.len()
        invariant
            i <= rules.len(),
            forall|j: int| 0 <= j < i ==> (#[trigger] rules.deep_view()[j]).is_positive(),
        decreases rules.len() - i,
    {
        if !rules[i].is_positive() {
            assert(!rules.deep_view()[i as int].is_positive());
            return false;
        }
        i += 1;
    }
    true
}

impl MagicRulesOrFixed {
    /// Whether the definition can be compiled.
    pub fn is_well_formed(&self) -> (b: bool)
        ensures
            b == self@.well_formed(),
    {
        match self {
            MagicRulesOrFixed::Rules { rules } => {
                rules.len() > 0 && all_positive(rules)
            },
            MagicRulesOrFixed::Fixed { .. } => true,
        }
    }

    /// The number of columns of the relation. A set of clauses must have a
    /// clause.
    pub fn arity(&self) -> (n: usize)
        requires
            self@ matches SpecRulesOrFixed::Rules { rules } ==> rules.len() > 0,
        ensures
            n == self@.arity(),
    {
        match self {
            MagicRulesOrFixed::Rules { rules } => {
                assert(rules.deep_view()[0] == rules[0]@);
                rules[0].head.len()
            },
            MagicRulesOrFixed::Fixed { fixed } => fixed.arity,
        }
    }
}

} // verus!
