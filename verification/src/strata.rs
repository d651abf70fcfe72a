use vstd::prelude::*;
use crate::compile::compile_rule_body;
use crate::compiled::{
    contained_rules_of, CompiledRule, CompiledRuleSet, MagicRulesOrFixed, SpecCompiledRule, SpecCompiledRuleSet,
    SpecRulesOrFixed,
};
use crate::error::{CompileError, SpecCompileError};
use crate::magic::{MagicSymbol, SpecMagicSymbol};
use crate::program::{Aggregation, MagicInlineRule, SpecRule};
use crate::registry::{lookup_relation, ArityMap, Compiler, SpecRelationHandle};
use crate::value::DataValue;

verus! {

/// The definitions of one stratum, by relation.
#[derive(Debug)]
pub struct MagicProgram {
    pub prog: Vec<(MagicSymbol, MagicRulesOrFixed)>,
}

/// A program after stratification and the magic-sets rewrite: its strata,
/// each of which depends only on those behind it.
#[derive(Debug)]
pub struct StratifiedMagicProgram(pub Vec<MagicProgram>);

/// What one stratum compiles to: its relations with their compiled
/// definitions, in the order of the stratum.
pub type CompiledProgram = Vec<(MagicSymbol, CompiledRuleSet)>;

impl View for MagicProgram {
    type V = Seq<(SpecMagicSymbol, SpecRulesOrFixed)>;

    open spec fn view(&self) -> Seq<(SpecMagicSymbol, SpecRulesOrFixed)> {
        self.prog.deep_view()
    }
}

impl DeepView for MagicProgram {
    type V = Seq<(SpecMagicSymbol, SpecRulesOrFixed)>;

    open spec fn deep_view(&self) -> Seq<(SpecMagicSymbol, SpecRulesOrFixed)> {
        self.prog.deep_view()
    }
}

impl View for StratifiedMagicProgram {
    type V = Seq<Seq<(SpecMagicSymbol, SpecRulesOrFixed)>>;

    open spec fn view(&self) -> Seq<Seq<(SpecMagicSymbol, SpecRulesOrFixed)>> {
        self.0.deep_view()
    }
}

/// Whether every definition of the stratum can be compiled.
pub open spec fn stratum_well_formed(prog: Seq<(SpecMagicSymbol, SpecRulesOrFixed)>) -> bool {
    forall|i: int| 0 <= i < prog.len() ==> (#[trigger] prog[i]).1.well_formed()
}

/// Whether every definition of the program can be compiled.
pub open spec fn program_well_formed(strata: Seq<Seq<(SpecMagicSymbol, SpecRulesOrFixed)>>) -> bool {
    forall|i: int| 0 <= i < strata.len() ==> stratum_well_formed(#[trigger] strata[i])
}

impl MagicProgram {
    /// Whether every definition of the stratum can be compiled.
    pub fn is_well_formed(&self) -> (b: bool)
        ensures
            b == stratum_well_formed(self@),
    {
        let mut i: usize = 0;
        while i < self.prog.len()
            invariant
                i <= self.prog.len(),
                forall|j: int| 0 <= j < i ==> (#[trigger] self@[j]).1.well_formed(),
            decreases self.prog.len() - i,
        {
            assert(self@[i as int].1 == self.prog[i as int].1@);
            if !self.prog[i].1.is_well_formed() {
                return false;
            }
            i += 1;
        }
        true
    }
}

impl StratifiedMagicProgram {
    /// Whether every definition of the program can be compiled.
    pub fn is_well_formed(&self) -> (b: bool)
        ensures
            b == program_well_formed(self@),
    {
        let mut i: usize = 0;
        while i < self.0.len()
            invariant
                i <= self.0.len(),
                forall|j: int| 0 <= j < i ==> stratum_well_formed(#[trigger] self@[j]),
            decreases self.0.len() - i,
        {
            assert(self@[i as int] == self.0[i as int]@);
            if !self.0[i].is_well_formed() {
                return false;
            }
            i += 1;
        }
        true
    }
}

/// The arities in `acc`, followed by that of each relation of the stratum.
pub open spec fn collect_stratum_arities(
    acc: Seq<(SpecMagicSymbol, usize)>,
    prog: Seq<(SpecMagicSymbol, SpecRulesOrFixed)>,
) -> Seq<(SpecMagicSymbol, usize)>
    decreases prog.len(),
{
    if prog.len() == 0 {
        acc
    } else {
        collect_stratum_arities(acc, prog.drop_last()).push((prog.last().0, prog.last().1.arity()))
    }
}

/// The arity of each relation of the program, stratum by stratum.
pub open spec fn collect_arities(strata: Seq<Seq<(SpecMagicSymbol, SpecRulesOrFixed)>>) -> Seq<
    (SpecMagicSymbol, usize),
>
    decreases strata.len(),
{
    if strata.len() == 0 {
        Seq::empty()
    } else {
        collect_stratum_arities(collect_arities(strata.drop_last()), strata.last())
    }
}

/// One clause compiled: its body turned into a plan that exposes the head,
/// pruned of dead bindings, with every reference to a variable resolved.
pub open spec fn compile_rule(
    rule: SpecRule,
    name: SpecMagicSymbol,
    arities: Seq<(SpecMagicSymbol, usize)>,
    relations: Seq<SpecRelationHandle>,
) -> Result<SpecCompiledRule, SpecCompileError> {
    match compile_rule_body(rule.body, name, arities, relations, rule.head) {
        Err(e) => Err(e),
        Ok(plan) => match plan.first_unbound() {
            Some(v) => Err(SpecCompileError::BadBinding { name: v.name, span: v.span }),
            None => Ok(
                SpecCompiledRule {
                    aggr: rule.aggr,
                    relation: plan.resolved(),
                    contained_rules: contained_rules_of(rule.body),
                },
            ),
        },
    }
}

/// The clauses compiled in order; the first failure ends it.
pub open spec fn compile_rules(
    rules: Seq<SpecRule>,
    name: SpecMagicSymbol,
    arities: Seq<(SpecMagicSymbol, usize)>,
    relations: Seq<SpecRelationHandle>,
) -> Result<Seq<SpecCompiledRule>, SpecCompileError>
    decreases rules.len(),
{
    if rules.len() == 0 {
        Ok(Seq::empty())
    } else {
        match compile_rules(rules.drop_last(), name, arities, relations) {
            Err(e) => Err(e),
            Ok(prev) => match compile_rule(rules.last(), name, arities, relations) {
                Err(e) => Err(e),
                Ok(c) => Ok(prev.push(c)),
            },
        }
    }
}

/// The definition of one relation compiled. The application of a fixed
/// rule is passed on as it is.
pub open spec fn compile_definition(
    name: SpecMagicSymbol,
    body: SpecRulesOrFixed,
    arities: Seq<(SpecMagicSymbol, usize)>,
    relations: Seq<SpecRelationHandle>,
) -> Result<SpecCompiledRuleSet, SpecCompileError> {
    match body {
        SpecRulesOrFixed::Rules { rules } => match compile_rules(rules, name, arities, relations) {
            Err(e) => Err(e),
            Ok(c) => Ok(SpecCompiledRuleSet::Rules(c)),
        },
        SpecRulesOrFixed::Fixed { fixed } => Ok(SpecCompiledRuleSet::Fixed(fixed)),
    }
}

/// The definitions of a stratum compiled in order; the first failure ends
/// it.
pub open spec fn compile_stratum(
    prog: Seq<(SpecMagicSymbol, SpecRulesOrFixed)>,
    arities: Seq<(SpecMagicSymbol, usize)>,
    relations: Seq<SpecRelationHandle>,
) -> Result<Seq<(SpecMagicSymbol, SpecCompiledRuleSet)>, SpecCompileError>
    decreases prog.len(),
{
    if prog.len() == 0 {
        Ok(Seq::empty())
    } else {
        match compile_stratum(prog.drop_last(), arities, relations) {
            Err(e) => Err(e),
            Ok(prev) => match compile_definition(prog.last().0, prog.last().1, arities, relations) {
                Err(e) => Err(e),
                Ok(c) => Ok(prev.push((prog.last().0, c))),
            },
        }
    }
}

/// The strata compiled from the last to the first, and put out in that
/// order; the first failure ends it.
pub open spec fn compile_strata(
    strata: Seq<Seq<(SpecMagicSymbol, SpecRulesOrFixed)>>,
    arities: Seq<(SpecMagicSymbol, usize)>,
    relations: Seq<SpecRelationHandle>,
) -> Result<Seq<Seq<(SpecMagicSymbol, SpecCompiledRuleSet)>>, SpecCompileError>
    decreases strata.len(),
{
    if strata.len() == 0 {
        Ok(Seq::empty())
    } else {
        match compile_stratum(strata.last(), arities, relations) {
            Err(e) => Err(e),
            Ok(c) => match compile_strata(strata.drop_last(), arities, relations) {
                Err(e) => Err(e),
                Ok(rest) => Ok(seq![c] + rest),
            },
        }
    }
}

/// The rows of `prefix` put in front of a result, where there is one.
pub open spec fn followed_by(
    prefix: Seq<Seq<(SpecMagicSymbol, SpecCompiledRuleSet)>>,
    r: Result<Seq<Seq<(SpecMagicSymbol, SpecCompiledRuleSet)>>, SpecCompileError>,
) -> Result<Seq<Seq<(SpecMagicSymbol, SpecCompiledRuleSet)>>, SpecCompileError> {
    match r {
        Ok(rest) => Ok(prefix + rest),
        Err(e) => Err(e),
    }
}

/// A whole program compiled: the arity of every relation is put on record
/// first, then the strata are compiled from the last to the first.
pub open spec fn stratified_compile(
    strata: Seq<Seq<(SpecMagicSymbol, SpecRulesOrFixed)>>,
    relations: Seq<SpecRelationHandle>,
) -> Result<Seq<Seq<(SpecMagicSymbol, SpecCompiledRuleSet)>>, SpecCompileError> {
    compile_strata(strata, collect_arities(strata), relations)
}

/// The items of a list in the opposite order.
pub fn reversed<T>(v: Vec<T>) -> (r: Vec<T>)
    ensures
        r.len() == v.len(),
        forall|i: int| 0 <= i < r.len() ==> r[i] == v[v.len() - 1 - i],
{
    let mut src = v;
    let mut out: Vec<T> = Vec::new();
    let ghost n = v.len();
    while src.len() > 0
        invariant
            n == v.len(),
            src.len() + out.len() == n,
            forall|j: int| 0 <= j < src.len() ==> src[j] == v[j],
            forall|j: int| 0 <= j < out.len() ==> out[j] == v[n - 1 - j],
        decreases src.len(),
    {
        let x = src.pop().unwrap();
        out.push(x);
    }
    out
}

/// A copy of the values.
fn clone_values(v: &Vec<DataValue>) -> (r: Vec<DataValue>)
    ensures
        r.deep_view() == v.deep_view(),
{
    let mut out: Vec<DataValue> = Vec::new();
    let mut i: usize = 0;
    while i < v.len()
        invariant
            i <= v.len(),
            out.len() == i,
            forall|j: int| 0 <= j < i ==> out[j]@ == v[j]@,
        decreases v.len() - i,
    {
        out.push(v[i].clone());
        i += 1;
    }
    assert(out.deep_view() =~= v.deep_view());
    out
}

/// A copy of the aggregations of a head.
pub fn clone_aggr(v: &Vec<Option<(Aggregation, Vec<DataValue>)>>) -> (r: Vec<Option<(Aggregation, Vec<DataValue>)>>)
    ensures
        r.deep_view() == v.deep_view(),
{
    let mut out: Vec<Option<(Aggregation, Vec<DataValue>)>> = Vec::new();
    let mut i: usize = 0;
    while i < v.len()
        invariant
            i <= v.len(),
            out.len() == i,
            forall|j: int| 0 <= j < i ==> out[j].deep_view() == v[j].deep_view(),
        decreases v.len() - i,
    {
        let item = match &v[i] {
            None => None,
            Some((a, args)) => Some((a.clone(), clone_values(args))),
        };
        out.push(item);
        i += 1;
    }
    assert(out.deep_view() =~= v.deep_view());
    out
}

impl Compiler {
    /// Compiles one clause of the relation `name`.
    pub fn compile_rule(&self, rule: &MagicInlineRule, name: &MagicSymbol, store_arities: &ArityMap) -> (r: Result<
        CompiledRule,
        CompileError,
    >)
        requires
            rule@.is_positive(),
        ensures
            match r {
                Ok(c) => compile_rule(rule@, name@, store_arities@, self@) == Ok::<SpecCompiledRule, SpecCompileError>(
                    c@,
                ),
                Err(e) => compile_rule(rule@, name@, store_arities@, self@) == Err::<
                    SpecCompiledRule,
                    SpecCompileError,
                >(e@),
            },
    {
        let mut relation = match self.compile_magic_rule_body(rule, name, store_arities, &rule.head) {
            Ok(p) => p,
            Err(e) => {
                return Err(e);
            },
        };
        match relation.fill_binding_indices_and_compile() {
            Ok(()) => {},
            Err(e) => {
                return Err(e);
            },
        }
        Ok(CompiledRule { aggr: clone_aggr(&rule.aggr), relation, contained_rules: rule.contained_rules() })
    }

    /// Compiles the clauses of one relation in order.
    fn compile_rules(&self, rules: &Vec<MagicInlineRule>, name: &MagicSymbol, store_arities: &ArityMap) -> (r: Result<
        Vec<CompiledRule>,
        CompileError,
    >)
        requires
            forall|i: int| 0 <= i < rules.len() ==> (#[trigger] rules.deep_view()[i]).is_positive(),
        ensures
            match r {
                Ok(c) => compile_rules(rules.deep_view(), name@, store_arities@, self@) == Ok::<
                    Seq<SpecCompiledRule>,
                    SpecCompileError,
                >(c.deep_view()),
                Err(e) => compile_rules(rules.deep_view(), name@, store_arities@, self@) == Err::<
                    Seq<SpecCompiledRule>,
                    SpecCompileError,
                >(e@),
            },
    {
        let mut collected: Vec<CompiledRule> = Vec::new();
        let ghost all = rules.deep_view();
        let mut i: usize = 0;
        assert(collected.deep_view() =~= Seq::<SpecCompiledRule>::empty());
        while i < rules.len()
            invariant
                i <= rules.len(),
                all == rules.deep_view(),
                forall|j: int| 0 <= j < rules.len() ==> (#[trigger] rules.deep_view()[j]).is_positive(),
                compile_rules(all.take(i as int), name@, store_arities@, self@) == Ok::<
                    Seq<SpecCompiledRule>,
                    SpecCompileError,
                >(collected.deep_view()),
            decreases rules.len() - i,
        {
            proof {
                assert(all.take(i + 1).drop_last() =~= all.take(i as int));
                assert(all.take(i + 1).last() == rules[i as int]@);
                assert(rules.deep_view()[i as int].is_positive());
            }
            match self.compile_rule(&rules[i], name, store_arities) {
                Ok(c) => {
                    let ghost before = collected.deep_view();
                    collected.push(c);
                    assert(collected.deep_view() =~= before.push(c@));
                },
                Err(e) => {
                    proof {
                        lemma_compile_rules_fails(all, name@, store_arities@, self@, i + 1);
                    }
                    return Err(e);
                },
            }
            i += 1;
        }
        assert(all.take(rules.len() as int) =~= all);
        Ok(collected)
    }

    /// Compiles the definitions of one stratum in order.
    fn compile_stratum(&self, prog: MagicProgram, store_arities: &ArityMap) -> (r: Result<
        CompiledProgram,
        CompileError,
    >)
        requires
            stratum_well_formed(prog@),
        ensures
            match r {
                Ok(c) => compile_stratum(prog@, store_arities@, self@) == Ok::<
                    Seq<(SpecMagicSymbol, SpecCompiledRuleSet)>,
                    SpecCompileError,
                >(c.deep_view()),
                Err(e) => compile_stratum(prog@, store_arities@, self@) == Err::<
                    Seq<(SpecMagicSymbol, SpecCompiledRuleSet)>,
                    SpecCompileError,
                >(e@),
            },
    {
        let ghost all = prog@;
        let ghost n = prog.prog.len();
        let mut rest = reversed(prog.prog);
        let mut out: CompiledProgram = Vec::new();
        assert(out.deep_view() =~= Seq::<(SpecMagicSymbol, SpecCompiledRuleSet)>::empty());
        while rest.len() > 0
            invariant
                rest.len() <= n,
                n == all.len(),
                all == prog@,
                stratum_well_formed(all),
                forall|j: int| 0 <= j < rest.len() ==> (#[trigger] rest[j]).deep_view() == all[n - 1 - j],
                compile_stratum(all.take(n - rest.len()), store_arities@, self@) == Ok::<
                    Seq<(SpecMagicSymbol, SpecCompiledRuleSet)>,
                    SpecCompileError,
                >(out.deep_view()),
            decreases rest.len(),
        {
            let ghost i = n - rest.len();
            let (k, body) = rest.pop().unwrap();
            proof {
                assert(all.take(i + 1).drop_last() =~= all.take(i));
                assert(all.take(i + 1).last() == all[i]);
                assert((k, body).deep_view() == all[i]);
                assert(all[i].1.well_formed());
            }
            let compiled = match body {
                MagicRulesOrFixed::Rules { rules } => {
                    match self.compile_rules(&rules, &k, store_arities) {
                        Ok(c) => CompiledRuleSet::Rules(c),
                        Err(e) => {
                            proof {
                                lemma_compile_stratum_fails(all, store_arities@, self@, i + 1);
                            }
                            return Err(e);
                        },
                    }
                },
                MagicRulesOrFixed::Fixed { fixed } => CompiledRuleSet::Fixed(fixed),
            };
            let ghost before = out.deep_view();
            let ghost kv = k@;
            let ghost cv = compiled@;
            out.push((k, compiled));
            assert(out.deep_view() =~= before.push((kv, cv)));
        }
        assert(all.take(n as int) =~= all);
        Ok(out)
    }

    /// Compiles a whole program. The arity of every relation is put on
    /// record first; the strata are then compiled from the last to the
    /// first and handed back in that order.
    pub fn stratified_magic_compile(&self, prog: StratifiedMagicProgram) -> (r: Result<
        Vec<CompiledProgram>,
        CompileError,
    >)
        requires
            program_well_formed(prog@),
        ensures
            match r {
                Ok(c) => stratified_compile(prog@, self@) == Ok::<
                    Seq<Seq<(SpecMagicSymbol, SpecCompiledRuleSet)>>,
                    SpecCompileError,
                >(c.deep_view()),
                Err(e) => stratified_compile(prog@, self@) == Err::<
                    Seq<Seq<(SpecMagicSymbol, SpecCompiledRuleSet)>>,
                    SpecCompileError,
                >(e@),
            },
    {
        let store_arities = collect_store_arities(&prog);
        let ghost all = prog@;
        let ghost n = prog.0.len();
        let mut strata = prog.0;
        let mut out: Vec<CompiledProgram> = Vec::new();
        proof {
            assert(out.deep_view() =~= Seq::<Seq<(SpecMagicSymbol, SpecCompiledRuleSet)>>::empty());
            assert(all.take(n as int) =~= all);
            match compile_strata(all, store_arities@, self@) {
                Ok(rest) => {
                    assert(out.deep_view() + rest =~= rest);
                },
                Err(_) => {},
            }
        }
        while strata.len() > 0
            invariant
                strata.len() <= n,
                n == all.len(),
                all == prog@,
                store_arities@ == collect_arities(all),
                program_well_formed(all),
                strata.deep_view() == all.take(strata.len() as int),
                compile_strata(all, store_arities@, self@) == followed_by(
                    out.deep_view(),
                    compile_strata(all.take(strata.len() as int), store_arities@, self@),
                ),
            decreases strata.len(),
        {
            let ghost m = strata.len();
            let ghost before = strata.deep_view();
            let cur = strata.pop().unwrap();
            proof {
                assert(strata.deep_view() =~= all.take(m - 1));
                assert(cur@ == before[m - 1]);
                assert(cur@ == all[m - 1]);
                assert(stratum_well_formed(all[m - 1]));
                assert(all.take(m as int).last() == all[m - 1]);
                assert(all.take(m as int).drop_last() =~= all.take(m - 1));
            }
            match self.compile_stratum(cur, &store_arities) {
                Ok(c) => {
                    let ghost prev = out.deep_view();
                    let ghost cv = c.deep_view();
                    out.push(c);
                    proof {
                        assert(out.deep_view() =~= prev.push(cv));
                        match compile_strata(all.take(m - 1), store_arities@, self@) {
                            Ok(rest) => {
                                assert(prev + (seq![cv] + rest) =~= prev.push(cv) + rest);
                            },
                            Err(_) => {},
                        }
                    }
                },
                Err(e) => {
                    return Err(e);
                },
            }
        }
        proof {
            assert(out.deep_view() + Seq::<Seq<(SpecMagicSymbol, SpecCompiledRuleSet)>>::empty() =~= out.deep_view());
        }
        Ok(out)
    }
}

/// Puts the arity of every relation of the program on record.
pub fn collect_store_arities(prog: &StratifiedMagicProgram) -> (m: ArityMap)
    requires
        program_well_formed(prog@),
    ensures
        m@ == collect_arities(prog@),
{
    let mut store_arities = ArityMap::new();
    let ghost all = prog@;
    let mut i: usize = 0;
    while i < prog.0.len()
        invariant
            i <= prog.0.len(),
            all == prog@,
            program_well_formed(all),
            store_arities@ == collect_arities(all.take(i as int)),
        decreases prog.0.len() - i,
    {
        let stratum = &prog.0[i];
        let ghost entries = stratum@;
        let ghost base = store_arities@;
        proof {
            assert(all.take(i + 1).drop_last() =~= all.take(i as int));
            assert(all.take(i + 1).last() == entries);
            assert(stratum_well_formed(all[i as int]));
        }
        let mut j: usize = 0;
        while j < stratum.prog.len()
            invariant
                j <= stratum.prog.len(),
                entries == stratum@,
                stratum_well_formed(entries),
                store_arities@ == collect_stratum_arities(base, entries.take(j as int)),
            decreases stratum.prog.len() - j,
        {
            proof {
                assert(entries.take(j + 1).drop_last() =~= entries.take(j as int));
                assert(entries.take(j + 1).last() == entries[j as int]);
                assert(entries[j as int] == stratum.prog[j as int].deep_view());
                assert(entries[j as int].1.well_formed());
            }
            let entry = &stratum.prog[j];
            store_arities.insert(entry.0.clone(), entry.1.arity());
            j += 1;
        }
        proof {
            assert(entries.take(stratum.prog.len() as int) =~= entries);
        }
        i += 1;
    }
    proof {
        assert(all.take(prog.0.len() as int) =~= all);
    }
    store_arities
}

/// Once a prefix of the clauses fails, all of them fail in the same way.
pub proof fn lemma_compile_rules_fails(
    rules: Seq<SpecRule>,
    name: SpecMagicSymbol,
    arities: Seq<(SpecMagicSymbol, usize)>,
    relations: Seq<SpecRelationHandle>,
    k: int,
)
    requires
        0 <= k <= rules.len(),
        compile_rules(rules.take(k), name, arities, relations) is Err,
    ensures
        compile_rules(rules, name, arities, relations) == compile_rules(rules.take(k), name, arities, relations),
    decreases rules.len() - k,
{
    if k < rules.len() {
        assert(rules.take(k + 1).drop_last() =~= rules.take(k));
        lemma_compile_rules_fails(rules, name, arities, relations, k + 1);
    } else {
        assert(rules.take(k) =~= rules);
    }
}

/// Once a prefix of the stratum fails, the stratum fails in the same way.
pub proof fn lemma_compile_stratum_fails(
    prog: Seq<(SpecMagicSymbol, SpecRulesOrFixed)>,
    arities: Seq<(SpecMagicSymbol, usize)>,
    relations: Seq<SpecRelationHandle>,
    k: int,
)
    requires
        0 <= k <= prog.len(),
        compile_stratum(prog.take(k), arities, relations) is Err,
    ensures
        compile_stratum(prog, arities, relations) == compile_stratum(prog.take(k), arities, relations),
    decreases prog.len() - k,
{
    if k < prog.len() {
        assert(prog.take(k + 1).drop_last() =~= prog.take(k));
        lemma_compile_stratum_fails(prog, arities, relations, k + 1);
    } else {
        assert(prog.take(k) =~= prog);
    }
}

/// What a query may ask to be done with the stored relation that it names
/// for its output.
#[derive(Clone, Copy, Debug, PartialEq, Eq, Structural)]
pub enum RelationOp {
    Create,
    Replace,
    Put,
    Insert,
    Update,
    Rm,
    Delete,
    Ensure,
    EnsureNot,
}

/// The stored relation that a query names for its output: its name, the
/// number of its columns, and what is to be done with it.
#[derive(Debug)]
pub struct StoreRelationRequest {
    pub name: String,
    pub arity: u8,
    pub op: RelationOp,
}

/// The catalog after the output relation of a query was seen to: a query
/// that asks to create its output relation declares it; any other leaves
/// the catalog as it is.
pub open spec fn catalog_after_request(
    relations: Seq<SpecRelationHandle>,
    request: Option<(Seq<char>, u8, RelationOp)>,
) -> Seq<SpecRelationHandle> {
    match request {
        Some((name, arity, RelationOp::Create)) => relations.push(
            SpecRelationHandle {
                id: relations.len() as usize,
                name,
                arity,
                keys: Seq::empty(),
                non_keys: Seq::empty(),
            },
        ),
        _ => relations,
    }
}

/// Whether the query asks to create a relation that the catalog has.
pub open spec fn request_conflicts(
    relations: Seq<SpecRelationHandle>,
    request: Option<(Seq<char>, u8, RelationOp)>,
) -> bool {
    request matches Some((name, _, RelationOp::Create)) && lookup_relation(relations, name) is Some
}

impl StoreRelationRequest {
    /// What the request asks for.
    pub open spec fn spec_request(self) -> (Seq<char>, u8, RelationOp) {
        (self.name@, self.arity, self.op)
    }
}

/// What is asked of the output relation, if anything.
pub open spec fn request_of(store_relation: Option<&StoreRelationRequest>) -> Option<(Seq<char>, u8, RelationOp)> {
    match store_relation {
        Some(r) => Some(r.spec_request()),
        None => None,
    }
}

impl Compiler {
    /// Compiles a query. Where the query asks to create its output
    /// relation, the relation must not exist yet and is declared first; the
    /// program is then compiled against the catalog.
    pub fn compile_query(&mut self, store_relation: Option<&StoreRelationRequest>, program: StratifiedMagicProgram) -> (r:
        Result<Vec<CompiledProgram>, CompileError>)
        requires
            program_well_formed(program@),
        ensures
            request_conflicts(old(self)@, request_of(store_relation)) ==> {
                &&& final(self)@ == old(self)@
                &&& r matches Err(e)
                &&& e@ == (SpecCompileError::StoreRelationConflict { name: store_relation.unwrap().name@ })
            },
            !request_conflicts(old(self)@, request_of(store_relation)) ==> {
                &&& final(self)@ == catalog_after_request(old(self)@, request_of(store_relation))
                &&& match r {
                    Ok(c) => stratified_compile(program@, final(self)@) == Ok::<
                        Seq<Seq<(SpecMagicSymbol, SpecCompiledRuleSet)>>,
                        SpecCompileError,
                    >(c.deep_view()),
                    Err(e) => stratified_compile(program@, final(self)@) == Err::<
                        Seq<Seq<(SpecMagicSymbol, SpecCompiledRuleSet)>>,
                        SpecCompileError,
                    >(e@),
                }
            },
    {
        match store_relation {
            Some(meta) => {
                match meta.op {
                    RelationOp::Create => {
                        if self.relation_exists(meta.name.as_str()) {
                            return Err(CompileError::StoreRelationConflict { name: meta.name.clone() });
                        }
                        match self.create_relation(meta.name.clone(), meta.arity) {
                            Ok(_) => {},
                            Err(e) => {
                                return Err(e);
                            },
                        }
                    },
                    _ => {},
                }
            },
            None => {},
        }
        self.stratified_magic_compile(program)
    }
}

} // verus!
