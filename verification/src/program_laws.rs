use vstd::prelude::*;
use crate::compile_laws::{body_repeats_bound, body_vars_plain, law_compiled_clause_is_sound};
use crate::compiled::{SpecCompiledRuleSet, SpecRulesOrFixed};
use crate::explain::{program_explainable, set_explainable, stratum_explainable};
use crate::explain_laws::law_compiled_clause_can_be_explained;
use crate::magic::SpecMagicSymbol;
use crate::program::SpecRule;
use crate::registry::SpecRelationHandle;
use crate::resolve_laws::law_resolved_plan_is_resolved;
use crate::shape_laws::{law_compiled_clause_is_left_deep, law_compiled_clause_rows_fit};
use crate::strata::{
    collect_arities, compile_definition, compile_rule, compile_rules, compile_strata, compile_stratum,
    stratified_compile,
};
use crate::compile::compile_rule_body;
use crate::symb::{distinct_names, names_of};

verus! {

/// Where the clauses of a relation compile, there is one compiled clause
/// for each, in order, and it is what that clause compiles to.
pub proof fn lemma_compile_rules_each(
    rules: Seq<SpecRule>,
    name: SpecMagicSymbol,
    arities: Seq<(SpecMagicSymbol, usize)>,
    relations: Seq<SpecRelationHandle>,
)
    requires
        compile_rules(rules, name, arities, relations) is Ok,
    ensures
        compile_rules(rules, name, arities, relations)->Ok_0.len() == rules.len(),
        forall|j: int|
            0 <= j < rules.len() ==> compile_rule(#[trigger] rules[j], name, arities, relations) is Ok
                && compile_rules(rules, name, arities, relations)->Ok_0[j] == compile_rule(
                rules[j],
                name,
                arities,
                relations,
            )->Ok_0,
    decreases rules.len(),
{
    if rules.len() > 0 {
        let rest = rules.drop_last();
        lemma_compile_rules_each(rest, name, arities, relations);
        let all = compile_rules(rules, name, arities, relations)->Ok_0;
        assert forall|j: int| 0 <= j < rules.len() implies compile_rule(
            #[trigger] rules[j],
            name,
            arities,
            relations,
        ) is Ok && all[j] == compile_rule(rules[j], name, arities, relations)->Ok_0 by {
            if j < rest.len() {
                assert(rest[j] == rules[j]);
            } else {
                assert(rules[j] == rules.last());
            }
        }
    }
}

/// Where the definitions of a stratum compile, there is one compiled
/// definition for each, in order and under the same name, and it is what
/// that definition compiles to.
pub proof fn lemma_compile_stratum_each(
    prog: Seq<(SpecMagicSymbol, SpecRulesOrFixed)>,
    arities: Seq<(SpecMagicSymbol, usize)>,
    relations: Seq<SpecRelationHandle>,
)
    requires
        compile_stratum(prog, arities, relations) is Ok,
    ensures
        compile_stratum(prog, arities, relations)->Ok_0.len() == prog.len(),
        forall|i: int|
            0 <= i < prog.len() ==> {
                let out = compile_stratum(prog, arities, relations)->Ok_0[i];
                &&& out.0 == (#[trigger] prog[i]).0
                &&& compile_definition(prog[i].0, prog[i].1, arities, relations) is Ok
                &&& out.1 == compile_definition(prog[i].0, prog[i].1, arities, relations)->Ok_0
            },
    decreases prog.len(),
{
    if prog.len() > 0 {
        let rest = prog.drop_last();
        lemma_compile_stratum_each(rest, arities, relations);
        let all = compile_stratum(prog, arities, relations)->Ok_0;
        assert forall|i: int| 0 <= i < prog.len() implies {
            let out = all[i];
            &&& out.0 == (#[trigger] prog[i]).0
            &&& compile_definition(prog[i].0, prog[i].1, arities, relations) is Ok
            &&& out.1 == compile_definition(prog[i].0, prog[i].1, arities, relations)->Ok_0
        } by {
            if i < rest.len() {
                assert(rest[i] == prog[i]);
            } else {
                assert(prog[i] == prog.last());
            }
        }
    }
}

/// Where the strata of a program compile, there is one compiled stratum
/// for each, the last stratum first, and it is what that stratum compiles
/// to.
pub proof fn lemma_compile_strata_each(
    strata: Seq<Seq<(SpecMagicSymbol, SpecRulesOrFixed)>>,
    arities: Seq<(SpecMagicSymbol, usize)>,
    relations: Seq<SpecRelationHandle>,
)
    requires
        compile_strata(strata, arities, relations) is Ok,
    ensures
        compile_strata(strata, arities, relations)->Ok_0.len() == strata.len(),
        forall|k: int|
            0 <= k < strata.len() ==> compile_stratum(#[trigger] strata[k], arities, relations) is Ok
                && compile_strata(strata, arities, relations)->Ok_0[strata.len() - 1 - k] == compile_stratum(
                strata[k],
                arities,
                relations,
            )->Ok_0,
    decreases strata.len(),
{
    if strata.len() > 0 {
        let rest = strata.drop_last();
        lemma_compile_strata_each(rest, arities, relations);
        let all = compile_strata(strata, arities, relations)->Ok_0;
        let first = compile_stratum(strata.last(), arities, relations)->Ok_0;
        let others = compile_strata(rest, arities, relations)->Ok_0;
        assert(all == seq![first] + others);
        assert forall|k: int| 0 <= k < strata.len() implies compile_stratum(
            #[trigger] strata[k],
            arities,
            relations,
        ) is Ok && all[strata.len() - 1 - k] == compile_stratum(strata[k], arities, relations)->Ok_0 by {
            if k < rest.len() {
                assert(rest[k] == strata[k]);
                assert(all[strata.len() - 1 - k] == others[rest.len() - 1 - k]);
            } else {
                assert(strata[k] == strata.last());
                assert(all[0] == first);
            }
        }
    }
}

/// Whether no application in the program repeats among its arguments a
/// variable that no atom before it in the same body has.
pub open spec fn program_repeats_bound(strata: Seq<Seq<(SpecMagicSymbol, SpecRulesOrFixed)>>) -> bool {
    forall|k: int, i: int, j: int|
        0 <= k < strata.len() && 0 <= i < strata[k].len() && (#[trigger] strata[k][i]).1 is Rules && 0 <= j
            < strata[k][i].1->rules.len() ==> body_repeats_bound((#[trigger] strata[k][i].1->rules[j]).body)
}

/// What holds of every plan of a compiled program. The clause `j` of the
/// relation `i` of the stratum `k` has its plan at the same place of the
/// result, the strata counted from the other end. The plan exposes, in
/// order, the variables of the head of the clause; every reference to a
/// variable in it carries the position of that variable; every relation
/// given in place in it has rows of the length of its bindings; and its
/// joins are nested to the left only. No operator of it has a name twice
/// among its bindings, provided that the head names no variable twice and
/// that no variable of the body has a name of the form that the compiler
/// makes up. Every join of it has well-formed keys, and the plan can be
/// laid out as a table, provided that no application of the body repeats
/// among its arguments a variable that no atom before it has.
pub proof fn law_compiled_program_is_sound(
    strata: Seq<Seq<(SpecMagicSymbol, SpecRulesOrFixed)>>,
    relations: Seq<SpecRelationHandle>,
    k: int,
    i: int,
    j: int,
)
    requires
        stratified_compile(strata, relations) is Ok,
        0 <= k < strata.len(),
        0 <= i < strata[k].len(),
        strata[k][i].1 is Rules,
        0 <= j < strata[k][i].1->rules.len(),
    ensures
        ({
            let compiled = stratified_compile(strata, relations)->Ok_0;
            let rule = strata[k][i].1->rules[j];
            &&& compiled.len() == strata.len()
            &&& compiled[strata.len() - 1 - k].len() == strata[k].len()
            &&& compiled[strata.len() - 1 - k][i].0 == strata[k][i].0
            &&& compiled[strata.len() - 1 - k][i].1 matches SpecCompiledRuleSet::Rules(clauses)
            &&& clauses.len() == strata[k][i].1->rules.len()
            &&& clauses[j].aggr == rule.aggr
            &&& names_of(clauses[j].relation.bindings_after_eliminate()) == names_of(rule.head)
            &&& clauses[j].relation.is_resolved()
            &&& clauses[j].relation.rows_fit()
            &&& clauses[j].relation.left_deep()
            &&& distinct_names(rule.head) && body_vars_plain(rule.body) ==> clauses[j].relation.well_bound()
            &&& body_repeats_bound(rule.body) ==> clauses[j].relation.keys_well_formed()
                && clauses[j].relation.explainable()
        }),
{
    let arities = collect_arities(strata);
    let name = strata[k][i].0;
    let rules = strata[k][i].1->rules;
    let rule = rules[j];
    lemma_compile_strata_each(strata, arities, relations);
    lemma_compile_stratum_each(strata[k], arities, relations);
    assert(compile_definition(name, strata[k][i].1, arities, relations) is Ok);
    lemma_compile_rules_each(rules, name, arities, relations);
    law_compiled_clause_is_sound(rule, name, arities, relations);
    let plan = compile_rule_body(rule.body, name, arities, relations, rule.head)->Ok_0;
    law_resolved_plan_is_resolved(plan);
    law_compiled_clause_rows_fit(rule, name, arities, relations);
    law_compiled_clause_is_left_deep(rule, name, arities, relations);
    if body_repeats_bound(rule.body) {
        law_compiled_clause_can_be_explained(rule, name, arities, relations);
    }
}

/// A compiled program can be laid out as a table, provided that no
/// application in the program repeats among its arguments a variable that
/// no atom before it in the same body has.
pub proof fn law_compiled_program_can_be_explained(
    strata: Seq<Seq<(SpecMagicSymbol, SpecRulesOrFixed)>>,
    relations: Seq<SpecRelationHandle>,
)
    requires
        stratified_compile(strata, relations) is Ok,
        program_repeats_bound(strata),
    ensures
        program_explainable(stratified_compile(strata, relations)->Ok_0),
{
    let arities = collect_arities(strata);
    let compiled = stratified_compile(strata, relations)->Ok_0;
    lemma_compile_strata_each(strata, arities, relations);
    assert forall|m: int| 0 <= m < compiled.len() implies stratum_explainable(#[trigger] compiled[m]) by {
        let k = strata.len() - 1 - m;
        assert(compiled[strata.len() - 1 - k] == compile_stratum(strata[k], arities, relations)->Ok_0);
        lemma_compile_stratum_each(strata[k], arities, relations);
        assert forall|i: int| 0 <= i < compiled[m].len() implies set_explainable((#[trigger] compiled[m][i]).1) by {
            let name = strata[k][i].0;
            assert(compile_definition(name, strata[k][i].1, arities, relations) is Ok);
            match strata[k][i].1 {
                SpecRulesOrFixed::Rules { rules } => {
                    lemma_compile_rules_each(rules, name, arities, relations);
                    let clauses = compile_rules(rules, name, arities, relations)->Ok_0;
                    assert(compiled[m][i].1 == SpecCompiledRuleSet::Rules(clauses));
                    assert forall|j: int| 0 <= j < clauses.len() implies (#[trigger] clauses[j]).relation.explainable() by {
                        assert(strata[k][i].1->rules[j] == rules[j]);
                        assert(body_repeats_bound(rules[j].body));
                        law_compiled_clause_can_be_explained(rules[j], name, arities, relations);
                    }
                },
                SpecRulesOrFixed::Fixed { .. } => {},
            }
        }
    }
}

} // verus!
