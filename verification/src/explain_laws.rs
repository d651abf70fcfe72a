use vstd::prelude::*;
use crate::compile::{
    compile_atom, compile_atoms, compile_rule_body, finish_plan, scan_args, unification_test, BodyState,
};
use crate::compile_laws::{body_repeats_bound, law_join_keys_are_bound, lemma_resolved_sound};
use crate::expr::SpecExpr;
use crate::magic::SpecMagicSymbol;
use crate::program::{SpecAtom, SpecRule};
use crate::ra::{PushState, SpecPlan};
use crate::registry::{lookup_relation, SpecRelationHandle};
use crate::strata::compile_rule;
use crate::symb::{name_set, SpecSymbol};

verus! {

impl SpecPlan {
    /// Whether no operator of the plan is a reordering.
    pub open spec fn reorder_free(self) -> bool
        decreases self,
    {
        match self {
            SpecPlan::Join { left, right, .. } => left.reorder_free() && right.reorder_free(),
            SpecPlan::Reorder { .. } => false,
            SpecPlan::Filter { parent, .. } => parent.reorder_free(),
            SpecPlan::Unification { parent, .. } => parent.reorder_free(),
            _ => true,
        }
    }

    /// Whether the plan has a reordering at most at its root.
    pub open spec fn reordered_on_top_only(self) -> bool {
        match self {
            SpecPlan::Reorder { relation, .. } => relation.reorder_free(),
            _ => self.reorder_free(),
        }
    }
}

/// Adding a filter brings no reordering into a plan.
pub proof fn lemma_filtered_reorder_free(p: SpecPlan, f: SpecExpr, d: nat)
    requires
        p.reorder_free(),
    ensures
        p.filtered_within(f, d).reorder_free(),
    decreases d, 0int, 0nat,
{
    match p {
        SpecPlan::Join { left, right, left_keys, right_keys, to_eliminate, span } => {
            if d > 0 {
                let st0 = PushState { left: *left, right: *right, remaining: Seq::empty() };
                let lb = name_set(left.bindings_before_eliminate());
                let rb = name_set(right.bindings_before_eliminate());
                lemma_pushed_reorder_free(st0, f.to_conjunction(), lb, rb, (d - 1) as nat);
                let st = SpecPlan::push_clauses(st0, f.to_conjunction(), lb, rb, (d - 1) as nat);
                let joined = SpecPlan::Join {
                    left: Box::new(st.left),
                    right: Box::new(st.right),
                    left_keys,
                    right_keys,
                    to_eliminate,
                    span,
                };
                assert(joined.reorder_free());
            }
        },
        _ => {},
    }
}

/// Pushing clauses into the children of a join brings no reordering into
/// them.
pub proof fn lemma_pushed_reorder_free(
    st: PushState,
    clauses: Seq<SpecExpr>,
    left_names: Set<Seq<char>>,
    right_names: Set<Seq<char>>,
    e: nat,
)
    requires
        st.left.reorder_free(),
        st.right.reorder_free(),
    ensures
        SpecPlan::push_clauses(st, clauses, left_names, right_names, e).left.reorder_free(),
        SpecPlan::push_clauses(st, clauses, left_names, right_names, e).right.reorder_free(),
    decreases e, 1int, clauses.len(),
{
    if clauses.len() > 0 {
        lemma_pushed_reorder_free(st, clauses.drop_last(), left_names, right_names, e);
        let prev = SpecPlan::push_clauses(st, clauses.drop_last(), left_names, right_names, e);
        let c = clauses.last();
        if c.bindings().subset_of(left_names) {
            lemma_filtered_reorder_free(prev.left, c, e);
        } else if c.bindings().subset_of(right_names) {
            lemma_filtered_reorder_free(prev.right, c, e);
        }
    }
}

/// The pass that marks dead bindings brings no reordering into a plan.
pub proof fn lemma_eliminated_reorder_free(p: SpecPlan, used: Set<Seq<char>>)
    requires
        p.reorder_free(),
    ensures
        p.eliminated(used).reorder_free(),
    decreases p,
{
    match p {
        SpecPlan::Join { left, right, right_keys, .. } => {
            lemma_eliminated_reorder_free(*left, used.union(p.left_needs()));
            lemma_eliminated_reorder_free(*right, used.union(name_set(right_keys)));
        },
        SpecPlan::Filter { parent, filters, .. } => {
            lemma_eliminated_reorder_free(*parent, used.union(SpecExpr::bindings_of_all(filters)));
        },
        SpecPlan::Unification { parent, expr, .. } => {
            lemma_eliminated_reorder_free(*parent, used.union(expr.bindings()));
        },
        _ => {},
    }
}

/// The resolution pass moves no reordering.
pub proof fn lemma_resolved_reorder_free(p: SpecPlan)
    ensures
        p.reorder_free() ==> p.resolved().reorder_free(),
        p.reordered_on_top_only() ==> p.resolved().reordered_on_top_only(),
    decreases p,
{
    match p {
        SpecPlan::Join { left, right, .. } => {
            lemma_resolved_reorder_free(*left);
            lemma_resolved_reorder_free(*right);
        },
        SpecPlan::Reorder { relation, .. } => {
            lemma_resolved_reorder_free(*relation);
        },
        SpecPlan::Filter { parent, .. } => {
            lemma_resolved_reorder_free(*parent);
        },
        SpecPlan::Unification { parent, .. } => {
            lemma_resolved_reorder_free(*parent);
        },
        _ => {},
    }
}

/// Folding atoms into a plan brings no reordering into it.
proof fn lemma_atoms_reorder_free(
    st: BodyState,
    atoms: Seq<SpecAtom>,
    arities: Seq<(SpecMagicSymbol, usize)>,
    relations: Seq<SpecRelationHandle>,
)
    requires
        st.plan.reorder_free(),
        compile_atoms(st, atoms, arities, relations) is Ok,
    ensures
        compile_atoms(st, atoms, arities, relations)->Ok_0.plan.reorder_free(),
    decreases atoms.len(),
{
    if atoms.len() > 0 {
        lemma_atoms_reorder_free(st, atoms.drop_last(), arities, relations);
        let prev = compile_atoms(st, atoms.drop_last(), arities, relations)->Ok_0;
        let next = compile_atom(prev, atoms.last(), arities, relations)->Ok_0;
        match atoms.last() {
            SpecAtom::Predicate(p) => {
                lemma_filtered_reorder_free(prev.plan, p, prev.plan.join_depth());
            },
            SpecAtom::Unification(u) => {
                if prev.seen.contains(u.binding.name) {
                    lemma_filtered_reorder_free(
                        prev.plan,
                        unification_test(u.binding, u.expr, u.one_many_unif, u.span),
                        prev.plan.join_depth(),
                    );
                }
            },
            SpecAtom::Rule(app) => {
                let s = scan_args(app.args, prev.seen, prev.next_id);
                assert(SpecPlan::derived(s.right_vars, app.name, app.span).reorder_free());
            },
            SpecAtom::Relation(app) => {
                let s = scan_args(app.args, prev.seen, prev.next_id);
                let store = lookup_relation(relations, app.name.name)->Some_0;
                assert(SpecPlan::relation(s.right_vars, app.span, store.name).reorder_free());
            },
            _ => {},
        }
        assert(next.plan.reorder_free());
    }
}

/// A plan without a reordering whose joins have well-formed keys can be
/// laid out as a table.
proof fn lemma_reorder_free_is_explainable(p: SpecPlan)
    requires
        p.reorder_free(),
        p.keys_well_formed(),
    ensures
        p.explainable(),
    decreases p,
{
    match p {
        SpecPlan::Join { left, right, left_keys, right_keys, .. } => {
            lemma_reorder_free_is_explainable(*left);
            lemma_reorder_free_is_explainable(*right);
            assert(left_keys.take(left_keys.len() as int) =~= left_keys);
            assert(right_keys.take(right_keys.len() as int) =~= right_keys);
            assert(!(*right is Reorder));
        },
        SpecPlan::Filter { parent, .. } => {
            lemma_reorder_free_is_explainable(*parent);
        },
        SpecPlan::Unification { parent, .. } => {
            lemma_reorder_free_is_explainable(*parent);
        },
        _ => {},
    }
}

/// A plan without a reordering below its root whose joins have well-formed
/// keys can be laid out as a table.
pub proof fn lemma_sound_plan_is_explainable(p: SpecPlan)
    requires
        p.reordered_on_top_only(),
        p.keys_well_formed(),
    ensures
        p.explainable(),
{
    match p {
        SpecPlan::Reorder { relation, .. } => {
            lemma_reorder_free_is_explainable(*relation);
        },
        _ => {
            lemma_reorder_free_is_explainable(p);
        },
    }
}

/// The plan of a rule body has a reordering at most at its root.
pub proof fn lemma_body_plan_reordered_on_top_only(
    body: Seq<SpecAtom>,
    rule_name: SpecMagicSymbol,
    arities: Seq<(SpecMagicSymbol, usize)>,
    relations: Seq<SpecRelationHandle>,
    head: Seq<SpecSymbol>,
)
    requires
        compile_rule_body(body, rule_name, arities, relations, head) is Ok,
    ensures
        compile_rule_body(body, rule_name, arities, relations, head)->Ok_0.reordered_on_top_only(),
{
    let start = BodyState { plan: SpecPlan::unit(rule_name.symbol().span), seen: Set::empty(), next_id: 0 };
    lemma_atoms_reorder_free(start, body, arities, relations);
    let st = compile_atoms(start, body, arities, relations)->Ok_0;
    let used = name_set(head);
    let first = st.plan.eliminated(used);
    lemma_eliminated_reorder_free(st.plan, used);
    let joined = first.cartesian_join(SpecPlan::unit(first.span()), first.span());
    assert(SpecPlan::unit(first.span()).reorder_free());
    assert(joined.reorder_free());
    lemma_eliminated_reorder_free(joined, used);
    assert(finish_plan(st.plan, head) is Ok);
}

/// The plan of a compiled clause can be laid out as a table, provided that
/// no application of the body repeats among its arguments a variable that
/// no atom before it has.
pub proof fn law_compiled_clause_can_be_explained(
    rule: SpecRule,
    name: SpecMagicSymbol,
    arities: Seq<(SpecMagicSymbol, usize)>,
    relations: Seq<SpecRelationHandle>,
)
    requires
        compile_rule(rule, name, arities, relations) is Ok,
        body_repeats_bound(rule.body),
    ensures
        compile_rule(rule, name, arities, relations)->Ok_0.relation.explainable(),
{
    let plan = compile_rule_body(rule.body, name, arities, relations, rule.head)->Ok_0;
    lemma_body_plan_reordered_on_top_only(rule.body, name, arities, relations, rule.head);
    law_join_keys_are_bound(rule.body, name, arities, relations, rule.head);
    lemma_resolved_reorder_free(plan);
    lemma_resolved_sound(plan);
    lemma_sound_plan_is_explainable(plan.resolved());
}

} // verus!
