use vstd::prelude::*;
use crate::compile::{compile_atom, compile_atoms, compile_rule_body, scan_args, unification_test, BodyState};
use crate::expr::SpecExpr;
use crate::magic::SpecMagicSymbol;
use crate::program::{SpecAtom, SpecRule};
use crate::ra::{PushState, SpecPlan};
use crate::registry::{lookup_relation, SpecRelationHandle};
use crate::strata::compile_rule;
use crate::symb::{name_set, SpecSymbol};

verus! {

impl SpecPlan {
    /// Whether every relation given in place has rows of the length of its
    /// bindings.
    pub open spec fn rows_fit(self) -> bool
        decreases self,
    {
        match self {
            SpecPlan::Fixed { bindings, data, .. } => forall|i: int|
                0 <= i < data.len() ==> (#[trigger] data[i]).len() == bindings.len(),
            SpecPlan::Join { left, right, .. } => left.rows_fit() && right.rows_fit(),
            SpecPlan::Reorder { relation, .. } => relation.rows_fit(),
            SpecPlan::Filter { parent, .. } => parent.rows_fit(),
            SpecPlan::Unification { parent, .. } => parent.rows_fit(),
            _ => true,
        }
    }
}

/// Adding a filter changes no relation given in place.
pub proof fn lemma_filtered_rows_fit(p: SpecPlan, f: SpecExpr, d: nat)
    requires
        p.rows_fit(),
    ensures
        p.filtered_within(f, d).rows_fit(),
    decreases d, 0int, 0nat,
{
    match p {
        SpecPlan::Join { left, right, left_keys, right_keys, to_eliminate, span } => {
            if d > 0 {
                let st0 = PushState { left: *left, right: *right, remaining: Seq::empty() };
                let lb = name_set(left.bindings_before_eliminate());
                let rb = name_set(right.bindings_before_eliminate());
                lemma_pushed_rows_fit(st0, f.to_conjunction(), lb, rb, (d - 1) as nat);
                let st = SpecPlan::push_clauses(st0, f.to_conjunction(), lb, rb, (d - 1) as nat);
                let joined = SpecPlan::Join {
                    left: Box::new(st.left),
                    right: Box::new(st.right),
                    left_keys,
                    right_keys,
                    to_eliminate,
                    span,
                };
                assert(joined.rows_fit());
            }
        },
        _ => {},
    }
}

/// Pushing clauses into the children of a join changes no relation given
/// in place.
pub proof fn lemma_pushed_rows_fit(
    st: PushState,
    clauses: Seq<SpecExpr>,
    left_names: Set<Seq<char>>,
    right_names: Set<Seq<char>>,
    e: nat,
)
    requires
        st.left.rows_fit(),
        st.right.rows_fit(),
    ensures
        SpecPlan::push_clauses(st, clauses, left_names, right_names, e).left.rows_fit(),
        SpecPlan::push_clauses(st, clauses, left_names, right_names, e).right.rows_fit(),
    decreases e, 1int, clauses.len(),
{
    if clauses.len() > 0 {
        lemma_pushed_rows_fit(st, clauses.drop_last(), left_names, right_names, e);
        let prev = SpecPlan::push_clauses(st, clauses.drop_last(), left_names, right_names, e);
        let c = clauses.last();
        if c.bindings().subset_of(left_names) {
            lemma_filtered_rows_fit(prev.left, c, e);
        } else if c.bindings().subset_of(right_names) {
            lemma_filtered_rows_fit(prev.right, c, e);
        }
    }
}

/// The pass that marks dead bindings and the resolution pass change no
/// relation given in place.
pub proof fn lemma_passes_keep_rows(p: SpecPlan, used: Set<Seq<char>>)
    requires
        p.rows_fit(),
    ensures
        p.eliminated(used).rows_fit(),
        p.resolved().rows_fit(),
    decreases p,
{
    match p {
        SpecPlan::Join { left, right, right_keys, .. } => {
            lemma_passes_keep_rows(*left, used.union(p.left_needs()));
            lemma_passes_keep_rows(*right, used.union(name_set(right_keys)));
        },
        SpecPlan::Reorder { relation, .. } => {
            lemma_passes_keep_rows(*relation, used);
        },
        SpecPlan::Filter { parent, filters, .. } => {
            lemma_passes_keep_rows(*parent, used.union(SpecExpr::bindings_of_all(filters)));
        },
        SpecPlan::Unification { parent, expr, .. } => {
            lemma_passes_keep_rows(*parent, used.union(expr.bindings()));
        },
        _ => {},
    }
}

/// Folding atoms into a plan brings in no relation given in place.
proof fn lemma_atoms_rows_fit(
    st: BodyState,
    atoms: Seq<SpecAtom>,
    arities: Seq<(SpecMagicSymbol, usize)>,
    relations: Seq<SpecRelationHandle>,
)
    requires
        st.plan.rows_fit(),
        compile_atoms(st, atoms, arities, relations) is Ok,
    ensures
        compile_atoms(st, atoms, arities, relations)->Ok_0.plan.rows_fit(),
    decreases atoms.len(),
{
    if atoms.len() > 0 {
        lemma_atoms_rows_fit(st, atoms.drop_last(), arities, relations);
        let prev = compile_atoms(st, atoms.drop_last(), arities, relations)->Ok_0;
        let next = compile_atom(prev, atoms.last(), arities, relations)->Ok_0;
        match atoms.last() {
            SpecAtom::Predicate(p) => {
                lemma_filtered_rows_fit(prev.plan, p, prev.plan.join_depth());
            },
            SpecAtom::Unification(u) => {
                if prev.seen.contains(u.binding.name) {
                    lemma_filtered_rows_fit(
                        prev.plan,
                        unification_test(u.binding, u.expr, u.one_many_unif, u.span),
                        prev.plan.join_depth(),
                    );
                }
            },
            SpecAtom::Rule(app) => {
                let s = scan_args(app.args, prev.seen, prev.next_id);
                assert(SpecPlan::derived(s.right_vars, app.name, app.span).rows_fit());
            },
            SpecAtom::Relation(app) => {
                let s = scan_args(app.args, prev.seen, prev.next_id);
                let store = lookup_relation(relations, app.name.name)->Some_0;
                assert(SpecPlan::relation(s.right_vars, app.span, store.name).rows_fit());
            },
            _ => {},
        }
        assert(next.plan.rows_fit());
    }
}

/// In the plan of a rule body every relation given in place has rows of the
/// length of its bindings.
pub proof fn lemma_body_plan_rows_fit(
    body: Seq<SpecAtom>,
    rule_name: SpecMagicSymbol,
    arities: Seq<(SpecMagicSymbol, usize)>,
    relations: Seq<SpecRelationHandle>,
    head: Seq<SpecSymbol>,
)
    requires
        compile_rule_body(body, rule_name, arities, relations, head) is Ok,
    ensures
        compile_rule_body(body, rule_name, arities, relations, head)->Ok_0.rows_fit(),
{
    let unit = SpecPlan::unit(rule_name.symbol().span);
    let start = BodyState { plan: unit, seen: Set::empty(), next_id: 0 };
    assert(unit.rows_fit());
    lemma_atoms_rows_fit(start, body, arities, relations);
    let st = compile_atoms(start, body, arities, relations)->Ok_0;
    let used = name_set(head);
    let first = st.plan.eliminated(used);
    lemma_passes_keep_rows(st.plan, used);
    let joined = first.cartesian_join(SpecPlan::unit(first.span()), first.span());
    assert(SpecPlan::unit(first.span()).rows_fit());
    assert(joined.rows_fit());
    lemma_passes_keep_rows(joined, used);
}

/// In the plan of a compiled clause every relation given in place has rows
/// of the length of its bindings.
pub proof fn law_compiled_clause_rows_fit(
    rule: SpecRule,
    name: SpecMagicSymbol,
    arities: Seq<(SpecMagicSymbol, usize)>,
    relations: Seq<SpecRelationHandle>,
)
    requires
        compile_rule(rule, name, arities, relations) is Ok,
    ensures
        compile_rule(rule, name, arities, relations)->Ok_0.relation.rows_fit(),
{
    let plan = compile_rule_body(rule.body, name, arities, relations, rule.head)->Ok_0;
    lemma_body_plan_rows_fit(rule.body, name, arities, relations, rule.head);
    lemma_passes_keep_rows(plan, Set::empty());
}

impl SpecPlan {
    /// Whether the plan is the scan of a relation.
    pub open spec fn is_scan(self) -> bool {
        self is TempStore || self is Stored
    }

    /// Whether the joins of the plan are nested to the left only: the right
    /// child of every join is a scan, or the unit plan.
    pub open spec fn left_deep(self) -> bool
        decreases self,
    {
        match self {
            SpecPlan::Join { left, right, .. } => left.left_deep() && (right.is_scan() || right.is_unit()),
            SpecPlan::Reorder { relation, .. } => relation.left_deep(),
            SpecPlan::Filter { parent, .. } => parent.left_deep(),
            SpecPlan::Unification { parent, .. } => parent.left_deep(),
            _ => true,
        }
    }
}

/// Adding a filter leaves the joins of a plan nested to the left only, and
/// a scan a scan.
pub proof fn lemma_filtered_left_deep(p: SpecPlan, f: SpecExpr, d: nat)
    ensures
        p.left_deep() ==> p.filtered_within(f, d).left_deep(),
        p.is_scan() ==> p.filtered_within(f, d).is_scan(),
    decreases d, 0int, 0nat,
{
    match p {
        SpecPlan::Join { left, right, left_keys, right_keys, to_eliminate, span } => {
            if d > 0 && p.left_deep() {
                let st0 = PushState { left: *left, right: *right, remaining: Seq::empty() };
                let lb = name_set(left.bindings_before_eliminate());
                let rb = name_set(right.bindings_before_eliminate());
                if right.is_unit() {
                    assert(rb =~= Set::<Seq<char>>::empty());
                }
                lemma_pushed_left_deep(st0, f.to_conjunction(), lb, rb, (d - 1) as nat);
                let st = SpecPlan::push_clauses(st0, f.to_conjunction(), lb, rb, (d - 1) as nat);
                let joined = SpecPlan::Join {
                    left: Box::new(st.left),
                    right: Box::new(st.right),
                    left_keys,
                    right_keys,
                    to_eliminate,
                    span,
                };
                assert(joined.left_deep());
            }
        },
        _ => {},
    }
}

/// Pushing clauses into the children of a join leaves the joins of the left
/// child nested to the left only, and the right child a scan or the unit
/// plan.
pub proof fn lemma_pushed_left_deep(
    st: PushState,
    clauses: Seq<SpecExpr>,
    left_names: Set<Seq<char>>,
    right_names: Set<Seq<char>>,
    e: nat,
)
    requires
        st.left.left_deep(),
        st.right.is_scan() || st.right.is_unit(),
        st.right.is_unit() ==> right_names == Set::<Seq<char>>::empty(),
    ensures
        ({
            let r = SpecPlan::push_clauses(st, clauses, left_names, right_names, e);
            &&& r.left.left_deep()
            &&& st.right.is_scan() ==> r.right.is_scan()
            &&& st.right.is_unit() ==> r.right == st.right
        }),
    decreases e, 1int, clauses.len(),
{
    if clauses.len() > 0 {
        lemma_pushed_left_deep(st, clauses.drop_last(), left_names, right_names, e);
        let prev = SpecPlan::push_clauses(st, clauses.drop_last(), left_names, right_names, e);
        let c = clauses.last();
        if c.bindings().subset_of(left_names) {
            lemma_filtered_left_deep(prev.left, c, e);
        } else if c.bindings().subset_of(right_names) {
            lemma_filtered_left_deep(prev.right, c, e);
            if st.right.is_unit() {
                assert forall|n: Seq<char>| c.bindings().contains(n) implies left_names.contains(n) by {
                    assert(right_names.contains(n));
                }
            }
        }
    }
}

/// The pass that marks dead bindings and the resolution pass leave the
/// joins of a plan nested to the left only.
pub proof fn lemma_passes_keep_left_deep(p: SpecPlan, used: Set<Seq<char>>)
    ensures
        p.left_deep() ==> p.eliminated(used).left_deep() && p.resolved().left_deep(),
        p.is_scan() ==> p.eliminated(used).is_scan() && p.resolved().is_scan(),
        p.is_unit() ==> p.eliminated(used).is_unit() && p.resolved().is_unit(),
    decreases p,
{
    match p {
        SpecPlan::Join { left, right, right_keys, .. } => {
            lemma_passes_keep_left_deep(*left, used.union(p.left_needs()));
            lemma_passes_keep_left_deep(*right, used.union(name_set(right_keys)));
        },
        SpecPlan::Reorder { relation, .. } => {
            lemma_passes_keep_left_deep(*relation, used);
        },
        SpecPlan::Filter { parent, filters, .. } => {
            lemma_passes_keep_left_deep(*parent, used.union(SpecExpr::bindings_of_all(filters)));
        },
        SpecPlan::Unification { parent, expr, .. } => {
            lemma_passes_keep_left_deep(*parent, used.union(expr.bindings()));
        },
        _ => {},
    }
}

/// Folding atoms into a plan leaves its joins nested to the left only.
proof fn lemma_atoms_left_deep(
    st: BodyState,
    atoms: Seq<SpecAtom>,
    arities: Seq<(SpecMagicSymbol, usize)>,
    relations: Seq<SpecRelationHandle>,
)
    requires
        st.plan.left_deep(),
        compile_atoms(st, atoms, arities, relations) is Ok,
    ensures
        compile_atoms(st, atoms, arities, relations)->Ok_0.plan.left_deep(),
    decreases atoms.len(),
{
    if atoms.len() > 0 {
        lemma_atoms_left_deep(st, atoms.drop_last(), arities, relations);
        let prev = compile_atoms(st, atoms.drop_last(), arities, relations)->Ok_0;
        let next = compile_atom(prev, atoms.last(), arities, relations)->Ok_0;
        match atoms.last() {
            SpecAtom::Predicate(p) => {
                lemma_filtered_left_deep(prev.plan, p, prev.plan.join_depth());
            },
            SpecAtom::Unification(u) => {
                if prev.seen.contains(u.binding.name) {
                    lemma_filtered_left_deep(
                        prev.plan,
                        unification_test(u.binding, u.expr, u.one_many_unif, u.span),
                        prev.plan.join_depth(),
                    );
                }
            },
            SpecAtom::Rule(app) => {
                let s = scan_args(app.args, prev.seen, prev.next_id);
                assert(SpecPlan::derived(s.right_vars, app.name, app.span).is_scan());
            },
            SpecAtom::Relation(app) => {
                let s = scan_args(app.args, prev.seen, prev.next_id);
                let store = lookup_relation(relations, app.name.name)->Some_0;
                assert(SpecPlan::relation(s.right_vars, app.span, store.name).is_scan());
            },
            _ => {},
        }
        assert(next.plan.left_deep());
    }
}

/// The joins of the plan of a compiled clause are nested to the left only:
/// the order of the atoms in the body alone decides the shape of the plan.
pub proof fn law_compiled_clause_is_left_deep(
    rule: SpecRule,
    name: SpecMagicSymbol,
    arities: Seq<(SpecMagicSymbol, usize)>,
    relations: Seq<SpecRelationHandle>,
)
    requires
        compile_rule(rule, name, arities, relations) is Ok,
    ensures
        compile_rule(rule, name, arities, relations)->Ok_0.relation.left_deep(),
{
    let unit = SpecPlan::unit(name.symbol().span);
    let start = BodyState { plan: unit, seen: Set::empty(), next_id: 0 };
    assert(unit.left_deep());
    lemma_atoms_left_deep(start, rule.body, arities, relations);
    let st = compile_atoms(start, rule.body, arities, relations)->Ok_0;
    let used = name_set(rule.head);
    let first = st.plan.eliminated(used);
    lemma_passes_keep_left_deep(st.plan, used);
    let joined = first.cartesian_join(SpecPlan::unit(first.span()), first.span());
    assert(SpecPlan::unit(first.span()).is_unit());
    assert(joined.left_deep());
    lemma_passes_keep_left_deep(joined, used);
    let plan = compile_rule_body(rule.body, name, arities, relations, rule.head)->Ok_0;
    assert(plan.left_deep());
    lemma_passes_keep_left_deep(plan, used);
}

} // verus!
