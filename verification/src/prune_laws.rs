use vstd::prelude::*;
use crate::compile::lemma_eliminated_exposes_less;
use crate::expr::SpecExpr;
use crate::filter_laws::lemma_exposed_distinct;
use crate::ra::SpecPlan;
use crate::symb::{distinct_names, has_name, lemma_has_name_add, lemma_has_name_push, lemma_without, name_set, SpecSymbol};

verus! {

/// Two lists put together have no name twice exactly when neither has one
/// twice and they have no name in common.
pub proof fn lemma_distinct_add(a: Seq<SpecSymbol>, b: Seq<SpecSymbol>)
    ensures
        distinct_names(a + b) <==> distinct_names(a) && distinct_names(b) && forall|n: Seq<char>|
            !(has_name(a, n) && has_name(b, n)),
{
    let s = a + b;
    if distinct_names(s) {
        assert forall|i: int, j: int| 0 <= i < a.len() && 0 <= j < a.len() && i != j implies #[trigger] a[i].name
            != #[trigger] a[j].name by {
            assert(s[i].name != s[j].name);
        }
        assert forall|i: int, j: int| 0 <= i < b.len() && 0 <= j < b.len() && i != j implies #[trigger] b[i].name
            != #[trigger] b[j].name by {
            assert(s[a.len() + i].name != s[a.len() + j].name);
        }
        assert forall|n: Seq<char>| !(has_name(a, n) && has_name(b, n)) by {
            if has_name(a, n) && has_name(b, n) {
                let i = choose|i: int| 0 <= i < a.len() && #[trigger] a[i].name == n;
                let j = choose|j: int| 0 <= j < b.len() && #[trigger] b[j].name == n;
                assert(s[i].name != s[a.len() + j].name);
            }
        }
    }
    if distinct_names(a) && distinct_names(b) && forall|n: Seq<char>| !(has_name(a, n) && has_name(b, n)) {
        assert forall|i: int, j: int| 0 <= i < s.len() && 0 <= j < s.len() && i != j implies #[trigger] s[i].name
            != #[trigger] s[j].name by {
            if i < a.len() && j < a.len() {
                assert(a[i].name != a[j].name);
            } else if i >= a.len() && j >= a.len() {
                assert(b[i - a.len()].name != b[j - a.len()].name);
            } else if i < a.len() {
                assert(a[i].name == s[i].name);
                assert(b[j - a.len()].name == s[j].name);
                assert(has_name(a, s[i].name));
                assert(has_name(b, s[j].name));
            } else {
                assert(a[j].name == s[j].name);
                assert(b[i - a.len()].name == s[i].name);
                assert(has_name(a, s[j].name));
                assert(has_name(b, s[i].name));
            }
        }
    }
}

/// A list with one more symbol has no name twice exactly when the list has
/// none twice and does not have the name of that symbol.
pub proof fn lemma_distinct_push(a: Seq<SpecSymbol>, x: SpecSymbol)
    ensures
        distinct_names(a.push(x)) <==> distinct_names(a) && !has_name(a, x.name),
{
    assert(a.push(x) =~= a + seq![x]);
    lemma_distinct_add(a, seq![x]);
    assert(has_name(seq![x], x.name)) by {
        assert(seq![x][0].name == x.name);
    }
    assert forall|n: Seq<char>| has_name(seq![x], n) implies n == x.name by {
        let i = choose|i: int| 0 <= i < seq![x].len() && #[trigger] seq![x][i].name == n;
    }
}

/// The pass that marks dead bindings takes no name away that was asked
/// for.
pub proof fn lemma_eliminated_keeps_used(plan: SpecPlan, used: Set<Seq<char>>)
    ensures
        forall|n: Seq<char>|
            used.contains(n) && has_name(plan.bindings_after_eliminate(), n) ==> has_name(
                plan.eliminated(used).bindings_after_eliminate(),
                n,
            ),
    decreases plan,
{
    let after = plan.eliminated(used);
    let b0 = plan.bindings_before_eliminate();
    let b1 = after.bindings_before_eliminate();
    match plan {
        SpecPlan::Fixed { .. } => {
            assert(b1 == b0);
        },
        SpecPlan::TempStore { .. } => {},
        SpecPlan::Stored { .. } => {},
        SpecPlan::Join { left, right, right_keys, .. } => {
            let lu = used.union(plan.left_needs());
            let ru = used.union(name_set(right_keys));
            lemma_eliminated_keeps_used(*left, lu);
            lemma_eliminated_keeps_used(*right, ru);
            let l = left.eliminated(lu).bindings_after_eliminate();
            let r = right.eliminated(ru).bindings_after_eliminate();
            let l0 = left.bindings_after_eliminate();
            let r0 = right.bindings_after_eliminate();
            assert(b1 == l + r);
            assert(b0 == l0 + r0);
            lemma_has_name_add(l, r);
            lemma_has_name_add(l0, r0);
            assert forall|n: Seq<char>| used.contains(n) && has_name(b0, n) implies has_name(b1, n) by {
                if has_name(l0, n) {
                    assert(lu.contains(n));
                    assert(has_name(l, n));
                } else {
                    assert(has_name(r0, n));
                    assert(ru.contains(n));
                    assert(has_name(r, n));
                }
            }
        },
        SpecPlan::Reorder { .. } => {},
        SpecPlan::Filter { parent, filters, .. } => {
            let pu = used.union(SpecExpr::bindings_of_all(filters));
            lemma_eliminated_keeps_used(*parent, pu);
            assert(b1 == parent.eliminated(pu).bindings_after_eliminate());
            assert(b0 == parent.bindings_after_eliminate());
            assert forall|n: Seq<char>| used.contains(n) && has_name(b0, n) implies has_name(b1, n) by {
                assert(pu.contains(n));
            }
        },
        SpecPlan::Unification { parent, binding, expr, .. } => {
            let pu = used.union(expr.bindings());
            lemma_eliminated_keeps_used(*parent, pu);
            let p = parent.eliminated(pu).bindings_after_eliminate();
            let p0 = parent.bindings_after_eliminate();
            assert(b1 == p.push(binding));
            assert(b0 == p0.push(binding));
            lemma_has_name_push(p, binding);
            lemma_has_name_push(p0, binding);
            assert forall|n: Seq<char>| used.contains(n) && has_name(b0, n) implies has_name(b1, n) by {
                if has_name(p0, n) {
                    assert(pu.contains(n));
                    assert(has_name(p, n));
                }
            }
        },
    }
    match plan.eliminate_set() {
        Some(d0) => {
            let d1 = after.eliminate_set().unwrap();
            lemma_without(b1, d1);
            lemma_without(b0, d0);
            assert forall|n: Seq<char>|
                used.contains(n) && has_name(plan.bindings_after_eliminate(), n) implies has_name(
                after.bindings_after_eliminate(),
                n,
            ) by {
                assert(has_name(b0, n) && !d0.contains(n));
                assert(has_name(b1, n));
                assert(!d1.contains(n));
            }
        },
        None => {},
    }
}

/// The pass that marks dead bindings leaves a plan as well bound as it
/// was, and its keys as well formed.
pub proof fn lemma_eliminated_sound(plan: SpecPlan, used: Set<Seq<char>>)
    ensures
        plan.well_bound() ==> plan.eliminated(used).well_bound(),
        plan.keys_well_formed() ==> plan.eliminated(used).keys_well_formed(),
    decreases plan,
{
    let after = plan.eliminated(used);
    match plan {
        SpecPlan::Fixed { .. } => {
            assert(after.bindings_before_eliminate() == plan.bindings_before_eliminate());
        },
        SpecPlan::TempStore { .. } => {},
        SpecPlan::Stored { .. } => {},
        SpecPlan::Join { left, right, left_keys, right_keys, .. } => {
            let lu = used.union(plan.left_needs());
            let ru = used.union(name_set(right_keys));
            let l1 = left.eliminated(lu);
            let r1 = right.eliminated(ru);
            lemma_eliminated_sound(*left, lu);
            lemma_eliminated_sound(*right, ru);
            lemma_eliminated_exposes_less(*left, lu);
            lemma_eliminated_exposes_less(*right, ru);
            lemma_eliminated_keeps_used(*left, lu);
            lemma_eliminated_keeps_used(*right, ru);
            let l = l1.bindings_after_eliminate();
            let r = r1.bindings_after_eliminate();
            let l0 = left.bindings_after_eliminate();
            let r0 = right.bindings_after_eliminate();
            assert(after.bindings_before_eliminate() == l + r);
            assert(plan.bindings_before_eliminate() == l0 + r0);
            if plan.well_bound() {
                lemma_distinct_add(l0, r0);
                lemma_distinct_add(l, r);
                lemma_exposed_distinct(l1);
                lemma_exposed_distinct(r1);
                assert forall|n: Seq<char>| !(has_name(l, n) && has_name(r, n)) by {
                    if has_name(l, n) && has_name(r, n) {
                        assert(has_name(l0, n));
                        assert(has_name(r0, n));
                    }
                }
                assert(after.well_bound());
            }
            if plan.keys_well_formed() {
                assert forall|i: int| 0 <= i < left_keys.len() implies has_name(l, (#[trigger] left_keys[i]).name) by {
                    assert(has_name(l0, left_keys[i].name));
                    assert(name_set(left_keys).contains(left_keys[i].name));
                    assert(lu.contains(left_keys[i].name));
                }
                assert forall|i: int| 0 <= i < right_keys.len() implies has_name(
                    r,
                    (#[trigger] right_keys[i]).name,
                ) by {
                    assert(has_name(r0, right_keys[i].name));
                    assert(name_set(right_keys).contains(right_keys[i].name));
                    assert(ru.contains(right_keys[i].name));
                }
                assert(after.keys_well_formed());
            }
        },
        SpecPlan::Reorder { relation, .. } => {
            lemma_eliminated_sound(*relation, used);
            assert(after.bindings_before_eliminate() == plan.bindings_before_eliminate());
        },
        SpecPlan::Filter { parent, filters, .. } => {
            let pu = used.union(SpecExpr::bindings_of_all(filters));
            lemma_eliminated_sound(*parent, pu);
            lemma_exposed_distinct(parent.eliminated(pu));
            assert(after.bindings_before_eliminate() == parent.eliminated(pu).bindings_after_eliminate());
        },
        SpecPlan::Unification { parent, binding, expr, .. } => {
            let pu = used.union(expr.bindings());
            let below = parent.eliminated(pu);
            lemma_eliminated_sound(*parent, pu);
            lemma_eliminated_exposes_less(*parent, pu);
            lemma_exposed_distinct(below);
            let p = below.bindings_after_eliminate();
            let p0 = parent.bindings_after_eliminate();
            assert(after.bindings_before_eliminate() == p.push(binding));
            assert(plan.bindings_before_eliminate() == p0.push(binding));
            if plan.well_bound() {
                lemma_distinct_push(p0, binding);
                lemma_distinct_push(p, binding);
                if has_name(p, binding.name) {
                    assert(has_name(p0, binding.name));
                }
                assert(after.well_bound());
            }
        },
    }
}

} // verus!
