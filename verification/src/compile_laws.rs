use vstd::prelude::*;
use crate::compile::{
    compile_atom, compile_atoms, compile_rule_body, finish_plan, first_missing, lemma_compile_atoms_fails,
    lemma_eliminated_exposes_less, lemma_first_missing_none, lemma_join_keeps_only_used, pruned_for_head, scan_args,
    BodyState,
};
use crate::error::SpecCompileError;
use crate::filter_laws::{lemma_exposed_distinct, lemma_filtered, lemma_without_nothing};
use crate::join_kind::keys_are_bound;
use crate::magic::{is_synthetic_name, lemma_synthetic_injective, synthetic_name, SpecMagicSymbol};
use crate::program::{SpecAtom, SpecRule};
use crate::prune_laws::{lemma_distinct_add, lemma_distinct_push, lemma_eliminated_keeps_used, lemma_eliminated_sound};
use crate::ra::{lemma_resolved_bindings, SpecPlan};
use crate::strata::compile_rule;
use crate::registry::{arity_lookup, lookup_relation, SpecRelationHandle};
use crate::symb::{
    distinct_names, has_name, lemma_has_name_add, lemma_has_name_push, name_set, names_of, SpecSymbol,
};
use crate::symbol_set::lemma_name_set_push;

verus! {

/// The variables that an atom binds or matches: the arguments of an
/// application, the variable of a unification.
pub open spec fn atom_vars(atom: SpecAtom) -> Seq<SpecSymbol> {
    match atom {
        SpecAtom::Rule(app) => app.args,
        SpecAtom::Relation(app) => app.args,
        SpecAtom::Unification(u) => seq![u.binding],
        _ => Seq::empty(),
    }
}

/// The names of the variables of the atoms.
pub open spec fn seen_after(body: Seq<SpecAtom>) -> Set<Seq<char>>
    decreases body.len(),
{
    if body.len() == 0 {
        Set::empty()
    } else {
        seen_after(body.drop_last()).union(name_set(atom_vars(body.last())))
    }
}

/// Whether no variable of the body has a name of the form that the
/// compiler makes up.
pub open spec fn body_vars_plain(body: Seq<SpecAtom>) -> bool {
    forall|i: int, j: int|
        0 <= i < body.len() && 0 <= j < atom_vars(body[i]).len() ==> !is_synthetic_name(
            (#[trigger] atom_vars(body[i])[j]).name,
        )
}

/// Whether a variable that occurs twice among the arguments is one of
/// `seen`.
pub open spec fn repeats_are_seen(args: Seq<SpecSymbol>, seen: Set<Seq<char>>) -> bool {
    forall|i: int, j: int|
        0 <= i < j < args.len() && (#[trigger] args[i]).name == (#[trigger] args[j]).name ==> seen.contains(
            args[i].name,
        )
}

/// Whether every application of the body repeats among its arguments only
/// variables that an atom before it has.
pub open spec fn body_repeats_bound(body: Seq<SpecAtom>) -> bool {
    forall|k: int|
        0 <= k < body.len() && ((#[trigger] body[k]) is Rule || body[k] is Relation) ==> repeats_are_seen(
            atom_vars(body[k]),
            seen_after(body.take(k)),
        )
}

/// What a pass over the arguments of an application yields.
pub proof fn lemma_scan_args(args: Seq<SpecSymbol>, seen: Set<Seq<char>>, id: nat)
    ensures
        ({
            let s = scan_args(args, seen, id);
            &&& s.seen == seen.union(name_set(args))
            &&& s.prev_joiner_vars.len() == s.right_joiner_vars.len()
            &&& id <= s.next_id
            &&& keys_are_bound(s.right_joiner_vars, s.right_vars)
            &&& forall|n: Seq<char>| #[trigger]
                has_name(s.right_vars, n) ==> (has_name(args, n) && !seen.contains(n)) || exists|k: nat|
                    id <= k < s.next_id && n == #[trigger] synthetic_name(k)
            &&& forall|n: Seq<char>| has_name(args, n) && !seen.contains(n) ==> #[trigger] has_name(s.right_vars, n)
            &&& repeats_are_seen(args, seen) ==> forall|i: int|
                0 <= i < s.prev_joiner_vars.len() ==> seen.contains((#[trigger] s.prev_joiner_vars[i]).name)
            &&& (forall|i: int| 0 <= i < args.len() ==> !is_synthetic_name((#[trigger] args[i]).name))
                ==> distinct_names(s.right_vars)
        }),
    decreases args.len(),
{
    let s = scan_args(args, seen, id);
    if args.len() == 0 {
        assert(seen.union(name_set(args)) =~= seen);
    } else {
        let rest = args.drop_last();
        let prev = scan_args(rest, seen, id);
        let var = args.last();
        lemma_scan_args(rest, seen, id);
        assert(args =~= rest.push(var));
        lemma_name_set_push(rest, var);
        lemma_has_name_push(rest, var);
        lemma_has_name_push(prev.right_vars, var);
        let rk = SpecSymbol { name: synthetic_name(prev.next_id), span: var.span };
        lemma_has_name_push(prev.right_vars, rk);
        lemma_distinct_push(prev.right_vars, var);
        lemma_distinct_push(prev.right_vars, rk);
        assert(s.seen =~= seen.union(name_set(args)));
        if prev.seen.contains(var.name) {
            assert(s.right_vars == prev.right_vars.push(rk));
            assert forall|i: int| 0 <= i < s.right_joiner_vars.len() implies has_name(
                s.right_vars,
                (#[trigger] s.right_joiner_vars[i]).name,
            ) by {
                if i < prev.right_joiner_vars.len() {
                    assert(s.right_joiner_vars[i] == prev.right_joiner_vars[i]);
                    assert(has_name(prev.right_vars, prev.right_joiner_vars[i].name));
                }
            }
            assert forall|n: Seq<char>| #[trigger] has_name(s.right_vars, n) implies (has_name(args, n)
                && !seen.contains(n)) || exists|k: nat| id <= k < s.next_id && n == #[trigger] synthetic_name(k) by {
                if has_name(prev.right_vars, n) {
                    if !(has_name(rest, n) && !seen.contains(n)) {
                        let k = choose|k: nat| id <= k < prev.next_id && n == #[trigger] synthetic_name(k);
                        assert(id <= k < s.next_id && n == synthetic_name(k));
                    }
                } else {
                    assert(n == synthetic_name(prev.next_id));
                }
            }
            if repeats_are_seen(args, seen) {
                assert(repeats_are_seen(rest, seen)) by {
                    assert forall|i: int, j: int|
                        0 <= i < j < rest.len() && (#[trigger] rest[i]).name == (#[trigger] rest[j]).name implies seen.contains(
                        rest[i].name,
                    ) by {
                        assert(args[i].name == args[j].name);
                    }
                }
                assert forall|i: int| 0 <= i < s.prev_joiner_vars.len() implies seen.contains(
                    (#[trigger] s.prev_joiner_vars[i]).name,
                ) by {
                    if i < prev.prev_joiner_vars.len() {
                        assert(s.prev_joiner_vars[i] == prev.prev_joiner_vars[i]);
                    } else {
                        if !seen.contains(var.name) {
                            assert(name_set(rest).contains(var.name));
                            let m = choose|m: int| 0 <= m < rest.len() && #[trigger] rest[m].name == var.name;
                            assert(args[m].name == args[args.len() - 1].name);
                        }
                    }
                }
            }
            if forall|i: int| 0 <= i < args.len() ==> !is_synthetic_name((#[trigger] args[i]).name) {
                assert forall|i: int| 0 <= i < rest.len() implies !is_synthetic_name((#[trigger] rest[i]).name) by {
                    assert(rest[i] == args[i]);
                }
                if has_name(prev.right_vars, rk.name) {
                    if has_name(rest, rk.name) && !seen.contains(rk.name) {
                        let m = choose|m: int| 0 <= m < rest.len() && #[trigger] rest[m].name == rk.name;
                        assert(is_synthetic_name(rest[m].name));
                    } else {
                        let k = choose|k: nat| id <= k < prev.next_id && rk.name == #[trigger] synthetic_name(k);
                        lemma_synthetic_injective(k, prev.next_id);
                    }
                }
            }
        } else {
            assert(s.right_vars == prev.right_vars.push(var));
            assert forall|i: int| 0 <= i < s.right_joiner_vars.len() implies has_name(
                s.right_vars,
                (#[trigger] s.right_joiner_vars[i]).name,
            ) by {
                assert(has_name(prev.right_vars, prev.right_joiner_vars[i].name));
            }
            assert forall|n: Seq<char>| #[trigger] has_name(s.right_vars, n) implies (has_name(args, n)
                && !seen.contains(n)) || exists|k: nat| id <= k < s.next_id && n == #[trigger] synthetic_name(k) by {
                if has_name(prev.right_vars, n) {
                    if !(has_name(rest, n) && !seen.contains(n)) {
                        let k = choose|k: nat| id <= k < prev.next_id && n == #[trigger] synthetic_name(k);
                        assert(id <= k < s.next_id && n == synthetic_name(k));
                    }
                } else {
                    assert(n == var.name);
                    assert(!prev.seen.contains(var.name));
                }
            }
            assert forall|n: Seq<char>| has_name(args, n) && !seen.contains(n) implies #[trigger] has_name(
                s.right_vars,
                n,
            ) by {
                if has_name(rest, n) {
                    assert(has_name(prev.right_vars, n));
                }
            }
            if repeats_are_seen(args, seen) {
                assert(repeats_are_seen(rest, seen)) by {
                    assert forall|i: int, j: int|
                        0 <= i < j < rest.len() && (#[trigger] rest[i]).name == (#[trigger] rest[j]).name implies seen.contains(
                        rest[i].name,
                    ) by {
                        assert(args[i].name == args[j].name);
                    }
                }
            }
            if forall|i: int| 0 <= i < args.len() ==> !is_synthetic_name((#[trigger] args[i]).name) {
                assert forall|i: int| 0 <= i < rest.len() implies !is_synthetic_name((#[trigger] rest[i]).name) by {
                    assert(rest[i] == args[i]);
                }
                assert(!is_synthetic_name(args[args.len() - 1].name));
                if has_name(prev.right_vars, var.name) {
                    if has_name(rest, var.name) && !seen.contains(var.name) {
                        assert(name_set(rest).contains(var.name));
                    } else {
                        let k = choose|k: nat| id <= k < prev.next_id && var.name == #[trigger] synthetic_name(k);
                        assert(is_synthetic_name(var.name));
                    }
                }
            }
        }
    }
}

/// What holds of the plan of a body while its atoms are folded in: every
/// join has well-formed keys, and every name seen is exposed.
pub open spec fn keys_invariant(st: BodyState) -> bool {
    &&& st.plan.keys_well_formed()
    &&& forall|n: Seq<char>| st.seen.contains(n) ==> has_name(st.plan.bindings_after_eliminate(), n)
}

/// What holds of the plan of a body while its atoms are folded in: it is
/// well bound, and every name it exposes is one that was seen or one that
/// was made up.
pub open spec fn bindings_invariant(st: BodyState) -> bool {
    &&& st.plan.well_bound()
    &&& forall|n: Seq<char>| #[trigger]
        has_name(st.plan.bindings_after_eliminate(), n) ==> st.seen.contains(n) || exists|k: nat|
            k < st.next_id && n == #[trigger] synthetic_name(k)
}

/// What one pass over the arguments of an application does to the state of
/// the fold.
proof fn lemma_join_step(st: BodyState, scan: SpecPlan, args: Seq<SpecSymbol>, span: crate::symb::SourceSpan)
    requires
        ({
            let s = scan_args(args, st.seen, st.next_id);
            &&& scan.bindings_after_eliminate() == s.right_vars
            &&& scan.bindings_before_eliminate() == s.right_vars
            &&& scan.keys_well_formed()
            &&& !(scan is Join) && !(scan is Reorder) && !(scan is Filter) && !(scan is Unification)
        }),
    ensures
        ({
            let s = scan_args(args, st.seen, st.next_id);
            let next = BodyState {
                plan: st.plan.join(scan, s.prev_joiner_vars, s.right_joiner_vars, span),
                seen: s.seen,
                next_id: s.next_id,
            };
            &&& keys_invariant(st) && repeats_are_seen(args, st.seen) ==> keys_invariant(next)
            &&& bindings_invariant(st) && (forall|i: int| 0 <= i < args.len() ==> !is_synthetic_name((#[trigger] args[i]).name))
                && (forall|n: Seq<char>| st.seen.contains(n) ==> !is_synthetic_name(n)) ==> bindings_invariant(next)
        }),
{
    let s = scan_args(args, st.seen, st.next_id);
    let joined = st.plan.join(scan, s.prev_joiner_vars, s.right_joiner_vars, span);
    let next = BodyState { plan: joined, seen: s.seen, next_id: s.next_id };
    let l = st.plan.bindings_after_eliminate();
    let r = s.right_vars;
    lemma_scan_args(args, st.seen, st.next_id);
    lemma_without_nothing(l + r);
    lemma_has_name_add(l, r);
    assert(joined.bindings_before_eliminate() == l + r);
    assert(joined.bindings_after_eliminate() == l + r);
    if keys_invariant(st) && repeats_are_seen(args, st.seen) {
        assert forall|i: int| 0 <= i < s.prev_joiner_vars.len() implies has_name(
            l,
            (#[trigger] s.prev_joiner_vars[i]).name,
        ) by {
            assert(st.seen.contains(s.prev_joiner_vars[i].name));
        }
        assert(joined.keys_well_formed());
        assert forall|n: Seq<char>| s.seen.contains(n) implies has_name(joined.bindings_after_eliminate(), n) by {
            if st.seen.contains(n) {
                assert(has_name(l, n));
            } else {
                assert(name_set(args).contains(n));
                assert(has_name(r, n));
            }
            assert(has_name(l + r, n));
        }
    }
    if bindings_invariant(st) && (forall|i: int| 0 <= i < args.len() ==> !is_synthetic_name((#[trigger] args[i]).name))
        && (forall|n: Seq<char>| st.seen.contains(n) ==> !is_synthetic_name(n)) {
        lemma_exposed_distinct(st.plan);
        lemma_distinct_add(l, r);
        assert forall|n: Seq<char>| !(has_name(l, n) && has_name(r, n)) by {
            if has_name(l, n) && has_name(r, n) {
                if has_name(args, n) && !st.seen.contains(n) {
                    let m = choose|m: int| 0 <= m < args.len() && #[trigger] args[m].name == n;
                    let k = choose|k: nat| k < st.next_id && n == #[trigger] synthetic_name(k);
                    assert(is_synthetic_name(args[m].name));
                } else {
                    let k2 = choose|k: nat| st.next_id <= k < s.next_id && n == #[trigger] synthetic_name(k);
                    if st.seen.contains(n) {
                        assert(is_synthetic_name(n));
                    } else {
                        let k1 = choose|k: nat| k < st.next_id && n == #[trigger] synthetic_name(k);
                        lemma_synthetic_injective(k1, k2);
                    }
                }
            }
        }
        assert(distinct_names(scan.bindings_before_eliminate()));
        assert(scan.well_bound());
        assert(joined.well_bound());
        assert forall|n: Seq<char>| #[trigger] has_name(joined.bindings_after_eliminate(), n) implies s.seen.contains(
            n,
        ) || exists|k: nat| k < s.next_id && n == #[trigger] synthetic_name(k) by {
            if has_name(l, n) {
                if !st.seen.contains(n) {
                    let k = choose|k: nat| k < st.next_id && n == #[trigger] synthetic_name(k);
                    assert(k < s.next_id && n == synthetic_name(k));
                }
            } else {
                assert(has_name(r, n));
                if has_name(args, n) && !st.seen.contains(n) {
                    assert(name_set(args).contains(n));
                } else {
                    let k = choose|k: nat| st.next_id <= k < s.next_id && n == #[trigger] synthetic_name(k);
                    assert(k < s.next_id && n == synthetic_name(k));
                }
            }
        }
    }
}

/// What folding one atom in does to the state of the fold.
proof fn lemma_compile_atom(
    st: BodyState,
    atom: SpecAtom,
    arities: Seq<(SpecMagicSymbol, usize)>,
    relations: Seq<SpecRelationHandle>,
)
    requires
        compile_atom(st, atom, arities, relations) is Ok,
    ensures
        ({
            let next = compile_atom(st, atom, arities, relations)->Ok_0;
            &&& next.seen == st.seen.union(name_set(atom_vars(atom)))
            &&& keys_invariant(st) && repeats_are_seen(atom_vars(atom), st.seen) ==> keys_invariant(next)
            &&& bindings_invariant(st) && (forall|i: int|
                0 <= i < atom_vars(atom).len() ==> !is_synthetic_name((#[trigger] atom_vars(atom)[i]).name)) && (
            forall|n: Seq<char>| st.seen.contains(n) ==> !is_synthetic_name(n)) ==> bindings_invariant(next)
        }),
{
    let next = compile_atom(st, atom, arities, relations)->Ok_0;
    match atom {
        SpecAtom::Rule(app) => {
            let s = scan_args(app.args, st.seen, st.next_id);
            let scan = SpecPlan::derived(s.right_vars, app.name, app.span);
            lemma_scan_args(app.args, st.seen, st.next_id);
            lemma_join_step(st, scan, app.args, app.span);
            assert(atom_vars(atom) == app.args);
            if forall|i: int| 0 <= i < atom_vars(atom).len() ==> !is_synthetic_name((#[trigger] atom_vars(atom)[i]).name) {
                assert forall|i: int| 0 <= i < app.args.len() implies !is_synthetic_name((#[trigger] app.args[i]).name) by {
                    assert(!is_synthetic_name(atom_vars(atom)[i].name));
                }
            }
        },
        SpecAtom::Relation(app) => {
            let s = scan_args(app.args, st.seen, st.next_id);
            let store = lookup_relation(relations, app.name.name).unwrap();
            let scan = SpecPlan::relation(s.right_vars, app.span, store.name);
            lemma_scan_args(app.args, st.seen, st.next_id);
            lemma_join_step(st, scan, app.args, app.span);
            assert(atom_vars(atom) == app.args);
            if forall|i: int| 0 <= i < atom_vars(atom).len() ==> !is_synthetic_name((#[trigger] atom_vars(atom)[i]).name) {
                assert forall|i: int| 0 <= i < app.args.len() implies !is_synthetic_name((#[trigger] app.args[i]).name) by {
                    assert(!is_synthetic_name(atom_vars(atom)[i].name));
                }
            }
        },
        SpecAtom::Predicate(p) => {
            lemma_filtered(st.plan, p);
            assert(name_set(atom_vars(atom)) =~= Set::<Seq<char>>::empty());
            assert(next.seen =~= st.seen.union(name_set(atom_vars(atom))));
        },
        SpecAtom::Unification(u) => {
            assert(seq![u.binding][0].name == u.binding.name);
            assert(name_set(seq![u.binding]) =~= set![u.binding.name]) by {
                assert forall|n: Seq<char>| name_set(seq![u.binding]).contains(n) <==> n == u.binding.name by {
                    if name_set(seq![u.binding]).contains(n) {
                        let i = choose|i: int| 0 <= i < seq![u.binding].len() && #[trigger] seq![u.binding][i].name == n;
                    }
                }
            }
            if st.seen.contains(u.binding.name) {
                lemma_filtered(st.plan, crate::compile::unification_test(u.binding, u.expr, u.one_many_unif, u.span));
                assert(next.seen =~= st.seen.union(name_set(atom_vars(atom))));
            } else {
                let p = st.plan.bindings_after_eliminate();
                lemma_without_nothing(p.push(u.binding));
                lemma_has_name_push(p, u.binding);
                lemma_distinct_push(p, u.binding);
                lemma_exposed_distinct(st.plan);
                assert(next.plan.bindings_before_eliminate() == p.push(u.binding));
                assert(next.plan.bindings_after_eliminate() == p.push(u.binding));
                assert(next.seen =~= st.seen.union(name_set(atom_vars(atom))));
                if keys_invariant(st) {
                    assert(next.plan.keys_well_formed());
                }
                if bindings_invariant(st) && (forall|i: int|
                    0 <= i < atom_vars(atom).len() ==> !is_synthetic_name((#[trigger] atom_vars(atom)[i]).name)) {
                    assert(!is_synthetic_name(atom_vars(atom)[0].name));
                    if has_name(p, u.binding.name) {
                        let k = choose|k: nat| k < st.next_id && u.binding.name == #[trigger] synthetic_name(k);
                        assert(is_synthetic_name(u.binding.name));
                    }
                    assert(next.plan.well_bound());
                    assert forall|n: Seq<char>| #[trigger]
                        has_name(next.plan.bindings_after_eliminate(), n) implies next.seen.contains(n) || exists|
                        k: nat,
                    | k < next.next_id && n == #[trigger] synthetic_name(k) by {
                        if has_name(p, n) {
                            if !st.seen.contains(n) {
                                let k = choose|k: nat| k < st.next_id && n == #[trigger] synthetic_name(k);
                                assert(k < next.next_id && n == synthetic_name(k));
                            }
                        }
                    }
                }
            }
        },
        SpecAtom::NegatedRule(_) => {
            assert(name_set(atom_vars(atom)) =~= Set::<Seq<char>>::empty());
            assert(next.seen =~= st.seen.union(name_set(atom_vars(atom))));
        },
        SpecAtom::NegatedRelation(_) => {
            assert(name_set(atom_vars(atom)) =~= Set::<Seq<char>>::empty());
            assert(next.seen =~= st.seen.union(name_set(atom_vars(atom))));
        },
    }
}

/// What holds of the state after the atoms of a body were folded in.
proof fn lemma_compile_atoms(
    body: Seq<SpecAtom>,
    start: BodyState,
    arities: Seq<(SpecMagicSymbol, usize)>,
    relations: Seq<SpecRelationHandle>,
)
    requires
        compile_atoms(start, body, arities, relations) is Ok,
        start.seen == Set::<Seq<char>>::empty(),
        keys_invariant(start),
        bindings_invariant(start),
    ensures
        ({
            let st = compile_atoms(start, body, arities, relations)->Ok_0;
            &&& st.seen == seen_after(body)
            &&& body_repeats_bound(body) ==> keys_invariant(st)
            &&& body_vars_plain(body) ==> bindings_invariant(st)
            &&& body_vars_plain(body) ==> forall|n: Seq<char>| st.seen.contains(n) ==> !is_synthetic_name(n)
        }),
    decreases body.len(),
{
    if body.len() > 0 {
        let rest = body.drop_last();
        lemma_compile_atoms(rest, start, arities, relations);
        let prev = compile_atoms(start, rest, arities, relations)->Ok_0;
        lemma_compile_atom(prev, body.last(), arities, relations);
        let st = compile_atoms(start, body, arities, relations)->Ok_0;
        let k = body.len() - 1;
        assert(body.take(k) =~= rest);
        assert(body[k] == body.last());
        if body_repeats_bound(body) {
            assert(body_repeats_bound(rest)) by {
                assert forall|m: int|
                    0 <= m < rest.len() && ((#[trigger] rest[m]) is Rule || rest[m] is Relation) implies repeats_are_seen(
                    atom_vars(rest[m]),
                    seen_after(rest.take(m)),
                ) by {
                    assert(rest[m] == body[m]);
                    assert(rest.take(m) =~= body.take(m));
                }
            }
            if body[k] is Rule || body[k] is Relation {
                assert(repeats_are_seen(atom_vars(body[k]), seen_after(body.take(k))));
            } else {
                assert(repeats_are_seen(atom_vars(body[k]), prev.seen)) by {
                    assert(atom_vars(body[k]).len() <= 1);
                }
            }
        }
        if body_vars_plain(body) {
            assert(body_vars_plain(rest)) by {
                assert forall|i: int, j: int|
                    0 <= i < rest.len() && 0 <= j < atom_vars(rest[i]).len() implies !is_synthetic_name(
                    (#[trigger] atom_vars(rest[i])[j]).name,
                ) by {
                    assert(rest[i] == body[i]);
                    assert(!is_synthetic_name(atom_vars(body[i])[j].name));
                }
            }
            assert forall|j: int| 0 <= j < atom_vars(body.last()).len() implies !is_synthetic_name(
                (#[trigger] atom_vars(body.last())[j]).name,
            ) by {
                assert(!is_synthetic_name(atom_vars(body[k])[j].name));
            }
            assert forall|n: Seq<char>| st.seen.contains(n) implies !is_synthetic_name(n) by {
                if !prev.seen.contains(n) {
                    let vars = atom_vars(body.last());
                    assert(name_set(vars).contains(n));
                    let j = choose|j: int| 0 <= j < vars.len() && #[trigger] vars[j].name == n;
                    assert(!is_synthetic_name(atom_vars(body[k])[j].name));
                }
            }
        }
    }
}

/// Fitting a plan to the head leaves it as sound as it was.
proof fn lemma_finish_plan(plan: SpecPlan, head: Seq<SpecSymbol>)
    requires
        finish_plan(plan, head) is Ok,
    ensures
        ({
            let done = finish_plan(plan, head)->Ok_0;
            &&& names_of(done.bindings_after_eliminate()) == names_of(head)
            &&& plan.keys_well_formed() ==> done.keys_well_formed()
            &&& plan.well_bound() && distinct_names(head) ==> done.well_bound()
        }),
{
    let used = name_set(head);
    let first = plan.eliminated(used);
    lemma_eliminated_sound(plan, used);
    let pruned = pruned_for_head(plan, head);
    if name_set(first.bindings_after_eliminate()) != used {
        let unit = SpecPlan::unit(first.span());
        let joined = first.cartesian_join(unit, first.span());
        lemma_eliminated_sound(joined, used);
        lemma_exposed_distinct(first);
        assert(unit.bindings_before_eliminate() =~= Seq::<SpecSymbol>::empty());
        assert(unit.bindings_after_eliminate() =~= Seq::<SpecSymbol>::empty());
        assert(joined.bindings_before_eliminate() =~= first.bindings_after_eliminate());
        if plan.keys_well_formed() {
            assert(first.keys_well_formed());
            assert(unit.keys_well_formed());
            assert(joined->Join_left_keys.len() == 0);
            assert(joined->Join_right_keys.len() == 0);
            assert(joined.keys_well_formed());
        }
        if plan.well_bound() {
            assert(distinct_names(unit.bindings_before_eliminate()));
            assert(unit.well_bound());
            assert(joined.well_bound());
        }
    }
    let done = finish_plan(plan, head)->Ok_0;
    if names_of(head) != names_of(pruned.bindings_after_eliminate()) {
        assert(done == pruned.reorder(head));
        assert(done.bindings_after_eliminate() == head);
        assert(done.bindings_before_eliminate() == head);
    }
}

/// The plan of a rule body exposes, in order, the variables of the head.
pub proof fn law_head_coverage(
    body: Seq<SpecAtom>,
    rule_name: SpecMagicSymbol,
    arities: Seq<(SpecMagicSymbol, usize)>,
    relations: Seq<SpecRelationHandle>,
    head: Seq<SpecSymbol>,
)
    requires
        compile_rule_body(body, rule_name, arities, relations, head) is Ok,
    ensures
        names_of(compile_rule_body(body, rule_name, arities, relations, head)->Ok_0.bindings_after_eliminate())
            == names_of(head),
{
    let start = BodyState { plan: SpecPlan::unit(rule_name.symbol().span), seen: Set::empty(), next_id: 0 };
    let st = compile_atoms(start, body, arities, relations)->Ok_0;
    lemma_finish_plan(st.plan, head);
}

/// Where a rule body compiles, every application in it has as many
/// arguments as the relation it applies has columns: as the arity on
/// record says for a derived relation, and as the catalog says for a stored
/// one.
pub proof fn law_arity_agreement(
    body: Seq<SpecAtom>,
    rule_name: SpecMagicSymbol,
    arities: Seq<(SpecMagicSymbol, usize)>,
    relations: Seq<SpecRelationHandle>,
    head: Seq<SpecSymbol>,
    i: int,
)
    requires
        compile_rule_body(body, rule_name, arities, relations, head) is Ok,
        0 <= i < body.len(),
    ensures
        body[i] matches SpecAtom::Rule(app) ==> arity_lookup(arities, app.name) matches Some(a) && a
            == app.args.len(),
        body[i] matches SpecAtom::Relation(app) ==> lookup_relation(relations, app.name.name) matches Some(h)
            && h.arity == app.args.len(),
{
    let start = BodyState { plan: SpecPlan::unit(rule_name.symbol().span), seen: Set::empty(), next_id: 0 };
    lemma_atoms_all_compile(body, start, arities, relations, i);
}

/// Where the atoms of a body fold in, each of them does.
proof fn lemma_atoms_all_compile(
    body: Seq<SpecAtom>,
    start: BodyState,
    arities: Seq<(SpecMagicSymbol, usize)>,
    relations: Seq<SpecRelationHandle>,
    i: int,
)
    requires
        compile_atoms(start, body, arities, relations) is Ok,
        0 <= i < body.len(),
    ensures
        compile_atoms(start, body.take(i), arities, relations) is Ok,
        compile_atom(compile_atoms(start, body.take(i), arities, relations)->Ok_0, body[i], arities, relations) is Ok,
    decreases body.len(),
{
    let rest = body.drop_last();
    if i == body.len() - 1 {
        assert(body.take(i) =~= rest);
    } else {
        lemma_atoms_all_compile(rest, start, arities, relations, i);
        assert(rest.take(i) =~= body.take(i));
        assert(rest[i] == body[i]);
    }
}

/// What keeps an atom from being folded into a plan, if anything does: it
/// applies a derived relation that has no arity on record or a stored
/// relation that the catalog lacks, or it has another number of arguments
/// than the relation has columns.
pub open spec fn atom_fault(
    atom: SpecAtom,
    arities: Seq<(SpecMagicSymbol, usize)>,
    relations: Seq<SpecRelationHandle>,
) -> Option<SpecCompileError> {
    match atom {
        SpecAtom::Rule(app) => match arity_lookup(arities, app.name) {
            None => Some(
                SpecCompileError::RuleNotFound { name: app.name.symbol().name, span: app.name.symbol().span },
            ),
            Some(arity) => if arity != app.args.len() {
                Some(
                    SpecCompileError::ArityMismatch {
                        name: app.name.symbol().name,
                        expected: arity,
                        given: app.args.len() as usize,
                        span: app.span,
                    },
                )
            } else {
                None
            },
        },
        SpecAtom::Relation(app) => match lookup_relation(relations, app.name.name) {
            None => Some(SpecCompileError::StoredRelationNotFound { name: app.name.name }),
            Some(store) => if store.arity != app.args.len() {
                Some(
                    SpecCompileError::ArityMismatch {
                        name: app.name.name,
                        expected: store.arity as usize,
                        given: app.args.len() as usize,
                        span: app.span,
                    },
                )
            } else {
                None
            },
        },
        _ => None,
    }
}

/// Atoms without a fault all fold in.
proof fn lemma_fault_free_prefix(
    st: BodyState,
    atoms: Seq<SpecAtom>,
    arities: Seq<(SpecMagicSymbol, usize)>,
    relations: Seq<SpecRelationHandle>,
    k: int,
)
    requires
        0 <= k <= atoms.len(),
        forall|j: int| 0 <= j < k ==> atom_fault(#[trigger] atoms[j], arities, relations) is None,
    ensures
        compile_atoms(st, atoms.take(k), arities, relations) is Ok,
    decreases k,
{
    if k > 0 {
        lemma_fault_free_prefix(st, atoms, arities, relations, k - 1);
        assert(atoms.take(k).drop_last() =~= atoms.take(k - 1));
        assert(atoms.take(k).last() == atoms[k - 1]);
    }
}

/// A body fails with the fault of the first of its atoms that has one. So
/// the first application with another number of arguments than its
/// relation has columns, where nothing before it is at fault, is reported
/// as an arity mismatch, with the number of columns and the number of
/// arguments.
pub proof fn law_first_fault_is_reported(
    body: Seq<SpecAtom>,
    rule_name: SpecMagicSymbol,
    arities: Seq<(SpecMagicSymbol, usize)>,
    relations: Seq<SpecRelationHandle>,
    head: Seq<SpecSymbol>,
    i: int,
)
    requires
        0 <= i < body.len(),
        forall|j: int| 0 <= j < i ==> atom_fault(#[trigger] body[j], arities, relations) is None,
        atom_fault(body[i], arities, relations) is Some,
    ensures
        compile_rule_body(body, rule_name, arities, relations, head) == Err::<SpecPlan, SpecCompileError>(
            atom_fault(body[i], arities, relations)->Some_0,
        ),
{
    let start = BodyState { plan: SpecPlan::unit(rule_name.symbol().span), seen: Set::empty(), next_id: 0 };
    lemma_fault_free_prefix(start, body, arities, relations, i);
    assert(body.take(i + 1).drop_last() =~= body.take(i));
    assert(body.take(i + 1).last() == body[i]);
    lemma_compile_atoms_fails(start, body, arities, relations, i + 1);
}

/// A body none of whose atoms has a fault compiles, unless its plan does
/// not expose the variables of the head: nothing else can go wrong.
pub proof fn law_fault_free_body(
    body: Seq<SpecAtom>,
    rule_name: SpecMagicSymbol,
    arities: Seq<(SpecMagicSymbol, usize)>,
    relations: Seq<SpecRelationHandle>,
    head: Seq<SpecSymbol>,
)
    requires
        forall|j: int| 0 <= j < body.len() ==> atom_fault(#[trigger] body[j], arities, relations) is None,
    ensures
        compile_rule_body(body, rule_name, arities, relations, head) is Ok || compile_rule_body(
            body,
            rule_name,
            arities,
            relations,
            head,
        ) matches Err(SpecCompileError::UnboundSymbolInRuleHead { .. }),
{
    let start = BodyState { plan: SpecPlan::unit(rule_name.symbol().span), seen: Set::empty(), next_id: 0 };
    lemma_fault_free_prefix(start, body, arities, relations, body.len() as int);
    assert(body.take(body.len() as int) =~= body);
}

/// Which symbol of a list is the first that is missing from a set depends
/// only on which names of the list the set has.
proof fn lemma_first_missing_agrees(s: Seq<SpecSymbol>, a: Set<Seq<char>>, b: Set<Seq<char>>)
    requires
        forall|i: int| 0 <= i < s.len() ==> a.contains((#[trigger] s[i]).name) == b.contains(s[i].name),
    ensures
        first_missing(s, a) == first_missing(s, b),
    decreases s.len(),
{
    if s.len() > 0 {
        let r = s.drop_last();
        assert forall|i: int| 0 <= i < r.len() implies a.contains((#[trigger] r[i]).name) == b.contains(r[i].name) by {
            assert(r[i] == s[i]);
        }
        lemma_first_missing_agrees(r, a, b);
        assert(s.last() == s[s.len() - 1]);
    }
}

/// A body none of whose atoms has a fault compiles exactly when every
/// variable of the head is a variable of the body. Where one is not, the
/// first such variable of the head is reported as unbound. This holds
/// provided that no variable of the body or of the head has a name of the
/// form that the compiler makes up, and that no application of the body
/// repeats among its arguments a variable that no atom before it has.
pub proof fn law_unbound_head_is_reported(
    body: Seq<SpecAtom>,
    rule_name: SpecMagicSymbol,
    arities: Seq<(SpecMagicSymbol, usize)>,
    relations: Seq<SpecRelationHandle>,
    head: Seq<SpecSymbol>,
)
    requires
        forall|j: int| 0 <= j < body.len() ==> atom_fault(#[trigger] body[j], arities, relations) is None,
        body_vars_plain(body),
        body_repeats_bound(body),
        forall|i: int| 0 <= i < head.len() ==> !is_synthetic_name((#[trigger] head[i]).name),
    ensures
        match first_missing(head, seen_after(body)) {
            Some(z) => compile_rule_body(body, rule_name, arities, relations, head) == Err::<
                SpecPlan,
                SpecCompileError,
            >(SpecCompileError::UnboundSymbolInRuleHead { name: z.name, span: z.span }),
            None => compile_rule_body(body, rule_name, arities, relations, head) is Ok,
        },
{
    let unit = SpecPlan::unit(rule_name.symbol().span);
    let start = BodyState { plan: unit, seen: Set::empty(), next_id: 0 };
    lemma_fault_free_prefix(start, body, arities, relations, body.len() as int);
    assert(body.take(body.len() as int) =~= body);
    assert(distinct_names(unit.bindings_before_eliminate()));
    assert(unit.well_bound());
    assert(unit.bindings_after_eliminate() =~= Seq::<SpecSymbol>::empty());
    assert(bindings_invariant(start));
    assert(keys_invariant(start));
    lemma_compile_atoms(body, start, arities, relations);
    let st = compile_atoms(start, body, arities, relations)->Ok_0;
    let seen = seen_after(body);
    let used = name_set(head);
    let first = st.plan.eliminated(used);
    let pruned = pruned_for_head(st.plan, head);
    let exposed = pruned.bindings_after_eliminate();
    lemma_eliminated_keeps_used(st.plan, used);
    lemma_eliminated_exposes_less(st.plan, used);
    assert forall|n: Seq<char>| used.contains(n) implies (has_name(first.bindings_after_eliminate(), n)
        <==> seen.contains(n)) by {
        let i = choose|i: int| 0 <= i < head.len() && #[trigger] head[i].name == n;
        assert(!is_synthetic_name(n));
        if has_name(first.bindings_after_eliminate(), n) {
            assert(has_name(st.plan.bindings_after_eliminate(), n));
            if !seen.contains(n) {
                let k = choose|k: nat| k < st.next_id && n == #[trigger] synthetic_name(k);
                assert(is_synthetic_name(synthetic_name(k)));
            }
        }
    }
    if name_set(first.bindings_after_eliminate()) != used {
        let span = first.span();
        let joined = first.cartesian_join(SpecPlan::unit(span), span);
        assert(pruned == joined.eliminated(used));
        assert(SpecPlan::unit(span).bindings_after_eliminate() =~= Seq::<SpecSymbol>::empty());
        assert(joined.bindings_before_eliminate() =~= first.bindings_after_eliminate());
        lemma_without_nothing(joined.bindings_before_eliminate());
        assert(joined.bindings_after_eliminate() == first.bindings_after_eliminate());
        lemma_eliminated_keeps_used(joined, used);
        lemma_eliminated_exposes_less(joined, used);
        lemma_join_keeps_only_used(joined, used);
    }
    assert forall|i: int| 0 <= i < head.len() implies name_set(exposed).contains((#[trigger] head[i]).name)
        == seen.contains(head[i].name) by {
        assert(used.contains(head[i].name));
    }
    lemma_first_missing_agrees(head, name_set(exposed), seen);
    lemma_first_missing_none(head, name_set(exposed));
    if first_missing(head, seen) is None {
        assert(name_set(exposed).subset_of(used));
        assert(name_set(exposed) =~= used);
    } else {
        let z = first_missing(head, seen)->Some_0;
        assert(used.contains(z.name) && !name_set(exposed).contains(z.name));
    }
}

/// In the plan of a rule body no operator has a name twice among its
/// bindings, before it drops any and after, provided that the head names no
/// variable twice and that no variable of the body has a name of the form
/// that the compiler makes up. In particular the two children of a join
/// expose no name in common.
pub proof fn law_bindings_are_distinct(
    body: Seq<SpecAtom>,
    rule_name: SpecMagicSymbol,
    arities: Seq<(SpecMagicSymbol, usize)>,
    relations: Seq<SpecRelationHandle>,
    head: Seq<SpecSymbol>,
)
    requires
        compile_rule_body(body, rule_name, arities, relations, head) is Ok,
        distinct_names(head),
        body_vars_plain(body),
    ensures
        compile_rule_body(body, rule_name, arities, relations, head)->Ok_0.well_bound(),
        distinct_names(
            compile_rule_body(body, rule_name, arities, relations, head)->Ok_0.bindings_after_eliminate(),
        ),
{
    let unit = SpecPlan::unit(rule_name.symbol().span);
    let start = BodyState { plan: unit, seen: Set::empty(), next_id: 0 };
    assert(distinct_names(unit.bindings_before_eliminate()));
    assert(unit.well_bound());
    assert(unit.bindings_after_eliminate() =~= Seq::<SpecSymbol>::empty());
    assert(bindings_invariant(start));
    assert(keys_invariant(start));
    lemma_compile_atoms(body, start, arities, relations);
    let st = compile_atoms(start, body, arities, relations)->Ok_0;
    lemma_finish_plan(st.plan, head);
    lemma_exposed_distinct(finish_plan(st.plan, head)->Ok_0);
}

/// At a join of a well-bound plan, what the left child exposes and what
/// the right child exposes have no name in common, and neither has a name
/// twice.
pub proof fn law_join_children_disjoint(plan: SpecPlan)
    requires
        plan.well_bound(),
        plan is Join,
    ensures
        distinct_names(plan->Join_left.bindings_after_eliminate()),
        distinct_names(plan->Join_right.bindings_after_eliminate()),
        forall|n: Seq<char>|
            !(has_name(plan->Join_left.bindings_after_eliminate(), n) && has_name(
                plan->Join_right.bindings_after_eliminate(),
                n,
            )),
{
    lemma_distinct_add(plan->Join_left.bindings_after_eliminate(), plan->Join_right.bindings_after_eliminate());
}

/// In the plan of a rule body every join has as many left keys as right
/// keys, each left key among what the left child exposes and each right key
/// among what the right child exposes, provided that no application of the
/// body repeats among its arguments a variable that no atom before it has.
pub proof fn law_join_keys_are_bound(
    body: Seq<SpecAtom>,
    rule_name: SpecMagicSymbol,
    arities: Seq<(SpecMagicSymbol, usize)>,
    relations: Seq<SpecRelationHandle>,
    head: Seq<SpecSymbol>,
)
    requires
        compile_rule_body(body, rule_name, arities, relations, head) is Ok,
        body_repeats_bound(body),
    ensures
        compile_rule_body(body, rule_name, arities, relations, head)->Ok_0.keys_well_formed(),
{
    let unit = SpecPlan::unit(rule_name.symbol().span);
    let start = BodyState { plan: unit, seen: Set::empty(), next_id: 0 };
    assert(distinct_names(unit.bindings_before_eliminate()));
    assert(unit.well_bound());
    assert(unit.bindings_after_eliminate() =~= Seq::<SpecSymbol>::empty());
    assert(bindings_invariant(start));
    assert(keys_invariant(start));
    lemma_compile_atoms(body, start, arities, relations);
    let st = compile_atoms(start, body, arities, relations)->Ok_0;
    lemma_finish_plan(st.plan, head);
}

/// The resolution pass leaves a plan as well bound as it was, and its keys
/// as well formed.
pub proof fn lemma_resolved_sound(plan: SpecPlan)
    ensures
        plan.well_bound() ==> plan.resolved().well_bound(),
        plan.keys_well_formed() ==> plan.resolved().keys_well_formed(),
    decreases plan,
{
    lemma_resolved_bindings(plan);
    match plan {
        SpecPlan::Join { left, right, .. } => {
            lemma_resolved_sound(*left);
            lemma_resolved_sound(*right);
            lemma_resolved_bindings(*left);
            lemma_resolved_bindings(*right);
        },
        SpecPlan::Reorder { relation, .. } => {
            lemma_resolved_sound(*relation);
        },
        SpecPlan::Filter { parent, .. } => {
            lemma_resolved_sound(*parent);
        },
        SpecPlan::Unification { parent, .. } => {
            lemma_resolved_sound(*parent);
        },
        _ => {},
    }
}

/// The plan of a compiled clause exposes, in order, the variables of the
/// head of the clause. No operator of it has a name twice among its
/// bindings, provided that the head names no variable twice and that no
/// variable of the body has a name of the form that the compiler makes up.
/// Every join of it has well-formed keys, provided that no application of
/// the body repeats among its arguments a variable that no atom before it
/// has.
pub proof fn law_compiled_clause_is_sound(
    rule: SpecRule,
    name: SpecMagicSymbol,
    arities: Seq<(SpecMagicSymbol, usize)>,
    relations: Seq<SpecRelationHandle>,
)
    requires
        compile_rule(rule, name, arities, relations) is Ok,
    ensures
        ({
            let plan = compile_rule(rule, name, arities, relations)->Ok_0.relation;
            &&& names_of(plan.bindings_after_eliminate()) == names_of(rule.head)
            &&& distinct_names(rule.head) && body_vars_plain(rule.body) ==> plan.well_bound() && distinct_names(
                plan.bindings_after_eliminate(),
            )
            &&& body_repeats_bound(rule.body) ==> plan.keys_well_formed()
        }),
{
    let body_plan = compile_rule_body(rule.body, name, arities, relations, rule.head)->Ok_0;
    law_head_coverage(rule.body, name, arities, relations, rule.head);
    lemma_resolved_bindings(body_plan);
    lemma_resolved_sound(body_plan);
    if distinct_names(rule.head) && body_vars_plain(rule.body) {
        law_bindings_are_distinct(rule.body, name, arities, relations, rule.head);
    }
    if body_repeats_bound(rule.body) {
        law_join_keys_are_bound(rule.body, name, arities, relations, rule.head);
    }
}

} // verus!
