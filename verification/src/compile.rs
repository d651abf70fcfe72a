use vstd::prelude::*;
use crate::error::{CompileError, SpecCompileError};
use crate::expr::{Expr, Op, SpecExpr};
use crate::magic::{synthetic_name, MagicSymbol, SpecMagicSymbol, SymbolGen};
use crate::program::{MagicAtom, MagicInlineRule, SpecAtom};
use crate::ra::{RelAlgebra, SpecPlan};
use crate::registry::{arity_lookup, lookup_relation, ArityMap, Compiler, SpecRelationHandle};
use crate::symb::{
    clone_symbols, has_name, is_ignored_name, lemma_has_name_add, lemma_has_name_push, lemma_without, name_set, names_of, unused_names, without, SpecSymbol, Symbol,
};
use crate::symbol_set::SymbolSet;

verus! {

/// What a position of a stored relation is used for by an application: it
/// is matched against a variable bound before, it binds a new variable, or
/// it binds a variable that nothing reads.
#[derive(Clone, Copy, Debug, PartialEq, Eq, Structural)]
pub enum IndexPositionUse {
    Join,
    BindForLater,
    Ignored,
}

/// What one pass over the arguments of an application yields.
pub struct ArgScan {
    /// The arguments that were bound before, in order.
    pub prev_joiner_vars: Seq<SpecSymbol>,
    /// The made-up variables that stand in for them on the right.
    pub right_joiner_vars: Seq<SpecSymbol>,
    /// The bindings of the scan: at each position the argument itself where
    /// it is new, and the made-up variable where it was bound before.
    pub right_vars: Seq<SpecSymbol>,
    /// What each position is used for.
    pub positions: Seq<IndexPositionUse>,
    /// The names seen after the pass.
    pub seen: Set<Seq<char>>,
    /// The number of the next made-up variable.
    pub next_id: nat,
}

/// Passes over the arguments of an application from left to right. An
/// argument whose name has been seen is a join key: the next made-up
/// variable takes its place among the bindings of the scan and is paired
/// with it. Any other argument is a new binding and counts as seen from
/// then on.
pub open spec fn scan_args(args: Seq<SpecSymbol>, seen: Set<Seq<char>>, next_id: nat) -> ArgScan
    decreases args.len(),
{
    if args.len() == 0 {
        ArgScan {
            prev_joiner_vars: Seq::empty(),
            right_joiner_vars: Seq::empty(),
            right_vars: Seq::empty(),
            positions: Seq::empty(),
            seen,
            next_id,
        }
    } else {
        let prev = scan_args(args.drop_last(), seen, next_id);
        let var = args.last();
        if prev.seen.contains(var.name) {
            let rk = SpecSymbol { name: synthetic_name(prev.next_id), span: var.span };
            ArgScan {
                prev_joiner_vars: prev.prev_joiner_vars.push(var),
                right_joiner_vars: prev.right_joiner_vars.push(rk),
                right_vars: prev.right_vars.push(rk),
                positions: prev.positions.push(IndexPositionUse::Join),
                seen: prev.seen,
                next_id: prev.next_id + 1,
            }
        } else {
            ArgScan {
                prev_joiner_vars: prev.prev_joiner_vars,
                right_joiner_vars: prev.right_joiner_vars,
                right_vars: prev.right_vars.push(var),
                positions: prev.positions.push(
                    if is_ignored_name(var.name) {
                        IndexPositionUse::Ignored
                    } else {
                        IndexPositionUse::BindForLater
                    },
                ),
                seen: prev.seen.insert(var.name),
                next_id: prev.next_id,
            }
        }
    }
}

/// The state of compiling a rule body: the plan built from the atoms so
/// far, the names seen, and the number of the next made-up variable.
pub struct BodyState {
    pub plan: SpecPlan,
    pub seen: Set<Seq<char>>,
    pub next_id: nat,
}

/// The test that takes the place of a unification whose variable is bound
/// already: membership for the one-to-many form, equality otherwise.
pub open spec fn unification_test(binding: SpecSymbol, expr: SpecExpr, one_many: bool, span: crate::symb::SourceSpan) -> SpecExpr {
    SpecExpr::Apply {
        op: if one_many {
            Op::IsIn
        } else {
            Op::Eq
        },
        args: seq![SpecExpr::Binding { var: binding, tuple_pos: None }, expr],
        span,
    }
}

/// Folds one atom into the plan.
pub open spec fn compile_atom(
    st: BodyState,
    atom: SpecAtom,
    arities: Seq<(SpecMagicSymbol, usize)>,
    relations: Seq<SpecRelationHandle>,
) -> Result<BodyState, SpecCompileError> {
    match atom {
        SpecAtom::Rule(app) => match arity_lookup(arities, app.name) {
            None => Err(
                SpecCompileError::RuleNotFound { name: app.name.symbol().name, span: app.name.symbol().span },
            ),
            Some(arity) => if arity != app.args.len() {
                Err(
                    SpecCompileError::ArityMismatch {
                        name: app.name.symbol().name,
                        expected: arity,
                        given: app.args.len() as usize,
                        span: app.span,
                    },
                )
            } else {
                let s = scan_args(app.args, st.seen, st.next_id);
                Ok(
                    BodyState {
                        plan: st.plan.join(
                            SpecPlan::derived(s.right_vars, app.name, app.span),
                            s.prev_joiner_vars,
                            s.right_joiner_vars,
                            app.span,
                        ),
                        seen: s.seen,
                        next_id: s.next_id,
                    },
                )
            },
        },
        SpecAtom::Relation(app) => match lookup_relation(relations, app.name.name) {
            None => Err(SpecCompileError::StoredRelationNotFound { name: app.name.name }),
            Some(store) => if store.arity != app.args.len() {
                Err(
                    SpecCompileError::ArityMismatch {
                        name: app.name.name,
                        expected: store.arity as usize,
                        given: app.args.len() as usize,
                        span: app.span,
                    },
                )
            } else {
                let s = scan_args(app.args, st.seen, st.next_id);
                Ok(
                    BodyState {
                        plan: st.plan.join(
                            SpecPlan::relation(s.right_vars, app.span, store.name),
                            s.prev_joiner_vars,
                            s.right_joiner_vars,
                            app.span,
                        ),
                        seen: s.seen,
                        next_id: s.next_id,
                    },
                )
            },
        },
        SpecAtom::Predicate(p) => Ok(BodyState { plan: st.plan.filtered(p), seen: st.seen, next_id: st.next_id }),
        SpecAtom::Unification(u) => if st.seen.contains(u.binding.name) {
            Ok(
                BodyState {
                    plan: st.plan.filtered(unification_test(u.binding, u.expr, u.one_many_unif, u.span)),
                    seen: st.seen,
                    next_id: st.next_id,
                },
            )
        } else {
            Ok(
                BodyState {
                    plan: st.plan.unify(u.binding, u.expr, u.one_many_unif, u.span),
                    seen: st.seen.insert(u.binding.name),
                    next_id: st.next_id,
                },
            )
        },
        SpecAtom::NegatedRule(_) => Ok(st),
        SpecAtom::NegatedRelation(_) => Ok(st),
    }
}

/// Folds the atoms, in order, into the plan; the first failure ends it.
pub open spec fn compile_atoms(
    st: BodyState,
    atoms: Seq<SpecAtom>,
    arities: Seq<(SpecMagicSymbol, usize)>,
    relations: Seq<SpecRelationHandle>,
) -> Result<BodyState, SpecCompileError>
    decreases atoms.len(),
{
    if atoms.len() == 0 {
        Ok(st)
    } else {
        match compile_atoms(st, atoms.drop_last(), arities, relations) {
            Ok(prev) => compile_atom(prev, atoms.last(), arities, relations),
            Err(e) => Err(e),
        }
    }
}

/// The first of the symbols whose name is not in `names`.
pub open spec fn first_missing(s: Seq<SpecSymbol>, names: Set<Seq<char>>) -> Option<SpecSymbol>
    decreases s.len(),
{
    if s.len() == 0 {
        None
    } else {
        match first_missing(s.drop_last(), names) {
            Some(v) => Some(v),
            None => if names.contains(s.last().name) {
                None
            } else {
                Some(s.last())
            },
        }
    }
}

/// The plan after the pass that marks dead bindings, run for the head
/// variables. Where the plan then exposes other names than the head has,
/// it is joined with the unit plan, without keys, and the pass is run once
/// more: the join on top drops whatever the head does not name.
pub open spec fn pruned_for_head(plan: SpecPlan, head: Seq<SpecSymbol>) -> SpecPlan {
    let used = name_set(head);
    let first = plan.eliminated(used);
    if name_set(first.bindings_after_eliminate()) == used {
        first
    } else {
        first.cartesian_join(SpecPlan::unit(first.span()), first.span()).eliminated(used)
    }
}

/// Fits the plan of a body to the head: prunes it, reports the first head
/// variable that it does not expose, and puts its bindings in the order of
/// the head where they come in another.
pub open spec fn finish_plan(plan: SpecPlan, head: Seq<SpecSymbol>) -> Result<SpecPlan, SpecCompileError> {
    let pruned = pruned_for_head(plan, head);
    let exposed = pruned.bindings_after_eliminate();
    if name_set(exposed) != name_set(head) {
        let unbound = first_missing(head, name_set(exposed)).unwrap();
        Err(SpecCompileError::UnboundSymbolInRuleHead { name: unbound.name, span: unbound.span })
    } else if names_of(head) != names_of(exposed) {
        Ok(pruned.reorder(head))
    } else {
        Ok(pruned)
    }
}

/// The plan of a rule body: the atoms folded, from left to right, into the
/// unit plan placed at the rule's name, and the result fitted to the head
/// variables `ret_vars`.
pub open spec fn compile_rule_body(
    body: Seq<SpecAtom>,
    rule_name: SpecMagicSymbol,
    arities: Seq<(SpecMagicSymbol, usize)>,
    relations: Seq<SpecRelationHandle>,
    ret_vars: Seq<SpecSymbol>,
) -> Result<SpecPlan, SpecCompileError> {
    let start = BodyState { plan: SpecPlan::unit(rule_name.symbol().span), seen: Set::empty(), next_id: 0 };
    match compile_atoms(start, body, arities, relations) {
        Ok(st) => finish_plan(st.plan, ret_vars),
        Err(e) => Err(e),
    }
}

/// What a pass over the arguments of an application hands back.
#[derive(Debug)]
pub struct AtomBindings {
    pub prev_joiner_vars: Vec<Symbol>,
    pub right_joiner_vars: Vec<Symbol>,
    pub right_vars: Vec<Symbol>,
    pub positions: Vec<IndexPositionUse>,
}

/// Passes over the arguments of an application: tells join keys from new
/// bindings, makes up a variable for each join key, and records what each
/// position is used for.
pub fn bind_atom_args(args: &Vec<Symbol>, seen: &mut SymbolSet, gen: &mut SymbolGen) -> (r: AtomBindings)
    requires
        old(gen).next_id + args.len() <= u128::MAX,
    ensures
        ({
            let s = scan_args(args.deep_view(), old(seen)@, old(gen).next_id as nat);
            &&& r.prev_joiner_vars.deep_view() == s.prev_joiner_vars
            &&& r.right_joiner_vars.deep_view() == s.right_joiner_vars
            &&& r.right_vars.deep_view() == s.right_vars
            &&& r.positions@ == s.positions
            &&& final(seen)@ == s.seen
            &&& final(gen).next_id == s.next_id
        }),
        final(gen).next_id <= old(gen).next_id + args.len(),
{
    let mut prev_joiner_vars: Vec<Symbol> = Vec::new();
    let mut right_joiner_vars: Vec<Symbol> = Vec::new();
    let mut right_vars: Vec<Symbol> = Vec::new();
    let mut positions: Vec<IndexPositionUse> = Vec::new();
    let ghost all = args.deep_view();
    let ghost seen0 = seen@;
    let ghost id0 = gen.next_id as nat;
    let mut i: usize = 0;
    proof {
        let s = scan_args(all.take(0), seen0, id0);
        assert(prev_joiner_vars.deep_view() =~= s.prev_joiner_vars);
        assert(right_joiner_vars.deep_view() =~= s.right_joiner_vars);
        assert(right_vars.deep_view() =~= s.right_vars);
        assert(positions@ =~= s.positions);
    }
    while i < args.len()
        invariant
            i <= args.len(),
            all == args.deep_view(),
            id0 + args.len() <= u128::MAX,
            gen.next_id <= id0 + i,
            ({
                let s = scan_args(all.take(i as int), seen0, id0);
                &&& prev_joiner_vars.deep_view() == s.prev_joiner_vars
                &&& right_joiner_vars.deep_view() == s.right_joiner_vars
                &&& right_vars.deep_view() == s.right_vars
                &&& positions@ == s.positions
                &&& seen@ == s.seen
                &&& gen.next_id == s.next_id
            }),
        decreases args.len() - i,
    {
        proof {
            assert(all.take(i + 1).drop_last() =~= all.take(i as int));
            assert(all.take(i + 1).last() == args[i as int]@);
        }
        let ghost p0 = prev_joiner_vars.deep_view();
        let ghost j0 = right_joiner_vars.deep_view();
        let ghost r0 = right_vars.deep_view();
        let ghost q0 = positions@;
        let var = &args[i];
        if seen.contains(var) {
            prev_joiner_vars.push(var.clone());
            let rk = gen.fresh(var.span);
            right_vars.push(rk.clone());
            right_joiner_vars.push(rk);
            positions.push(IndexPositionUse::Join);
            proof {
                assert(prev_joiner_vars.deep_view() =~= p0.push(var@));
                assert(right_joiner_vars.deep_view() =~= j0.push(rk@));
                assert(right_vars.deep_view() =~= r0.push(rk@));
                assert(positions@ =~= q0.push(IndexPositionUse::Join));
            }
        } else {
            seen.insert(var.clone());
            right_vars.push(var.clone());
            let usage = if var.is_generated_ignored_symbol() {
                IndexPositionUse::Ignored
            } else {
                IndexPositionUse::BindForLater
            };
            positions.push(usage);
            proof {
                assert(right_vars.deep_view() =~= r0.push(var@));
                assert(positions@ =~= q0.push(usage));
            }
        }
        i += 1;
    }
    proof {
        assert(all.take(args.len() as int) =~= all);
    }
    AtomBindings { prev_joiner_vars, right_joiner_vars, right_vars, positions }
}

/// The first of the symbols that is not in the set.
pub fn find_first_missing(syms: &Vec<Symbol>, names: &SymbolSet) -> (r: Option<Symbol>)
    ensures
        r.deep_view() == first_missing(syms.deep_view(), names@),
{
    let ghost all = syms.deep_view();
    let mut i: usize = 0;
    while i < syms.len()
        invariant
            i <= syms.len(),
            all == syms.deep_view(),
            first_missing(all.take(i as int), names@) is None,
        decreases syms.len() - i,
    {
        proof {
            assert(all.take(i + 1).drop_last() =~= all.take(i as int));
            assert(all.take(i + 1).last() == syms[i as int]@);
        }
        if !names.contains(&syms[i]) {
            proof {
                lemma_first_missing_prefix(all, names@, i + 1);
            }
            return Some(syms[i].clone());
        }
        i += 1;
    }
    assert(all.take(syms.len() as int) =~= all);
    None
}

/// Once a prefix of the symbols has one that is missing, the whole list
/// reports that same symbol.
pub proof fn lemma_first_missing_prefix(s: Seq<SpecSymbol>, names: Set<Seq<char>>, k: int)
    requires
        0 <= k <= s.len(),
        first_missing(s.take(k), names) is Some,
    ensures
        first_missing(s, names) == first_missing(s.take(k), names),
    decreases s.len() - k,
{
    if k < s.len() {
        assert(s.take(k + 1).drop_last() =~= s.take(k));
        lemma_first_missing_prefix(s, names, k + 1);
    } else {
        assert(s.take(k) =~= s);
    }
}

/// Every symbol of a list with nothing missing has its name in the set.
pub proof fn lemma_first_missing_none(s: Seq<SpecSymbol>, names: Set<Seq<char>>)
    ensures
        first_missing(s, names) is None <==> name_set(s).subset_of(names),
        first_missing(s, names) matches Some(v) ==> has_name(s, v.name) && !names.contains(v.name),
    decreases s.len(),
{
    if s.len() > 0 {
        let r = s.drop_last();
        lemma_first_missing_none(r, names);
        if first_missing(s, names) is None {
            assert forall|n: Seq<char>| name_set(s).contains(n) implies names.contains(n) by {
                let i = choose|i: int| 0 <= i < s.len() && #[trigger] s[i].name == n;
                if i < r.len() {
                    assert(r[i].name == n);
                    assert(name_set(r).contains(n));
                }
            }
        } else {
            let v = first_missing(s, names).unwrap();
            if first_missing(r, names) is Some {
                let i = choose|i: int| 0 <= i < r.len() && #[trigger] r[i].name == v.name;
                assert(s[i].name == v.name);
            } else {
                assert(s[s.len() - 1].name == v.name);
            }
            assert(name_set(s).contains(v.name));
        }
        if name_set(s).subset_of(names) {
            assert forall|n: Seq<char>| name_set(r).contains(n) implies names.contains(n) by {
                let i = choose|i: int| 0 <= i < r.len() && #[trigger] r[i].name == n;
                assert(s[i].name == n);
                assert(name_set(s).contains(n));
            }
            assert(s[s.len() - 1].name == s.last().name);
            assert(name_set(s).contains(s.last().name));
        }
    }
}

/// A plan that was joined with the unit plan and pruned exposes no name
/// that was not asked for.
pub proof fn lemma_join_keeps_only_used(plan: SpecPlan, used: Set<Seq<char>>)
    requires
        plan is Join,
    ensures
        name_set(plan.eliminated(used).bindings_after_eliminate()).subset_of(used),
{
    let after = plan.eliminated(used);
    let before = plan.bindings_before_eliminate();
    let drop = after->Join_to_eliminate;
    lemma_eliminated_exposes_less(plan, used);
    let narrowed = after.bindings_before_eliminate();
    lemma_without(narrowed, drop);
    assert forall|n: Seq<char>| name_set(after.bindings_after_eliminate()).contains(n) implies used.contains(n) by {
        assert(has_name(without(narrowed, drop), n));
        assert(has_name(narrowed, n) && !drop.contains(n));
        assert(has_name(before, n));
        if !used.contains(n) {
            assert(unused_names(before, used).contains(n));
        }
    }
}

/// The pass that marks dead bindings only ever takes names away from what
/// a plan exposes.
pub proof fn lemma_eliminated_exposes_less(plan: SpecPlan, used: Set<Seq<char>>)
    ensures
        forall|n: Seq<char>|
            has_name(plan.eliminated(used).bindings_after_eliminate(), n) ==> has_name(
                plan.bindings_after_eliminate(),
                n,
            ),
        forall|n: Seq<char>|
            has_name(plan.eliminated(used).bindings_before_eliminate(), n) ==> has_name(
                plan.bindings_before_eliminate(),
                n,
            ),
    decreases plan,
{
    let after = plan.eliminated(used);
    let b1 = after.bindings_before_eliminate();
    let b0 = plan.bindings_before_eliminate();
    match plan {
        SpecPlan::Fixed { .. } => {
            assert(b1 == b0);
        },
        SpecPlan::TempStore { .. } => {
            assert(b1 == b0);
        },
        SpecPlan::Stored { .. } => {
            assert(b1 == b0);
        },
        SpecPlan::Join { left, right, right_keys, .. } => {
            let lu = used.union(plan.left_needs());
            let ru = used.union(name_set(right_keys));
            lemma_eliminated_exposes_less(*left, lu);
            lemma_eliminated_exposes_less(*right, ru);
            let l = left.eliminated(lu).bindings_after_eliminate();
            let r = right.eliminated(ru).bindings_after_eliminate();
            let l0 = left.bindings_after_eliminate();
            let r0 = right.bindings_after_eliminate();
            assert(b1 == l + r);
            assert(b0 == l0 + r0);
            lemma_has_name_add(l, r);
            lemma_has_name_add(l0, r0);
            assert forall|n: Seq<char>| has_name(b1, n) implies has_name(b0, n) by {
                if has_name(l, n) {
                    assert(has_name(l0, n));
                } else {
                    assert(has_name(r, n));
                    assert(has_name(r0, n));
                }
            }
        },
        SpecPlan::Reorder { .. } => {
            assert(b1 == b0);
        },
        SpecPlan::Filter { parent, filters, .. } => {
            let pu = used.union(SpecExpr::bindings_of_all(filters));
            lemma_eliminated_exposes_less(*parent, pu);
            assert(b1 == parent.eliminated(pu).bindings_after_eliminate());
            assert(b0 == parent.bindings_after_eliminate());
        },
        SpecPlan::Unification { parent, binding, expr, .. } => {
            let pu = used.union(expr.bindings());
            lemma_eliminated_exposes_less(*parent, pu);
            let p = parent.eliminated(pu).bindings_after_eliminate();
            let p0 = parent.bindings_after_eliminate();
            assert(b1 == p.push(binding));
            assert(b0 == p0.push(binding));
            lemma_has_name_push(p, binding);
            lemma_has_name_push(p0, binding);
            assert forall|n: Seq<char>| has_name(b1, n) implies has_name(b0, n) by {
                assert(has_name(p.push(binding), n));
                if has_name(p, n) {
                    assert(has_name(p0, n));
                } else {
                    assert(n == binding.name);
                }
                assert(has_name(p0.push(binding), n));
            }
        },
    }
    assert forall|n: Seq<char>| has_name(b1, n) implies has_name(b0, n) by {}
    match plan.eliminate_set() {
        Some(d0) => {
            let d1 = after.eliminate_set().unwrap();
            lemma_without(b1, d1);
            lemma_without(b0, d0);
            assert forall|n: Seq<char>| has_name(after.bindings_after_eliminate(), n) implies has_name(
                plan.bindings_after_eliminate(),
                n,
            ) by {
                assert(has_name(b1, n) && !d1.contains(n));
                assert(has_name(b0, n));
                assert(!d0.contains(n));
            }
        },
        None => {},
    }
}

/// Whether both lists have the same names at the same positions.
pub fn same_names(a: &Vec<Symbol>, b: &Vec<Symbol>) -> (r: bool)
    ensures
        r == (names_of(a.deep_view()) == names_of(b.deep_view())),
{
    if a.len() != b.len() {
        assert(names_of(a.deep_view()).len() != names_of(b.deep_view()).len());
        return false;
    }
    let mut i: usize = 0;
    while i < a.len()
        invariant
            i <= a.len(),
            a.len() == b.len(),
            forall|j: int| 0 <= j < i ==> a[j]@.name == b[j]@.name,
        decreases a.len() - i,
    {
        if !a[i].same_name(&b[i]) {
            assert(names_of(a.deep_view())[i as int] != names_of(b.deep_view())[i as int]);
            return false;
        }
        i += 1;
    }
    assert(names_of(a.deep_view()) =~= names_of(b.deep_view()));
    true
}

/// Fits the plan of a body to the head variables.
pub fn fit_to_head(plan: RelAlgebra, ret_vars: &Vec<Symbol>) -> (r: Result<RelAlgebra, CompileError>)
    ensures
        match r {
            Ok(p) => finish_plan(plan@, ret_vars.deep_view()) == Ok::<SpecPlan, SpecCompileError>(p@),
            Err(e) => finish_plan(plan@, ret_vars.deep_view()) == Err::<SpecPlan, SpecCompileError>(e@),
        },
{
    let mut ret = plan;
    let ret_vars_set = SymbolSet::from_symbols(ret_vars);
    ret.eliminate_temp_vars(&ret_vars_set);
    let cur_ret_set = SymbolSet::from_symbols(&ret.bindings_after_eliminate());
    let mut joined = false;
    if !(cur_ret_set.is_subset(&ret_vars_set) && ret_vars_set.is_subset(&cur_ret_set)) {
        assert(!(cur_ret_set@ =~= ret_vars_set@));
        let ret_span = ret.span();
        ret = ret.cartesian_join(RelAlgebra::unit(ret_span), ret_span);
        ret.eliminate_temp_vars(&ret_vars_set);
        joined = true;
    } else {
        assert(cur_ret_set@ =~= ret_vars_set@);
    }
    assert(ret@ == pruned_for_head(plan@, ret_vars.deep_view()));
    let cur_ret_bindings = ret.bindings_after_eliminate();
    let cur_ret_set = SymbolSet::from_symbols(&cur_ret_bindings);
    if !(cur_ret_set.is_subset(&ret_vars_set) && ret_vars_set.is_subset(&cur_ret_set)) {
        assert(!(cur_ret_set@ =~= ret_vars_set@));
        proof {
            lemma_first_missing_none(ret_vars.deep_view(), cur_ret_set@);
            if joined {
                let first = plan@.eliminated(ret_vars_set@);
                lemma_join_keeps_only_used(
                    first.cartesian_join(SpecPlan::unit(first.span()), first.span()),
                    ret_vars_set@,
                );
            }
        }
        match find_first_missing(ret_vars, &cur_ret_set) {
            Some(unbound) => {
                return Err(CompileError::UnboundSymbolInRuleHead { name: unbound.name, span: unbound.span });
            },
            None => {
                assert(false);
                return Ok(ret);
            },
        }
    }
    assert(cur_ret_set@ =~= ret_vars_set@);
    if !same_names(ret_vars, &cur_ret_bindings) {
        ret = ret.reorder(clone_symbols(ret_vars));
    }
    Ok(ret)
}

impl Compiler {
    /// Compiles the body of one rule into a plan whose exposed bindings are
    /// the head variables `ret_vars`, in their order. A body with a negated
    /// atom is not accepted.
    pub fn compile_magic_rule_body(
        &self,
        rule: &MagicInlineRule,
        rule_name: &MagicSymbol,
        store_arities: &ArityMap,
        ret_vars: &Vec<Symbol>,
    ) -> (r: Result<RelAlgebra, CompileError>)
        requires
            rule@.is_positive(),
        ensures
            match r {
                Ok(p) => compile_rule_body(rule@.body, rule_name@, store_arities@, self@, ret_vars.deep_view()) == Ok::<
                    SpecPlan,
                    SpecCompileError,
                >(p@),
                Err(e) => compile_rule_body(rule@.body, rule_name@, store_arities@, self@, ret_vars.deep_view())
                    == Err::<SpecPlan, SpecCompileError>(e@),
            },
    {
        let mut ret = RelAlgebra::unit(rule_name.symbol().span);
        let mut seen_variables = SymbolSet::new();
        let mut gen = SymbolGen::new();
        let ghost all = rule.body.deep_view();
        let ghost start = BodyState { plan: ret@, seen: Set::empty(), next_id: 0 };
        let mut i: usize = 0;
        while i < rule.body.len()
            invariant
                i <= rule.body.len(),
                all == rule.body.deep_view(),
                rule@.is_positive(),
                rule@.body == all,
                start == (BodyState { plan: SpecPlan::unit(rule_name@.symbol().span), seen: Set::empty(), next_id: 0 }),
                gen.next_id <= i * 0xFFFF_FFFF_FFFF_FFFF,
                compile_atoms(start, all.take(i as int), store_arities@, self@) == Ok::<BodyState, SpecCompileError>(
                    BodyState { plan: ret@, seen: seen_variables@, next_id: gen.next_id as nat },
                ),
            decreases rule.body.len() - i,
        {
            proof {
                assert(all.take(i + 1).drop_last() =~= all.take(i as int));
                assert(all.take(i + 1).last() == rule.body[i as int]@);
                assert(rule@.body[i as int] == rule.body[i as int]@);
                assert(!rule@.body[i as int].is_negated());
            }
            match &rule.body[i] {
                MagicAtom::Rule(rule_app) => {
                    let store_arity = match store_arities.get(&rule_app.name) {
                        Some(a) => a,
                        None => {
                            proof {
                                lemma_compile_atoms_fails(start, all, store_arities@, self@, i + 1);
                            }
                            return Err(
                                CompileError::RuleNotFound {
                                    name: rule_app.name.symbol().to_string(),
                                    span: rule_app.name.symbol().span,
                                },
                            );
                        },
                    };
                    if store_arity != rule_app.args.len() {
                        proof {
                            lemma_compile_atoms_fails(start, all, store_arities@, self@, i + 1);
                        }
                        return Err(
                            CompileError::ArityMismatch {
                                name: rule_app.name.symbol().to_string(),
                                expected: store_arity,
                                given: rule_app.args.len(),
                                span: rule_app.span,
                            },
                        );
                    }
                    let b = bind_atom_args(&rule_app.args, &mut seen_variables, &mut gen);
                    let right = RelAlgebra::derived(b.right_vars, rule_app.name.clone(), rule_app.span);
                    ret = ret.join(right, b.prev_joiner_vars, b.right_joiner_vars, rule_app.span);
                },
                MagicAtom::Relation(rel_app) => {
                    let store = match self.get_relation(rel_app.name.name.as_str()) {
                        Ok(s) => s,
                        Err(e) => {
                            proof {
                                lemma_compile_atoms_fails(start, all, store_arities@, self@, i + 1);
                            }
                            return Err(e);
                        },
                    };
                    if store.arity as usize != rel_app.args.len() {
                        proof {
                            lemma_compile_atoms_fails(start, all, store_arities@, self@, i + 1);
                        }
                        return Err(
                            CompileError::ArityMismatch {
                                name: rel_app.name.to_string(),
                                expected: store.arity as usize,
                                given: rel_app.args.len(),
                                span: rel_app.span,
                            },
                        );
                    }
                    let b = bind_atom_args(&rel_app.args, &mut seen_variables, &mut gen);
                    let right = RelAlgebra::relation(b.right_vars, rel_app.span, store.name);
                    ret = ret.join(right, b.prev_joiner_vars, b.right_joiner_vars, rel_app.span);
                },
                MagicAtom::Predicate(p) => {
                    ret = ret.filter(p.clone());
                },
                MagicAtom::Unification(u) => {
                    if seen_variables.contains(&u.binding) {
                        let mut operands: Vec<Expr> = Vec::new();
                        operands.push(Expr::Binding { var: u.binding.clone(), tuple_pos: None });
                        operands.push(u.expr.clone());
                        proof {
                            assert(operands.deep_view() =~= seq![
                                SpecExpr::Binding { var: u.binding@, tuple_pos: None },
                                u.expr@,
                            ]);
                        }
                        let expr = if u.one_many_unif {
                            Expr::build_is_in(operands, u.span)
                        } else {
                            Expr::build_equate(operands, u.span)
                        };
                        ret = ret.filter(expr);
                    } else {
                        seen_variables.insert(u.binding.clone());
                        ret = ret.unify(u.binding.clone(), u.expr.clone(), u.one_many_unif, u.span);
                    }
                },
                MagicAtom::NegatedRule(_) => {},
                MagicAtom::NegatedRelation(_) => {},
            }
            i += 1;
        }
        proof {
            assert(all.take(rule.body.len() as int) =~= all);
        }
        fit_to_head(ret, ret_vars)
    }
}

/// Once a prefix of the atoms fails, the whole body fails in the same way.
pub proof fn lemma_compile_atoms_fails(
    st: BodyState,
    atoms: Seq<SpecAtom>,
    arities: Seq<(SpecMagicSymbol, usize)>,
    relations: Seq<SpecRelationHandle>,
    k: int,
)
    requires
        0 <= k <= atoms.len(),
        compile_atoms(st, atoms.take(k), arities, relations) is Err,
    ensures
        compile_atoms(st, atoms, arities, relations) == compile_atoms(st, atoms.take(k), arities, relations),
    decreases atoms.len() - k,
{
    if k < atoms.len() {
        assert(atoms.take(k + 1).drop_last() =~= atoms.take(k));
        lemma_compile_atoms_fails(st, atoms, arities, relations, k + 1);
    } else {
        assert(atoms.take(k) =~= atoms);
    }
}

} // verus!
