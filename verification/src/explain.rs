use vstd::prelude::*;
use vstd::string::StringExecFns;
use crate::compiled::{CompiledRule, CompiledRuleSet, SpecCompiledRule, SpecCompiledRuleSet};
use crate::error::CompileError;
use crate::expr::{Expr, SpecExpr};
use crate::join_kind::{keys_are_bound, paired};
use crate::magic::{MagicSymbol, SpecMagicSymbol};
use crate::program::{Aggregation, SpecAggregation};
use crate::ra::{Joiner, RelAlgebra, SpecPlan};
use crate::rows::NamedRows;
use crate::strata::CompiledProgram;
use crate::symb::{find_position, has_name, lemma_position_of, SpecSymbol, Symbol};
use crate::value::{lemma_list_view, DataValue, SpecDataValue};

verus! {

/// What the rows of one clause have in common: the position of the
/// stratum, the position of the clause among the clauses of the stratum,
/// and the text of the relation's identity.
pub struct SpecRowContext {
    pub stratum: nat,
    pub rule_idx: nat,
    pub rule: Seq<char>,
}

/// A count as a value: the number itself, or the largest number that a
/// value can hold where the count is beyond it.
pub open spec fn count_value(n: nat) -> SpecDataValue {
    SpecDataValue::Int(
        if n <= i64::MAX {
            n as i64
        } else {
            i64::MAX
        },
    )
}

/// The names of the symbols as a list of strings.
pub open spec fn names_value(b: Seq<SpecSymbol>) -> SpecDataValue {
    SpecDataValue::List(Seq::new(b.len(), |i: int| SpecDataValue::Str(b[i].name)))
}

/// The texts of the expressions as a list of strings.
pub open spec fn texts_value(f: Seq<SpecExpr>) -> SpecDataValue {
    SpecDataValue::List(Seq::new(f.len(), |i: int| SpecDataValue::Str(f[i].text())))
}

/// The key pairs of a join as a list of pairs of names.
pub open spec fn pairs_value(left_keys: Seq<SpecSymbol>, right_keys: Seq<SpecSymbol>) -> SpecDataValue {
    SpecDataValue::List(
        Seq::new(
            paired(left_keys, right_keys) as nat,
            |i: int|
                SpecDataValue::List(
                    seq![SpecDataValue::Str(left_keys[i].name), SpecDataValue::Str(right_keys[i].name)],
                ),
        ),
    )
}

/// A row of the table: the stratum, the clause, the relation, the position
/// of the operator, what the operator is, what it refers to, what it joins
/// on, its filters or expression, and the bindings it exposes.
pub open spec fn table_row(
    ctx: SpecRowContext,
    atom_idx: nat,
    op: Seq<char>,
    ref_name: SpecDataValue,
    joins_on: SpecDataValue,
    filters: SpecDataValue,
    out: SpecDataValue,
) -> Seq<SpecDataValue> {
    seq![
        count_value(ctx.stratum),
        count_value(ctx.rule_idx),
        SpecDataValue::Str(ctx.rule),
        count_value(atom_idx),
        SpecDataValue::Str(op),
        ref_name,
        joins_on,
        filters,
        out,
    ]
}

/// What the head of a clause does with its rows: `out` without
/// aggregation, `meet_aggr_out` where every aggregation is a meet
/// aggregation, `aggr_out` otherwise.
pub open spec fn head_op(aggr: Seq<Option<(SpecAggregation, Seq<SpecDataValue>)>>) -> Seq<char>
    decreases aggr.len(),
{
    if aggr.len() == 0 {
        "out"@
    } else {
        let prev = head_op(aggr.drop_last());
        match aggr.last() {
            None => prev,
            Some((a, _)) => if !a.is_meet {
                "aggr_out"@
            } else if prev == "out"@ {
                "meet_aggr_out"@
            } else {
                prev
            },
        }
    }
}

/// The row of the head of a clause.
pub open spec fn head_row(ctx: SpecRowContext, rule: SpecCompiledRule) -> Seq<SpecDataValue> {
    table_row(
        ctx,
        0,
        head_op(rule.aggr),
        SpecDataValue::Null,
        SpecDataValue::Null,
        SpecDataValue::Null,
        names_value(rule.relation.bindings_after_eliminate()),
    )
}

/// The row of a relation that a fixed rule defines.
pub open spec fn algo_row(stratum: nat, rule: Seq<char>) -> Seq<SpecDataValue> {
    table_row(
        SpecRowContext { stratum, rule_idx: 0, rule },
        0,
        "algo"@,
        SpecDataValue::Null,
        SpecDataValue::Null,
        SpecDataValue::Null,
        SpecDataValue::Null,
    )
}

impl SpecPlan {
    /// The operators of the plan that get a row, in the order in which
    /// they are visited: an operator before its children, the right child
    /// of a join before the left one. The unit plan gets no row, and
    /// neither does a join whose left child is the unit plan.
    pub open spec fn visited(self) -> Seq<SpecPlan>
        decreases self,
    {
        match self {
            SpecPlan::Fixed { .. } => if self.is_unit() {
                Seq::empty()
            } else {
                seq![self]
            },
            SpecPlan::TempStore { .. } => seq![self],
            SpecPlan::Stored { .. } => seq![self],
            SpecPlan::Join { left, right, .. } => if left.is_unit() {
                right.visited()
            } else {
                seq![self] + right.visited() + left.visited()
            },
            SpecPlan::Reorder { relation, .. } => seq![self] + relation.visited(),
            SpecPlan::Filter { parent, .. } => seq![self] + parent.visited(),
            SpecPlan::Unification { parent, .. } => seq![self] + parent.visited(),
        }
    }

    /// Whether the plan can be laid out as a table: the kind of every join
    /// that gets a row can be told.
    pub open spec fn explainable(self) -> bool
        decreases self,
    {
        match self {
            SpecPlan::Join { left, right, .. } => if left.is_unit() {
                right.explainable()
            } else {
                self.join_kind_defined() && right.explainable() && left.explainable()
            },
            SpecPlan::Reorder { relation, .. } => relation.explainable(),
            SpecPlan::Filter { parent, .. } => parent.explainable(),
            SpecPlan::Unification { parent, .. } => parent.explainable(),
            _ => true,
        }
    }

    /// What the operator is called in the table.
    pub open spec fn op_name(self) -> Seq<char> {
        match self {
            SpecPlan::Fixed { .. } => "fixed"@,
            SpecPlan::TempStore { .. } => "load_mem"@,
            SpecPlan::Stored { .. } => "load_stored"@,
            SpecPlan::Join { .. } => self.join_type(),
            SpecPlan::Reorder { .. } => "reorder"@,
            SpecPlan::Filter { .. } => "filter"@,
            SpecPlan::Unification { is_multi, .. } => if is_multi {
                "multi-unify"@
            } else {
                "unify"@
            },
        }
    }

    /// What the operator refers to: a scan to its relation, a stored one
    /// with a colon in front; a unification to its variable.
    pub open spec fn ref_value(self) -> SpecDataValue {
        match self {
            SpecPlan::TempStore { storage_key, .. } => SpecDataValue::Str(storage_key.text()),
            SpecPlan::Stored { name, .. } => SpecDataValue::Str(seq![':'] + name),
            SpecPlan::Unification { binding, .. } => SpecDataValue::Str(binding.name),
            _ => SpecDataValue::Null,
        }
    }

    /// The key pairs of a join.
    pub open spec fn joins_value(self) -> SpecDataValue {
        match self {
            SpecPlan::Join { left_keys, right_keys, .. } => pairs_value(left_keys, right_keys),
            _ => SpecDataValue::Null,
        }
    }

    /// The filters of a scan or of a filter operator, or the expression of
    /// a unification.
    pub open spec fn filters_value(self) -> SpecDataValue {
        match self {
            SpecPlan::TempStore { filters, .. } => texts_value(filters),
            SpecPlan::Stored { filters, .. } => texts_value(filters),
            SpecPlan::Filter { filters, .. } => texts_value(filters),
            SpecPlan::Unification { expr, .. } => SpecDataValue::Str(expr.text()),
            _ => SpecDataValue::Null,
        }
    }

    /// The row of the operator.
    pub open spec fn row(self, ctx: SpecRowContext, atom_idx: nat) -> Seq<SpecDataValue> {
        table_row(
            ctx,
            atom_idx,
            self.op_name(),
            self.ref_value(),
            self.joins_value(),
            self.filters_value(),
            names_value(self.bindings_after_eliminate()),
        )
    }
}

/// The rows of the operators, numbered from 1 in the order given.
pub open spec fn tree_rows(ctx: SpecRowContext, nodes: Seq<SpecPlan>) -> Seq<Seq<SpecDataValue>> {
    Seq::new(nodes.len(), |i: int| nodes[i].row(ctx, (i + 1) as nat))
}

/// The rows of a clause: the row of the head, then the rows of the
/// operators of the plan from the one visited last to the one visited
/// first.
pub open spec fn clause_rows(ctx: SpecRowContext, rule: SpecCompiledRule) -> Seq<Seq<SpecDataValue>> {
    seq![head_row(ctx, rule)] + tree_rows(ctx, rule.relation.visited()).reverse()
}

/// The rows of the clauses of a relation, where `first_idx` clauses of the
/// stratum come before them.
pub open spec fn set_rows(stratum: nat, first_idx: nat, rule: Seq<char>, rules: Seq<SpecCompiledRule>) -> Seq<
    Seq<SpecDataValue>,
>
    decreases rules.len(),
{
    if rules.len() == 0 {
        Seq::empty()
    } else {
        set_rows(stratum, first_idx, rule, rules.drop_last()) + clause_rows(
            SpecRowContext { stratum, rule_idx: (first_idx + rules.len() - 1) as nat, rule },
            rules.last(),
        )
    }
}

/// The rows of a stratum, and the number of its clauses.
pub open spec fn stratum_rows(stratum: nat, prog: Seq<(SpecMagicSymbol, SpecCompiledRuleSet)>) -> (
    Seq<Seq<SpecDataValue>>,
    nat,
)
    decreases prog.len(),
{
    if prog.len() == 0 {
        (Seq::empty(), 0)
    } else {
        let prev = stratum_rows(stratum, prog.drop_last());
        match prog.last().1 {
            SpecCompiledRuleSet::Rules(rules) => (
                prev.0 + set_rows(stratum, prev.1, prog.last().0.text(), rules),
                prev.1 + rules.len(),
            ),
            SpecCompiledRuleSet::Fixed(_) => (prev.0.push(algo_row(stratum, prog.last().0.text())), prev.1),
        }
    }
}

/// The rows of a compiled program: those of each stratum in turn.
pub open spec fn explain_rows(strata: Seq<Seq<(SpecMagicSymbol, SpecCompiledRuleSet)>>) -> Seq<Seq<SpecDataValue>>
    decreases strata.len(),
{
    if strata.len() == 0 {
        Seq::empty()
    } else {
        explain_rows(strata.drop_last()) + stratum_rows((strata.len() - 1) as nat, strata.last()).0
    }
}

/// Whether every plan of the set can be laid out as a table.
pub open spec fn set_explainable(set: SpecCompiledRuleSet) -> bool {
    set matches SpecCompiledRuleSet::Rules(rules) ==> forall|i: int|
        0 <= i < rules.len() ==> (#[trigger] rules[i]).relation.explainable()
}

/// Whether every plan of the stratum can be laid out as a table.
pub open spec fn stratum_explainable(prog: Seq<(SpecMagicSymbol, SpecCompiledRuleSet)>) -> bool {
    forall|i: int| 0 <= i < prog.len() ==> set_explainable((#[trigger] prog[i]).1)
}

/// Whether every plan of the program can be laid out as a table.
pub open spec fn program_explainable(strata: Seq<Seq<(SpecMagicSymbol, SpecCompiledRuleSet)>>) -> bool {
    forall|i: int| 0 <= i < strata.len() ==> stratum_explainable(#[trigger] strata[i])
}

/// The headers of the table.
pub open spec fn explain_headers() -> Seq<Seq<char>> {
    seq![
        "stratum"@,
        "rule_idx"@,
        "rule"@,
        "atom_idx"@,
        "op"@,
        "ref"@,
        "joins_on"@,
        "filters/expr"@,
        "out_relation"@,
    ]
}

/// What the rows of one clause have in common.
pub struct RowContext {
    pub stratum: usize,
    pub rule_idx: u128,
    pub rule: String,
}

impl View for RowContext {
    type V = SpecRowContext;

    open spec fn view(&self) -> SpecRowContext {
        SpecRowContext { stratum: self.stratum as nat, rule_idx: self.rule_idx as nat, rule: self.rule@ }
    }
}

/// A count as a value of the table; one beyond the largest integer of the
/// table is put down as the largest.
fn count_of(n: u128) -> (v: DataValue)
    ensures
        v@ == count_value(n as nat),
{
    if n <= 0x7FFF_FFFF_FFFF_FFFF {
        DataValue::Int(n as i64)
    } else {
        DataValue::Int(0x7FFF_FFFF_FFFF_FFFF)
    }
}

/// A text as a value of the table.
fn text_of(s: &str) -> (v: DataValue)
    ensures
        v@ == SpecDataValue::Str(s@),
{
    DataValue::Str(String::from_str(s))
}

/// The names of the bindings as a list of texts.
fn names_list(bindings: &Vec<Symbol>) -> (v: DataValue)
    ensures
        v@ == names_value(bindings.deep_view()),
{
    let mut items: Vec<DataValue> = Vec::new();
    let mut i: usize = 0;
    while i < bindings.len()
        invariant
            i <= bindings.len(),
            items.len() == i,
            forall|j: int| 0 <= j < i ==> items[j]@ == SpecDataValue::Str(bindings[j]@.name),
        decreases bindings.len() - i,
    {
        items.push(DataValue::Str(bindings[i].to_string()));
        i += 1;
    }
    proof {
        lemma_list_view(items);
        assert(items.deep_view() =~= names_value(bindings.deep_view())->List_0);
    }
    DataValue::List(items)
}

/// The filters, each as its text, as a list.
fn texts_list(filters: &Vec<Expr>) -> (v: DataValue)
    ensures
        v@ == texts_value(filters.deep_view()),
{
    let mut items: Vec<DataValue> = Vec::new();
    let mut i: usize = 0;
    while i < filters.len()
        invariant
            i <= filters.len(),
            items.len() == i,
            forall|j: int| 0 <= j < i ==> items[j]@ == SpecDataValue::Str(filters[j]@.text()),
        decreases filters.len() - i,
    {
        items.push(DataValue::Str(filters[i].to_string()));
        i += 1;
    }
    proof {
        lemma_list_view(items);
        assert(items.deep_view() =~= texts_value(filters.deep_view())->List_0);
    }
    DataValue::List(items)
}

/// The key pairs of a join as a list of pairs of names.
fn pairs_list(joiner: &Joiner) -> (v: DataValue)
    ensures
        v@ == pairs_value(joiner.left_keys.deep_view(), joiner.right_keys.deep_view()),
{
    let map = joiner.as_map();
    let mut items: Vec<DataValue> = Vec::new();
    let mut i: usize = 0;
    let ghost lk = joiner.left_keys.deep_view();
    let ghost rk = joiner.right_keys.deep_view();
    while i < map.len()
        invariant
            i <= map.len(),
            items.len() == i,
            lk == joiner.left_keys.deep_view(),
            rk == joiner.right_keys.deep_view(),
            map.len() == paired(lk, rk),
            forall|j: int|
                0 <= j < map.len() ==> (#[trigger] map[j]).0@ == lk[j].name && map[j].1@ == rk[j].name,
            forall|j: int|
                0 <= j < i ==> items[j]@ == SpecDataValue::List(
                    seq![SpecDataValue::Str(lk[j].name), SpecDataValue::Str(rk[j].name)],
                ),
        decreases map.len() - i,
    {
        let mut pair: Vec<DataValue> = Vec::new();
        pair.push(DataValue::Str(map[i].0.clone()));
        pair.push(DataValue::Str(map[i].1.clone()));
        proof {
            lemma_list_view(pair);
            assert(pair.deep_view() =~= seq![
                SpecDataValue::Str(lk[i as int].name),
                SpecDataValue::Str(rk[i as int].name),
            ]);
        }
        items.push(DataValue::List(pair));
        i += 1;
    }
    proof {
        lemma_list_view(items);
        assert(items.deep_view() =~= pairs_value(lk, rk)->List_0);
    }
    DataValue::List(items)
}

/// One row of the table.
fn make_row(
    ctx: &RowContext,
    atom_idx: u128,
    op: &str,
    ref_name: DataValue,
    joins_on: DataValue,
    filters: DataValue,
    out: DataValue,
) -> (row: Vec<DataValue>)
    ensures
        row.deep_view() == table_row(ctx@, atom_idx as nat, op@, ref_name@, joins_on@, filters@, out@),
{
    let mut row: Vec<DataValue> = Vec::new();
    row.push(count_of(ctx.stratum as u128));
    row.push(count_of(ctx.rule_idx));
    row.push(DataValue::Str(ctx.rule.clone()));
    row.push(count_of(atom_idx));
    row.push(text_of(op));
    row.push(ref_name);
    row.push(joins_on);
    row.push(filters);
    row.push(out);
    assert(row.deep_view() =~= table_row(ctx@, atom_idx as nat, op@, ref_name@, joins_on@, filters@, out@));
    row
}

/// What the head row of a clause is called: by the kind of its aggregations.
fn head_op_of(aggr: &Vec<Option<(Aggregation, Vec<DataValue>)>>) -> (s: &'static str)
    ensures
        s@ == head_op(aggr.deep_view()),
{
    let ghost all = aggr.deep_view();
    let mut atom_type: &'static str = "out";
    let mut plain = true;
    let mut i: usize = 0;
    proof {
        reveal_strlit("out");
        reveal_strlit("aggr_out");
        reveal_strlit("meet_aggr_out");
    }
    while i < aggr.len()
        invariant
            i <= aggr.len(),
            all == aggr.deep_view(),
            atom_type@ == head_op(all.take(i as int)),
            plain == (atom_type@ == "out"@),
        decreases aggr.len() - i,
    {
        proof {
            reveal_strlit("out");
            reveal_strlit("aggr_out");
            reveal_strlit("meet_aggr_out");
            assert(all.take(i + 1).drop_last() =~= all.take(i as int));
            assert(all.take(i + 1).last() == aggr[i as int].deep_view());
        }
        match &aggr[i] {
            None => {},
            Some((a, _)) => {
                if a.is_meet {
                    if plain {
                        atom_type = "meet_aggr_out";
                        plain = false;
                    }
                } else {
                    atom_type = "aggr_out";
                    plain = false;
                }
            },
        }
        i += 1;
    }
    assert(all.take(aggr.len() as int) =~= all);
    atom_type
}

/// Adds the rows of the operators of a plan in the order in which they are
/// visited.
fn visit(rel: &RelAlgebra, ctx: &RowContext, rows: &mut Vec<Vec<DataValue>>, Ghost(done): Ghost<Seq<SpecPlan>>)
    requires
        rel@.explainable(),
        old(rows).deep_view() == tree_rows(ctx@, done),
    ensures
        final(rows).deep_view() == tree_rows(ctx@, done + rel@.visited()),
    decreases *rel,
{
    let ghost before = rows.deep_view();
    match rel {
        RelAlgebra::Fixed(_) => {
            if rel.is_unit() {
                assert(done + rel@.visited() =~= done);
                return ;
            }
            let out = names_list(&rel.bindings_after_eliminate());
            let row = make_row(ctx, rows.len() as u128 + 1, "fixed", DataValue::Null, DataValue::Null, DataValue::Null, out);
            rows.push(row);
            proof {
                assert(rows.deep_view() =~= before.push(row.deep_view()));
                assert(rows.deep_view() =~= tree_rows(ctx@, done + rel@.visited()));
            }
        },
        RelAlgebra::TempStore(t) => {
            let out = names_list(&rel.bindings_after_eliminate());
            let row = make_row(
                ctx,
                rows.len() as u128 + 1,
                "load_mem",
                DataValue::Str(t.storage_key.to_string()),
                DataValue::Null,
                texts_list(&t.filters),
                out,
            );
            rows.push(row);
            proof {
                assert(rows.deep_view() =~= before.push(row.deep_view()));
                assert(rows.deep_view() =~= tree_rows(ctx@, done + rel@.visited()));
            }
        },
        RelAlgebra::Stored(s) => {
            let out = names_list(&rel.bindings_after_eliminate());
            let mut name = String::from_str(":");
            name.append(s.name.as_str());
            proof {
                reveal_strlit(":");
                assert(name@ =~= seq![':'] + s.name@);
            }
            let row = make_row(
                ctx,
                rows.len() as u128 + 1,
                "load_stored",
                DataValue::Str(name),
                DataValue::Null,
                texts_list(&s.filters),
                out,
            );
            rows.push(row);
            proof {
                assert(rows.deep_view() =~= before.push(row.deep_view()));
                assert(rows.deep_view() =~= tree_rows(ctx@, done + rel@.visited()));
            }
        },
        RelAlgebra::Join(inner) => {
            if inner.left.is_unit() {
                visit(&inner.right, ctx, rows, Ghost(done));
                return ;
            }
            let t = inner.join_type();
            let out = names_list(&rel.bindings_after_eliminate());
            let row = make_row(
                ctx,
                rows.len() as u128 + 1,
                t,
                DataValue::Null,
                pairs_list(&inner.joiner),
                DataValue::Null,
                out,
            );
            rows.push(row);
            proof {
                assert(rows.deep_view() =~= before.push(row.deep_view()));
                assert(rows.deep_view() =~= tree_rows(ctx@, done.push(rel@)));
            }
            visit(&inner.right, ctx, rows, Ghost(done.push(rel@)));
            visit(&inner.left, ctx, rows, Ghost(done.push(rel@) + inner.right@.visited()));
            proof {
                assert(done.push(rel@) + inner.right@.visited() + inner.left@.visited() =~= done + rel@.visited());
            }
        },
        RelAlgebra::Reorder(r) => {
            let out = names_list(&rel.bindings_after_eliminate());
            let row = make_row(ctx, rows.len() as u128 + 1, "reorder", DataValue::Null, DataValue::Null, DataValue::Null, out);
            rows.push(row);
            proof {
                assert(rows.deep_view() =~= before.push(row.deep_view()));
                assert(rows.deep_view() =~= tree_rows(ctx@, done.push(rel@)));
            }
            visit(&r.relation, ctx, rows, Ghost(done.push(rel@)));
            proof {
                assert(done.push(rel@) + r.relation@.visited() =~= done + rel@.visited());
            }
        },
        RelAlgebra::Filter(f) => {
            let out = names_list(&rel.bindings_after_eliminate());
            let row = make_row(
                ctx,
                rows.len() as u128 + 1,
                "filter",
                DataValue::Null,
                DataValue::Null,
                texts_list(&f.filters),
                out,
            );
            rows.push(row);
            proof {
                assert(rows.deep_view() =~= before.push(row.deep_view()));
                assert(rows.deep_view() =~= tree_rows(ctx@, done.push(rel@)));
            }
            visit(&f.parent, ctx, rows, Ghost(done.push(rel@)));
            proof {
                assert(done.push(rel@) + f.parent@.visited() =~= done + rel@.visited());
            }
        },
        RelAlgebra::Unification(u) => {
            let out = names_list(&rel.bindings_after_eliminate());
            let op = if u.is_multi {
                "multi-unify"
            } else {
                "unify"
            };
            let row = make_row(
                ctx,
                rows.len() as u128 + 1,
                op,
                DataValue::Str(u.binding.name.clone()),
                DataValue::Null,
                DataValue::Str(u.expr.to_string()),
                out,
            );
            rows.push(row);
            proof {
                assert(rows.deep_view() =~= before.push(row.deep_view()));
                assert(rows.deep_view() =~= tree_rows(ctx@, done.push(rel@)));
            }
            visit(&u.parent, ctx, rows, Ghost(done.push(rel@)));
            proof {
                assert(done.push(rel@) + u.parent@.visited() =~= done + rel@.visited());
            }
        },
    }
}

/// Whether each of the first `upto` keys occurs in the bindings.
fn keys_bound(keys: &Vec<Symbol>, upto: usize, bindings: &Vec<Symbol>) -> (b: bool)
    requires
        upto <= keys.len(),
    ensures
        b == keys_are_bound(keys.deep_view().take(upto as int), bindings.deep_view()),
{
    let ghost ks = keys.deep_view().take(upto as int);
    let mut i: usize = 0;
    while i < upto
        invariant
            i <= upto,
            upto <= keys.len(),
            ks == keys.deep_view().take(upto as int),
            forall|j: int| 0 <= j < i ==> has_name(bindings.deep_view(), (#[trigger] ks[j]).name),
        decreases upto - i,
    {
        proof {
            assert(ks[i as int] == keys[i as int]@);
            lemma_position_of(bindings.deep_view(), ks[i as int].name);
        }
        if find_position(bindings, &keys[i]).is_none() {
            return false;
        }
        i += 1;
    }
    true
}

impl RelAlgebra {
    /// Whether the plan can be laid out as a table.
    pub fn is_explainable(&self) -> (b: bool)
        ensures
            b == self@.explainable(),
        decreases *self,
    {
        match self {
            RelAlgebra::Join(inner) => {
                if inner.left.is_unit() {
                    return inner.right.is_explainable();
                }
                let kind_defined = match &inner.right {
                    RelAlgebra::Reorder(_) => false,
                    RelAlgebra::TempStore(_) | RelAlgebra::Stored(_) => {
                        let n = if inner.joiner.left_keys.len() <= inner.joiner.right_keys.len() {
                            inner.joiner.left_keys.len()
                        } else {
                            inner.joiner.right_keys.len()
                        };
                        keys_bound(&inner.joiner.left_keys, n, &inner.left.bindings_after_eliminate()) && keys_bound(
                            &inner.joiner.right_keys,
                            n,
                            &inner.right.bindings_after_eliminate(),
                        )
                    },
                    _ => true,
                };
                kind_defined && inner.right.is_explainable() && inner.left.is_explainable()
            },
            RelAlgebra::Reorder(r) => r.relation.is_explainable(),
            RelAlgebra::Filter(f) => f.parent.is_explainable(),
            RelAlgebra::Unification(u) => u.parent.is_explainable(),
            _ => true,
        }
    }
}

/// Whether the plan of every clause can be laid out as a table.
fn rules_can_be_explained(rules: &Vec<CompiledRule>) -> (b: bool)
    ensures
        b == forall|i: int| 0 <= i < rules.len() ==> (#[trigger] rules.deep_view()[i]).relation.explainable(),
{
    let mut i: usize = 0;
    while i < rules.len()
        invariant
            i <= rules.len(),
            forall|j: int| 0 <= j < i ==> (#[trigger] rules.deep_view()[j]).relation.explainable(),
        decreases rules.len() - i,
    {
        assert(rules.deep_view()[i as int] == rules[i as int]@);
        if !rules[i].relation.is_explainable() {
            return false;
        }
        i += 1;
    }
    true
}

/// Whether every plan of the set can be laid out as a table.
fn set_can_be_explained(set: &CompiledRuleSet) -> (b: bool)
    ensures
        b == set_explainable(set@),
{
    match set {
        CompiledRuleSet::Rules(rules) => rules_can_be_explained(rules),
        CompiledRuleSet::Fixed(_) => true,
    }
}

/// Whether every plan of the stratum can be laid out as a table.
fn stratum_can_be_explained(prog: &CompiledProgram) -> (b: bool)
    ensures
        b == stratum_explainable(prog.deep_view()),
{
    let mut i: usize = 0;
    while i < prog.len()
        invariant
            i <= prog.len(),
            forall|j: int| 0 <= j < i ==> set_explainable((#[trigger] prog.deep_view()[j]).1),
        decreases prog.len() - i,
    {
        assert(prog.deep_view()[i as int].1 == prog[i as int].1@);
        if !set_can_be_explained(&prog[i].1) {
            return false;
        }
        i += 1;
    }
    true
}

/// Whether every plan of the program can be laid out as a table.
pub fn can_be_explained(strata: &Vec<CompiledProgram>) -> (b: bool)
    ensures
        b == program_explainable(strata.deep_view()),
{
    let mut i: usize = 0;
    while i < strata.len()
        invariant
            i <= strata.len(),
            forall|j: int| 0 <= j < i ==> stratum_explainable(#[trigger] strata.deep_view()[j]),
        decreases strata.len() - i,
    {
        assert(strata.deep_view()[i as int] == strata[i as int].deep_view());
        if !stratum_can_be_explained(&strata[i]) {
            return false;
        }
        i += 1;
    }
    true
}

/// Adds the rows of one clause: the head row, then the operators of the plan.
fn explain_clause(rule: &CompiledRule, ctx: &RowContext, out: &mut Vec<Vec<DataValue>>)
    requires
        rule@.relation.explainable(),
    ensures
        final(out).deep_view() == old(out).deep_view() + clause_rows(ctx@, rule@),
{
    let ghost base = out.deep_view();
    let head = make_row(
        ctx,
        0,
        head_op_of(&rule.aggr),
        DataValue::Null,
        DataValue::Null,
        DataValue::Null,
        names_list(&rule.relation.bindings_after_eliminate()),
    );
    out.push(head);
    let mut tree: Vec<Vec<DataValue>> = Vec::new();
    proof {
        assert(tree.deep_view() =~= tree_rows(ctx@, Seq::empty()));
        assert(Seq::<SpecPlan>::empty() + rule.relation@.visited() =~= rule.relation@.visited());
    }
    visit(&rule.relation, ctx, &mut tree, Ghost(Seq::empty()));
    let ghost all = tree.deep_view();
    let ghost n = tree.len();
    proof {
        assert(out.deep_view() =~= base.push(head_row(ctx@, rule@)) + all.reverse().take(0));
    }
    while tree.len() > 0
        invariant
            tree.len() <= n,
            n == all.len(),
            tree.deep_view() == all.take(tree.len() as int),
            out.deep_view() == base.push(head_row(ctx@, rule@)) + all.reverse().take(n - tree.len()),
        decreases tree.len(),
    {
        let ghost m = tree.len();
        let ghost before = out.deep_view();
        let ghost tv = tree.deep_view();
        let row = tree.pop().unwrap();
        out.push(row);
        proof {
            assert(tree.deep_view() =~= all.take(m - 1));
            assert(row.deep_view() == tv[m - 1]);
            assert(row.deep_view() == all[m - 1]);
            assert(all.reverse()[n - m] == all[m - 1]);
            assert(out.deep_view() =~= before.push(row.deep_view()));
            assert(all.reverse().take(n - m + 1) =~= all.reverse().take(n - m).push(all[m - 1]));
            assert(out.deep_view() =~= base.push(head_row(ctx@, rule@)) + all.reverse().take(n - m + 1));
        }
    }
    proof {
        assert(all.reverse().take(n as int) =~= all.reverse());
        assert(base.push(head_row(ctx@, rule@)) + all.reverse() =~= base + clause_rows(ctx@, rule@));
    }
}

/// Adds the rows of one relation, clause by clause.
fn explain_set(
    rules: &Vec<CompiledRule>,
    stratum: usize,
    first_idx: u128,
    name: &MagicSymbol,
    out: &mut Vec<Vec<DataValue>>,
)
    requires
        first_idx + rules.len() <= u128::MAX,
        forall|i: int| 0 <= i < rules.len() ==> (#[trigger] rules.deep_view()[i]).relation.explainable(),
    ensures
        final(out).deep_view() == old(out).deep_view() + set_rows(
            stratum as nat,
            first_idx as nat,
            name@.text(),
            rules.deep_view(),
        ),
{
    let ghost base = out.deep_view();
    let ghost all = rules.deep_view();
    let mut i: usize = 0;
    proof {
        assert(base + set_rows(stratum as nat, first_idx as nat, name@.text(), all.take(0)) =~= base);
    }
    while i < rules.len()
        invariant
            i <= rules.len(),
            all == rules.deep_view(),
            first_idx + rules.len() <= u128::MAX,
            forall|j: int| 0 <= j < rules.len() ==> (#[trigger] rules.deep_view()[j]).relation.explainable(),
            out.deep_view() == base + set_rows(stratum as nat, first_idx as nat, name@.text(), all.take(i as int)),
        decreases rules.len() - i,
    {
        let ctx = RowContext { stratum, rule_idx: first_idx + i as u128, rule: name.to_string() };
        let ghost before = out.deep_view();
        proof {
            assert(all.take(i + 1).drop_last() =~= all.take(i as int));
            assert(all.take(i + 1).last() == rules[i as int]@);
            assert(rules.deep_view()[i as int].relation.explainable());
        }
        explain_clause(&rules[i], &ctx, out);
        proof {
            let prev = set_rows(stratum as nat, first_idx as nat, name@.text(), all.take(i as int));
            assert(out.deep_view() =~= base + (prev + clause_rows(ctx@, rules[i as int]@)));
        }
        i += 1;
    }
    proof {
        assert(all.take(rules.len() as int) =~= all);
    }
}

/// Adds the rows of one stratum, relation by relation.
fn explain_stratum(prog: &CompiledProgram, stratum: usize, out: &mut Vec<Vec<DataValue>>)
    requires
        stratum_explainable(prog.deep_view()),
    ensures
        final(out).deep_view() == old(out).deep_view() + stratum_rows(stratum as nat, prog.deep_view()).0,
{
    let ghost base = out.deep_view();
    let ghost all = prog.deep_view();
    let mut clauses: u128 = 0;
    let mut i: usize = 0;
    proof {
        assert(base + stratum_rows(stratum as nat, all.take(0)).0 =~= base);
    }
    while i < prog.len()
        invariant
            i <= prog.len(),
            all == prog.deep_view(),
            stratum_explainable(all),
            clauses <= i * 0xFFFF_FFFF_FFFF_FFFF,
            clauses == stratum_rows(stratum as nat, all.take(i as int)).1,
            out.deep_view() == base + stratum_rows(stratum as nat, all.take(i as int)).0,
        decreases prog.len() - i,
    {
        let ghost before = out.deep_view();
        let ghost prev = stratum_rows(stratum as nat, all.take(i as int));
        proof {
            assert(all.take(i + 1).drop_last() =~= all.take(i as int));
            assert(all.take(i + 1).last() == all[i as int]);
            assert(all[i as int].1 == prog[i as int].1@);
            assert(all[i as int].0 == prog[i as int].0@);
            assert(set_explainable(all[i as int].1));
        }
        match &prog[i].1 {
            CompiledRuleSet::Rules(rules) => {
                explain_set(rules, stratum, clauses, &prog[i].0, out);
                clauses = clauses + rules.len() as u128;
                proof {
                    assert(out.deep_view() =~= base + (prev.0 + set_rows(
                        stratum as nat,
                        prev.1,
                        all[i as int].0.text(),
                        rules.deep_view(),
                    )));
                }
            },
            CompiledRuleSet::Fixed(_) => {
                let ctx = RowContext { stratum, rule_idx: 0, rule: prog[i].0.to_string() };
                let row = make_row(
                    &ctx,
                    0,
                    "algo",
                    DataValue::Null,
                    DataValue::Null,
                    DataValue::Null,
                    DataValue::Null,
                );
                out.push(row);
                proof {
                    assert(out.deep_view() =~= before.push(row.deep_view()));
                    assert(out.deep_view() =~= base + prev.0.push(algo_row(stratum as nat, all[i as int].0.text())));
                }
            },
        }
        i += 1;
    }
    proof {
        assert(all.take(prog.len() as int) =~= all);
    }
}

/// Lays a compiled program out as a table with one row for the head of
/// each clause and one for each operator of its plan.
pub fn explain_compiled(strata: &Vec<CompiledProgram>) -> (r: Result<NamedRows, CompileError>)
    requires
        program_explainable(strata.deep_view()),
    ensures
        r matches Ok(t) && t.headers.deep_view() == explain_headers() && t.rows.deep_view() == explain_rows(
            strata.deep_view(),
        ) && t.next is None,
{
    let mut headers: Vec<String> = Vec::new();
    headers.push(String::from_str("stratum"));
    headers.push(String::from_str("rule_idx"));
    headers.push(String::from_str("rule"));
    headers.push(String::from_str("atom_idx"));
    headers.push(String::from_str("op"));
    headers.push(String::from_str("ref"));
    headers.push(String::from_str("joins_on"));
    headers.push(String::from_str("filters/expr"));
    headers.push(String::from_str("out_relation"));
    assert(headers.deep_view() =~= explain_headers());
    let mut rows: Vec<Vec<DataValue>> = Vec::new();
    let ghost all = strata.deep_view();
    let mut i: usize = 0;
    assert(rows.deep_view() =~= explain_rows(all.take(0)));
    while i < strata.len()
        invariant
            i <= strata.len(),
            all == strata.deep_view(),
            program_explainable(all),
            rows.deep_view() == explain_rows(all.take(i as int)),
        decreases strata.len() - i,
    {
        proof {
            assert(all.take(i + 1).drop_last() =~= all.take(i as int));
            assert(all.take(i + 1).last() == strata[i as int].deep_view());
            assert(stratum_explainable(all[i as int]));
        }
        explain_stratum(&strata[i], i, &mut rows);
        i += 1;
    }
    proof {
        assert(all.take(strata.len() as int) =~= all);
    }
    Ok(NamedRows::new(headers, rows))
}

} // verus!
