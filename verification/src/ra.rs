use vstd::prelude::*;
use crate::error::{CompileError, SpecCompileError};
use crate::expr::{fill_all, first_unbound_in, Expr, SpecExpr};
use crate::magic::{MagicSymbol, SpecMagicSymbol};
use crate::symb::{clone_symbols, name_set, unused_names, without, SourceSpan, SpecSymbol, Symbol};
use crate::symbol_set::{lemma_name_set_push, SymbolSet};
use crate::value::{DataValue, SpecDataValue};

verus! {

/// The mathematical value of a plan: the tree of relational-algebra
/// operators that a [`RelAlgebra`] stands for.
pub enum SpecPlan {
    Fixed { bindings: Seq<SpecSymbol>, data: Seq<Seq<SpecDataValue>>, to_eliminate: Set<Seq<char>>, span: SourceSpan },
    TempStore { bindings: Seq<SpecSymbol>, storage_key: SpecMagicSymbol, filters: Seq<SpecExpr>, span: SourceSpan },
    Stored { bindings: Seq<SpecSymbol>, filters: Seq<SpecExpr>, span: SourceSpan, name: Seq<char> },
    Join {
        left: Box<SpecPlan>,
        right: Box<SpecPlan>,
        left_keys: Seq<SpecSymbol>,
        right_keys: Seq<SpecSymbol>,
        to_eliminate: Set<Seq<char>>,
        span: SourceSpan,
    },
    Reorder { relation: Box<SpecPlan>, new_order: Seq<SpecSymbol> },
    Filter { parent: Box<SpecPlan>, filters: Seq<SpecExpr>, to_eliminate: Set<Seq<char>>, span: SourceSpan },
    Unification {
        parent: Box<SpecPlan>,
        binding: SpecSymbol,
        expr: SpecExpr,
        is_multi: bool,
        to_eliminate: Set<Seq<char>>,
        span: SourceSpan,
    },
}

/// A plan: a closed tree of operators, each node owning its children.
#[derive(Debug)]
pub enum RelAlgebra {
    Fixed(InlineFixedRA),
    TempStore(TempStoreRA),
    Stored(StoredRA),
    Join(Box<InnerJoin>),
    Reorder(ReorderRA),
    Filter(FilteredRA),
    Unification(UnificationRA),
}

/// A view of a child in a given order of the bindings.
#[derive(Debug)]
pub struct ReorderRA {
    pub relation: Box<RelAlgebra>,
    pub new_order: Vec<Symbol>,
}

/// Tests applied to what a child puts out.
#[derive(Debug)]
pub struct FilteredRA {
    pub parent: Box<RelAlgebra>,
    pub filters: Vec<Expr>,
    pub to_eliminate: SymbolSet,
    pub span: SourceSpan,
}

/// Rows given in place.
#[derive(Debug)]
pub struct InlineFixedRA {
    pub bindings: Vec<Symbol>,
    pub data: Vec<Vec<DataValue>>,
    pub to_eliminate: SymbolSet,
    pub span: SourceSpan,
}

/// A scan of a relation derived earlier in the same evaluation.
#[derive(Debug)]
pub struct TempStoreRA {
    pub bindings: Vec<Symbol>,
    pub storage_key: MagicSymbol,
    pub filters: Vec<Expr>,
    pub span: SourceSpan,
}

/// A scan of a stored relation.
#[derive(Debug)]
pub struct StoredRA {
    pub bindings: Vec<Symbol>,
    pub filters: Vec<Expr>,
    pub span: SourceSpan,
    pub name: String,
}

/// An inner join of two children on pairs of keys.
#[derive(Debug)]
pub struct InnerJoin {
    pub left: RelAlgebra,
    pub right: RelAlgebra,
    pub joiner: Joiner,
    pub to_eliminate: SymbolSet,
    pub span: SourceSpan,
}

/// The key pairs of a join: the `i`-th left key is matched with the `i`-th
/// right key.
#[derive(Debug)]
pub struct Joiner {
    pub left_keys: Vec<Symbol>,
    pub right_keys: Vec<Symbol>,
}

/// A new binding computed from what a child puts out.
#[derive(Debug)]
pub struct UnificationRA {
    pub parent: Box<RelAlgebra>,
    pub binding: Symbol,
    pub expr: Expr,
    pub is_multi: bool,
    pub to_eliminate: SymbolSet,
    pub span: SourceSpan,
}

/// What a plan stands for.
pub open spec fn plan_view(p: RelAlgebra) -> SpecPlan
    decreases p,
{
    match p {
        RelAlgebra::Fixed(f) => SpecPlan::Fixed {
            bindings: f.bindings.deep_view(),
            data: f.data.deep_view(),
            to_eliminate: f.to_eliminate@,
            span: f.span,
        },
        RelAlgebra::TempStore(t) => SpecPlan::TempStore {
            bindings: t.bindings.deep_view(),
            storage_key: t.storage_key@,
            filters: t.filters.deep_view(),
            span: t.span,
        },
        RelAlgebra::Stored(s) => SpecPlan::Stored {
            bindings: s.bindings.deep_view(),
            filters: s.filters.deep_view(),
            span: s.span,
            name: s.name@,
        },
        RelAlgebra::Join(j) => SpecPlan::Join {
            left: Box::new(plan_view(j.left)),
            right: Box::new(plan_view(j.right)),
            left_keys: j.joiner.left_keys.deep_view(),
            right_keys: j.joiner.right_keys.deep_view(),
            to_eliminate: j.to_eliminate@,
            span: j.span,
        },
        RelAlgebra::Reorder(r) => SpecPlan::Reorder {
            relation: Box::new(plan_view(*r.relation)),
            new_order: r.new_order.deep_view(),
        },
        RelAlgebra::Filter(f) => SpecPlan::Filter {
            parent: Box::new(plan_view(*f.parent)),
            filters: f.filters.deep_view(),
            to_eliminate: f.to_eliminate@,
            span: f.span,
        },
        RelAlgebra::Unification(u) => SpecPlan::Unification {
            parent: Box::new(plan_view(*u.parent)),
            binding: u.binding@,
            expr: u.expr@,
            is_multi: u.is_multi,
            to_eliminate: u.to_eliminate@,
            span: u.span,
        },
    }
}

impl View for RelAlgebra {
    type V = SpecPlan;

    open spec fn view(&self) -> SpecPlan {
        plan_view(*self)
    }
}

impl DeepView for RelAlgebra {
    type V = SpecPlan;

    open spec fn deep_view(&self) -> SpecPlan {
        plan_view(*self)
    }
}

impl View for InlineFixedRA {
    type V = SpecPlan;

    open spec fn view(&self) -> SpecPlan {
        SpecPlan::Fixed {
            bindings: self.bindings.deep_view(),
            data: self.data.deep_view(),
            to_eliminate: self.to_eliminate@,
            span: self.span,
        }
    }
}

impl View for TempStoreRA {
    type V = SpecPlan;

    open spec fn view(&self) -> SpecPlan {
        SpecPlan::TempStore {
            bindings: self.bindings.deep_view(),
            storage_key: self.storage_key@,
            filters: self.filters.deep_view(),
            span: self.span,
        }
    }
}

impl View for StoredRA {
    type V = SpecPlan;

    open spec fn view(&self) -> SpecPlan {
        SpecPlan::Stored {
            bindings: self.bindings.deep_view(),
            filters: self.filters.deep_view(),
            span: self.span,
            name: self.name@,
        }
    }
}

impl View for InnerJoin {
    type V = SpecPlan;

    open spec fn view(&self) -> SpecPlan {
        SpecPlan::Join {
            left: Box::new(self.left@),
            right: Box::new(self.right@),
            left_keys: self.joiner.left_keys.deep_view(),
            right_keys: self.joiner.right_keys.deep_view(),
            to_eliminate: self.to_eliminate@,
            span: self.span,
        }
    }
}

impl View for ReorderRA {
    type V = SpecPlan;

    open spec fn view(&self) -> SpecPlan {
        SpecPlan::Reorder { relation: Box::new(self.relation@), new_order: self.new_order.deep_view() }
    }
}

impl View for FilteredRA {
    type V = SpecPlan;

    open spec fn view(&self) -> SpecPlan {
        SpecPlan::Filter {
            parent: Box::new(self.parent@),
            filters: self.filters.deep_view(),
            to_eliminate: self.to_eliminate@,
            span: self.span,
        }
    }
}

impl View for UnificationRA {
    type V = SpecPlan;

    open spec fn view(&self) -> SpecPlan {
        SpecPlan::Unification {
            parent: Box::new(self.parent@),
            binding: self.binding@,
            expr: self.expr@,
            is_multi: self.is_multi,
            to_eliminate: self.to_eliminate@,
            span: self.span,
        }
    }
}

impl SpecPlan {
    /// The plan that puts out exactly one row without columns.
    pub open spec fn unit(span: SourceSpan) -> SpecPlan {
        SpecPlan::Fixed { bindings: Seq::empty(), data: seq![Seq::empty()], to_eliminate: Set::empty(), span }
    }

    /// The inner join of `self` and `right` on the given key pairs, with
    /// nothing marked for elimination yet.
    pub open spec fn join(
        self,
        right: SpecPlan,
        left_keys: Seq<SpecSymbol>,
        right_keys: Seq<SpecSymbol>,
        span: SourceSpan,
    ) -> SpecPlan {
        SpecPlan::Join {
            left: Box::new(self),
            right: Box::new(right),
            left_keys,
            right_keys,
            to_eliminate: Set::empty(),
            span,
        }
    }

    /// The product of `self` and `right`: a join without keys.
    pub open spec fn cartesian_join(self, right: SpecPlan, span: SourceSpan) -> SpecPlan {
        self.join(right, Seq::empty(), Seq::empty(), span)
    }

    /// `self` with its bindings put out in the order `new_order`.
    pub open spec fn reorder(self, new_order: Seq<SpecSymbol>) -> SpecPlan {
        SpecPlan::Reorder { relation: Box::new(self), new_order }
    }

    /// `self` with the new binding `binding`, computed from `expr`.
    pub open spec fn unify(self, binding: SpecSymbol, expr: SpecExpr, is_multi: bool, span: SourceSpan) -> SpecPlan {
        SpecPlan::Unification {
            parent: Box::new(self),
            binding,
            expr,
            is_multi,
            to_eliminate: Set::empty(),
            span,
        }
    }

    /// The scan of the stored relation `name`.
    pub open spec fn relation(bindings: Seq<SpecSymbol>, span: SourceSpan, name: Seq<char>) -> SpecPlan {
        SpecPlan::Stored { bindings, filters: Seq::empty(), span, name }
    }

    /// The scan of the derived relation `storage_key`.
    pub open spec fn derived(bindings: Seq<SpecSymbol>, storage_key: SpecMagicSymbol, span: SourceSpan) -> SpecPlan {
        SpecPlan::TempStore { bindings, storage_key, filters: Seq::empty(), span }
    }

    /// Where the operator was written; a reordering has the place of its
    /// child.
    pub open spec fn span(self) -> SourceSpan
        decreases self,
    {
        match self {
            SpecPlan::Fixed { span, .. } => span,
            SpecPlan::TempStore { span, .. } => span,
            SpecPlan::Stored { span, .. } => span,
            SpecPlan::Join { span, .. } => span,
            SpecPlan::Reorder { relation, .. } => relation.span(),
            SpecPlan::Filter { span, .. } => span,
            SpecPlan::Unification { span, .. } => span,
        }
    }

    /// Whether the plan is given in place, without columns and with exactly
    /// one row.
    pub open spec fn is_unit(self) -> bool {
        self matches SpecPlan::Fixed { bindings, data, .. } && bindings.len() == 0 && data.len() == 1
    }

    /// The names that the operator drops from its output, for the operators
    /// that can drop any.
    pub open spec fn eliminate_set(self) -> Option<Set<Seq<char>>> {
        match self {
            SpecPlan::Fixed { to_eliminate, .. } => Some(to_eliminate),
            SpecPlan::TempStore { .. } => None,
            SpecPlan::Stored { .. } => None,
            SpecPlan::Join { to_eliminate, .. } => Some(to_eliminate),
            SpecPlan::Reorder { .. } => None,
            SpecPlan::Filter { to_eliminate, .. } => Some(to_eliminate),
            SpecPlan::Unification { to_eliminate, .. } => Some(to_eliminate),
        }
    }

    /// The bindings that the operator has before it drops any: what its
    /// children expose, followed by what it adds.
    pub open spec fn bindings_before_eliminate(self) -> Seq<SpecSymbol>
        decreases self, 0int,
    {
        match self {
            SpecPlan::Fixed { bindings, .. } => bindings,
            SpecPlan::TempStore { bindings, .. } => bindings,
            SpecPlan::Stored { bindings, .. } => bindings,
            SpecPlan::Join { left, right, .. } => left.bindings_after_eliminate() + right.bindings_after_eliminate(),
            SpecPlan::Reorder { new_order, .. } => new_order,
            SpecPlan::Filter { parent, .. } => parent.bindings_after_eliminate(),
            SpecPlan::Unification { parent, binding, .. } => parent.bindings_after_eliminate().push(binding),
        }
    }

    /// The bindings that the operator exposes: those it has, without the
    /// ones it drops.
    pub open spec fn bindings_after_eliminate(self) -> Seq<SpecSymbol>
        decreases self, 1int,
    {
        match self.eliminate_set() {
            Some(drop) => without(self.bindings_before_eliminate(), drop),
            None => self.bindings_before_eliminate(),
        }
    }
}

impl SpecPlan {
    /// The names that the left child of a join must keep besides those
    /// needed above the join: the left keys, and, where the right child is a
    /// scan of a derived relation, the variables of that scan's filters.
    pub open spec fn left_needs(self) -> Set<Seq<char>> {
        match self {
            SpecPlan::Join { right, left_keys, .. } => name_set(left_keys).union(
                match *right {
                    SpecPlan::TempStore { filters, .. } => SpecExpr::bindings_of_all(filters),
                    _ => Set::empty(),
                },
            ),
            _ => Set::empty(),
        }
    }

    /// The plan after the pass that marks dead bindings, where `used` holds
    /// the names that are needed above this operator. An operator that can
    /// drop bindings adds to the names it drops those of its bindings that
    /// are not in `used`; its children are treated with `used` and the names
    /// that the operator itself reads.
    pub open spec fn eliminated(self, used: Set<Seq<char>>) -> SpecPlan
        decreases self,
    {
        match self {
            SpecPlan::Fixed { bindings, data, to_eliminate, span } => SpecPlan::Fixed {
                bindings,
                data,
                to_eliminate: to_eliminate.union(unused_names(bindings, used)),
                span,
            },
            SpecPlan::TempStore { .. } => self,
            SpecPlan::Stored { .. } => self,
            SpecPlan::Join { left, right, left_keys, right_keys, to_eliminate, span } => SpecPlan::Join {
                left: Box::new(left.eliminated(used.union(self.left_needs()))),
                right: Box::new(right.eliminated(used.union(name_set(right_keys)))),
                left_keys,
                right_keys,
                to_eliminate: to_eliminate.union(unused_names(self.bindings_before_eliminate(), used)),
                span,
            },
            SpecPlan::Reorder { relation, new_order } => SpecPlan::Reorder {
                relation: Box::new(relation.eliminated(used)),
                new_order,
            },
            SpecPlan::Filter { parent, filters, to_eliminate, span } => SpecPlan::Filter {
                parent: Box::new(parent.eliminated(used.union(SpecExpr::bindings_of_all(filters)))),
                filters,
                to_eliminate: to_eliminate.union(unused_names(parent.bindings_before_eliminate(), used)),
                span,
            },
            SpecPlan::Unification { parent, binding, expr, is_multi, to_eliminate, span } => SpecPlan::Unification {
                parent: Box::new(parent.eliminated(used.union(expr.bindings()))),
                binding,
                expr,
                is_multi,
                to_eliminate: to_eliminate.union(unused_names(parent.bindings_before_eliminate(), used)),
                span,
            },
        }
    }
}

/// Adds to `acc` the bindings that are not in `used`.
pub fn mark_unused(acc: &mut SymbolSet, bindings: &Vec<Symbol>, used: &SymbolSet)
    ensures
        final(acc)@ == old(acc)@.union(unused_names(bindings.deep_view(), used@)),
{
    let ghost all = bindings.deep_view();
    let mut i: usize = 0;
    assert(acc@ =~= old(acc)@.union(unused_names(all.take(0), used@)));
    while i < bindings.len()
        invariant
            i <= bindings.len(),
            all == bindings.deep_view(),
            acc@ == old(acc)@.union(unused_names(all.take(i as int), used@)),
        decreases bindings.len() - i,
    {
        proof {
            lemma_unused_names_push(all.take(i as int), all[i as int], used@);
            assert(all.take(i + 1) =~= all.take(i as int).push(all[i as int]));
        }
        if !used.contains(&bindings[i]) {
            acc.insert(bindings[i].clone());
        }
        assert(acc@ =~= old(acc)@.union(unused_names(all.take(i + 1), used@)));
        i += 1;
    }
    assert(all.take(bindings.len() as int) =~= all);
}

/// The unused names of a list with one more symbol: those of the list, and
/// the name of that symbol where it is not used.
pub proof fn lemma_unused_names_push(s: Seq<SpecSymbol>, x: SpecSymbol, used: Set<Seq<char>>)
    ensures
        unused_names(s.push(x), used) == if used.contains(x.name) {
            unused_names(s, used)
        } else {
            unused_names(s, used).insert(x.name)
        },
{
    lemma_name_set_push(s, x);
    let a = unused_names(s.push(x), used);
    let b = if used.contains(x.name) {
        unused_names(s, used)
    } else {
        unused_names(s, used).insert(x.name)
    };
    assert forall|n: Seq<char>| a.contains(n) <==> b.contains(n) by {
        assert(name_set(s.push(x)).contains(n) <==> name_set(s).insert(x.name).contains(n));
    }
    assert(a =~= b);
}

/// Adds to `acc` the variables that any of the expressions refers to.
pub fn collect_all_bindings(exprs: &Vec<Expr>, acc: &mut SymbolSet)
    ensures
        final(acc)@ == old(acc)@.union(SpecExpr::bindings_of_all(exprs.deep_view())),
{
    let ghost all = exprs.deep_view();
    let mut i: usize = 0;
    assert(acc@ =~= old(acc)@.union(SpecExpr::bindings_of_all(all.take(0))));
    while i < exprs.len()
        invariant
            i <= exprs.len(),
            all == exprs.deep_view(),
            acc@ == old(acc)@.union(SpecExpr::bindings_of_all(all.take(i as int))),
        decreases exprs.len() - i,
    {
        proof {
            assert(all.take(i + 1).drop_last() =~= all.take(i as int));
            assert(all.take(i + 1).last() == exprs[i as int]@);
        }
        exprs[i].collect_bindings(acc);
        assert(acc@ =~= old(acc)@.union(SpecExpr::bindings_of_all(all.take(i + 1))));
        i += 1;
    }
    assert(all.take(exprs.len() as int) =~= all);
}

impl InlineFixedRA {
    /// Marks the bindings that are not in `used` as dropped.
    pub fn do_eliminate_temp_vars(&mut self, used: &SymbolSet)
        ensures
            final(self)@ == old(self)@.eliminated(used@),
    {
        mark_unused(&mut self.to_eliminate, &self.bindings, used);
    }
}

impl InnerJoin {
    /// Marks the bindings that are not in `used` as dropped, and treats the
    /// children with `used` and the keys of their side.
    pub fn do_eliminate_temp_vars(&mut self, used: &SymbolSet)
        ensures
            final(self)@ == old(self)@.eliminated(used@),
        decreases *old(self), 0int,
    {
        let bindings = self.bindings();
        mark_unused(&mut self.to_eliminate, &bindings, used);
        let mut left = used.duplicate();
        left.extend_from(&self.joiner.left_keys);
        match &self.right {
            RelAlgebra::TempStore(r) => {
                collect_all_bindings(&r.filters, &mut left);
            },
            _ => {},
        }
        proof {
            assert(left@ =~= used@.union(old(self)@.left_needs()));
        }
        self.left.eliminate_temp_vars(&left);
        let mut right = used.duplicate();
        right.extend_from(&self.joiner.right_keys);
        self.right.eliminate_temp_vars(&right);
    }
}

impl FilteredRA {
    /// Marks the bindings of the child that are not in `used` as dropped,
    /// and treats the child with `used` and the variables of the filters.
    pub fn do_eliminate_temp_vars(&mut self, used: &SymbolSet)
        ensures
            final(self)@ == old(self)@.eliminated(used@),
        decreases *old(self), 0int,
    {
        let bindings = self.parent.bindings_before_eliminate();
        mark_unused(&mut self.to_eliminate, &bindings, used);
        let mut nxt = used.duplicate();
        collect_all_bindings(&self.filters, &mut nxt);
        self.parent.eliminate_temp_vars(&nxt);
    }
}

impl UnificationRA {
    /// Marks the bindings of the child that are not in `used` as dropped,
    /// and treats the child with `used` and the variables of the expression.
    pub fn do_eliminate_temp_vars(&mut self, used: &SymbolSet)
        ensures
            final(self)@ == old(self)@.eliminated(used@),
        decreases *old(self), 0int,
    {
        let bindings = self.parent.bindings_before_eliminate();
        mark_unused(&mut self.to_eliminate, &bindings, used);
        let mut nxt = used.duplicate();
        self.expr.collect_bindings(&mut nxt);
        self.parent.eliminate_temp_vars(&nxt);
    }
}

impl RelAlgebra {
    /// The pass that marks dead bindings: `used` holds the names that are
    /// needed above this operator.
    pub fn eliminate_temp_vars(&mut self, used: &SymbolSet)
        ensures
            final(self)@ == old(self)@.eliminated(used@),
        decreases *old(self), 1int,
    {
        match self {
            RelAlgebra::Fixed(r) => r.do_eliminate_temp_vars(used),
            RelAlgebra::TempStore(_r) => {},
            RelAlgebra::Stored(_v) => {},
            RelAlgebra::Join(r) => r.do_eliminate_temp_vars(used),
            RelAlgebra::Reorder(r) => r.relation.eliminate_temp_vars(used),
            RelAlgebra::Filter(r) => r.do_eliminate_temp_vars(used),
            RelAlgebra::Unification(r) => r.do_eliminate_temp_vars(used),
        }
    }
}

impl SpecPlan {
    /// The first variable, in the order in which the resolution pass visits
    /// the expressions of the plan, that is missing from the bindings its
    /// expression is evaluated on. The pass visits children before their
    /// parent and a left child before a right one. The filters of a scan
    /// are evaluated on the scan's own bindings; the filters and the
    /// expression of the other operators on what their child exposes.
    pub open spec fn first_unbound(self) -> Option<SpecSymbol>
        decreases self,
    {
        match self {
            SpecPlan::Fixed { .. } => None,
            SpecPlan::TempStore { bindings, filters, .. } => SpecExpr::first_unbound_of_all(filters, bindings),
            SpecPlan::Stored { bindings, filters, .. } => SpecExpr::first_unbound_of_all(filters, bindings),
            SpecPlan::Join { left, right, .. } => match left.first_unbound() {
                Some(v) => Some(v),
                None => right.first_unbound(),
            },
            SpecPlan::Reorder { relation, .. } => relation.first_unbound(),
            SpecPlan::Filter { parent, filters, .. } => match parent.first_unbound() {
                Some(v) => Some(v),
                None => SpecExpr::first_unbound_of_all(filters, parent.bindings_after_eliminate()),
            },
            SpecPlan::Unification { parent, expr, .. } => match parent.first_unbound() {
                Some(v) => Some(v),
                None => expr.first_unbound(parent.bindings_after_eliminate()),
            },
        }
    }

    /// The plan with every reference to a variable annotated with the
    /// position of that variable in the tuple its expression is evaluated
    /// on.
    pub open spec fn resolved(self) -> SpecPlan
        decreases self,
    {
        match self {
            SpecPlan::Fixed { .. } => self,
            SpecPlan::TempStore { bindings, storage_key, filters, span } => SpecPlan::TempStore {
                bindings,
                storage_key,
                filters: SpecExpr::filled_all(filters, bindings),
                span,
            },
            SpecPlan::Stored { bindings, filters, span, name } => SpecPlan::Stored {
                bindings,
                filters: SpecExpr::filled_all(filters, bindings),
                span,
                name,
            },
            SpecPlan::Join { left, right, left_keys, right_keys, to_eliminate, span } => SpecPlan::Join {
                left: Box::new(left.resolved()),
                right: Box::new(right.resolved()),
                left_keys,
                right_keys,
                to_eliminate,
                span,
            },
            SpecPlan::Reorder { relation, new_order } => SpecPlan::Reorder {
                relation: Box::new(relation.resolved()),
                new_order,
            },
            SpecPlan::Filter { parent, filters, to_eliminate, span } => SpecPlan::Filter {
                parent: Box::new(parent.resolved()),
                filters: SpecExpr::filled_all(filters, parent.bindings_after_eliminate()),
                to_eliminate,
                span,
            },
            SpecPlan::Unification { parent, binding, expr, is_multi, to_eliminate, span } => SpecPlan::Unification {
                parent: Box::new(parent.resolved()),
                binding,
                expr: expr.filled(parent.bindings_after_eliminate()),
                is_multi,
                to_eliminate,
                span,
            },
        }
    }
}

impl RelAlgebra {
    /// The first variable that the resolution pass would not find.
    pub fn first_unbound(&self) -> (r: Option<Symbol>)
        ensures
            r.deep_view() == self@.first_unbound(),
        decreases *self,
    {
        match self {
            RelAlgebra::Fixed(_) => None,
            RelAlgebra::TempStore(d) => first_unbound_in(&d.filters, &d.bindings),
            RelAlgebra::Stored(v) => first_unbound_in(&v.filters, &v.bindings),
            RelAlgebra::Join(j) => {
                let l = j.left.first_unbound();
                if l.is_some() {
                    l
                } else {
                    j.right.first_unbound()
                }
            },
            RelAlgebra::Reorder(r) => r.relation.first_unbound(),
            RelAlgebra::Filter(f) => {
                let p = f.parent.first_unbound();
                if p.is_some() {
                    p
                } else {
                    let bindings = f.parent.bindings_after_eliminate();
                    first_unbound_in(&f.filters, &bindings)
                }
            },
            RelAlgebra::Unification(u) => {
                let p = u.parent.first_unbound();
                if p.is_some() {
                    p
                } else {
                    let bindings = u.parent.bindings_after_eliminate();
                    u.expr.first_unbound(&bindings)
                }
            },
        }
    }

    /// Annotates every reference to a variable with its position, wherever
    /// the variable is found.
    pub fn fill_all_indices(&mut self)
        ensures
            final(self)@ == old(self)@.resolved(),
        decreases *old(self),
    {
        match self {
            RelAlgebra::Fixed(_) => {},
            RelAlgebra::TempStore(d) => {
                d.fill_binding_indices_and_compile();
            },
            RelAlgebra::Stored(v) => {
                v.fill_binding_indices_and_compile();
            },
            RelAlgebra::Reorder(r) => {
                r.relation.fill_all_indices();
            },
            RelAlgebra::Filter(f) => {
                proof {
                    lemma_resolved_bindings(f.parent@);
                }
                f.parent.fill_all_indices();
                f.fill_binding_indices_and_compile();
            },
            RelAlgebra::Unification(u) => {
                proof {
                    lemma_resolved_bindings(u.parent@);
                }
                u.parent.fill_all_indices();
                u.fill_binding_indices_and_compile();
            },
            RelAlgebra::Join(r) => {
                r.left.fill_all_indices();
                r.right.fill_all_indices();
            },
        }
    }

    /// The resolution pass: turns every reference to a variable, in filters
    /// and in the right-hand sides of unifications, into a position in the
    /// tuple that the owning operator receives. It is meant to run after the
    /// pass that marks dead bindings. Where some variable is not found, the
    /// first such variable is reported and the plan is left as it was.
    pub fn fill_binding_indices_and_compile(&mut self) -> (r: Result<(), CompileError>)
        ensures
            match r {
                Ok(()) => old(self)@.first_unbound() is None && final(self)@ == old(self)@.resolved(),
                Err(e) => old(self)@.first_unbound() matches Some(v) && e@ == (SpecCompileError::BadBinding {
                    name: v.name,
                    span: v.span,
                }) && final(self)@ == old(self)@,
            },
    {
        match self.first_unbound() {
            Some(v) => Err(CompileError::BadBinding { name: v.name, span: v.span }),
            None => {
                self.fill_all_indices();
                Ok(())
            },
        }
    }
}

/// The resolution pass annotates expressions and changes no binding.
pub proof fn lemma_resolved_bindings(p: SpecPlan)
    ensures
        p.resolved().bindings_before_eliminate() == p.bindings_before_eliminate(),
        p.resolved().bindings_after_eliminate() == p.bindings_after_eliminate(),
        p.resolved().eliminate_set() == p.eliminate_set(),
    decreases p,
{
    match p {
        SpecPlan::Join { left, right, .. } => {
            lemma_resolved_bindings(*left);
            lemma_resolved_bindings(*right);
        },
        SpecPlan::Reorder { relation, .. } => {
            lemma_resolved_bindings(*relation);
        },
        SpecPlan::Filter { parent, .. } => {
            lemma_resolved_bindings(*parent);
        },
        SpecPlan::Unification { parent, .. } => {
            lemma_resolved_bindings(*parent);
        },
        _ => {},
    }
}

impl FilteredRA {
    /// Annotates the filters against what the child exposes. The child
    /// itself is left alone.
    pub fn fill_binding_indices_and_compile(&mut self)
        ensures
            final(self)@ == (SpecPlan::Filter {
                parent: Box::new(old(self).parent@),
                filters: SpecExpr::filled_all(
                    old(self).filters.deep_view(),
                    old(self).parent@.bindings_after_eliminate(),
                ),
                to_eliminate: old(self).to_eliminate@,
                span: old(self).span,
            }),
    {
        let parent_bindings = self.parent.bindings_after_eliminate();
        fill_all(&mut self.filters, &parent_bindings);
    }
}

impl UnificationRA {
    /// Annotates the expression against what the child exposes. The child
    /// itself is left alone.
    pub fn fill_binding_indices_and_compile(&mut self)
        ensures
            final(self)@ == (SpecPlan::Unification {
                parent: Box::new(old(self).parent@),
                binding: old(self).binding@,
                expr: old(self).expr@.filled(old(self).parent@.bindings_after_eliminate()),
                is_multi: old(self).is_multi,
                to_eliminate: old(self).to_eliminate@,
                span: old(self).span,
            }),
    {
        let parent_bindings = self.parent.bindings_after_eliminate();
        self.expr.fill_binding_indices(&parent_bindings);
    }
}

impl StoredRA {
    /// Annotates the filters of the scan against the scan's own bindings.
    pub fn fill_binding_indices_and_compile(&mut self)
        ensures
            final(self)@ == old(self)@.resolved(),
    {
        fill_all(&mut self.filters, &self.bindings);
    }
}

impl TempStoreRA {
    /// Annotates the filters of the scan against the scan's own bindings.
    pub fn fill_binding_indices_and_compile(&mut self)
        ensures
            final(self)@ == old(self)@.resolved(),
    {
        fill_all(&mut self.filters, &self.bindings);
    }
}

/// The state of pushing the clauses of a filter into a join: the two
/// children as they stand, and the clauses that could be pushed into neither.
pub struct PushState {
    pub left: SpecPlan,
    pub right: SpecPlan,
    pub remaining: Seq<SpecExpr>,
}

impl SpecPlan {
    /// How deeply joins are nested directly inside joins, from this
    /// operator down; 0 for an operator that is no join.
    pub open spec fn join_depth(self) -> nat
        decreases self,
    {
        match self {
            SpecPlan::Join { left, right, .. } => {
                let l = left.join_depth();
                let r = right.join_depth();
                1 + if l >= r {
                    l
                } else {
                    r
                }
            },
            _ => 0,
        }
    }

    /// The plan with the filter added, for a plan whose joins are nested at
    /// most `depth` deep (see [`SpecPlan::filtered`]).
    pub open spec fn filtered_within(self, filter: SpecExpr, depth: nat) -> SpecPlan
        decreases depth, 0int, 0nat,
    {
        match self {
            SpecPlan::Fixed { .. } | SpecPlan::Reorder { .. } | SpecPlan::Unification { .. } => SpecPlan::Filter {
                parent: Box::new(self),
                filters: seq![filter],
                to_eliminate: Set::empty(),
                span: filter.span(),
            },
            SpecPlan::Filter { parent, filters, to_eliminate, span } => SpecPlan::Filter {
                parent,
                filters: filters.push(filter),
                to_eliminate,
                span,
            },
            SpecPlan::TempStore { bindings, storage_key, filters, span } => SpecPlan::TempStore {
                bindings,
                storage_key,
                filters: filters.push(filter),
                span,
            },
            SpecPlan::Stored { bindings, filters, span, name } => SpecPlan::Stored {
                bindings,
                filters: filters.push(filter),
                span,
                name,
            },
            SpecPlan::Join { left, right, left_keys, right_keys, to_eliminate, span } => if depth == 0 {
                self
            } else {
                let st = Self::push_clauses(
                    PushState { left: *left, right: *right, remaining: Seq::empty() },
                    filter.to_conjunction(),
                    name_set(left.bindings_before_eliminate()),
                    name_set(right.bindings_before_eliminate()),
                    (depth - 1) as nat,
                );
                let joined = SpecPlan::Join {
                    left: Box::new(st.left),
                    right: Box::new(st.right),
                    left_keys,
                    right_keys,
                    to_eliminate,
                    span,
                };
                if st.remaining.len() == 0 {
                    joined
                } else {
                    SpecPlan::Filter {
                        parent: Box::new(joined),
                        filters: st.remaining,
                        to_eliminate: Set::empty(),
                        span,
                    }
                }
            },
        }
    }

    /// Pushes the clauses, in order, into the children of a join. A clause
    /// whose variables are all among `left_names` is added to the left child
    /// as a filter; else one whose variables are all among `right_names` is
    /// added to the right child; any other clause is kept.
    pub open spec fn push_clauses(
        st: PushState,
        clauses: Seq<SpecExpr>,
        left_names: Set<Seq<char>>,
        right_names: Set<Seq<char>>,
        depth: nat,
    ) -> PushState
        decreases depth, 1int, clauses.len(),
    {
        if clauses.len() == 0 {
            st
        } else {
            let prev = Self::push_clauses(st, clauses.drop_last(), left_names, right_names, depth);
            let c = clauses.last();
            if c.bindings().subset_of(left_names) {
                PushState { left: prev.left.filtered_within(c, depth), right: prev.right, remaining: prev.remaining }
            } else if c.bindings().subset_of(right_names) {
                PushState { left: prev.left, right: prev.right.filtered_within(c, depth), remaining: prev.remaining }
            } else {
                PushState { left: prev.left, right: prev.right, remaining: prev.remaining.push(c) }
            }
        }
    }

    /// The plan with the filter added as far down as it may go. A scan
    /// takes the filter into its own list; a filter operator appends it; a
    /// fixed relation, a reordering and a unification are wrapped in a new
    /// filter operator. At a join the filter is split into the clauses of
    /// its top-level conjunction: each clause that reads only bindings of
    /// the left child goes, in the same way, into the left child; else each
    /// that reads only bindings of the right child goes into the right
    /// child; the clauses that are left over are kept in a filter operator
    /// above the join.
    pub open spec fn filtered(self, filter: SpecExpr) -> SpecPlan {
        self.filtered_within(filter, self.join_depth())
    }
}

/// Keeps the symbols whose names are not in `drop`.
pub fn remove_eliminated(bindings: Vec<Symbol>, drop: &SymbolSet) -> (r: Vec<Symbol>)
    ensures
        r.deep_view() == without(bindings.deep_view(), drop@),
{
    let mut out: Vec<Symbol> = Vec::new();
    let ghost all = bindings.deep_view();
    let mut i: usize = 0;
    assert(out.deep_view() =~= without(all.take(0), drop@));
    while i < bindings.len()
        invariant
            i <= bindings.len(),
            all == bindings.deep_view(),
            out.deep_view() == without(all.take(i as int), drop@),
        decreases bindings.len() - i,
    {
        proof {
            assert(all.take(i + 1).drop_last() =~= all.take(i as int));
            assert(all.take(i + 1).last() == bindings[i as int]@);
        }
        if !drop.contains(&bindings[i]) {
            let ghost before = out.deep_view();
            out.push(bindings[i].clone());
            assert(out.deep_view() =~= before.push(bindings[i as int]@));
        }
        i += 1;
    }
    assert(all.take(bindings.len() as int) =~= all);
    out
}

impl InlineFixedRA {
    /// One row without columns.
    pub fn unit(span: SourceSpan) -> (r: InlineFixedRA)
        ensures
            r@ == SpecPlan::unit(span),
    {
        let mut data: Vec<Vec<DataValue>> = Vec::new();
        data.push(Vec::new());
        let r = InlineFixedRA { bindings: Vec::new(), data, to_eliminate: SymbolSet::new(), span };
        proof {
            assert(r.bindings.deep_view() =~= Seq::<SpecSymbol>::empty());
            assert(r.data.deep_view()[0] =~= Seq::<SpecDataValue>::empty());
            assert(r.data.deep_view() =~= seq![Seq::<SpecDataValue>::empty()]);
        }
        r
    }
}

impl InnerJoin {
    /// The bindings of a join before it drops any: those that the left child
    /// exposes, then those that the right child exposes.
    pub fn bindings(&self) -> (r: Vec<Symbol>)
        ensures
            r.deep_view() == self@.bindings_before_eliminate(),
        decreases *self, 0int,
    {
        let mut ret = self.left.bindings_after_eliminate();
        let mut more = self.right.bindings_after_eliminate();
        let ghost a = ret.deep_view();
        let ghost b = more.deep_view();
        ret.append(&mut more);
        assert(ret.deep_view() =~= a + b);
        ret
    }
}

impl ReorderRA {
    /// The bindings of a reordering: the order it was given.
    pub fn bindings(&self) -> (r: Vec<Symbol>)
        ensures
            r.deep_view() == self@.bindings_before_eliminate(),
    {
        clone_symbols(&self.new_order)
    }
}

impl RelAlgebra {
    /// The plan that puts out exactly one row without columns.
    pub fn unit(span: SourceSpan) -> (r: RelAlgebra)
        ensures
            r@ == SpecPlan::unit(span),
    {
        RelAlgebra::Fixed(InlineFixedRA::unit(span))
    }

    /// The product of `self` and `right`.
    pub fn cartesian_join(self, right: RelAlgebra, span: SourceSpan) -> (r: RelAlgebra)
        ensures
            r@ == self@.cartesian_join(right@, span),
    {
        let left_keys: Vec<Symbol> = Vec::new();
        let right_keys: Vec<Symbol> = Vec::new();
        proof {
            assert(left_keys.deep_view() =~= Seq::<SpecSymbol>::empty());
            assert(right_keys.deep_view() =~= Seq::<SpecSymbol>::empty());
        }
        self.join(right, left_keys, right_keys, span)
    }

    /// The inner join of `self` and `right` on the given key pairs. Without
    /// keys it is the product of the two.
    pub fn join(self, right: RelAlgebra, left_keys: Vec<Symbol>, right_keys: Vec<Symbol>, span: SourceSpan) -> (r:
        RelAlgebra)
        ensures
            r@ == self@.join(right@, left_keys.deep_view(), right_keys.deep_view(), span),
    {
        RelAlgebra::Join(
            Box::new(
                InnerJoin {
                    left: self,
                    right,
                    joiner: Joiner { left_keys, right_keys },
                    to_eliminate: SymbolSet::new(),
                    span,
                },
            ),
        )
    }

    /// `self` with its bindings put out in the order `new_order`.
    pub fn reorder(self, new_order: Vec<Symbol>) -> (r: RelAlgebra)
        ensures
            r@ == self@.reorder(new_order.deep_view()),
    {
        RelAlgebra::Reorder(ReorderRA { relation: Box::new(self), new_order })
    }

    /// `self` with the new binding `binding`, computed from `expr`.
    pub fn unify(self, binding: Symbol, expr: Expr, is_multi: bool, span: SourceSpan) -> (r: RelAlgebra)
        ensures
            r@ == self@.unify(binding@, expr@, is_multi, span),
    {
        RelAlgebra::Unification(
            UnificationRA { parent: Box::new(self), binding, expr, is_multi, to_eliminate: SymbolSet::new(), span },
        )
    }

    /// The scan of the stored relation `name`.
    pub fn relation(bindings: Vec<Symbol>, span: SourceSpan, name: String) -> (r: RelAlgebra)
        ensures
            r@ == SpecPlan::relation(bindings.deep_view(), span, name@),
    {
        let filters: Vec<Expr> = Vec::new();
        proof {
            assert(filters.deep_view() =~= Seq::<SpecExpr>::empty());
        }
        RelAlgebra::Stored(StoredRA { bindings, filters, span, name })
    }

    /// The scan of the derived relation `storage_key`.
    pub fn derived(bindings: Vec<Symbol>, storage_key: MagicSymbol, span: SourceSpan) -> (r: RelAlgebra)
        ensures
            r@ == SpecPlan::derived(bindings.deep_view(), storage_key@, span),
    {
        let filters: Vec<Expr> = Vec::new();
        proof {
            assert(filters.deep_view() =~= Seq::<SpecExpr>::empty());
        }
        RelAlgebra::TempStore(TempStoreRA { bindings, storage_key, filters, span })
    }

    /// Adds a filter to the plan, as far down as it may go.
    pub fn filter(self, filter: Expr) -> (r: RelAlgebra)
        ensures
            r@ == self@.filtered(filter@),
    {
        let ghost depth = self@.join_depth();
        self.filter_within(filter, Ghost(depth))
    }

    /// Adds the filter to a plan whose joins are nested at most `depth` deep.
    fn filter_within(self, filter: Expr, Ghost(depth): Ghost<nat>) -> (r: RelAlgebra)
        requires
            self@.join_depth() <= depth,
        ensures
            r@ == self@.filtered_within(filter@, depth),
            r@.join_depth() <= self@.join_depth(),
        decreases depth,
    {
        match self {
            RelAlgebra::Fixed(_) | RelAlgebra::Reorder(_) | RelAlgebra::Unification(_) => {
                let span = filter.span();
                let mut filters: Vec<Expr> = Vec::new();
                filters.push(filter);
                assert(filters.deep_view() =~= seq![filter@]);
                let ghost before = self@;
                let r = RelAlgebra::Filter(
                    FilteredRA { parent: Box::new(self), filters, to_eliminate: SymbolSet::new(), span },
                );
                assert(r@ == before.filtered_within(filter@, depth));
                r
            },
            RelAlgebra::Filter(FilteredRA { parent, filters: mut pred, to_eliminate, span }) => {
                let ghost before = pred.deep_view();
                pred.push(filter);
                assert(pred.deep_view() =~= before.push(filter@));
                let r = RelAlgebra::Filter(FilteredRA { parent, filters: pred, to_eliminate, span });
                assert(r@ == self@.filtered_within(filter@, depth));
                r
            },
            RelAlgebra::TempStore(TempStoreRA { bindings, storage_key, mut filters, span }) => {
                let ghost before = filters.deep_view();
                filters.push(filter);
                assert(filters.deep_view() =~= before.push(filter@));
                RelAlgebra::TempStore(TempStoreRA { bindings, storage_key, filters, span })
            },
            RelAlgebra::Stored(StoredRA { bindings, mut filters, span, name }) => {
                let ghost before = filters.deep_view();
                filters.push(filter);
                assert(filters.deep_view() =~= before.push(filter@));
                RelAlgebra::Stored(StoredRA { bindings, filters, span, name })
            },
            RelAlgebra::Join(inner) => {
                let clauses = filter.to_conjunction();
                let left_bindings = SymbolSet::from_symbols(&inner.left.bindings_before_eliminate());
                let right_bindings = SymbolSet::from_symbols(&inner.right.bindings_before_eliminate());
                let mut remaining: Vec<Expr> = Vec::new();
                let InnerJoin { mut left, mut right, joiner, to_eliminate, span } = *inner;
                let ghost start = PushState { left: left@, right: right@, remaining: Seq::empty() };
                let ghost all = clauses.deep_view();
                let ghost whole = SpecPlan::Join {
                    left: Box::new(left@),
                    right: Box::new(right@),
                    left_keys: joiner.left_keys.deep_view(),
                    right_keys: joiner.right_keys.deep_view(),
                    to_eliminate: to_eliminate@,
                    span,
                };
                assert(self@ == whole);
                assert(depth >= 1);
                let ghost below = (depth - 1) as nat;
                let mut i: usize = 0;
                assert(remaining.deep_view() =~= Seq::<SpecExpr>::empty());
                while i < clauses.len()
                    invariant
                        i <= clauses.len(),
                        all == clauses.deep_view(),
                        depth >= 1,
                        below == depth - 1,
                        left@.join_depth() <= start.left.join_depth() <= below,
                        right@.join_depth() <= start.right.join_depth() <= below,
                        (PushState { left: left@, right: right@, remaining: remaining.deep_view() })
                            == SpecPlan::push_clauses(
                            start,
                            all.take(i as int),
                            left_bindings@,
                            right_bindings@,
                            below,
                        ),
                    decreases clauses.len() - i,
                {
                    proof {
                        assert(all.take(i + 1).drop_last() =~= all.take(i as int));
                        assert(all.take(i + 1).last() == clauses[i as int]@);
                    }
                    let clause = clauses[i].clone();
                    let f_bindings = clause.bindings();
                    if f_bindings.is_subset(&left_bindings) {
                        left = left.filter_within(clause, Ghost(below));
                    } else if f_bindings.is_subset(&right_bindings) {
                        right = right.filter_within(clause, Ghost(below));
                    } else {
                        let ghost before = remaining.deep_view();
                        remaining.push(clause);
                        assert(remaining.deep_view() =~= before.push(clause@));
                    }
                    i += 1;
                }
                assert(all.take(clauses.len() as int) =~= all);
                let none_left = remaining.len() == 0;
                let joined = RelAlgebra::Join(Box::new(InnerJoin { left, right, joiner, to_eliminate, span }));
                let r = if none_left {
                    joined
                } else {
                    RelAlgebra::Filter(
                        FilteredRA { parent: Box::new(joined), filters: remaining, to_eliminate: SymbolSet::new(), span },
                    )
                };
                proof {
                    let st = SpecPlan::push_clauses(start, all, left_bindings@, right_bindings@, below);
                    assert(st.left == left@);
                    assert(st.remaining == remaining.deep_view());
                    assert(all == filter@.to_conjunction());
                    assert(left_bindings@ == name_set(start.left.bindings_before_eliminate()));
                    assert(joined@ == (SpecPlan::Join {
                        left: Box::new(st.left),
                        right: Box::new(st.right),
                        left_keys: joiner.left_keys.deep_view(),
                        right_keys: joiner.right_keys.deep_view(),
                        to_eliminate: to_eliminate@,
                        span,
                    }));
                    assert(r@ == whole.filtered_within(filter@, depth));
                }
                r
            },
        }
    }

    /// Where the operator was written.
    pub fn span(&self) -> (s: SourceSpan)
        ensures
            s == self@.span(),
        decreases *self,
    {
        match self {
            RelAlgebra::Fixed(i) => i.span,
            RelAlgebra::TempStore(i) => i.span,
            RelAlgebra::Stored(i) => i.span,
            RelAlgebra::Join(i) => i.span,
            RelAlgebra::Reorder(i) => i.relation.span(),
            RelAlgebra::Filter(i) => i.span,
            RelAlgebra::Unification(i) => i.span,
        }
    }

    /// Whether the plan is given in place, without columns and with exactly
    /// one row.
    pub fn is_unit(&self) -> (b: bool)
        ensures
            b == self@.is_unit(),
    {
        if let RelAlgebra::Fixed(r) = self {
            r.bindings.len() == 0 && r.data.len() == 1
        } else {
            false
        }
    }

    /// The set of names that the operator drops, for the operators that can
    /// drop any.
    pub fn eliminate_set(&self) -> (r: Option<&SymbolSet>)
        ensures
            match r {
                Some(s) => self@.eliminate_set() == Some(s@),
                None => self@.eliminate_set() is None,
            },
    {
        match self {
            RelAlgebra::Fixed(r) => Some(&r.to_eliminate),
            RelAlgebra::TempStore(_) => None,
            RelAlgebra::Stored(_) => None,
            RelAlgebra::Join(r) => Some(&r.to_eliminate),
            RelAlgebra::Reorder(_) => None,
            RelAlgebra::Filter(r) => Some(&r.to_eliminate),
            RelAlgebra::Unification(u) => Some(&u.to_eliminate),
        }
    }

    /// The bindings that the operator exposes, in order.
    pub fn bindings_after_eliminate(&self) -> (r: Vec<Symbol>)
        ensures
            r.deep_view() == self@.bindings_after_eliminate(),
        decreases *self, 1int,
    {
        let ret = self.bindings_before_eliminate();
        match self.eliminate_set() {
            Some(to_eliminate) => remove_eliminated(ret, to_eliminate),
            None => ret,
        }
    }

    /// The bindings that the operator has before it drops any.
    pub fn bindings_before_eliminate(&self) -> (r: Vec<Symbol>)
        ensures
            r.deep_view() == self@.bindings_before_eliminate(),
        decreases *self, 0int,
    {
        match self {
            RelAlgebra::Fixed(f) => clone_symbols(&f.bindings),
            RelAlgebra::TempStore(d) => clone_symbols(&d.bindings),
            RelAlgebra::Stored(v) => clone_symbols(&v.bindings),
            RelAlgebra::Join(j) => j.bindings(),
            RelAlgebra::Reorder(r) => r.bindings(),
            RelAlgebra::Filter(r) => r.parent.bindings_after_eliminate(),
            RelAlgebra::Unification(u) => {
                let mut bindings = u.parent.bindings_after_eliminate();
                let ghost before = bindings.deep_view();
                bindings.push(u.binding.clone());
                assert(bindings.deep_view() =~= before.push(u.binding@));
                bindings
            },
        }
    }
}

} // verus!
