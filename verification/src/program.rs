use vstd::prelude::*;
use crate::expr::{Expr, SpecExpr};
use crate::magic::{MagicSymbol, SpecMagicSymbol};
use crate::symb::{SourceSpan, SpecSymbol, Symbol};
use crate::symbol_set::SymbolSet;
use crate::value::{DataValue, SpecDataValue};

verus! {

/// The mathematical value of a [`MagicRuleApplyAtom`].
pub struct SpecRuleApp {
    pub name: SpecMagicSymbol,
    pub args: Seq<SpecSymbol>,
    pub span: SourceSpan,
}

/// The mathematical value of a [`MagicRelationApplyAtom`].
pub struct SpecRelationApp {
    pub name: SpecSymbol,
    pub args: Seq<SpecSymbol>,
    pub span: SourceSpan,
}

/// The mathematical value of a [`Unification`].
pub struct SpecUnification {
    pub binding: SpecSymbol,
    pub expr: SpecExpr,
    pub one_many_unif: bool,
    pub span: SourceSpan,
}

/// The mathematical value of a [`MagicAtom`].
pub enum SpecAtom {
    Rule(SpecRuleApp),
    Relation(SpecRelationApp),
    Predicate(SpecExpr),
    Unification(SpecUnification),
    NegatedRule(SpecRuleApp),
    NegatedRelation(SpecRelationApp),
}

/// The mathematical value of an [`Aggregation`].
pub struct SpecAggregation {
    pub name: Seq<char>,
    pub is_meet: bool,
}

/// The mathematical value of a [`MagicInlineRule`].
pub struct SpecRule {
    pub head: Seq<SpecSymbol>,
    pub aggr: Seq<Option<(SpecAggregation, Seq<SpecDataValue>)>>,
    pub body: Seq<SpecAtom>,
}

/// The application of a derived relation to variables.
#[derive(Debug)]
pub struct MagicRuleApplyAtom {
    pub name: MagicSymbol,
    pub args: Vec<Symbol>,
    pub span: SourceSpan,
}

/// The application of a stored relation to variables.
#[derive(Debug)]
pub struct MagicRelationApplyAtom {
    pub name: Symbol,
    pub args: Vec<Symbol>,
    pub span: SourceSpan,
}

/// A variable set equal to an expression, or, in the one-to-many form,
/// drawn from the members of an expression.
#[derive(Debug)]
pub struct Unification {
    pub binding: Symbol,
    pub expr: Expr,
    pub one_many_unif: bool,
    pub span: SourceSpan,
}

/// One atom of a rule body.
#[derive(Debug)]
pub enum MagicAtom {
    Rule(MagicRuleApplyAtom),
    Relation(MagicRelationApplyAtom),
    Predicate(Expr),
    Unification(Unification),
    NegatedRule(MagicRuleApplyAtom),
    NegatedRelation(MagicRelationApplyAtom),
}

/// An aggregation that a head position may carry. A meet aggregation can be
/// applied to partial results in any order.
#[derive(Debug)]
pub struct Aggregation {
    pub name: String,
    pub is_meet: bool,
}

/// One clause of a derived relation: the head variables, the aggregation
/// of each head position, and the ordered body.
#[derive(Debug)]
pub struct MagicInlineRule {
    pub head: Vec<Symbol>,
    pub aggr: Vec<Option<(Aggregation, Vec<DataValue>)>>,
    pub body: Vec<MagicAtom>,
}

impl View for MagicRuleApplyAtom {
    type V = SpecRuleApp;

    open spec fn view(&self) -> SpecRuleApp {
        SpecRuleApp { name: self.name@, args: self.args.deep_view(), span: self.span }
    }
}

impl View for MagicRelationApplyAtom {
    type V = SpecRelationApp;

    open spec fn view(&self) -> SpecRelationApp {
        SpecRelationApp { name: self.name@, args: self.args.deep_view(), span: self.span }
    }
}

impl View for Unification {
    type V = SpecUnification;

    open spec fn view(&self) -> SpecUnification {
        SpecUnification {
            binding: self.binding@,
            expr: self.expr@,
            one_many_unif: self.one_many_unif,
            span: self.span,
        }
    }
}

impl View for MagicAtom {
    type V = SpecAtom;

    open spec fn view(&self) -> SpecAtom {
        match self {
            MagicAtom::Rule(r) => SpecAtom::Rule(r@),
            MagicAtom::Relation(r) => SpecAtom::Relation(r@),
            MagicAtom::Predicate(p) => SpecAtom::Predicate(p@),
            MagicAtom::Unification(u) => SpecAtom::Unification(u@),
            MagicAtom::NegatedRule(r) => SpecAtom::NegatedRule(r@),
            MagicAtom::NegatedRelation(r) => SpecAtom::NegatedRelation(r@),
        }
    }
}

impl DeepView for MagicAtom {
    type V = SpecAtom;

    open spec fn deep_view(&self) -> SpecAtom {
        self@
    }
}

impl View for Aggregation {
    type V = SpecAggregation;

    open spec fn view(&self) -> SpecAggregation {
        SpecAggregation { name: self.name@, is_meet: self.is_meet }
    }
}

impl DeepView for Aggregation {
    type V = SpecAggregation;

    open spec fn deep_view(&self) -> SpecAggregation {
        self@
    }
}

impl Clone for Aggregation {
    fn clone(&self) -> (r: Aggregation)
        ensures
            r@ == self@,
    {
        Aggregation { name: self.name.clone(), is_meet: self.is_meet }
    }
}

impl View for MagicInlineRule {
    type V = SpecRule;

    open spec fn view(&self) -> SpecRule {
        SpecRule { head: self.head.deep_view(), aggr: self.aggr.deep_view(), body: self.body.deep_view() }
    }
}

impl DeepView for MagicInlineRule {
    type V = SpecRule;

    open spec fn deep_view(&self) -> SpecRule {
        self@
    }
}

impl SpecAtom {
    /// Whether the atom is negated.
    pub open spec fn is_negated(self) -> bool {
        self is NegatedRule || self is NegatedRelation
    }
}

impl SpecRule {
    /// Whether no atom of the body is negated.
    pub open spec fn is_positive(self) -> bool {
        forall|i: int| 0 <= i < self.body.len() ==> !(#[trigger] self.body[i]).is_negated()
    }
}

impl Unification {
    /// Whether the right-hand side is a constant.
    pub fn is_const(&self) -> (b: bool)
        ensures
            b == (self@.expr is Const),
    {
        match &self.expr {
            Expr::Const { .. } => true,
            _ => false,
        }
    }

    /// The variables that the right-hand side refers to.
    pub fn bindings_in_expr(&self) -> (s: SymbolSet)
        ensures
            s@ == self@.expr.bindings(),
    {
        self.expr.bindings()
    }
}

impl MagicAtom {
    /// Whether the atom is negated.
    pub fn is_negated(&self) -> (b: bool)
        ensures
            b == self@.is_negated(),
    {
        match self {
            MagicAtom::NegatedRule(_) => true,
            MagicAtom::NegatedRelation(_) => true,
            _ => false,
        }
    }
}

impl MagicInlineRule {
    /// Whether no atom of the body is negated.
    pub fn is_positive(&self) -> (b: bool)
        ensures
            b == self@.is_positive(),
    {
        let mut i: usize = 0;
        while i < self.body.len()
            invariant
                i <= self.body.len(),
                forall|j: int| 0 <= j < i ==> !(#[trigger] self.body.deep_view()[j]).is_negated(),
            decreases self.body.len() - i,
        {
            if self.body[i].is_negated() {
                assert(self@.body[i as int].is_negated());
                return false;
            }
            i += 1;
        }
        true
    }
}

} // verus!
