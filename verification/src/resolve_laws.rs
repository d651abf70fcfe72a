use vstd::prelude::*;
use crate::expr::SpecExpr;
use crate::ra::{lemma_resolved_bindings, SpecPlan};
use crate::symb::{position_of, SpecSymbol};

verus! {

impl SpecExpr {
    /// Whether every reference to a variable in the expression carries the
    /// position of that variable in `bindings`.
    pub open spec fn is_resolved(self, bindings: Seq<SpecSymbol>) -> bool
        decreases self,
    {
        match self {
            SpecExpr::Binding { var, tuple_pos } => position_of(bindings, var.name) matches Some(p) && tuple_pos
                == Some(p as usize),
            SpecExpr::Const { .. } => true,
            SpecExpr::Apply { args, .. } => Self::all_resolved(args, bindings),
        }
    }

    /// Whether each of the expressions is resolved.
    pub open spec fn all_resolved(s: Seq<SpecExpr>, bindings: Seq<SpecSymbol>) -> bool
        decreases s,
    {
        if s.len() == 0 {
            true
        } else {
            Self::all_resolved(s.drop_last(), bindings) && s.last().is_resolved(bindings)
        }
    }
}

impl SpecPlan {
    /// Whether every reference to a variable in the plan carries the
    /// position of that variable in the row its expression is evaluated on:
    /// for the filters of a scan the bindings of the scan, for the filters
    /// and the expression of another operator what its child exposes.
    pub open spec fn is_resolved(self) -> bool
        decreases self,
    {
        match self {
            SpecPlan::Fixed { .. } => true,
            SpecPlan::TempStore { bindings, filters, .. } => SpecExpr::all_resolved(filters, bindings),
            SpecPlan::Stored { bindings, filters, .. } => SpecExpr::all_resolved(filters, bindings),
            SpecPlan::Join { left, right, .. } => left.is_resolved() && right.is_resolved(),
            SpecPlan::Reorder { relation, .. } => relation.is_resolved(),
            SpecPlan::Filter { parent, filters, .. } => parent.is_resolved() && SpecExpr::all_resolved(
                filters,
                parent.bindings_after_eliminate(),
            ),
            SpecPlan::Unification { parent, expr, .. } => parent.is_resolved() && expr.is_resolved(
                parent.bindings_after_eliminate(),
            ),
        }
    }
}

/// An expression all of whose variables are among the bindings is resolved
/// once it is annotated, and has no unbound variable then either.
pub proof fn lemma_filled_is_resolved(e: SpecExpr, bindings: Seq<SpecSymbol>)
    requires
        e.first_unbound(bindings) is None,
    ensures
        e.filled(bindings).is_resolved(bindings),
        e.filled(bindings).first_unbound(bindings) is None,
    decreases e, 1int,
{
    match e {
        SpecExpr::Apply { args, .. } => {
            lemma_filled_all_is_resolved(args, bindings);
        },
        _ => {},
    }
}

/// Expressions all of whose variables are among the bindings are resolved
/// once they are annotated.
pub proof fn lemma_filled_all_is_resolved(s: Seq<SpecExpr>, bindings: Seq<SpecSymbol>)
    requires
        SpecExpr::first_unbound_of_all(s, bindings) is None,
    ensures
        SpecExpr::all_resolved(SpecExpr::filled_all(s, bindings), bindings),
        SpecExpr::first_unbound_of_all(SpecExpr::filled_all(s, bindings), bindings) is None,
    decreases s, 0int,
{
    if s.len() > 0 {
        let r = s.drop_last();
        lemma_filled_all_is_resolved(r, bindings);
        lemma_filled_is_resolved(s.last(), bindings);
        let f = SpecExpr::filled_all(s, bindings);
        assert(f.drop_last() =~= SpecExpr::filled_all(r, bindings));
        assert(f.last() == s.last().filled(bindings));
    }
}

/// In a plan that the resolution pass accepts and has gone over, every
/// reference to a variable carries the position of that variable, and the
/// pass would accept the plan again.
pub proof fn law_resolved_plan_is_resolved(p: SpecPlan)
    requires
        p.first_unbound() is None,
    ensures
        p.resolved().is_resolved(),
        p.resolved().first_unbound() is None,
    decreases p,
{
    lemma_resolved_bindings(p);
    match p {
        SpecPlan::Fixed { .. } => {},
        SpecPlan::TempStore { bindings, filters, .. } => {
            lemma_filled_all_is_resolved(filters, bindings);
        },
        SpecPlan::Stored { bindings, filters, .. } => {
            lemma_filled_all_is_resolved(filters, bindings);
        },
        SpecPlan::Join { left, right, .. } => {
            law_resolved_plan_is_resolved(*left);
            law_resolved_plan_is_resolved(*right);
        },
        SpecPlan::Reorder { relation, .. } => {
            law_resolved_plan_is_resolved(*relation);
        },
        SpecPlan::Filter { parent, filters, .. } => {
            law_resolved_plan_is_resolved(*parent);
            lemma_resolved_bindings(*parent);
            lemma_filled_all_is_resolved(filters, parent.bindings_after_eliminate());
        },
        SpecPlan::Unification { parent, expr, .. } => {
            law_resolved_plan_is_resolved(*parent);
            lemma_resolved_bindings(*parent);
            lemma_filled_is_resolved(expr, parent.bindings_after_eliminate());
        },
    }
}

} // verus!
