use vstd::prelude::*;
use vstd::string::StringExecFns;
use crate::symb::{find_position, position_of, SourceSpan, SpecSymbol, Symbol};
use crate::symbol_set::SymbolSet;
use crate::value::{DataValue, SpecDataValue};

verus! {

/// The operators that an expression may apply.
#[derive(Clone, Copy, Debug, PartialEq, Eq, Structural)]
pub enum Op {
    And,
    Or,
    Negate,
    Eq,
    Neq,
    Gt,
    Ge,
    Lt,
    Le,
    Add,
    Sub,
    Mul,
    Div,
    Minus,
    IsIn,
    List,
}

impl Op {
    /// The operator's name as it is written in text.
    pub open spec fn text(self) -> Seq<char> {
        match self {
            Op::And => "and"@,
            Op::Or => "or"@,
            Op::Negate => "negate"@,
            Op::Eq => "eq"@,
            Op::Neq => "neq"@,
            Op::Gt => "gt"@,
            Op::Ge => "ge"@,
            Op::Lt => "lt"@,
            Op::Le => "le"@,
            Op::Add => "add"@,
            Op::Sub => "sub"@,
            Op::Mul => "mul"@,
            Op::Div => "div"@,
            Op::Minus => "minus"@,
            Op::IsIn => "is_in"@,
            Op::List => "list"@,
        }
    }

    /// The operator's name.
    pub fn name(self) -> (s: &'static str)
        ensures
            s@ == self.text(),
    {
        match self {
            Op::And => "and",
            Op::Or => "or",
            Op::Negate => "negate",
            Op::Eq => "eq",
            Op::Neq => "neq",
            Op::Gt => "gt",
            Op::Ge => "ge",
            Op::Lt => "lt",
            Op::Le => "le",
            Op::Add => "add",
            Op::Sub => "sub",
            Op::Mul => "mul",
            Op::Div => "div",
            Op::Minus => "minus",
            Op::IsIn => "is_in",
            Op::List => "list",
        }
    }
}

/// The mathematical value of an [`Expr`].
pub enum SpecExpr {
    Binding { var: SpecSymbol, tuple_pos: Option<usize> },
    Const { val: SpecDataValue, span: SourceSpan },
    Apply { op: Op, args: Seq<SpecExpr>, span: SourceSpan },
}

/// An expression over the variables of a rule: a reference to a variable,
/// which after resolution carries the position of that variable in the tuple
/// it is evaluated on; a constant; or an operator applied to expressions.
#[derive(Debug)]
pub enum Expr {
    Binding { var: Symbol, tuple_pos: Option<usize> },
    Const { val: DataValue, span: SourceSpan },
    Apply { op: Op, args: Vec<Expr>, span: SourceSpan },
}

/// What an [`Expr`] stands for.
pub open spec fn expr_view(e: Expr) -> SpecExpr
    decreases e,
{
    match e {
        Expr::Binding { var, tuple_pos } => SpecExpr::Binding { var: var@, tuple_pos },
        Expr::Const { val, span } => SpecExpr::Const { val: val@, span },
        Expr::Apply { op, args, span } => SpecExpr::Apply {
            op,
            args: Seq::new(
                args.len() as nat,
                |i: int|
                    if 0 <= i < args.len() {
                        expr_view(args[i])
                    } else {
                        SpecExpr::Const { val: SpecDataValue::Null, span }
                    },
            ),
            span,
        },
    }
}

impl View for Expr {
    type V = SpecExpr;

    open spec fn view(&self) -> SpecExpr {
        expr_view(*self)
    }
}

impl DeepView for Expr {
    type V = SpecExpr;

    open spec fn deep_view(&self) -> SpecExpr {
        expr_view(*self)
    }
}

/// An application stands for the operator applied to what its arguments
/// stand for.
pub proof fn lemma_apply_view(op: Op, args: Vec<Expr>, span: SourceSpan)
    ensures
        (Expr::Apply { op, args, span })@ == (SpecExpr::Apply { op, args: args.deep_view(), span }),
{
    assert((Expr::Apply { op, args, span })@->Apply_args =~= args.deep_view());
}

impl SpecExpr {
    /// Where the expression was written.
    pub open spec fn span(self) -> SourceSpan {
        match self {
            SpecExpr::Binding { var, .. } => var.span,
            SpecExpr::Const { span, .. } => span,
            SpecExpr::Apply { span, .. } => span,
        }
    }

    /// The names of the variables that the expression refers to.
    pub open spec fn bindings(self) -> Set<Seq<char>>
        decreases self,
    {
        match self {
            SpecExpr::Binding { var, .. } => set![var.name],
            SpecExpr::Const { .. } => Set::empty(),
            SpecExpr::Apply { args, .. } => Self::bindings_of_all(args),
        }
    }

    /// The names of the variables that any of the expressions refers to.
    pub open spec fn bindings_of_all(s: Seq<SpecExpr>) -> Set<Seq<char>>
        decreases s,
    {
        if s.len() == 0 {
            Set::empty()
        } else {
            Self::bindings_of_all(s.drop_last()).union(s.last().bindings())
        }
    }

    /// The clauses of a conjunction: the arguments of an `and` at the top,
    /// and the expression itself otherwise.
    pub open spec fn to_conjunction(self) -> Seq<SpecExpr> {
        match self {
            SpecExpr::Apply { op: Op::And, args, .. } => args,
            _ => seq![self],
        }
    }

    /// The first variable, reading from left to right, that does not occur
    /// in `bindings`.
    pub open spec fn first_unbound(self, bindings: Seq<SpecSymbol>) -> Option<SpecSymbol>
        decreases self,
    {
        match self {
            SpecExpr::Binding { var, .. } => if position_of(bindings, var.name) is Some {
                None
            } else {
                Some(var)
            },
            SpecExpr::Const { .. } => None,
            SpecExpr::Apply { args, .. } => Self::first_unbound_of_all(args, bindings),
        }
    }

    /// The first variable of the first of the expressions that has one which
    /// does not occur in `bindings`.
    pub open spec fn first_unbound_of_all(s: Seq<SpecExpr>, bindings: Seq<SpecSymbol>) -> Option<
        SpecSymbol,
    >
        decreases s,
    {
        if s.len() == 0 {
            None
        } else {
            match Self::first_unbound_of_all(s.drop_last(), bindings) {
                Some(v) => Some(v),
                None => s.last().first_unbound(bindings),
            }
        }
    }

    /// The expression with each reference to a variable of `bindings`
    /// annotated with the position of that variable; a reference to any
    /// other variable is left as it is.
    pub open spec fn filled(self, bindings: Seq<SpecSymbol>) -> SpecExpr
        decreases self,
    {
        match self {
            SpecExpr::Binding { var, tuple_pos } => match position_of(bindings, var.name) {
                Some(p) => SpecExpr::Binding { var, tuple_pos: Some(p as usize) },
                None => self,
            },
            SpecExpr::Const { .. } => self,
            SpecExpr::Apply { op, args, span } => SpecExpr::Apply {
                op,
                args: Self::filled_all(args, bindings),
                span,
            },
        }
    }

    /// Each of the expressions, annotated.
    pub open spec fn filled_all(s: Seq<SpecExpr>, bindings: Seq<SpecSymbol>) -> Seq<SpecExpr>
        decreases s,
    {
        if s.len() == 0 {
            Seq::empty()
        } else {
            Self::filled_all(s.drop_last(), bindings).push(s.last().filled(bindings))
        }
    }

    /// How the expression is written in text: a variable by its name, a
    /// constant as its value, an application as the operator's name and the
    /// arguments between round brackets.
    pub open spec fn text(self) -> Seq<char>
        decreases self,
    {
        match self {
            SpecExpr::Binding { var, .. } => var.name,
            SpecExpr::Const { val, .. } => val.text(),
            SpecExpr::Apply { op, args, .. } => op.text() + seq!['('] + Self::text_of_all(args) + seq![')'],
        }
    }

    /// The texts of the expressions, separated by a comma and a blank.
    pub open spec fn text_of_all(s: Seq<SpecExpr>) -> Seq<char>
        decreases s,
    {
        if s.len() == 0 {
            Seq::empty()
        } else if s.len() == 1 {
            s.last().text()
        } else {
            Self::text_of_all(s.drop_last()) + seq![',', ' '] + s.last().text()
        }
    }
}

/// Annotating a list of expressions annotates each of them, in place.
pub proof fn lemma_filled_all(s: Seq<SpecExpr>, bindings: Seq<SpecSymbol>)
    ensures
        SpecExpr::filled_all(s, bindings).len() == s.len(),
        forall|i: int| 0 <= i < s.len() ==> SpecExpr::filled_all(s, bindings)[i] == (#[trigger] s[i]).filled(bindings),
    decreases s.len(),
{
    if s.len() > 0 {
        let r = s.drop_last();
        lemma_filled_all(r, bindings);
        assert forall|i: int| 0 <= i < s.len() implies SpecExpr::filled_all(s, bindings)[i] == (#[trigger] s[i]).filled(
            bindings,
        ) by {
            if i < r.len() {
                assert(r[i] == s[i]);
            }
        }
    }
}

/// A name is among the variables of a list of expressions exactly when it is
/// among the variables of one of them.
pub proof fn lemma_bindings_of_all(s: Seq<SpecExpr>)
    ensures
        forall|n: Seq<char>|
            SpecExpr::bindings_of_all(s).contains(n) <==> exists|i: int|
                0 <= i < s.len() && (#[trigger] s[i]).bindings().contains(n),
    decreases s.len(),
{
    if s.len() > 0 {
        let r = s.drop_last();
        lemma_bindings_of_all(r);
        assert forall|n: Seq<char>|
            SpecExpr::bindings_of_all(s).contains(n) <==> exists|i: int|
                0 <= i < s.len() && (#[trigger] s[i]).bindings().contains(n) by {
            if SpecExpr::bindings_of_all(r).contains(n) {
                let i = choose|i: int| 0 <= i < r.len() && (#[trigger] r[i]).bindings().contains(n);
                assert(s[i].bindings().contains(n));
            }
            if s.last().bindings().contains(n) {
                assert(s[s.len() - 1].bindings().contains(n));
            }
            if exists|i: int| 0 <= i < s.len() && (#[trigger] s[i]).bindings().contains(n) {
                let i = choose|i: int| 0 <= i < s.len() && (#[trigger] s[i]).bindings().contains(n);
                if i < r.len() {
                    assert(r[i].bindings().contains(n));
                }
            }
        }
    }
}

impl Clone for Expr {
    fn clone(&self) -> (r: Expr)
        ensures
            r@ == self@,
        decreases *self,
    {
        match self {
            Expr::Binding { var, tuple_pos } => Expr::Binding { var: var.clone(), tuple_pos: *tuple_pos },
            Expr::Const { val, span } => Expr::Const { val: val.clone(), span: *span },
            Expr::Apply { op, args, span } => {
                let mut out: Vec<Expr> = Vec::new();
                let mut i: usize = 0;
                while i < args.len()
                    invariant
                        i <= args.len(),
                        out.len() == i,
                        *self matches Expr::Apply { args: a, .. } && a == *args,
                        forall|j: int| 0 <= j < i ==> out[j]@ == args[j]@,
                    decreases args.len() - i,
                {
                    out.push(args[i].clone());
                    i += 1;
                }
                proof {
                    assert(out.deep_view() =~= args.deep_view());
                    lemma_apply_view(*op, out, *span);
                    lemma_apply_view(*op, *args, *span);
                }
                Expr::Apply { op: *op, args: out, span: *span }
            },
        }
    }
}

/// A copy of a list of expressions.
pub fn clone_exprs(v: &Vec<Expr>) -> (r: Vec<Expr>)
    ensures
        r.deep_view() == v.deep_view(),
{
    let mut out: Vec<Expr> = Vec::new();
    let mut i: usize = 0;
    while i < v.len()
        invariant
            i <= v.len(),
            out.len() == i,
            forall|j: int| 0 <= j < i ==> out[j]@ == v[j]@,
        decreases v.len() - i,
    {
        out.push(v[i].clone());
        i += 1;
    }
    assert(out.deep_view() =~= v.deep_view());
    out
}

impl Expr {
    /// Where the expression was written.
    pub fn span(&self) -> (s: SourceSpan)
        ensures
            s == self@.span(),
    {
        match self {
            Expr::Binding { var, .. } => var.span,
            Expr::Const { span, .. } => *span,
            Expr::Apply { op, args, span } => {
                proof {
                    lemma_apply_view(*op, *args, *span);
                }
                *span
            },
        }
    }

    /// The test that all the expressions are equal.
    pub fn build_equate(exprs: Vec<Expr>, span: SourceSpan) -> (e: Expr)
        ensures
            e@ == (SpecExpr::Apply { op: Op::Eq, args: exprs.deep_view(), span }),
    {
        proof {
            lemma_apply_view(Op::Eq, exprs, span);
        }
        Expr::Apply { op: Op::Eq, args: exprs, span }
    }

    /// The test that the first expression is a member of the second.
    pub fn build_is_in(exprs: Vec<Expr>, span: SourceSpan) -> (e: Expr)
        ensures
            e@ == (SpecExpr::Apply { op: Op::IsIn, args: exprs.deep_view(), span }),
    {
        proof {
            lemma_apply_view(Op::IsIn, exprs, span);
        }
        Expr::Apply { op: Op::IsIn, args: exprs, span }
    }

    /// The clauses of a conjunction.
    pub fn to_conjunction(&self) -> (r: Vec<Expr>)
        ensures
            r.deep_view() == self@.to_conjunction(),
    {
        match self {
            Expr::Apply { op: Op::And, args, span } => {
                proof {
                    lemma_apply_view(Op::And, *args, *span);
                }
                clone_exprs(args)
            },
            _ => {
                let mut r: Vec<Expr> = Vec::new();
                r.push(self.clone());
                assert(r.deep_view() =~= seq![self@]);
                r
            },
        }
    }

    /// Adds to `acc` the variables that the expression refers to.
    pub fn collect_bindings(&self, acc: &mut SymbolSet)
        ensures
            final(acc)@ == old(acc)@.union(self@.bindings()),
        decreases *self,
    {
        match self {
            Expr::Binding { var, .. } => {
                acc.insert(var.clone());
                assert(acc@ =~= old(acc)@.union(self@.bindings()));
            },
            Expr::Const { .. } => {
                assert(acc@ =~= old(acc)@.union(self@.bindings()));
            },
            Expr::Apply { op, args, span } => {
                let ghost all = args.deep_view();
                proof {
                    lemma_apply_view(*op, *args, *span);
                    assert(acc@ =~= old(acc)@.union(SpecExpr::bindings_of_all(all.take(0))));
                }
                let mut i: usize = 0;
                while i < args.len()
                    invariant
                        i <= args.len(),
                        all == args.deep_view(),
                        *self matches Expr::Apply { args: a, .. } && a == *args,
                        acc@ == old(acc)@.union(SpecExpr::bindings_of_all(all.take(i as int))),
                    decreases args.len() - i,
                {
                    proof {
                        assert(all.take(i + 1).drop_last() =~= all.take(i as int));
                        assert(all.take(i + 1).last() == args[i as int]@);
                    }
                    args[i].collect_bindings(acc);
                    assert(acc@ =~= old(acc)@.union(SpecExpr::bindings_of_all(all.take(i + 1))));
                    i += 1;
                }
                assert(all.take(args.len() as int) =~= all);
            },
        }
    }

    /// The variables that the expression refers to.
    pub fn bindings(&self) -> (s: SymbolSet)
        ensures
            s@ == self@.bindings(),
    {
        let mut s = SymbolSet::new();
        self.collect_bindings(&mut s);
        assert(s@ =~= self@.bindings());
        s
    }

    /// The first variable, reading from left to right, that does not occur
    /// in `bindings`.
    pub fn first_unbound(&self, bindings: &Vec<Symbol>) -> (r: Option<Symbol>)
        ensures
            r.deep_view() == self@.first_unbound(bindings.deep_view()),
        decreases *self,
    {
        match self {
            Expr::Binding { var, .. } => {
                if find_position(bindings, var).is_some() {
                    None
                } else {
                    Some(var.clone())
                }
            },
            Expr::Const { .. } => None,
            Expr::Apply { op, args, span } => {
                proof {
                    lemma_apply_view(*op, *args, *span);
                }
                first_unbound_in(args, bindings)
            },
        }
    }

    /// Annotates each reference to a variable of `bindings` with the
    /// position of that variable.
    pub fn fill_binding_indices(&mut self, bindings: &Vec<Symbol>)
        ensures
            final(self)@ == old(self)@.filled(bindings.deep_view()),
        decreases *old(self),
    {
        match self {
            Expr::Binding { var, tuple_pos } => {
                match find_position(bindings, var) {
                    Some(p) => {
                        *tuple_pos = Some(p);
                    },
                    None => {},
                }
            },
            Expr::Const { .. } => {},
            Expr::Apply { op, args, span } => {
                let ghost before = *args;
                proof {
                    lemma_apply_view(*op, *args, *span);
                    lemma_filled_all(before.deep_view(), bindings.deep_view());
                }
                fill_all(args, bindings);
                proof {
                    lemma_apply_view(*op, *args, *span);
                }
            },
        }
    }

    /// How the expression is written in text.
    pub fn to_string(&self) -> (s: String)
        ensures
            s@ == self@.text(),
        decreases *self,
    {
        match self {
            Expr::Binding { var, .. } => var.name.clone(),
            Expr::Const { val, .. } => val.to_string(),
            Expr::Apply { op, args, span } => {
                proof {
                    reveal_strlit("(");
                    reveal_strlit(")");
                    reveal_strlit(", ");
                    lemma_apply_view(*op, *args, *span);
                }
                let mut s = String::from_str(op.name());
                s.append("(");
                let ghost all = args.deep_view();
                let ghost head = op.text() + seq!['('];
                assert(s@ =~= head + SpecExpr::text_of_all(all.take(0)));
                let mut i: usize = 0;
                while i < args.len()
                    invariant
                        i <= args.len(),
                        all == args.deep_view(),
                        *self matches Expr::Apply { args: a, .. } && a == *args,
                        s@ == head + SpecExpr::text_of_all(all.take(i as int)),
                    decreases args.len() - i,
                {
                    proof {
                        reveal_strlit(", ");
                        assert(all.take(i + 1).drop_last() =~= all.take(i as int));
                        assert(all.take(i + 1).last() == args[i as int]@);
                    }
                    if i > 0 {
                        s.append(", ");
                    }
                    let t = args[i].to_string();
                    s.append(t.as_str());
                    assert(s@ =~= head + SpecExpr::text_of_all(all.take(i + 1)));
                    i += 1;
                }
                assert(all.take(args.len() as int) =~= all);
                s.append(")");
                assert(s@ =~= self@.text());
                s
            },
        }
    }
}

/// The first variable of the first of the expressions that has one which
/// does not occur in `bindings`.
pub fn first_unbound_in(exprs: &Vec<Expr>, bindings: &Vec<Symbol>) -> (r: Option<Symbol>)
    ensures
        r.deep_view() == SpecExpr::first_unbound_of_all(exprs.deep_view(), bindings.deep_view()),
    decreases *exprs,
{
    let ghost all = exprs.deep_view();
    let mut i: usize = 0;
    while i < exprs.len()
        invariant
            i <= exprs.len(),
            all == exprs.deep_view(),
            SpecExpr::first_unbound_of_all(all.take(i as int), bindings.deep_view()) is None,
        decreases exprs.len() - i,
    {
        proof {
            assert(all.take(i + 1).drop_last() =~= all.take(i as int));
            assert(all.take(i + 1).last() == exprs[i as int]@);
        }
        let found = exprs[i].first_unbound(bindings);
        if found.is_some() {
            proof {
                lemma_first_unbound_prefix(all, bindings.deep_view(), i + 1);
            }
            return found;
        }
        i += 1;
    }
    assert(all.take(exprs.len() as int) =~= all);
    None
}

/// Once a prefix of the expressions has an unbound variable, the whole list
/// reports that same variable.
pub proof fn lemma_first_unbound_prefix(s: Seq<SpecExpr>, bindings: Seq<SpecSymbol>, k: int)
    requires
        0 <= k <= s.len(),
        SpecExpr::first_unbound_of_all(s.take(k), bindings) is Some,
    ensures
        SpecExpr::first_unbound_of_all(s, bindings) == SpecExpr::first_unbound_of_all(s.take(k), bindings),
    decreases s.len() - k,
{
    if k < s.len() {
        assert(s.take(k + 1).drop_last() =~= s.take(k));
        lemma_first_unbound_prefix(s, bindings, k + 1);
    } else {
        assert(s.take(k) =~= s);
    }
}

/// Annotates each of the expressions.
pub fn fill_all(exprs: &mut Vec<Expr>, bindings: &Vec<Symbol>)
    ensures
        final(exprs).deep_view() == SpecExpr::filled_all(old(exprs).deep_view(), bindings.deep_view()),
    decreases *old(exprs),
{
    let n = exprs.len();
    let ghost before = *exprs;
    let mut i: usize = 0;
    while i < n
        invariant
            i <= n,
            exprs.len() == n,
            before.len() == n,
            before == *old(exprs),
            forall|j: int| i <= j < n ==> exprs[j] == before[j],
            forall|j: int| 0 <= j < i ==> exprs[j]@ == before[j]@.filled(bindings.deep_view()),
        decreases n - i,
    {
        exprs[i].fill_binding_indices(bindings);
        i += 1;
    }
    proof {
        let src = before.deep_view();
        let dst = SpecExpr::filled_all(src, bindings.deep_view());
        lemma_filled_all(src, bindings.deep_view());
        assert forall|j: int| 0 <= j < n implies exprs.deep_view()[j] == dst[j] by {
            assert(src[j] == before[j]@);
        }
        assert(exprs.deep_view() =~= dst);
    }
}

} // verus!
