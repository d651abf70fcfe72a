use vstd::prelude::*;
use vstd::string::StringExecFns;
use crate::error::{CompileError, SpecCompileError};
use crate::expr::{Expr, SpecExpr};
use crate::magic::{MagicSymbol, SpecMagicSymbol};
use crate::registry::{arity_lookup, lookup_relation, ArityMap, Compiler, SpecRelationHandle};
use crate::symb::{SourceSpan, SpecSymbol, Symbol};

verus! {

/// The name under which a fixed rule is known.
#[derive(Debug)]
pub struct FixedRuleHandle {
    pub name: Symbol,
}

impl FixedRuleHandle {
    /// The handle of the fixed rule of that name, written at `span`.
    pub fn new(name: &str, span: SourceSpan) -> (h: FixedRuleHandle)
        ensures
            h.name@ == (SpecSymbol { name: name@, span }),
    {
        FixedRuleHandle { name: Symbol::new(name, span) }
    }
}

/// A derived relation that a fixed rule was asked for and that is not
/// there.
#[derive(Debug)]
pub struct RuleNotFoundError(pub String, pub SourceSpan);

impl RuleNotFoundError {
    /// What the failure says of itself.
    pub fn to_string(&self) -> (s: String)
        ensures
            s@ == "The requested rule '"@ + self.0@ + "' cannot be found"@,
    {
        let mut s = String::from_str("The requested rule '");
        s.append(self.0.as_str());
        s.append("' cannot be found");
        s
    }
}

/// The mathematical value of an [`InputRelationError`].
pub enum SpecInputRelationError {
    RuleNotFound { name: Seq<char>, span: SourceSpan },
    Relation(SpecCompileError),
}

/// Why the arity of an input relation of a fixed rule could not be told.
#[derive(Debug)]
pub enum InputRelationError {
    RuleNotFound(RuleNotFoundError),
    Relation(CompileError),
}

impl View for InputRelationError {
    type V = SpecInputRelationError;

    open spec fn view(&self) -> SpecInputRelationError {
        match self {
            InputRelationError::RuleNotFound(e) => SpecInputRelationError::RuleNotFound { name: e.0@, span: e.1 },
            InputRelationError::Relation(e) => SpecInputRelationError::Relation(e@),
        }
    }
}

/// The mathematical value of a [`MagicFixedRuleRuleArg`].
pub enum SpecFixedRuleArg {
    InMem { name: SpecMagicSymbol, bindings: Seq<SpecSymbol>, span: SourceSpan },
    Stored { name: SpecSymbol, bindings: Seq<SpecSymbol>, span: SourceSpan },
}

/// A relation handed to a fixed rule: a derived one, or a stored one.
#[derive(Debug)]
pub enum MagicFixedRuleRuleArg {
    InMem { name: MagicSymbol, bindings: Vec<Symbol>, span: SourceSpan },
    Stored { name: Symbol, bindings: Vec<Symbol>, span: SourceSpan },
}

impl View for MagicFixedRuleRuleArg {
    type V = SpecFixedRuleArg;

    open spec fn view(&self) -> SpecFixedRuleArg {
        match self {
            MagicFixedRuleRuleArg::InMem { name, bindings, span } => SpecFixedRuleArg::InMem {
                name: name@,
                bindings: bindings.deep_view(),
                span: *span,
            },
            MagicFixedRuleRuleArg::Stored { name, bindings, span } => SpecFixedRuleArg::Stored {
                name: name@,
                bindings: bindings.deep_view(),
                span: *span,
            },
        }
    }
}

impl DeepView for MagicFixedRuleRuleArg {
    type V = SpecFixedRuleArg;

    open spec fn deep_view(&self) -> SpecFixedRuleArg {
        self@
    }
}

impl SpecFixedRuleArg {
    /// The variables that the columns of the relation are bound to.
    pub open spec fn bindings(self) -> Seq<SpecSymbol> {
        match self {
            SpecFixedRuleArg::InMem { bindings, .. } => bindings,
            SpecFixedRuleArg::Stored { bindings, .. } => bindings,
        }
    }

    /// Where the argument was written.
    pub open spec fn span(self) -> SourceSpan {
        match self {
            SpecFixedRuleArg::InMem { span, .. } => span,
            SpecFixedRuleArg::Stored { span, .. } => span,
        }
    }

    /// The number of columns of the relation: for a derived one the arity on
    /// record, for a stored one what the catalog says.
    pub open spec fn arity(
        self,
        arities: Seq<(SpecMagicSymbol, usize)>,
        relations: Seq<SpecRelationHandle>,
    ) -> Result<usize, SpecInputRelationError> {
        match self {
            SpecFixedRuleArg::InMem { name, .. } => match arity_lookup(arities, name) {
                Some(a) => Ok(a),
                None => Err(
                    SpecInputRelationError::RuleNotFound { name: name.symbol().name, span: name.symbol().span },
                ),
            },
            SpecFixedRuleArg::Stored { name, .. } => match lookup_relation(relations, name.name) {
                Some(h) => Ok(h.arity as usize),
                None => Err(
                    SpecInputRelationError::Relation(SpecCompileError::StoredRelationNotFound { name: name.name }),
                ),
            },
        }
    }
}

impl MagicFixedRuleRuleArg {
    /// The number of columns of the relation.
    pub fn arity(&self, compiler: &Compiler, stores: &ArityMap) -> (r: Result<usize, InputRelationError>)
        ensures
            match r {
                Ok(a) => self@.arity(stores@, compiler@) == Ok::<usize, SpecInputRelationError>(a),
                Err(e) => self@.arity(stores@, compiler@) == Err::<usize, SpecInputRelationError>(e@),
            },
    {
        match self {
            MagicFixedRuleRuleArg::InMem { name, .. } => match stores.get(name) {
                Some(a) => Ok(a),
                None => Err(
                    InputRelationError::RuleNotFound(
                        RuleNotFoundError(name.symbol().to_string(), name.symbol().span),
                    ),
                ),
            },
            MagicFixedRuleRuleArg::Stored { name, .. } => match compiler.get_relation(name.name.as_str()) {
                Ok(handle) => Ok(handle.arity as usize),
                Err(e) => Err(InputRelationError::Relation(e)),
            },
        }
    }

    /// Each variable of the relation with the position of its column,
    /// counted from `starting`.
    pub fn get_binding_map(&self, starting: usize) -> (r: Vec<(Symbol, usize)>)
        requires
            starting + self@.bindings().len() <= usize::MAX,
        ensures
            r.len() == self@.bindings().len(),
            forall|i: int|
                0 <= i < r.len() ==> (#[trigger] r[i]).0@ == self@.bindings()[i] && r[i].1 == starting + i,
    {
        let bindings = match self {
            MagicFixedRuleRuleArg::InMem { bindings, .. } => bindings,
            MagicFixedRuleRuleArg::Stored { bindings, .. } => bindings,
        };
        let mut out: Vec<(Symbol, usize)> = Vec::new();
        let mut i: usize = 0;
        while i < bindings.len()
            invariant
                i <= bindings.len(),
                out.len() == i,
                bindings.deep_view() == self@.bindings(),
                starting + bindings.len() <= usize::MAX,
                forall|j: int| 0 <= j < i ==> (#[trigger] out[j]).0@ == bindings[j]@ && out[j].1 == starting + j,
            decreases bindings.len() - i,
        {
            out.push((bindings[i].clone(), starting + i));
            i += 1;
        }
        out
    }

    /// Where the argument was written.
    pub fn span(&self) -> (s: SourceSpan)
        ensures
            s == self@.span(),
    {
        match self {
            MagicFixedRuleRuleArg::InMem { span, .. } => *span,
            MagicFixedRuleRuleArg::Stored { span, .. } => *span,
        }
    }
}

/// The mathematical value of a [`MagicFixedRuleApply`].
pub struct SpecFixedRuleApply {
    pub name: SpecSymbol,
    pub rule_args: Seq<SpecFixedRuleArg>,
    pub options: Seq<(Seq<char>, SpecExpr)>,
    pub span: SourceSpan,
    pub arity: usize,
}

/// The application of a fixed rule: its name, the relations and options it
/// is given, and the number of columns it puts out.
#[derive(Debug)]
pub struct MagicFixedRuleApply {
    pub fixed_handle: FixedRuleHandle,
    pub rule_args: Vec<MagicFixedRuleRuleArg>,
    pub options: Vec<(String, Expr)>,
    pub span: SourceSpan,
    pub arity: usize,
}

impl View for MagicFixedRuleApply {
    type V = SpecFixedRuleApply;

    open spec fn view(&self) -> SpecFixedRuleApply {
        SpecFixedRuleApply {
            name: self.fixed_handle.name@,
            rule_args: self.rule_args.deep_view(),
            options: self.options.deep_view(),
            span: self.span,
            arity: self.arity,
        }
    }
}

impl DeepView for MagicFixedRuleApply {
    type V = SpecFixedRuleApply;

    open spec fn deep_view(&self) -> SpecFixedRuleApply {
        self@
    }
}

/// A relation handed to a fixed rule, together with what is needed to tell
/// its shape: the arities of the derived relations and the catalog of the
/// stored ones.
#[derive(Clone, Copy)]
pub struct FixedRuleInputRelation<'a> {
    pub arg_manifest: &'a MagicFixedRuleRuleArg,
    pub stores: &'a ArityMap,
    pub compiler: &'a Compiler,
}

impl<'a> FixedRuleInputRelation<'a> {
    /// The number of columns of the relation.
    pub fn arity(&self) -> (r: Result<usize, InputRelationError>)
        ensures
            match r {
                Ok(a) => self.arg_manifest@.arity(self.stores@, self.compiler@) == Ok::<usize, SpecInputRelationError>(
                    a,
                ),
                Err(e) => self.arg_manifest@.arity(self.stores@, self.compiler@) == Err::<
                    usize,
                    SpecInputRelationError,
                >(e@),
            },
    {
        self.arg_manifest.arity(self.compiler, self.stores)
    }

    /// Each variable of the relation with the position of its column,
    /// counted from `offset`.
    pub fn get_binding_map(&self, offset: usize) -> (r: Vec<(Symbol, usize)>)
        requires
            offset + self.arg_manifest@.bindings().len() <= usize::MAX,
        ensures
            r.len() == self.arg_manifest@.bindings().len(),
            forall|i: int|
                0 <= i < r.len() ==> (#[trigger] r[i]).0@ == self.arg_manifest@.bindings()[i] && r[i].1 == offset + i,
    {
        self.arg_manifest.get_binding_map(offset)
    }

    /// Where the relation was written.
    pub fn span(&self) -> (s: SourceSpan)
        ensures
            s == self.arg_manifest@.span(),
    {
        self.arg_manifest.span()
    }
}

/// What a fixed rule has to say before it can stand in a program: how many
/// columns it puts out for given options and a given head.
pub trait FixedRule {
    /// Lets the rule look at its options, and change them, before anything
    /// else is done with them. A rule that says nothing else accepts them
    /// as they are: it succeeds and changes none of them.
    fn init_options(&self, options: &mut Vec<(String, Expr)>, span: SourceSpan) -> (r: Result<(), CompileError>)
        default_ensures
            r is Ok,
            *final(options) == *old(options),
    {
        Ok(())
    }

    /// The number of columns that the rule puts out.
    fn arity(&self, options: &Vec<(String, Expr)>, rule_head: &Vec<Symbol>, span: SourceSpan) -> (r: Result<
        usize,
        CompileError,
    >);
}

/// A fixed rule that is given as a function from its input relations and
/// options to its output, and that always puts out the same number of
/// columns.
pub struct SimpleFixedRule<R> {
    return_arity: usize,
    rule: R,
}

impl<R> SimpleFixedRule<R> {
    /// The number of columns that the rule was made with.
    pub closed spec fn return_arity(&self) -> usize {
        self.return_arity
    }

    /// The function that the rule was made with.
    pub closed spec fn rule(&self) -> R {
        self.rule
    }

    /// A rule that puts out `return_arity` columns and computes its output by
    /// `rule`.
    pub fn new(return_arity: usize, rule: R) -> (r: Self)
        ensures
            r.return_arity() == return_arity,
            r.rule() == rule,
    {
        SimpleFixedRule { return_arity, rule }
    }
}

impl<R> FixedRule for SimpleFixedRule<R> {
    /// Leaves the options as they are.
    fn init_options(&self, options: &mut Vec<(String, Expr)>, span: SourceSpan) -> (r: Result<(), CompileError>)
        ensures
            r is Ok,
            *final(options) == *old(options),
    {
        Ok(())
    }

    /// The number of columns that the rule was made with, whatever the
    /// options and the head.
    fn arity(&self, options: &Vec<(String, Expr)>, rule_head: &Vec<Symbol>, span: SourceSpan) -> (r: Result<
        usize,
        CompileError,
    >)
        ensures
            r matches Ok(a) && a == self.return_arity(),
    {
        Ok(self.return_arity)
    }
}

} // verus!
