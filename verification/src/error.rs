use vstd::prelude::*;
use vstd::string::StringExecFns;
use crate::symb::SourceSpan;

verus! {

/// The mathematical value of a [`CompileError`].
pub enum SpecCompileError {
    RuleNotFound { name: Seq<char>, span: SourceSpan },
    ArityMismatch { name: Seq<char>, expected: usize, given: usize, span: SourceSpan },
    UnboundSymbolInRuleHead { name: Seq<char>, span: SourceSpan },
    StoredRelationNotFound { name: Seq<char> },
    RelNameConflict { name: Seq<char> },
    StoreRelationConflict { name: Seq<char> },
    BadBinding { name: Seq<char>, span: SourceSpan },
}

/// Why a script could not be compiled. Every failure ends the compilation
/// of the script; where it can be tied to a place in the source, it carries
/// the span.
#[derive(Debug)]
pub enum CompileError {
    /// A rule application names a derived relation that has no arity on
    /// record.
    RuleNotFound { name: String, span: SourceSpan },
    /// An application has `given` arguments where the relation has
    /// `expected` columns.
    ArityMismatch { name: String, expected: usize, given: usize, span: SourceSpan },
    /// A variable of the rule head is not among the bindings that the body
    /// produces.
    UnboundSymbolInRuleHead { name: String, span: SourceSpan },
    /// No stored relation of this name has been declared.
    StoredRelationNotFound { name: String },
    /// A stored relation of this name has been declared before.
    RelNameConflict { name: String },
    /// A query asks to create a stored relation that exists already.
    StoreRelationConflict { name: String },
    /// An expression refers to a variable that the operator it belongs to
    /// does not receive.
    BadBinding { name: String, span: SourceSpan },
}

impl View for CompileError {
    type V = SpecCompileError;

    open spec fn view(&self) -> SpecCompileError {
        match self {
            CompileError::RuleNotFound { name, span } => SpecCompileError::RuleNotFound { name: name@, span: *span },
            CompileError::ArityMismatch { name, expected, given, span } => SpecCompileError::ArityMismatch {
                name: name@,
                expected: *expected,
                given: *given,
                span: *span,
            },
            CompileError::UnboundSymbolInRuleHead { name, span } => SpecCompileError::UnboundSymbolInRuleHead {
                name: name@,
                span: *span,
            },
            CompileError::StoredRelationNotFound { name } => SpecCompileError::StoredRelationNotFound { name: name@ },
            CompileError::RelNameConflict { name } => SpecCompileError::RelNameConflict { name: name@ },
            CompileError::StoreRelationConflict { name } => SpecCompileError::StoreRelationConflict { name: name@ },
            CompileError::BadBinding { name, span } => SpecCompileError::BadBinding { name: name@, span: *span },
        }
    }
}

impl DeepView for CompileError {
    type V = SpecCompileError;

    open spec fn deep_view(&self) -> SpecCompileError {
        self@
    }
}

impl SpecCompileError {
    /// What the failure says of itself.
    pub open spec fn message(self) -> Seq<char> {
        match self {
            SpecCompileError::RuleNotFound { name, .. } => "Requested rule "@ + name + " not found"@,
            SpecCompileError::ArityMismatch { name, .. } => "Arity mismatch for rule application "@ + name,
            SpecCompileError::UnboundSymbolInRuleHead { name, .. } => "Symbol '"@ + name
                + "' in rule head is unbound"@,
            SpecCompileError::StoredRelationNotFound { name } => "Cannot find requested stored relation '"@ + name
                + "'"@,
            SpecCompileError::RelNameConflict { name } => "Cannot create relation "@ + name
                + " as one with the same name already exists"@,
            SpecCompileError::StoreRelationConflict { name } => "Stored relation "@ + name
                + " conflicts with an existing one"@,
            SpecCompileError::BadBinding { name, .. } => "Cannot find binding "@ + name,
        }
    }

    /// Where in the source the failure arose, where it is tied to a place.
    pub open spec fn span(self) -> Option<SourceSpan> {
        match self {
            SpecCompileError::RuleNotFound { span, .. } => Some(span),
            SpecCompileError::ArityMismatch { span, .. } => Some(span),
            SpecCompileError::UnboundSymbolInRuleHead { span, .. } => Some(span),
            SpecCompileError::BadBinding { span, .. } => Some(span),
            _ => None,
        }
    }
}

/// A name between two pieces of text.
fn framed(before: &str, name: &String, after: &str) -> (s: String)
    ensures
        s@ == before@ + name@ + after@,
{
    let mut s = String::from_str(before);
    s.append(name.as_str());
    s.append(after);
    s
}

impl CompileError {
    /// What the failure says of itself.
    pub fn to_string(&self) -> (s: String)
        ensures
            s@ == self@.message(),
    {
        match self {
            CompileError::RuleNotFound { name, .. } => framed("Requested rule ", name, " not found"),
            CompileError::ArityMismatch { name, .. } => {
                proof {
                    reveal_strlit("");
                }
                let s = framed("Arity mismatch for rule application ", name, "");
                assert(s@ =~= self@.message());
                s
            },
            CompileError::UnboundSymbolInRuleHead { name, .. } => framed("Symbol '", name, "' in rule head is unbound"),
            CompileError::StoredRelationNotFound { name } => framed(
                "Cannot find requested stored relation '",
                name,
                "'",
            ),
            CompileError::RelNameConflict { name } => framed(
                "Cannot create relation ",
                name,
                " as one with the same name already exists",
            ),
            CompileError::StoreRelationConflict { name } => framed(
                "Stored relation ",
                name,
                " conflicts with an existing one",
            ),
            CompileError::BadBinding { name, .. } => {
                proof {
                    reveal_strlit("");
                }
                let s = framed("Cannot find binding ", name, "");
                assert(s@ =~= self@.message());
                s
            },
        }
    }

    /// Where in the source the failure arose, where it is tied to a place.
    pub fn span(&self) -> (r: Option<SourceSpan>)
        ensures
            r == self@.span(),
    {
        match self {
            CompileError::RuleNotFound { span, .. } => Some(*span),
            CompileError::ArityMismatch { span, .. } => Some(*span),
            CompileError::UnboundSymbolInRuleHead { span, .. } => Some(*span),
            CompileError::BadBinding { span, .. } => Some(*span),
            _ => None,
        }
    }
}

} // verus!
