use vstd::prelude::*;
use crate::expr::{Expr, SpecExpr};

verus! {

/// The mathematical value of a [`ColType`].
pub enum SpecColType {
    Any,
    Bool,
    Int,
    Float,
    String,
    Bytes,
    Uuid,
    List { eltype: Box<SpecNullableColType>, len: Option<usize> },
    Tuple(Seq<SpecNullableColType>),
    Validity,
    Json,
}

/// The mathematical value of a [`NullableColType`].
pub struct SpecNullableColType {
    pub coltype: SpecColType,
    pub nullable: bool,
}

/// The mathematical value of a [`ColumnDef`].
pub struct SpecColumnDef {
    pub name: Seq<char>,
    pub typing: SpecNullableColType,
    pub default_gen: Option<SpecExpr>,
}

/// The type of the values of a column.
#[derive(Debug)]
pub enum ColType {
    Any,
    Bool,
    Int,
    Float,
    String,
    Bytes,
    Uuid,
    List { eltype: Box<NullableColType>, len: Option<usize> },
    Tuple(Vec<NullableColType>),
    Validity,
    Json,
}

/// A column type together with whether the column may hold no value.
#[derive(Debug)]
pub struct NullableColType {
    pub coltype: ColType,
    pub nullable: bool,
}

/// A column of a stored relation: its name, its type, and the expression
/// that gives its value where a row has none.
#[derive(Debug)]
pub struct ColumnDef {
    pub name: String,
    pub typing: NullableColType,
    pub default_gen: Option<Expr>,
}

/// What a column type stands for.
pub open spec fn coltype_view(c: ColType) -> SpecColType
    decreases c,
{
    match c {
        ColType::Any => SpecColType::Any,
        ColType::Bool => SpecColType::Bool,
        ColType::Int => SpecColType::Int,
        ColType::Float => SpecColType::Float,
        ColType::String => SpecColType::String,
        ColType::Bytes => SpecColType::Bytes,
        ColType::Uuid => SpecColType::Uuid,
        ColType::List { eltype, len } => SpecColType::List {
            eltype: Box::new(
                SpecNullableColType { coltype: coltype_view(eltype.coltype), nullable: eltype.nullable },
            ),
            len,
        },
        ColType::Tuple(items) => SpecColType::Tuple(
            Seq::new(
                items.len() as nat,
                |i: int|
                    if 0 <= i < items.len() {
                        SpecNullableColType { coltype: coltype_view(items[i].coltype), nullable: items[i].nullable }
                    } else {
                        SpecNullableColType { coltype: SpecColType::Any, nullable: false }
                    },
            ),
        ),
        ColType::Validity => SpecColType::Validity,
        ColType::Json => SpecColType::Json,
    }
}

impl View for ColType {
    type V = SpecColType;

    open spec fn view(&self) -> SpecColType {
        coltype_view(*self)
    }
}

impl DeepView for ColType {
    type V = SpecColType;

    open spec fn deep_view(&self) -> SpecColType {
        coltype_view(*self)
    }
}

impl View for NullableColType {
    type V = SpecNullableColType;

    open spec fn view(&self) -> SpecNullableColType {
        SpecNullableColType { coltype: self.coltype@, nullable: self.nullable }
    }
}

impl DeepView for NullableColType {
    type V = SpecNullableColType;

    open spec fn deep_view(&self) -> SpecNullableColType {
        self@
    }
}

impl View for ColumnDef {
    type V = SpecColumnDef;

    open spec fn view(&self) -> SpecColumnDef {
        SpecColumnDef { name: self.name@, typing: self.typing@, default_gen: self.default_gen.deep_view() }
    }
}

impl DeepView for ColumnDef {
    type V = SpecColumnDef;

    open spec fn deep_view(&self) -> SpecColumnDef {
        self@
    }
}

/// A tuple type stands for the tuple of what its items stand for.
pub proof fn lemma_tuple_view(items: Vec<NullableColType>)
    ensures
        ColType::Tuple(items)@ == SpecColType::Tuple(items.deep_view()),
{
    assert(ColType::Tuple(items)@->Tuple_0 =~= items.deep_view());
}

impl Clone for ColType {
    fn clone(&self) -> (r: ColType)
        ensures
            r@ == self@,
        decreases *self, 0int,
    {
        match self {
            ColType::Any => ColType::Any,
            ColType::Bool => ColType::Bool,
            ColType::Int => ColType::Int,
            ColType::Float => ColType::Float,
            ColType::String => ColType::String,
            ColType::Bytes => ColType::Bytes,
            ColType::Uuid => ColType::Uuid,
            ColType::List { eltype, len } => {
                let inner = NullableColType { coltype: eltype.coltype.clone(), nullable: eltype.nullable };
                ColType::List { eltype: Box::new(inner), len: *len }
            },
            ColType::Tuple(items) => {
                let mut out: Vec<NullableColType> = Vec::new();
                let mut i: usize = 0;
                while i < items.len()
                    invariant
                        i <= items.len(),
                        out.len() == i,
                        *self matches ColType::Tuple(l) && l == *items,
                        forall|j: int| 0 <= j < i ==> out[j]@ == items[j]@,
                    decreases items.len() - i,
                {
                    let item = NullableColType { coltype: items[i].coltype.clone(), nullable: items[i].nullable };
                    out.push(item);
                    i += 1;
                }
                proof {
                    assert(out.deep_view() =~= items.deep_view());
                    lemma_tuple_view(out);
                    lemma_tuple_view(*items);
                }
                ColType::Tuple(out)
            },
            ColType::Validity => ColType::Validity,
            ColType::Json => ColType::Json,
        }
    }
}

impl Clone for NullableColType {
    fn clone(&self) -> (r: NullableColType)
        ensures
            r@ == self@,
    {
        NullableColType { coltype: self.coltype.clone(), nullable: self.nullable }
    }
}

impl Clone for ColumnDef {
    fn clone(&self) -> (r: ColumnDef)
        ensures
            r@ == self@,
    {
        let default_gen = match &self.default_gen {
            Some(e) => Some(e.clone()),
            None => None,
        };
        ColumnDef { name: self.name.clone(), typing: self.typing.clone(), default_gen }
    }
}

/// A copy of a list of columns.
pub fn clone_columns(v: &Vec<ColumnDef>) -> (r: Vec<ColumnDef>)
    ensures
        r.deep_view() == v.deep_view(),
{
    let mut out: Vec<ColumnDef> = Vec::new();
    let mut i: usize = 0;
    while i < v.len()
        invariant
            i <= v.len(),
            out.len() == i,
            forall|j: int| 0 <= j < i ==> out[j]@ == v[j]@,
        decreases v.len() - i,
    {
        out.push(v[i].clone());
        i += 1;
    }
    assert(out.deep_view() =~= v.deep_view());
    out
}

} // verus!
