use vstd::prelude::*;
use vstd::string::StringExecFns;
use crate::symb::{SourceSpan, SpecSymbol, Symbol};
use crate::text::{decimal, decimal_string, lemma_decimal_injective};

verus! {

/// The mathematical value of a [`MagicSymbol`].
pub enum SpecMagicSymbol {
    Muggle { inner: SpecSymbol },
    Magic { inner: SpecSymbol, adornment: Seq<bool> },
}

/// The identity of a derived relation after the magic-sets rewrite: either
/// the plain name it was written with, or that name together with an
/// adornment that marks each argument position as bound or free.
#[derive(Debug)]
pub enum MagicSymbol {
    Muggle { inner: Symbol },
    Magic { inner: Symbol, adornment: Vec<bool> },
}

/// The letters that write an adornment: `b` for a bound position, `f` for a
/// free one.
pub open spec fn adornment_text(a: Seq<bool>) -> Seq<char>
    decreases a.len(),
{
    if a.len() == 0 {
        Seq::empty()
    } else {
        adornment_text(a.drop_last()).push(if a.last() { 'b' } else { 'f' })
    }
}

impl SpecMagicSymbol {
    /// The symbol that the relation was written with.
    pub open spec fn symbol(self) -> SpecSymbol {
        match self {
            SpecMagicSymbol::Muggle { inner } => inner,
            SpecMagicSymbol::Magic { inner, .. } => inner,
        }
    }

    /// Whether both stand for the same relation: the same kind, name and
    /// adornment. Spans play no part.
    pub open spec fn same_relation(self, other: SpecMagicSymbol) -> bool {
        match (self, other) {
            (SpecMagicSymbol::Muggle { inner: a }, SpecMagicSymbol::Muggle { inner: b }) => a.name == b.name,
            (
                SpecMagicSymbol::Magic { inner: a, adornment: x },
                SpecMagicSymbol::Magic { inner: b, adornment: y },
            ) => a.name == b.name && x == y,
            _ => false,
        }
    }

    /// The text of the relation's identity: the name, and for a rewritten
    /// relation `|M` and the adornment's letters behind it.
    pub open spec fn text(self) -> Seq<char> {
        match self {
            SpecMagicSymbol::Muggle { inner } => inner.name,
            SpecMagicSymbol::Magic { inner, adornment } => inner.name + seq!['|', 'M'] + adornment_text(
                adornment,
            ),
        }
    }
}

impl View for MagicSymbol {
    type V = SpecMagicSymbol;

    open spec fn view(&self) -> SpecMagicSymbol {
        match self {
            MagicSymbol::Muggle { inner } => SpecMagicSymbol::Muggle { inner: inner@ },
            MagicSymbol::Magic { inner, adornment } => SpecMagicSymbol::Magic {
                inner: inner@,
                adornment: adornment@,
            },
        }
    }
}

impl DeepView for MagicSymbol {
    type V = SpecMagicSymbol;

    open spec fn deep_view(&self) -> SpecMagicSymbol {
        self@
    }
}

impl Clone for MagicSymbol {
    fn clone(&self) -> (r: MagicSymbol)
        ensures
            r@ == self@,
    {
        match self {
            MagicSymbol::Muggle { inner } => MagicSymbol::Muggle { inner: inner.clone() },
            MagicSymbol::Magic { inner, adornment } => {
                let mut copy: Vec<bool> = Vec::new();
                let mut i: usize = 0;
                while i < adornment.len()
                    invariant
                        i <= adornment.len(),
                        copy@ == adornment@.take(i as int),
                    decreases adornment.len() - i,
                {
                    copy.push(adornment[i]);
                    assert(copy@ =~= adornment@.take(i + 1));
                    i += 1;
                }
                assert(copy@ =~= adornment@);
                MagicSymbol::Magic { inner: inner.clone(), adornment: copy }
            },
        }
    }
}

/// Whether the two lists hold the same values in the same order.
fn same_bools(x: &Vec<bool>, y: &Vec<bool>) -> (b: bool)
    ensures
        b == (x@ == y@),
{
    if x.len() != y.len() {
        return false;
    }
    let mut i: usize = 0;
    while i < x.len()
        invariant
            i <= x.len(),
            x.len() == y.len(),
            forall|j: int| 0 <= j < i ==> x[j] == y[j],
        decreases x.len() - i,
    {
        if x[i] != y[i] {
            assert(x@[i as int] != y@[i as int]);
            return false;
        }
        i += 1;
    }
    assert(x@ =~= y@);
    true
}

impl MagicSymbol {
    /// The symbol that the relation was written with.
    pub fn symbol(&self) -> (s: &Symbol)
        ensures
            s@ == self@.symbol(),
    {
        match self {
            MagicSymbol::Muggle { inner } => inner,
            MagicSymbol::Magic { inner, .. } => inner,
        }
    }

    /// Whether both stand for the same relation.
    pub fn same_relation(&self, other: &MagicSymbol) -> (b: bool)
        ensures
            b == self@.same_relation(other@),
    {
        match self {
            MagicSymbol::Muggle { inner: a } => match other {
                MagicSymbol::Muggle { inner: b } => a.same_name(b),
                MagicSymbol::Magic { .. } => false,
            },
            MagicSymbol::Magic { inner: a, adornment: x } => match other {
                MagicSymbol::Muggle { .. } => false,
                MagicSymbol::Magic { inner: b, adornment: y } => {
                    a.same_name(b) && same_bools(x, y)
                },
            },
        }
    }

    /// The text of the relation's identity.
    pub fn to_string(&self) -> (s: String)
        ensures
            s@ == self@.text(),
    {
        match self {
            MagicSymbol::Muggle { inner } => inner.name.clone(),
            MagicSymbol::Magic { inner, adornment } => {
                let mut s = inner.name.clone();
                s.append("|M");
                proof {
                    reveal_strlit("|M");
                    reveal_strlit("b");
                    reveal_strlit("f");
                    assert(s@ =~= inner@.name + seq!['|', 'M'] + adornment_text(adornment@.take(0)));
                }
                let mut i: usize = 0;
                while i < adornment.len()
                    invariant
                        i <= adornment.len(),
                        s@ == inner@.name + seq!['|', 'M'] + adornment_text(adornment@.take(i as int)),
                    decreases adornment.len() - i,
                {
                    proof {
                        reveal_strlit("b");
                        reveal_strlit("f");
                        assert(adornment@.take(i + 1).drop_last() =~= adornment@.take(i as int));
                    }
                    if adornment[i] {
                        s.append("b");
                    } else {
                        s.append("f");
                    }
                    assert(s@ =~= inner@.name + seq!['|', 'M'] + adornment_text(adornment@.take(i + 1)));
                    i += 1;
                }
                assert(adornment@.take(adornment.len() as int) =~= adornment@);
                s
            },
        }
    }
}

/// The name of the `id`-th variable that the compiler makes up: two
/// asterisks and the number in decimal.
pub open spec fn synthetic_name(id: nat) -> Seq<char> {
    seq!['*', '*'] + decimal(id)
}

/// Whether the name is one that the compiler may make up for itself.
pub open spec fn is_synthetic_name(name: Seq<char>) -> bool {
    exists|id: nat| name == #[trigger] synthetic_name(id)
}

/// Made-up names with different numbers differ.
pub proof fn lemma_synthetic_injective(a: nat, b: nat)
    requires
        synthetic_name(a) == synthetic_name(b),
    ensures
        a == b,
{
    assert(synthetic_name(a).subrange(2, synthetic_name(a).len() as int) =~= decimal(a));
    assert(synthetic_name(b).subrange(2, synthetic_name(b).len() as int) =~= decimal(b));
    lemma_decimal_injective(a, b);
}

/// The source of made-up variable names: hands out `**0`, `**1`, ... in turn.
#[derive(Debug)]
pub struct SymbolGen {
    pub next_id: u128,
}

impl SymbolGen {
    /// A generator that has made up no name yet.
    pub fn new() -> (g: SymbolGen)
        ensures
            g.next_id == 0,
    {
        SymbolGen { next_id: 0 }
    }

    /// The next made-up variable, placed at `span`.
    pub fn fresh(&mut self, span: SourceSpan) -> (s: Symbol)
        requires
            old(self).next_id < u128::MAX,
        ensures
            s@ == (SpecSymbol { name: synthetic_name(old(self).next_id as nat), span }),
            final(self).next_id == old(self).next_id + 1,
    {
        let mut name = String::from_str("**");
        let digits = decimal_string(self.next_id);
        name.append(digits.as_str());
        proof {
            reveal_strlit("**");
            assert(name@ =~= synthetic_name(self.next_id as nat));
        }
        self.next_id = self.next_id + 1;
        Symbol { name, span }
    }
}

} // verus!
