use vstd::prelude::*;
use vstd::string::StrSliceExecFns;

verus! {

/// A region of the source text, as a start offset and a length.
#[derive(Clone, Copy, Debug, PartialEq, Eq, Structural)]
pub struct SourceSpan(pub usize, pub usize);

/// The mathematical value of a [`Symbol`].
pub struct SpecSymbol {
    pub name: Seq<char>,
    pub span: SourceSpan,
}

/// A named variable together with the place it was written. Two symbols
/// stand for the same variable when their names agree; the span is carried
/// along for diagnostics only.
#[derive(Debug)]
pub struct Symbol {
    pub name: String,
    pub span: SourceSpan,
}

impl View for Symbol {
    type V = SpecSymbol;

    open spec fn view(&self) -> SpecSymbol {
        SpecSymbol { name: self.name@, span: self.span }
    }
}

impl DeepView for Symbol {
    type V = SpecSymbol;

    open spec fn deep_view(&self) -> SpecSymbol {
        self@
    }
}

impl Clone for Symbol {
    fn clone(&self) -> (s: Symbol)
        ensures
            s@ == self@,
    {
        Symbol { name: self.name.clone(), span: self.span }
    }
}

/// The names of a list of symbols, in order.
pub open spec fn names_of(s: Seq<SpecSymbol>) -> Seq<Seq<char>> {
    s.map_values(|x: SpecSymbol| x.name)
}

/// The set of names that occur in a list of symbols.
pub open spec fn name_set(s: Seq<SpecSymbol>) -> Set<Seq<char>> {
    Set::new(|n: Seq<char>| has_name(s, n))
}

/// Whether some symbol of the list carries the name.
pub open spec fn has_name(s: Seq<SpecSymbol>, name: Seq<char>) -> bool {
    exists|i: int| 0 <= i < s.len() && #[trigger] s[i].name == name
}

/// No name occurs at two positions of the list.
pub open spec fn distinct_names(s: Seq<SpecSymbol>) -> bool {
    forall|i: int, j: int|
        0 <= i < s.len() && 0 <= j < s.len() && i != j ==> #[trigger] s[i].name != #[trigger] s[j].name
}

/// The list with every symbol removed whose name is in `drop`; the others
/// keep their order.
pub open spec fn without(s: Seq<SpecSymbol>, drop: Set<Seq<char>>) -> Seq<SpecSymbol>
    decreases s.len(),
{
    if s.len() == 0 {
        s
    } else if drop.contains(s.last().name) {
        without(s.drop_last(), drop)
    } else {
        without(s.drop_last(), drop).push(s.last())
    }
}

/// The names of the list that are missing from `used`.
pub open spec fn unused_names(s: Seq<SpecSymbol>, used: Set<Seq<char>>) -> Set<Seq<char>> {
    Set::new(|n: Seq<char>| has_name(s, n) && !used.contains(n))
}

/// The last position at which the name occurs in the list, if any.
pub open spec fn position_of(s: Seq<SpecSymbol>, name: Seq<char>) -> Option<int>
    decreases s.len(),
{
    if s.len() == 0 {
        None
    } else if s.last().name == name {
        Some(s.len() - 1)
    } else {
        position_of(s.drop_last(), name)
    }
}

/// A name has a position in a list exactly when it occurs there; the
/// position is that of its last occurrence.
pub proof fn lemma_position_of(s: Seq<SpecSymbol>, name: Seq<char>)
    ensures
        position_of(s, name) is Some <==> has_name(s, name),
        position_of(s, name) matches Some(p) ==> 0 <= p < s.len() && s[p].name == name && forall|j: int|
            p < j < s.len() ==> (#[trigger] s[j]).name != name,
    decreases s.len(),
{
    if s.len() > 0 {
        lemma_position_of(s.drop_last(), name);
        if s.last().name == name {
            assert(s[s.len() - 1].name == name);
        } else {
            if has_name(s, name) {
                let i = choose|i: int| 0 <= i < s.len() && #[trigger] s[i].name == name;
                assert(s.drop_last()[i].name == name);
            }
            if has_name(s.drop_last(), name) {
                let i = choose|i: int| 0 <= i < s.drop_last().len() && #[trigger] s.drop_last()[i].name == name;
                assert(s[i].name == name);
            }
            if let Some(p) = position_of(s, name) {
                assert forall|j: int| p < j < s.len() implies (#[trigger] s[j]).name != name by {
                    if j < s.len() - 1 {
                        assert(s.drop_last()[j].name != name);
                    }
                }
            }
        }
    }
}

/// What is left of a list after names were dropped: the symbols whose names
/// were not dropped, each a symbol of the list, and no name twice where the
/// list had none twice.
pub proof fn lemma_without(s: Seq<SpecSymbol>, drop: Set<Seq<char>>)
    ensures
        forall|n: Seq<char>| has_name(without(s, drop), n) <==> has_name(s, n) && !drop.contains(n),
        distinct_names(s) ==> distinct_names(without(s, drop)),
        without(s, drop).len() <= s.len(),
        forall|i: int| 0 <= i < without(s, drop).len() ==> s.contains(#[trigger] without(s, drop)[i]),
    decreases s.len(),
{
    let w = without(s, drop);
    if s.len() > 0 {
        let r = s.drop_last();
        let wr = without(r, drop);
        lemma_without(r, drop);
        assert forall|n: Seq<char>| has_name(w, n) <==> has_name(s, n) && !drop.contains(n) by {
            if has_name(w, n) {
                let i = choose|i: int| 0 <= i < w.len() && #[trigger] w[i].name == n;
                if i < wr.len() {
                    assert(wr[i].name == n);
                    assert(has_name(r, n));
                    let k = choose|k: int| 0 <= k < r.len() && #[trigger] r[k].name == n;
                    assert(s[k].name == n);
                } else {
                    assert(s[s.len() - 1].name == n);
                }
            }
            if has_name(s, n) && !drop.contains(n) {
                let k = choose|k: int| 0 <= k < s.len() && #[trigger] s[k].name == n;
                if k < r.len() {
                    assert(r[k].name == n);
                    assert(has_name(wr, n));
                    let i = choose|i: int| 0 <= i < wr.len() && #[trigger] wr[i].name == n;
                    assert(w[i].name == n);
                } else {
                    assert(w[w.len() - 1].name == n);
                }
            }
        }
        if distinct_names(s) {
            assert(distinct_names(r)) by {
                assert forall|i: int, j: int|
                    0 <= i < r.len() && 0 <= j < r.len() && i != j implies #[trigger] r[i].name != #[trigger] r[j].name by {
                    assert(s[i].name != s[j].name);
                }
            }
            if !drop.contains(s.last().name) {
                assert forall|i: int, j: int|
                    0 <= i < w.len() && 0 <= j < w.len() && i != j implies #[trigger] w[i].name != #[trigger] w[j].name by {
                    if i < wr.len() && j < wr.len() {
                        assert(wr[i].name != wr[j].name);
                    } else {
                        let k = if i < wr.len() { i } else { j };
                        assert(has_name(wr, wr[k].name));
                        assert(has_name(r, wr[k].name));
                        let m = choose|m: int| 0 <= m < r.len() && #[trigger] r[m].name == wr[k].name;
                        assert(s[m].name != s[s.len() - 1].name);
                    }
                }
            }
        }
        assert forall|i: int| 0 <= i < w.len() implies s.contains(#[trigger] w[i]) by {
            if i < wr.len() {
                assert(r.contains(wr[i]));
                let k = choose|k: int| 0 <= k < r.len() && r[k] == wr[i];
                assert(s[k] == w[i]);
            } else {
                assert(s[s.len() - 1] == w[i]);
            }
        }
    }
}

/// A name occurs in the concatenation of two lists exactly when it occurs
/// in one of them.
pub proof fn lemma_has_name_add(a: Seq<SpecSymbol>, b: Seq<SpecSymbol>)
    ensures
        forall|n: Seq<char>| #[trigger] has_name(a + b, n) <==> has_name(a, n) || has_name(b, n),
{
    assert forall|n: Seq<char>| has_name(a + b, n) <==> has_name(a, n) || has_name(b, n) by {
        if has_name(a + b, n) {
            let i = choose|i: int| 0 <= i < (a + b).len() && #[trigger] (a + b)[i].name == n;
            if i < a.len() {
                assert(a[i].name == n);
            } else {
                assert(b[i - a.len()].name == n);
            }
        }
        if has_name(a, n) {
            let i = choose|i: int| 0 <= i < a.len() && #[trigger] a[i].name == n;
            assert((a + b)[i].name == n);
        }
        if has_name(b, n) {
            let i = choose|i: int| 0 <= i < b.len() && #[trigger] b[i].name == n;
            assert((a + b)[a.len() + i].name == n);
        }
    }
}

/// A name occurs in a list with one more symbol exactly when it occurs in
/// the list or is the name of that symbol.
pub proof fn lemma_has_name_push(a: Seq<SpecSymbol>, x: SpecSymbol)
    ensures
        forall|n: Seq<char>| #[trigger] has_name(a.push(x), n) <==> has_name(a, n) || n == x.name,
{
    assert forall|n: Seq<char>| has_name(a.push(x), n) <==> has_name(a, n) || n == x.name by {
        if has_name(a.push(x), n) {
            let i = choose|i: int| 0 <= i < a.push(x).len() && #[trigger] a.push(x)[i].name == n;
            if i < a.len() {
                assert(a[i].name == n);
            }
        }
        if has_name(a, n) {
            let i = choose|i: int| 0 <= i < a.len() && #[trigger] a[i].name == n;
            assert(a.push(x)[i].name == n);
        }
        if n == x.name {
            assert(a.push(x)[a.len() as int].name == n);
        }
    }
}

impl Symbol {
    /// The variable of that name, written at `span`.
    pub fn new(name: &str, span: SourceSpan) -> (s: Symbol)
        ensures
            s@ == (SpecSymbol { name: name@, span }),
    {
        Symbol { name: name.to_owned(), span }
    }

    /// Whether the two symbols name the same variable.
    pub fn same_name(&self, other: &Symbol) -> (b: bool)
        ensures
            b == (self@.name == other@.name),
    {
        self.name == other.name
    }

    /// Whether this is a name made up for a position that the rule
    /// does not care about: such names begin with a tilde.
    pub fn is_generated_ignored_symbol(&self) -> (b: bool)
        ensures
            b == is_ignored_name(self@.name),
    {
        let s = self.name.as_str();
        s.unicode_len() > 0 && s.get_char(0) == '~'
    }

    /// The symbol's text: its name.
    pub fn to_string(&self) -> (s: String)
        ensures
            s@ == self@.name,
    {
        self.name.clone()
    }
}

/// Whether the name begins with a tilde.
pub open spec fn is_ignored_name(name: Seq<char>) -> bool {
    name.len() > 0 && name[0] == '~'
}

/// Looks a symbol up in a list by name and gives the last position at which
/// it occurs.
pub fn find_position(bindings: &Vec<Symbol>, sym: &Symbol) -> (r: Option<usize>)
    ensures
        match r {
            Some(p) => position_of(bindings.deep_view(), sym@.name) == Some(p as int),
            None => position_of(bindings.deep_view(), sym@.name) is None,
        },
{
    let mut i: usize = bindings.len();
    let ghost full = bindings.deep_view();
    proof {
        assert(full.take(i as int) =~= full);
    }
    while i > 0
        invariant
            i <= bindings.len(),
            full == bindings.deep_view(),
            position_of(full, sym@.name) == position_of(full.take(i as int), sym@.name),
        decreases i,
    {
        proof {
            assert(full.take(i as int).drop_last() =~= full.take(i - 1));
        }
        if bindings[i - 1].same_name(sym) {
            return Some(i - 1);
        }
        i -= 1;
    }
    proof {
        assert(full.take(0).len() == 0);
    }
    None
}

/// A copy of the symbols.
pub fn clone_symbols(v: &Vec<Symbol>) -> (r: Vec<Symbol>)
    ensures
        r.deep_view() == v.deep_view(),
{
    let mut out: Vec<Symbol> = Vec::new();
    let mut i: usize = 0;
    while i < v.len()
        invariant
            i <= v.len(),
            out.len() == i,
            forall|j: int| 0 <= j < i ==> out[j]@ == v[j]@,
        decreases v.len() - i,
    {
        out.push(v[i].clone());
        i += 1;
    }
    assert(out.deep_view() =~= v.deep_view());
    out
}

} // verus!
