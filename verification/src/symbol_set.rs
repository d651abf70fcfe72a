use vstd::prelude::*;
use crate::symb::{distinct_names, has_name, name_set, SpecSymbol, Symbol};

verus! {

/// A set of variables, told apart by name. Its mathematical value is the set
/// of the names it holds.
#[derive(Debug)]
pub struct SymbolSet {
    items: Vec<Symbol>,
}

impl View for SymbolSet {
    type V = Set<Seq<char>>;

    closed spec fn view(&self) -> Set<Seq<char>> {
        name_set(self.items.deep_view())
    }
}

impl SymbolSet {
    #[verifier::type_invariant]
    spec fn nothing_twice(self) -> bool {
        distinct_names(self.items.deep_view())
    }

    /// The empty set.
    pub fn new() -> (s: SymbolSet)
        ensures
            s@ == Set::<Seq<char>>::empty(),
    {
        let s = SymbolSet { items: Vec::new() };
        assert(s@ =~= Set::<Seq<char>>::empty());
        s
    }

    /// The number of variables in the set.
    pub fn len(&self) -> (n: usize)
        ensures
            n == self@.len(),
            self@.finite(),
    {
        proof {
            use_type_invariant(self);
            lemma_name_set_len(self.items.deep_view());
        }
        self.items.len()
    }

    /// Whether a variable of this name is in the set.
    pub fn contains(&self, sym: &Symbol) -> (b: bool)
        ensures
            b == self@.contains(sym@.name),
    {
        let mut i: usize = 0;
        while i < self.items.len()
            invariant
                i <= self.items.len(),
                forall|j: int| 0 <= j < i ==> self.items[j]@.name != sym@.name,
            decreases self.items.len() - i,
        {
            if self.items[i].same_name(sym) {
                assert(self.items.deep_view()[i as int].name == sym@.name);
                return true;
            }
            i += 1;
        }
        false
    }

    /// Adds a variable; says whether it was new. A variable whose name is
    /// already present leaves the set as it was.
    pub fn insert(&mut self, sym: Symbol) -> (added: bool)
        ensures
            final(self)@ == old(self)@.insert(sym@.name),
            added == !old(self)@.contains(sym@.name),
    {
        proof {
            use_type_invariant(&*self);
        }
        if self.contains(&sym) {
            assert(self@.insert(sym@.name) =~= self@);
            false
        } else {
            let ghost before = self.items.deep_view();
            let mut taken = SymbolSet { items: Vec::new() };
            core::mem::swap(self, &mut taken);
            let SymbolSet { items: mut items } = taken;
            items.push(sym);
            proof {
                let after = items.deep_view();
                assert(after =~= before.push(sym@));
                lemma_name_set_push(before, sym@);
                assert forall|i: int, j: int|
                    0 <= i < after.len() && 0 <= j < after.len() && i != j implies #[trigger] after[i].name
                    != #[trigger] after[j].name by {
                    if i < before.len() && j < before.len() {
                        assert(before[i].name != before[j].name);
                    } else if i < before.len() {
                        assert(before[i].name != sym@.name);
                    } else {
                        assert(before[j].name != sym@.name);
                    }
                }
            }
            *self = SymbolSet { items };
            true
        }
    }

    /// Adds every variable of the list.
    pub fn extend_from(&mut self, syms: &Vec<Symbol>)
        ensures
            final(self)@ == old(self)@.union(name_set(syms.deep_view())),
    {
        let mut i: usize = 0;
        let ghost all = syms.deep_view();
        proof {
            assert(name_set(all.take(0)) =~= Set::<Seq<char>>::empty());
            assert(self@.union(name_set(all.take(0))) =~= self@);
        }
        while i < syms.len()
            invariant
                i <= syms.len(),
                all == syms.deep_view(),
                self@ == old(self)@.union(name_set(all.take(i as int))),
            decreases syms.len() - i,
        {
            proof {
                assert(all.take(i + 1) =~= all.take(i as int).push(all[i as int]));
                lemma_name_set_push(all.take(i as int), all[i as int]);
            }
            self.insert(syms[i].clone());
            proof {
                assert(self@ =~= old(self)@.union(name_set(all.take(i + 1))));
            }
            i += 1;
        }
        proof {
            assert(all.take(syms.len() as int) =~= all);
        }
    }

    /// Adds every variable of another set.
    pub fn extend(&mut self, other: &SymbolSet)
        ensures
            final(self)@ == old(self)@.union(other@),
    {
        self.extend_from(&other.items);
    }

    /// The set of the variables of a list.
    pub fn from_symbols(syms: &Vec<Symbol>) -> (s: SymbolSet)
        ensures
            s@ == name_set(syms.deep_view()),
    {
        let mut s = SymbolSet::new();
        s.extend_from(syms);
        assert(s@ =~= name_set(syms.deep_view()));
        s
    }

    /// Whether every variable of this set is in the other.
    pub fn is_subset(&self, other: &SymbolSet) -> (b: bool)
        ensures
            b == self@.subset_of(other@),
    {
        let mut i: usize = 0;
        while i < self.items.len()
            invariant
                i <= self.items.len(),
                forall|j: int| 0 <= j < i ==> other@.contains(#[trigger] self.items[j]@.name),
            decreases self.items.len() - i,
        {
            if !other.contains(&self.items[i]) {
                assert(self.items.deep_view()[i as int].name == self.items[i as int]@.name);
                assert(self@.contains(self.items[i as int]@.name));
                return false;
            }
            i += 1;
        }
        proof {
            assert forall|n: Seq<char>| self@.contains(n) implies other@.contains(n) by {
                let k = choose|k: int|
                    0 <= k < self.items.deep_view().len() && #[trigger] self.items.deep_view()[k].name == n;
                assert(other@.contains(self.items[k]@.name));
            }
        }
        true
    }

    /// A copy of the set.
    pub fn duplicate(&self) -> (s: SymbolSet)
        ensures
            s@ == self@,
    {
        let mut s = SymbolSet::new();
        s.extend(self);
        assert(s@ =~= self@);
        s
    }
}

/// The names of a list with one more symbol: those of the list, and the
/// name of that symbol.
pub proof fn lemma_name_set_push(s: Seq<SpecSymbol>, x: SpecSymbol)
    ensures
        name_set(s.push(x)) == name_set(s).insert(x.name),
{
    let t = s.push(x);
    assert forall|n: Seq<char>| name_set(t).contains(n) <==> name_set(s).insert(x.name).contains(n) by {
        if has_name(t, n) {
            let i = choose|i: int| 0 <= i < t.len() && #[trigger] t[i].name == n;
            if i < s.len() {
                assert(s[i].name == n);
            }
        }
        if has_name(s, n) {
            let i = choose|i: int| 0 <= i < s.len() && #[trigger] s[i].name == n;
            assert(t[i].name == n);
        }
        if n == x.name {
            assert(t[s.len() as int].name == n);
        }
    }
    assert(name_set(t) =~= name_set(s).insert(x.name));
}

/// A list without a name twice has as many names as it is long.
pub proof fn lemma_name_set_len(s: Seq<SpecSymbol>)
    requires
        distinct_names(s),
    ensures
        name_set(s).finite(),
        name_set(s).len() == s.len(),
    decreases s.len(),
{
    if s.len() == 0 {
        assert(name_set(s) =~= Set::<Seq<char>>::empty());
    } else {
        let r = s.drop_last();
        assert forall|i: int, j: int|
            0 <= i < r.len() && 0 <= j < r.len() && i != j implies #[trigger] r[i].name != #[trigger] r[j].name by {
            assert(s[i].name != s[j].name);
        }
        lemma_name_set_len(r);
        assert(s =~= r.push(s.last()));
        lemma_name_set_push(r, s.last());
        if has_name(r, s.last().name) {
            let i = choose|i: int| 0 <= i < r.len() && #[trigger] r[i].name == s.last().name;
            assert(s[i].name != s[s.len() - 1].name);
        }
    }
}

} // verus!
