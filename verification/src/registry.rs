use vstd::prelude::*;
use vstd::string::StringExecFns;
use crate::error::{CompileError, SpecCompileError};
use crate::magic::{MagicSymbol, SpecMagicSymbol};
use crate::schema::{clone_columns, ColumnDef, SpecColumnDef};

verus! {

/// The mathematical value of a [`CompiledRelationHandle`].
pub struct SpecRelationHandle {
    pub id: usize,
    pub name: Seq<char>,
    pub arity: u8,
    pub keys: Seq<SpecColumnDef>,
    pub non_keys: Seq<SpecColumnDef>,
}

/// What the catalog knows of a stored relation.
#[derive(Debug)]
pub struct CompiledRelationHandle {
    pub id: usize,
    pub name: String,
    pub arity: u8,
    pub keys: Vec<ColumnDef>,
    pub non_keys: Vec<ColumnDef>,
}

impl View for CompiledRelationHandle {
    type V = SpecRelationHandle;

    open spec fn view(&self) -> SpecRelationHandle {
        SpecRelationHandle {
            id: self.id,
            name: self.name@,
            arity: self.arity,
            keys: self.keys.deep_view(),
            non_keys: self.non_keys.deep_view(),
        }
    }
}

impl DeepView for CompiledRelationHandle {
    type V = SpecRelationHandle;

    open spec fn deep_view(&self) -> SpecRelationHandle {
        self@
    }
}

impl Clone for CompiledRelationHandle {
    fn clone(&self) -> (r: CompiledRelationHandle)
        ensures
            r@ == self@,
    {
        CompiledRelationHandle {
            id: self.id,
            name: self.name.clone(),
            arity: self.arity,
            keys: clone_columns(&self.keys),
            non_keys: clone_columns(&self.non_keys),
        }
    }
}

/// The entry of the relation called `name`, if the catalog has one.
pub open spec fn lookup_relation(relations: Seq<SpecRelationHandle>, name: Seq<char>) -> Option<SpecRelationHandle>
    decreases relations.len(),
{
    if relations.len() == 0 {
        None
    } else if relations.last().name == name {
        Some(relations.last())
    } else {
        lookup_relation(relations.drop_last(), name)
    }
}

/// Each entry has its position as its id, and no name occurs twice.
pub open spec fn catalog_in_order(relations: Seq<SpecRelationHandle>) -> bool {
    &&& forall|i: int| 0 <= i < relations.len() ==> (#[trigger] relations[i]).id == i
    &&& forall|i: int, j: int|
        0 <= i < relations.len() && 0 <= j < relations.len() && i != j ==> (#[trigger] relations[i]).name != (
        #[trigger] relations[j]).name
}

/// A lookup finds a handle of the catalog that has the name, and finds one
/// whenever the catalog has one.
pub proof fn lemma_lookup_relation(relations: Seq<SpecRelationHandle>, name: Seq<char>)
    ensures
        lookup_relation(relations, name) matches Some(h) ==> relations.contains(h) && h.name == name,
        lookup_relation(relations, name) is None ==> forall|i: int|
            0 <= i < relations.len() ==> (#[trigger] relations[i]).name != name,
    decreases relations.len(),
{
    if relations.len() > 0 {
        let r = relations.drop_last();
        lemma_lookup_relation(r, name);
        if relations.last().name == name {
            assert(relations[relations.len() - 1] == relations.last());
        } else {
            if let Some(h) = lookup_relation(r, name) {
                let k = choose|k: int| 0 <= k < r.len() && r[k] == h;
                assert(relations[k] == h);
            } else {
                assert forall|i: int| 0 <= i < relations.len() implies (#[trigger] relations[i]).name != name by {
                    if i < r.len() {
                        assert(r[i].name != name);
                    }
                }
            }
        }
    }
}

/// The catalog of the stored relations that have been declared in one
/// compilation session, by name.
#[derive(Debug)]
pub struct Compiler {
    compiled_relations: Vec<CompiledRelationHandle>,
}

impl View for Compiler {
    type V = Seq<SpecRelationHandle>;

    closed spec fn view(&self) -> Seq<SpecRelationHandle> {
        self.compiled_relations.deep_view()
    }
}

impl Compiler {
    #[verifier::type_invariant]
    spec fn in_order(self) -> bool {
        catalog_in_order(self.compiled_relations.deep_view())
    }

    /// A catalog without relations.
    pub fn new() -> (c: Compiler)
        ensures
            c@ == Seq::<SpecRelationHandle>::empty(),
    {
        let c = Compiler { compiled_relations: Vec::new() };
        assert(c.compiled_relations.deep_view() =~= Seq::<SpecRelationHandle>::empty());
        c
    }

    /// The position in the catalog of the relation of that name, if there is
    /// one.
    fn find(&self, name: &str) -> (r: Option<usize>)
        ensures
            match r {
                Some(i) => i < self.compiled_relations.len() && lookup_relation(self@, name@) == Some(self@[i as int]),
                None => lookup_relation(self@, name@) is None,
            },
    {
        let ghost all = self.compiled_relations.deep_view();
        let wanted = String::from_str(name);
        let mut i: usize = self.compiled_relations.len();
        assert(all.take(i as int) =~= all);
        while i > 0
            invariant
                i <= self.compiled_relations.len(),
                all == self.compiled_relations.deep_view(),
                wanted@ == name@,
                lookup_relation(all, name@) == lookup_relation(all.take(i as int), name@),
            decreases i,
        {
            proof {
                assert(all.take(i as int).drop_last() =~= all.take(i - 1));
            }
            if self.compiled_relations[i - 1].name == wanted {
                return Some(i - 1);
            }
            i -= 1;
        }
        assert(all.take(0).len() == 0);
        None
    }

    /// Whether a relation of this name has been declared.
    pub fn relation_exists(&self, name: &str) -> (b: bool)
        ensures
            b == lookup_relation(self@, name@).is_some(),
    {
        self.find(name).is_some()
    }

    /// Declares a relation. A name that is taken is refused; otherwise the
    /// relation gets the next id and is entered behind the others.
    pub fn create_relation(&mut self, name: String, arity: u8) -> (r: Result<CompiledRelationHandle, CompileError>)
        ensures
            match r {
                Ok(h) => lookup_relation(old(self)@, name@) is None && h@ == (SpecRelationHandle {
                    id: old(self)@.len() as usize,
                    name: name@,
                    arity,
                    keys: Seq::empty(),
                    non_keys: Seq::empty(),
                }) && final(self)@ == old(self)@.push(h@),
                Err(e) => lookup_relation(old(self)@, name@) is Some && e@ == (SpecCompileError::RelNameConflict {
                    name: name@,
                }) && final(self)@ == old(self)@,
            },
    {
        proof {
            use_type_invariant(&*self);
            lemma_lookup_relation(self@, name@);
        }
        if self.find(name.as_str()).is_some() {
            return Err(CompileError::RelNameConflict { name });
        }
        let id = self.compiled_relations.len();
        let meta = CompiledRelationHandle { name, id, arity, keys: Vec::new(), non_keys: Vec::new() };
        let copy = meta.clone();
        let ghost before = self.compiled_relations.deep_view();
        let mut taken = Compiler { compiled_relations: Vec::new() };
        proof {
            assert(taken.compiled_relations.deep_view().len() == 0);
        }
        core::mem::swap(self, &mut taken);
        let Compiler { compiled_relations: mut relations } = taken;
        relations.push(copy);
        proof {
            let after = relations.deep_view();
            assert(after =~= before.push(meta@));
            assert(meta@.keys =~= Seq::<SpecColumnDef>::empty());
            assert(meta@.non_keys =~= Seq::<SpecColumnDef>::empty());
            assert forall|i: int, j: int|
                0 <= i < after.len() && 0 <= j < after.len() && i != j implies (#[trigger] after[i]).name != (
            #[trigger] after[j]).name by {
                if i < before.len() && j < before.len() {
                    assert(before[i].name != before[j].name);
                } else if i < before.len() {
                    assert(before[i].name != name@);
                } else {
                    assert(before[j].name != name@);
                }
            }
            assert forall|i: int| 0 <= i < after.len() implies (#[trigger] after[i]).id == i by {
                if i < before.len() {
                    assert(before[i].id == i);
                }
            }
        }
        *self = Compiler { compiled_relations: relations };
        Ok(meta)
    }

    /// The entry of a relation, by name.
    pub fn get_relation(&self, name: &str) -> (r: Result<CompiledRelationHandle, CompileError>)
        ensures
            match r {
                Ok(h) => lookup_relation(self@, name@) == Some(h@),
                Err(e) => lookup_relation(self@, name@) is None && e@ == (SpecCompileError::StoredRelationNotFound {
                    name: name@,
                }),
            },
    {
        match self.find(name) {
            Some(i) => Ok(self.compiled_relations[i].clone()),
            None => Err(CompileError::StoredRelationNotFound { name: name.to_owned() }),
        }
    }
}

/// The arities of the derived relations, by identity. Where a relation was
/// entered more than once, the last entry counts.
#[derive(Debug)]
pub struct ArityMap {
    pub entries: Vec<(MagicSymbol, usize)>,
}

/// The arity on record for the relation `key`, if there is one.
pub open spec fn arity_lookup(entries: Seq<(SpecMagicSymbol, usize)>, key: SpecMagicSymbol) -> Option<usize>
    decreases entries.len(),
{
    if entries.len() == 0 {
        None
    } else if entries.last().0.same_relation(key) {
        Some(entries.last().1)
    } else {
        arity_lookup(entries.drop_last(), key)
    }
}

impl View for ArityMap {
    type V = Seq<(SpecMagicSymbol, usize)>;

    open spec fn view(&self) -> Seq<(SpecMagicSymbol, usize)> {
        self.entries.deep_view()
    }
}

impl ArityMap {
    /// A map without entries.
    pub fn new() -> (m: ArityMap)
        ensures
            m@ == Seq::<(SpecMagicSymbol, usize)>::empty(),
    {
        let m = ArityMap { entries: Vec::new() };
        assert(m@ =~= Seq::<(SpecMagicSymbol, usize)>::empty());
        m
    }

    /// Records the arity of a relation.
    pub fn insert(&mut self, key: MagicSymbol, arity: usize)
        ensures
            final(self)@ == old(self)@.push((key@, arity)),
    {
        let ghost before = self@;
        self.entries.push((key, arity));
        assert(self@ =~= before.push((key@, arity)));
    }

    /// The arity on record for a relation.
    pub fn get(&self, key: &MagicSymbol) -> (r: Option<usize>)
        ensures
            r == arity_lookup(self@, key@),
    {
        let ghost all = self@;
        let mut i: usize = self.entries.len();
        assert(all.take(i as int) =~= all);
        while i > 0
            invariant
                i <= self.entries.len(),
                all == self@,
                arity_lookup(all, key@) == arity_lookup(all.take(i as int), key@),
            decreases i,
        {
            proof {
                assert(all.take(i as int).drop_last() =~= all.take(i - 1));
            }
            if self.entries[i - 1].0.same_relation(key) {
                return Some(self.entries[i - 1].1);
            }
            i -= 1;
        }
        assert(all.take(0).len() == 0);
        None
    }
}

} // verus!
