use vstd::prelude::*;
use crate::compiled::{CompiledRuleSet, SpecCompiledRuleSet};
use crate::magic::SpecMagicSymbol;
use crate::ra::{RelAlgebra, SpecPlan};
use crate::strata::CompiledProgram;

verus! {

/// The mathematical value of a [`DiffdafRelation`].
pub enum SpecDiffdafRelation {
    Join,
    Predicate(Seq<char>),
}

/// A relation of the dataflow program: a join, or the scan of a relation by
/// name.
#[derive(Debug)]
pub enum DiffdafRelation {
    Join,
    Predicate(String),
}

/// A rule of the dataflow program.
#[derive(Debug)]
pub struct DiffdafRule {
    pub name: String,
    pub relation: DiffdafRelation,
}

/// A dataflow program: its rules in order.
#[derive(Debug)]
pub struct DiffDaffProgram(pub Vec<DiffdafRule>);

impl View for DiffdafRelation {
    type V = SpecDiffdafRelation;

    open spec fn view(&self) -> SpecDiffdafRelation {
        match self {
            DiffdafRelation::Join => SpecDiffdafRelation::Join,
            DiffdafRelation::Predicate(s) => SpecDiffdafRelation::Predicate(s@),
        }
    }
}

impl SpecPlan {
    /// Whether the plan is one that can be translated: the join of a fixed
    /// relation with the single row without columns and the scan of a
    /// stored or of a derived relation.
    pub open spec fn is_translatable(self) -> bool {
        &&& self matches SpecPlan::Join { left, right, .. }
        &&& *left matches SpecPlan::Fixed { data, .. }
        &&& data == seq![Seq::<crate::value::SpecDataValue>::empty()]
        &&& (*right is Stored || *right is TempStore)
    }

    /// What a translatable plan translates to: the scan of the relation on
    /// the right of the join, by its name or by the text of its identity.
    pub open spec fn translated(self) -> SpecDiffdafRelation {
        match self {
            SpecPlan::Join { right, .. } => match *right {
                SpecPlan::Stored { name, .. } => SpecDiffdafRelation::Predicate(name),
                SpecPlan::TempStore { storage_key, .. } => SpecDiffdafRelation::Predicate(storage_key.text()),
                _ => SpecDiffdafRelation::Join,
            },
            _ => SpecDiffdafRelation::Join,
        }
    }
}

/// Whether the relation has a clause whose plan can be translated.
pub open spec fn set_is_translatable(set: SpecCompiledRuleSet) -> bool {
    set matches SpecCompiledRuleSet::Rules(rules) && rules.len() > 0 && rules[0].relation.is_translatable()
}

/// Whether every relation of the program can be translated.
pub open spec fn program_is_translatable(program: Seq<(SpecMagicSymbol, SpecCompiledRuleSet)>) -> bool {
    forall|i: int| 0 <= i < program.len() ==> set_is_translatable((#[trigger] program[i]).1)
}

/// Whether the plan is one that can be translated.
pub fn is_translatable(relation: &RelAlgebra) -> (b: bool)
    ensures
        b == relation@.is_translatable(),
{
    match relation {
        RelAlgebra::Join(b) => {
            let unit_left = match &b.left {
                RelAlgebra::Fixed(f) => {
                    let one_empty = f.data.len() == 1 && f.data[0].len() == 0;
                    proof {
                        let d = f.data.deep_view();
                        if one_empty {
                            assert(d[0] =~= Seq::<crate::value::SpecDataValue>::empty());
                            assert(d =~= seq![Seq::<crate::value::SpecDataValue>::empty()]);
                        } else if d == seq![Seq::<crate::value::SpecDataValue>::empty()] {
                            assert(d.len() == 1);
                            assert(d[0].len() == 0);
                            assert(f.data[0].deep_view().len() == f.data[0].len());
                        }
                    }
                    one_empty
                },
                _ => false,
            };
            let scan_right = match &b.right {
                RelAlgebra::Stored(_) => true,
                RelAlgebra::TempStore(_) => true,
                _ => false,
            };
            proof {
                reveal_with_fuel(crate::ra::plan_view, 2);
            }
            unit_left && scan_right
        },
        _ => false,
    }
}

/// Whether every relation of the program can be translated.
pub fn program_translatable(program: &CompiledProgram) -> (b: bool)
    ensures
        b == program_is_translatable(program.deep_view()),
{
    let mut i: usize = 0;
    while i < program.len()
        invariant
            i <= program.len(),
            forall|j: int| 0 <= j < i ==> set_is_translatable((#[trigger] program.deep_view()[j]).1),
        decreases program.len() - i,
    {
        let ok = match &program[i].1 {
            CompiledRuleSet::Rules(rules) => {
                proof {
                    if rules.len() > 0 {
                        assert(rules.deep_view()[0] == rules[0]@);
                    }
                }
                rules.len() > 0 && is_translatable(&rules[0].relation)
            },
            CompiledRuleSet::Fixed(_) => false,
        };
        proof {
            assert(program.deep_view()[i as int].1 == program[i as int].1@);
        }
        if !ok {
            assert(!set_is_translatable(program.deep_view()[i as int].1));
            return false;
        }
        i += 1;
    }
    true
}

/// Translates a plan that scans one relation.
pub fn translate_relation(relation: &RelAlgebra) -> (r: DiffdafRelation)
    requires
        relation@.is_translatable(),
    ensures
        r@ == relation@.translated(),
{
    match relation {
        RelAlgebra::Join(b) => {
            proof {
                reveal_with_fuel(crate::ra::plan_view, 2);
            }
            match &b.right {
                RelAlgebra::Stored(s) => DiffdafRelation::Predicate(s.name.clone()),
                RelAlgebra::TempStore(t) => DiffdafRelation::Predicate(t.storage_key.to_string()),
                _ => DiffdafRelation::Join,
            }
        },
        _ => DiffdafRelation::Join,
    }
}

/// Translates a compiled stratum: each relation becomes a rule named by the
/// text of its identity, with the translation of the plan of its first
/// clause.
pub fn translate_program(program: &CompiledProgram) -> (r: DiffDaffProgram)
    requires
        program_is_translatable(program.deep_view()),
    ensures
        r.0.len() == program.len(),
        forall|i: int|
            0 <= i < program.len() ==> {
                &&& (#[trigger] r.0[i]).name@ == program.deep_view()[i].0.text()
                &&& r.0[i].relation@ == program.deep_view()[i].1->Rules_0[0].relation.translated()
            },
{
    let mut rules: Vec<DiffdafRule> = Vec::new();
    let mut i: usize = 0;
    while i < program.len()
        invariant
            i <= program.len(),
            rules.len() == i,
            program_is_translatable(program.deep_view()),
            forall|j: int|
                0 <= j < i ==> {
                    &&& (#[trigger] rules[j]).name@ == program.deep_view()[j].0.text()
                    &&& rules[j].relation@ == program.deep_view()[j].1->Rules_0[0].relation.translated()
                },
        decreases program.len() - i,
    {
        proof {
            assert(program.deep_view()[i as int].1 == program[i as int].1@);
            assert(program.deep_view()[i as int].0 == program[i as int].0@);
            assert(set_is_translatable(program.deep_view()[i as int].1));
        }
        let name = program[i].0.to_string();
        let relation = match &program[i].1 {
            CompiledRuleSet::Rules(rs) => {
                assert(rs.deep_view()[0] == rs[0]@);
                translate_relation(&rs[0].relation)
            },
            CompiledRuleSet::Fixed(_) => DiffdafRelation::Join,
        };
        rules.push(DiffdafRule { name, relation });
        i += 1;
    }
    DiffDaffProgram(rules)
}

} // verus!
