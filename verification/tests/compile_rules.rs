use cozo_compile::compile::{bind_atom_args, IndexPositionUse};
use cozo_compile::compiled::{CompiledRuleSet, ContainedRuleMultiplicity, MagicRulesOrFixed};
use cozo_compile::error::CompileError;
use cozo_compile::expr::{Expr, Op};
use cozo_compile::magic::{MagicSymbol, SymbolGen};
use cozo_compile::program::{MagicAtom, MagicInlineRule, MagicRelationApplyAtom, MagicRuleApplyAtom, Unification};
use cozo_compile::ra::RelAlgebra;
use cozo_compile::registry::{ArityMap, Compiler};
use cozo_compile::strata::{MagicProgram, RelationOp, StoreRelationRequest, StratifiedMagicProgram};
use cozo_compile::symb::{SourceSpan, Symbol};
use cozo_compile::symbol_set::SymbolSet;
use cozo_compile::value::DataValue;

fn at(n: usize) -> SourceSpan {
    SourceSpan(n, 1)
}

fn sy(name: &str) -> Symbol {
    Symbol::new(name, at(0))
}

fn sys(names: &[&str]) -> Vec<Symbol> {
    names.iter().map(|n| sy(n)).collect()
}

fn nm(v: &Vec<Symbol>) -> Vec<String> {
    v.iter().map(|x| x.name.clone()).collect()
}

fn muggle(name: &str) -> MagicSymbol {
    MagicSymbol::Muggle { inner: sy(name) }
}

fn rule_atom(name: &str, args: &[&str]) -> MagicAtom {
    MagicAtom::Rule(MagicRuleApplyAtom { name: muggle(name), args: sys(args), span: at(11) })
}

fn rel_atom(name: &str, args: &[&str]) -> MagicAtom {
    MagicAtom::Relation(MagicRelationApplyAtom { name: sy(name), args: sys(args), span: at(12) })
}

fn var(name: &str) -> Expr {
    Expr::Binding { var: sy(name), tuple_pos: None }
}

fn lit(i: i64) -> Expr {
    Expr::Const { val: DataValue::Int(i), span: at(0) }
}

fn rule(head: &[&str], body: Vec<MagicAtom>) -> MagicInlineRule {
    MagicInlineRule { head: sys(head), aggr: head.iter().map(|_| None).collect(), body }
}

fn catalog() -> Compiler {
    let mut c = Compiler::new();
    c.create_relation("has_added".to_string(), 2).unwrap();
    c.create_relation("has_target".to_string(), 2).unwrap();
    c.create_relation("mutations".to_string(), 1).unwrap();
    c
}

fn arities(entries: &[(&str, usize)]) -> ArityMap {
    let mut m = ArityMap::new();
    for (n, a) in entries {
        m.insert(muggle(n), *a);
    }
    m
}

fn count_joins(r: &RelAlgebra) -> usize {
    match r {
        RelAlgebra::Join(j) => 1 + count_joins(&j.left) + count_joins(&j.right),
        RelAlgebra::Reorder(x) => count_joins(&x.relation),
        RelAlgebra::Filter(x) => count_joins(&x.parent),
        RelAlgebra::Unification(x) => count_joins(&x.parent),
        _ => 0,
    }
}

fn count_joins_of_two_relations(r: &RelAlgebra) -> usize {
    match r {
        RelAlgebra::Join(j) => {
            let own = if j.left.is_unit() { 0 } else { 1 };
            own + count_joins_of_two_relations(&j.left) + count_joins_of_two_relations(&j.right)
        }
        RelAlgebra::Reorder(x) => count_joins_of_two_relations(&x.relation),
        RelAlgebra::Filter(x) => count_joins_of_two_relations(&x.parent),
        RelAlgebra::Unification(x) => count_joins_of_two_relations(&x.parent),
        _ => 0,
    }
}

fn no_name_twice(v: &Vec<Symbol>) -> bool {
    (0..v.len()).all(|i| (0..i).all(|j| v[i].name != v[j].name))
}

fn bindings_are_sound(r: &RelAlgebra) -> bool {
    let own = no_name_twice(&r.bindings_after_eliminate()) && no_name_twice(&r.bindings_before_eliminate());
    own && match r {
        RelAlgebra::Join(j) => {
            let l = j.left.bindings_after_eliminate();
            let rr = j.right.bindings_after_eliminate();
            l.iter().all(|a| rr.iter().all(|b| a.name != b.name))
                && bindings_are_sound(&j.left)
                && bindings_are_sound(&j.right)
        }
        RelAlgebra::Reorder(x) => bindings_are_sound(&x.relation),
        RelAlgebra::Filter(x) => bindings_are_sound(&x.parent),
        RelAlgebra::Unification(x) => bindings_are_sound(&x.parent),
        _ => true,
    }
}

fn keys_are_sound(r: &RelAlgebra) -> bool {
    match r {
        RelAlgebra::Join(j) => {
            let l = j.left.bindings_after_eliminate();
            let rr = j.right.bindings_after_eliminate();
            j.joiner.left_keys.len() == j.joiner.right_keys.len()
                && j.joiner.left_keys.iter().all(|k| l.iter().any(|b| b.name == k.name))
                && j.joiner.right_keys.iter().all(|k| rr.iter().any(|b| b.name == k.name))
                && keys_are_sound(&j.left)
                && keys_are_sound(&j.right)
        }
        RelAlgebra::Reorder(x) => keys_are_sound(&x.relation),
        RelAlgebra::Filter(x) => keys_are_sound(&x.parent),
        RelAlgebra::Unification(x) => keys_are_sound(&x.parent),
        _ => true,
    }
}

fn is_parent_rule() -> MagicInlineRule {
    rule(
        &["p", "c"],
        vec![rule_atom("mutations", &["m"]), rule_atom("has_added", &["m", "c"]), rule_atom("has_target", &["m", "p"])],
    )
}

fn family_program() -> StratifiedMagicProgram {
    let entry = |name: &str, r: MagicInlineRule| (muggle(name), MagicRulesOrFixed::Rules { rules: vec![r] });
    StratifiedMagicProgram(vec![MagicProgram {
        prog: vec![
            entry("mutations", rule(&["m"], vec![rel_atom("mutations", &["m"])])),
            entry("has_added", rule(&["m", "n"], vec![rel_atom("has_added", &["m", "n"])])),
            entry("has_target", rule(&["m", "n"], vec![rel_atom("has_target", &["m", "n"])])),
            entry("is_parent", is_parent_rule()),
            entry("?", rule(&["x", "y"], vec![rule_atom("is_parent", &["x", "y"])])),
        ],
    }])
}

#[test]
fn registry_declares_and_finds_relations() {
    let mut c = Compiler::new();
    assert!(!c.relation_exists("r"));
    let h = c.create_relation("r".to_string(), 2).unwrap();
    assert_eq!((h.id, h.name.as_str(), h.arity), (0, "r", 2));
    assert!(h.keys.is_empty() && h.non_keys.is_empty());
    let h2 = c.create_relation("s".to_string(), 1).unwrap();
    assert_eq!(h2.id, 1);
    assert!(c.relation_exists("r"));
    assert!(c.relation_exists("s"));
    assert!(!c.relation_exists("t"));
    let got = c.get_relation("s").unwrap();
    assert_eq!((got.id, got.name.as_str(), got.arity), (1, "s", 1));
    assert_eq!(c.get_relation("r").unwrap().arity, 2);
}

#[test]
fn registry_refuses_a_name_twice() {
    let mut c = Compiler::new();
    c.create_relation("r".to_string(), 2).unwrap();
    match c.create_relation("r".to_string(), 3) {
        Err(CompileError::RelNameConflict { name }) => assert_eq!(name, "r"),
        other => panic!("a name conflict was expected, not {:?}", other),
    }
    assert_eq!(c.get_relation("r").unwrap().arity, 2);
    assert_eq!(c.create_relation("q".to_string(), 0).unwrap().id, 1);
}

#[test]
fn registry_reports_unknown_relations() {
    let c = catalog();
    match c.get_relation("nope") {
        Err(CompileError::StoredRelationNotFound { name }) => assert_eq!(name, "nope"),
        other => panic!("a missing relation was expected, not {:?}", other),
    }
}

#[test]
fn arity_map_last_entry_counts() {
    let mut m = ArityMap::new();
    assert_eq!(m.get(&muggle("r")), None);
    m.insert(muggle("r"), 2);
    m.insert(MagicSymbol::Magic { inner: sy("r"), adornment: vec![true] }, 5);
    m.insert(muggle("r"), 3);
    assert_eq!(m.get(&muggle("r")), Some(3));
    assert_eq!(m.get(&MagicSymbol::Magic { inner: sy("r"), adornment: vec![true] }), Some(5));
    assert_eq!(m.get(&MagicSymbol::Magic { inner: sy("r"), adornment: vec![false] }), None);
}

#[test]
fn arguments_are_told_apart() {
    let mut seen = SymbolSet::from_symbols(&sys(&["a"]));
    let mut gen = SymbolGen::new();
    let args = vec![sy("a"), sy("b"), sy("~1"), Symbol::new("b", at(9)), sy("a")];
    let b = bind_atom_args(&args, &mut seen, &mut gen);
    assert_eq!(nm(&b.right_vars), vec!["**0", "b", "~1", "**1", "**2"]);
    assert_eq!(nm(&b.prev_joiner_vars), vec!["a", "b", "a"]);
    assert_eq!(nm(&b.right_joiner_vars), vec!["**0", "**1", "**2"]);
    assert_eq!(b.right_joiner_vars[1].span, at(9));
    assert_eq!(
        b.positions,
        vec![
            IndexPositionUse::Join,
            IndexPositionUse::BindForLater,
            IndexPositionUse::Ignored,
            IndexPositionUse::Join,
            IndexPositionUse::Join
        ]
    );
    assert_eq!(gen.next_id, 3);
    assert_eq!(seen.len(), 3);
    assert!(seen.contains(&sy("b")) && seen.contains(&sy("~1")));
}

#[test]
fn family_rule_compiles_to_two_joins_of_relations() {
    let c = catalog();
    let ar = arities(&[("mutations", 1), ("has_added", 2), ("has_target", 2)]);
    let r = is_parent_rule();
    let plan = c.compile_magic_rule_body(&r, &muggle("is_parent"), &ar, &r.head).unwrap();
    assert_eq!(nm(&plan.bindings_after_eliminate()), vec!["p", "c"]);
    assert_eq!(count_joins_of_two_relations(&plan), 2);
    assert_eq!(count_joins(&plan), 3);
    let top = match &plan {
        RelAlgebra::Reorder(x) => x.relation.as_ref(),
        _ => panic!("the head order differs from the body order"),
    };
    assert_eq!(nm(&top.bindings_after_eliminate()), vec!["c", "p"]);
    match top {
        RelAlgebra::Join(j3) => {
            assert_eq!(nm(&j3.joiner.left_keys), vec!["m"]);
            assert_eq!(nm(&j3.joiner.right_keys), vec!["**1"]);
            assert_eq!(nm(&j3.right.bindings_after_eliminate()), vec!["**1", "p"]);
            assert!(matches!(&j3.right, RelAlgebra::TempStore(t) if t.storage_key.to_string() == "has_target"));
            assert_eq!(j3.span, at(11));
            match &j3.left {
                RelAlgebra::Join(j2) => {
                    assert_eq!(nm(&j2.joiner.left_keys), vec!["m"]);
                    assert_eq!(nm(&j2.joiner.right_keys), vec!["**0"]);
                    assert_eq!(nm(&j2.left.bindings_after_eliminate()), vec!["m"]);
                    assert_eq!(nm(&j2.right.bindings_after_eliminate()), vec!["**0", "c"]);
                    assert_eq!(nm(&j3.left.bindings_after_eliminate()), vec!["m", "c"]);
                    match &j2.left {
                        RelAlgebra::Join(j1) => {
                            assert!(j1.left.is_unit());
                            assert!(j1.joiner.left_keys.is_empty());
                            assert!(matches!(&j1.right, RelAlgebra::TempStore(t) if t.storage_key.to_string() == "mutations"));
                        }
                        _ => panic!("the first atom is joined with the unit plan"),
                    }
                }
                _ => panic!("the joins are nested to the left"),
            }
        }
        _ => panic!("the body ends in a join"),
    }
    assert!(bindings_are_sound(&plan));
    assert!(keys_are_sound(&plan));
    assert!(plan.first_unbound().is_none());
}

#[test]
fn family_program_compiles() {
    let mut c = catalog();
    let compiled = c.compile_query(None, family_program()).unwrap();
    assert_eq!(compiled.len(), 1);
    let stratum = &compiled[0];
    let keys: Vec<String> = stratum.iter().map(|(k, _)| k.to_string()).collect();
    assert_eq!(keys, vec!["mutations", "has_added", "has_target", "is_parent", "?"]);
    for (_, set) in stratum.iter() {
        match set {
            CompiledRuleSet::Rules(rules) => {
                assert_eq!(rules.len(), 1);
                assert!(bindings_are_sound(&rules[0].relation));
                assert!(keys_are_sound(&rules[0].relation));
                assert!(rules[0].relation.first_unbound().is_none());
            }
            CompiledRuleSet::Fixed(_) => panic!("the program has no fixed rule"),
        }
    }
    match &stratum[4].1 {
        CompiledRuleSet::Rules(rules) => {
            assert_eq!(nm(&rules[0].relation.bindings_after_eliminate()), vec!["x", "y"]);
            assert_eq!(rules[0].contained_rules.len(), 1);
            assert_eq!(rules[0].contained_rules[0].0.to_string(), "is_parent");
            assert_eq!(rules[0].contained_rules[0].1, ContainedRuleMultiplicity::One);
        }
        _ => panic!("the entry is a set of clauses"),
    }
    match &stratum[3].1 {
        CompiledRuleSet::Rules(rules) => {
            assert_eq!(nm(&rules[0].relation.bindings_after_eliminate()), vec!["p", "c"]);
            assert_eq!(count_joins_of_two_relations(&rules[0].relation), 2);
            assert_eq!(rules[0].contained_rules.len(), 3);
        }
        _ => panic!("the entry is a set of clauses"),
    }
    match &stratum[0].1 {
        CompiledRuleSet::Rules(rules) => match &rules[0].relation {
            RelAlgebra::Join(j) => {
                assert!(j.left.is_unit());
                assert!(matches!(&j.right, RelAlgebra::Stored(st) if st.name == "mutations"));
            }
            _ => panic!("a scan joined with the unit plan was expected"),
        },
        _ => panic!("the entry is a set of clauses"),
    }
}

#[test]
fn strata_are_compiled_from_the_last_and_put_out_in_that_order() {
    let c = catalog();
    let first = MagicProgram {
        prog: vec![(muggle("q"), MagicRulesOrFixed::Rules { rules: vec![rule(&["a"], vec![rule_atom("r", &["a"])])] })],
    };
    let second = MagicProgram {
        prog: vec![(muggle("r"), MagicRulesOrFixed::Rules { rules: vec![rule(&["m"], vec![rel_atom("mutations", &["m"])])] })],
    };
    let compiled = c.stratified_magic_compile(StratifiedMagicProgram(vec![first, second])).unwrap();
    assert_eq!(compiled.len(), 2);
    assert_eq!(compiled[0][0].0.to_string(), "r");
    assert_eq!(compiled[1][0].0.to_string(), "q");
}

#[test]
fn unbound_head_symbol_is_reported() {
    let c = catalog();
    let ar = arities(&[("is_parent", 2)]);
    let head = vec![sy("x"), Symbol::new("z", at(42))];
    let r = MagicInlineRule { head, aggr: vec![None, None], body: vec![rule_atom("is_parent", &["x", "y"])] };
    match c.compile_magic_rule_body(&r, &muggle("?"), &ar, &r.head) {
        Err(CompileError::UnboundSymbolInRuleHead { name, span }) => {
            assert_eq!(name, "z");
            assert_eq!(span, at(42));
        }
        other => panic!("an unbound head symbol was expected, not {:?}", other),
    }
}

#[test]
fn the_first_unbound_head_symbol_is_the_one_reported() {
    let c = catalog();
    let ar = arities(&[("r", 1)]);
    let r = rule(&["w", "a", "z"], vec![rule_atom("r", &["a"])]);
    match c.compile_magic_rule_body(&r, &muggle("?"), &ar, &r.head) {
        Err(CompileError::UnboundSymbolInRuleHead { name, .. }) => assert_eq!(name, "w"),
        other => panic!("an unbound head symbol was expected, not {:?}", other),
    }
}

#[test]
fn stored_relation_called_with_too_many_arguments() {
    let c = catalog();
    let r = rule(&["a"], vec![rel_atom("has_added", &["a", "b", "c"])]);
    match c.compile_magic_rule_body(&r, &muggle("?"), &ArityMap::new(), &r.head) {
        Err(CompileError::ArityMismatch { name, expected, given, span }) => {
            assert_eq!(name, "has_added");
            assert_eq!(expected, 2);
            assert_eq!(given, 3);
            assert_eq!(span, at(12));
        }
        other => panic!("an arity mismatch was expected, not {:?}", other),
    }
}

#[test]
fn derived_relation_called_with_too_few_arguments() {
    let c = catalog();
    let ar = arities(&[("r", 2)]);
    let r = rule(&["a"], vec![rule_atom("r", &["a"])]);
    match c.compile_magic_rule_body(&r, &muggle("?"), &ar, &r.head) {
        Err(CompileError::ArityMismatch { name, expected, given, span }) => {
            assert_eq!((name.as_str(), expected, given, span), ("r", 2, 1, at(11)));
        }
        other => panic!("an arity mismatch was expected, not {:?}", other),
    }
}

#[test]
fn unknown_derived_relation_is_reported() {
    let c = catalog();
    let r = rule(&["a"], vec![rule_atom("nope", &["a"])]);
    match c.compile_magic_rule_body(&r, &muggle("?"), &ArityMap::new(), &r.head) {
        Err(CompileError::RuleNotFound { name, span }) => {
            assert_eq!(name, "nope");
            assert_eq!(span, at(0));
        }
        other => panic!("a missing rule was expected, not {:?}", other),
    }
}

#[test]
fn unknown_stored_relation_is_reported() {
    let c = catalog();
    let r = rule(&["a"], vec![rel_atom("nope", &["a"])]);
    match c.compile_magic_rule_body(&r, &muggle("?"), &ArityMap::new(), &r.head) {
        Err(CompileError::StoredRelationNotFound { name }) => assert_eq!(name, "nope"),
        other => panic!("a missing relation was expected, not {:?}", other),
    }
}

#[test]
fn the_first_failing_atom_decides() {
    let c = catalog();
    let r = rule(&["a"], vec![rel_atom("has_added", &["a"]), rule_atom("nope", &["a"])]);
    assert!(matches!(
        c.compile_magic_rule_body(&r, &muggle("?"), &ArityMap::new(), &r.head),
        Err(CompileError::ArityMismatch { .. })
    ));
}

#[test]
fn unification_binds_or_tests() {
    let c = catalog();
    let ar = arities(&[("r", 1)]);
    let body = vec![
        rule_atom("r", &["a"]),
        MagicAtom::Unification(Unification {
            binding: sy("b"),
            expr: Expr::Apply { op: Op::Add, args: vec![var("a"), lit(1)], span: at(3) },
            one_many_unif: false,
            span: at(4),
        }),
        MagicAtom::Unification(Unification { binding: sy("a"), expr: lit(5), one_many_unif: false, span: at(5) }),
        MagicAtom::Unification(Unification { binding: sy("b"), expr: var("a"), one_many_unif: true, span: at(6) }),
        MagicAtom::Predicate(Expr::Apply { op: Op::Gt, args: vec![var("a"), lit(3)], span: at(7) }),
    ];
    let r = rule(&["a", "b"], body);
    let mut plan = c.compile_magic_rule_body(&r, &muggle("?"), &ar, &r.head).unwrap();
    assert_eq!(nm(&plan.bindings_after_eliminate()), vec!["a", "b"]);
    assert!(plan.fill_binding_indices_and_compile().is_ok());
    match &plan {
        RelAlgebra::Filter(f) => {
            let texts: Vec<String> = f.filters.iter().map(|e| e.to_string()).collect();
            assert_eq!(texts, vec!["eq(a, 5)", "is_in(b, a)", "gt(a, 3)"]);
            assert_eq!(f.span, at(5));
            match &f.filters[1] {
                Expr::Apply { args, .. } => {
                    assert!(matches!(&args[0], Expr::Binding { tuple_pos: Some(1), .. }));
                    assert!(matches!(&args[1], Expr::Binding { tuple_pos: Some(0), .. }));
                }
                _ => panic!("the test is an application"),
            }
            match f.parent.as_ref() {
                RelAlgebra::Unification(u) => {
                    assert_eq!(u.binding.name, "b");
                    assert!(!u.is_multi);
                    assert_eq!(u.span, at(4));
                    assert_eq!(u.expr.to_string(), "add(a, 1)");
                }
                _ => panic!("under the filter is the unification"),
            }
        }
        _ => panic!("the tests are kept in a filter above the unification"),
    }
}

#[test]
fn a_binding_that_the_head_does_not_name_is_dropped_by_a_join_on_top() {
    let c = catalog();
    let body = vec![
        MagicAtom::Unification(Unification { binding: sy("x"), expr: lit(1), one_many_unif: false, span: at(1) }),
        MagicAtom::Unification(Unification { binding: sy("y"), expr: lit(2), one_many_unif: false, span: at(2) }),
    ];
    let r = rule(&["x"], body);
    let plan = c.compile_magic_rule_body(&r, &muggle("?"), &ArityMap::new(), &r.head).unwrap();
    assert_eq!(nm(&plan.bindings_after_eliminate()), vec!["x"]);
    match &plan {
        RelAlgebra::Join(j) => {
            assert!(j.right.is_unit());
            assert!(matches!(&j.left, RelAlgebra::Unification(_)));
            assert_eq!(nm(&j.left.bindings_after_eliminate()), vec!["x", "y"]);
            assert!(j.to_eliminate.contains(&sy("y")));
        }
        _ => panic!("a join with the unit plan on top was expected"),
    }
}

#[test]
fn an_empty_body_has_the_unit_plan() {
    let c = catalog();
    let r = rule(&[], vec![]);
    let plan = c.compile_magic_rule_body(&r, &MagicSymbol::Muggle { inner: Symbol::new("?", at(77)) }, &ArityMap::new(), &r.head).unwrap();
    assert!(plan.is_unit());
    assert_eq!(plan.span(), at(77));
}

#[test]
fn head_order_is_kept_without_reordering_when_it_agrees() {
    let c = catalog();
    let ar = arities(&[("r", 2)]);
    let r = rule(&["a", "b"], vec![rule_atom("r", &["a", "b"])]);
    let plan = c.compile_magic_rule_body(&r, &muggle("?"), &ar, &r.head).unwrap();
    assert!(matches!(&plan, RelAlgebra::Join(_)));
    let r = rule(&["b", "a"], vec![rule_atom("r", &["a", "b"])]);
    let plan = c.compile_magic_rule_body(&r, &muggle("?"), &ar, &r.head).unwrap();
    assert!(matches!(&plan, RelAlgebra::Reorder(_)));
    assert_eq!(nm(&plan.bindings_after_eliminate()), vec!["b", "a"]);
}

#[test]
fn a_variable_twice_in_one_application_is_matched_with_itself() {
    let c = catalog();
    let ar = arities(&[("r", 2), ("s", 1)]);
    let r = rule(&["a"], vec![rule_atom("s", &["a"]), rule_atom("r", &["a", "a"])]);
    let plan = c.compile_magic_rule_body(&r, &muggle("?"), &ar, &r.head).unwrap();
    assert_eq!(nm(&plan.bindings_after_eliminate()), vec!["a"]);
    assert!(keys_are_sound(&plan));
    assert!(bindings_are_sound(&plan));
    match &plan {
        RelAlgebra::Join(j) => {
            assert_eq!(nm(&j.joiner.left_keys), vec!["a", "a"]);
            assert_eq!(nm(&j.joiner.right_keys), vec!["**0", "**1"]);
        }
        _ => panic!("the body ends in a join"),
    }
}

#[test]
fn a_new_variable_twice_in_one_application_leaves_a_key_that_the_left_child_lacks() {
    let c = catalog();
    let ar = arities(&[("r", 2)]);
    let r = rule(&["a"], vec![rule_atom("r", &["a", "a"])]);
    let plan = c.compile_magic_rule_body(&r, &muggle("?"), &ar, &r.head).unwrap();
    assert_eq!(nm(&plan.bindings_after_eliminate()), vec!["a"]);
    assert!(!keys_are_sound(&plan));
}

#[test]
fn a_variable_named_like_a_made_up_one_may_clash() {
    let c = catalog();
    let ar = arities(&[("r", 1), ("s", 2)]);
    let r = rule(&["a"], vec![rule_atom("r", &["a"]), rule_atom("s", &["**0", "a"])]);
    let plan = c.compile_magic_rule_body(&r, &muggle("?"), &ar, &r.head).unwrap();
    assert!(!bindings_are_sound(&plan));
}

#[test]
fn creating_an_existing_output_relation_conflicts() {
    let mut c = catalog();
    let req = StoreRelationRequest { name: "mutations".to_string(), arity: 1, op: RelationOp::Create };
    match c.compile_query(Some(&req), StratifiedMagicProgram(vec![])) {
        Err(CompileError::StoreRelationConflict { name }) => assert_eq!(name, "mutations"),
        other => panic!("a conflict was expected, not {:?}", other),
    }
    let put = StoreRelationRequest { name: "mutations".to_string(), arity: 1, op: RelationOp::Put };
    assert!(c.compile_query(Some(&put), StratifiedMagicProgram(vec![])).unwrap().is_empty());
    let fresh = StoreRelationRequest { name: "fresh".to_string(), arity: 3, op: RelationOp::Create };
    assert!(!c.relation_exists("fresh"));
    assert!(c.compile_query(Some(&fresh), StratifiedMagicProgram(vec![])).is_ok());
    let h = c.get_relation("fresh").unwrap();
    assert_eq!((h.id, h.arity), (3, 3));
}

#[test]
fn negated_atoms_are_told() {
    let positive = rule(&["a"], vec![rule_atom("r", &["a"])]);
    assert!(positive.is_positive());
    let negated = rule(
        &["a"],
        vec![
            rule_atom("r", &["a"]),
            MagicAtom::NegatedRule(MagicRuleApplyAtom { name: muggle("s"), args: sys(&["a"]), span: at(1) }),
        ],
    );
    assert!(!negated.is_positive());
    assert!(MagicRulesOrFixed::Rules { rules: vec![positive] }.is_well_formed());
    assert!(!MagicRulesOrFixed::Rules { rules: vec![negated] }.is_well_formed());
    assert!(!MagicRulesOrFixed::Rules { rules: vec![] }.is_well_formed());
}
