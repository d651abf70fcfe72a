use cozo_compile::compiled::{AggrKind, CompiledRule, CompiledRuleSet, ContainedRuleMultiplicity, MagicRulesOrFixed};
use cozo_compile::error::CompileError;
use cozo_compile::expr::Expr;
use cozo_compile::fixed_rule::{
    FixedRule, FixedRuleHandle, FixedRuleInputRelation, InputRelationError, MagicFixedRuleApply, MagicFixedRuleRuleArg,
    RuleNotFoundError, SimpleFixedRule,
};
use cozo_compile::magic::MagicSymbol;
use cozo_compile::program::{Aggregation, MagicAtom, MagicInlineRule, MagicRuleApplyAtom, Unification};
use cozo_compile::ra::{InlineFixedRA, RelAlgebra};
use cozo_compile::registry::{ArityMap, Compiler};
use cozo_compile::rows::{DbManifest, NamedRows};
use cozo_compile::schema::{clone_columns, ColType, ColumnDef, NullableColType};
use cozo_compile::strata::{clone_aggr, collect_store_arities, reversed, MagicProgram, StratifiedMagicProgram};
use cozo_compile::symb::{SourceSpan, Symbol};
use cozo_compile::translate::{is_translatable, program_translatable, translate_program, translate_relation, DiffdafRelation};
use cozo_compile::value::DataValue;

fn o() -> SourceSpan {
    SourceSpan(0, 0)
}

fn k(name: &str) -> Symbol {
    Symbol::new(name, o())
}

fn ks(names: &[&str]) -> Vec<Symbol> {
    names.iter().map(|n| k(n)).collect()
}

fn named(name: &str) -> MagicSymbol {
    MagicSymbol::Muggle { inner: k(name) }
}

fn aggr(is_meet: bool) -> Option<(Aggregation, Vec<DataValue>)> {
    Some((Aggregation { name: "agg".to_string(), is_meet }, vec![]))
}

fn rules_with(aggrs: Vec<Option<(Aggregation, Vec<DataValue>)>>) -> CompiledRuleSet {
    CompiledRuleSet::Rules(vec![CompiledRule { aggr: aggrs, relation: RelAlgebra::unit(o()), contained_rules: vec![] }])
}

fn fixed_apply(arity: usize) -> MagicFixedRuleApply {
    MagicFixedRuleApply { fixed_handle: FixedRuleHandle::new("Algo", o()), rule_args: vec![], options: vec![], span: o(), arity }
}

#[test]
fn rule_set_arity() {
    assert_eq!(rules_with(vec![None, None, None]).arity(), 3);
    assert_eq!(rules_with(vec![]).arity(), 0);
    assert_eq!(CompiledRuleSet::Fixed(fixed_apply(4)).arity(), 4);
}

#[test]
fn rule_set_aggregation_kind() {
    assert_eq!(rules_with(vec![None, None]).aggr_kind(), AggrKind::NoAggr);
    assert_eq!(rules_with(vec![]).aggr_kind(), AggrKind::NoAggr);
    assert_eq!(rules_with(vec![None, aggr(true)]).aggr_kind(), AggrKind::Meet);
    assert_eq!(rules_with(vec![aggr(true), aggr(true)]).aggr_kind(), AggrKind::Meet);
    assert_eq!(rules_with(vec![None, aggr(false)]).aggr_kind(), AggrKind::Normal);
    assert_eq!(rules_with(vec![aggr(true), aggr(false)]).aggr_kind(), AggrKind::Normal);
    assert_eq!(rules_with(vec![aggr(false), aggr(true)]).aggr_kind(), AggrKind::Normal);
    assert_eq!(rules_with(vec![aggr(true), None]).aggr_kind(), AggrKind::Normal);
    assert_eq!(CompiledRuleSet::Fixed(fixed_apply(1)).aggr_kind(), AggrKind::NoAggr);
}

#[test]
fn contained_rules_are_counted() {
    let app = |name: &str| MagicAtom::Rule(MagicRuleApplyAtom { name: named(name), args: vec![], span: o() });
    let neg = |name: &str| MagicAtom::NegatedRule(MagicRuleApplyAtom { name: named(name), args: vec![], span: o() });
    let r = MagicInlineRule {
        head: vec![],
        aggr: vec![],
        body: vec![
            app("a"),
            app("b"),
            MagicAtom::Predicate(Expr::Const { val: DataValue::Bool(true), span: o() }),
            neg("a"),
            app("c"),
            app("a"),
        ],
    };
    let got: Vec<(String, ContainedRuleMultiplicity)> =
        r.contained_rules().into_iter().map(|(n, m)| (n.to_string(), m)).collect();
    assert_eq!(
        got,
        vec![
            ("a".to_string(), ContainedRuleMultiplicity::Many),
            ("b".to_string(), ContainedRuleMultiplicity::One),
            ("c".to_string(), ContainedRuleMultiplicity::One),
        ]
    );
    let empty = MagicInlineRule { head: vec![], aggr: vec![], body: vec![] };
    assert!(empty.contained_rules().is_empty());
}

#[test]
fn definitions_have_an_arity() {
    let rules = MagicRulesOrFixed::Rules {
        rules: vec![MagicInlineRule { head: ks(&["a", "b"]), aggr: vec![None, None], body: vec![] }],
    };
    assert_eq!(rules.arity(), 2);
    assert_eq!(MagicRulesOrFixed::Fixed { fixed: fixed_apply(7) }.arity(), 7);
    let prog = StratifiedMagicProgram(vec![
        MagicProgram { prog: vec![(named("p"), rules)] },
        MagicProgram { prog: vec![(named("q"), MagicRulesOrFixed::Fixed { fixed: fixed_apply(7) })] },
    ]);
    let m = collect_store_arities(&prog);
    assert_eq!(m.get(&named("p")), Some(2));
    assert_eq!(m.get(&named("q")), Some(7));
    assert_eq!(m.get(&named("r")), None);
}

#[test]
fn unification_with_a_constant() {
    let u = Unification { binding: k("a"), expr: Expr::Const { val: DataValue::Int(1), span: o() }, one_many_unif: false, span: o() };
    assert!(u.is_const());
    assert_eq!(u.bindings_in_expr().len(), 0);
    let w = Unification { binding: k("a"), expr: Expr::Binding { var: k("b"), tuple_pos: None }, one_many_unif: false, span: o() };
    assert!(!w.is_const());
    assert!(w.bindings_in_expr().contains(&k("b")));
}

#[test]
fn input_relations_of_fixed_rules() {
    let mut c = Compiler::new();
    c.create_relation("edges".to_string(), 2).unwrap();
    let mut stores = ArityMap::new();
    stores.insert(named("nodes"), 3);
    let in_mem = MagicFixedRuleRuleArg::InMem { name: named("nodes"), bindings: ks(&["a", "b", "c"]), span: SourceSpan(1, 2) };
    let stored = MagicFixedRuleRuleArg::Stored { name: k("edges"), bindings: ks(&["x", "y"]), span: SourceSpan(3, 4) };
    assert_eq!(in_mem.arity(&c, &stores).unwrap(), 3);
    assert_eq!(stored.arity(&c, &stores).unwrap(), 2);
    assert_eq!(in_mem.span(), SourceSpan(1, 2));
    assert_eq!(stored.span(), SourceSpan(3, 4));
    let map: Vec<(String, usize)> = stored.get_binding_map(5).into_iter().map(|(s, i)| (s.name, i)).collect();
    assert_eq!(map, vec![("x".to_string(), 5), ("y".to_string(), 6)]);
    let missing = MagicFixedRuleRuleArg::InMem { name: MagicSymbol::Muggle { inner: Symbol::new("gone", SourceSpan(8, 8)) }, bindings: vec![], span: o() };
    match missing.arity(&c, &stores) {
        Err(InputRelationError::RuleNotFound(RuleNotFoundError(name, span))) => {
            assert_eq!(name, "gone");
            assert_eq!(span, SourceSpan(8, 8));
        }
        other => panic!("a missing rule was expected, not {:?}", other),
    }
    let unknown = MagicFixedRuleRuleArg::Stored { name: k("gone"), bindings: vec![], span: o() };
    assert!(matches!(
        unknown.arity(&c, &stores),
        Err(InputRelationError::Relation(CompileError::StoredRelationNotFound { .. }))
    ));
}

#[test]
fn fixed_rule_handle_keeps_the_name() {
    let h = FixedRuleHandle::new("PageRank", SourceSpan(2, 8));
    assert_eq!(h.name.name, "PageRank");
    assert_eq!(h.name.span, SourceSpan(2, 8));
}

#[test]
fn named_rows_are_made_of_headers_and_rows() {
    let r = NamedRows::new(vec!["a".to_string(), "b".to_string()], vec![vec![DataValue::Int(1), DataValue::Null]]);
    assert_eq!(r.headers, vec!["a", "b"]);
    assert_eq!(r.rows.len(), 1);
    assert_eq!(r.rows[0][0].to_string(), "1");
    assert!(r.next.is_none());
    let rows = r.into_rows();
    assert_eq!(rows.len(), 1);
    assert_eq!(DbManifest { storage_version: 3 }.storage_version, 3);
}

#[test]
fn plans_that_scan_one_relation_are_translated() {
    let stored = RelAlgebra::unit(o()).cartesian_join(RelAlgebra::relation(ks(&["m"]), o(), "mutations".to_string()), o());
    assert!(is_translatable(&stored));
    assert!(matches!(translate_relation(&stored), DiffdafRelation::Predicate(n) if n == "mutations"));
    let derived = RelAlgebra::unit(o()).cartesian_join(
        RelAlgebra::derived(ks(&["m"]), MagicSymbol::Magic { inner: k("mutations"), adornment: vec![false] }, o()),
        o(),
    );
    assert!(is_translatable(&derived));
    assert!(matches!(translate_relation(&derived), DiffdafRelation::Predicate(n) if n == "mutations|Mf"));
    let program = vec![
        (named("?"), CompiledRuleSet::Rules(vec![CompiledRule { aggr: vec![None], relation: derived, contained_rules: vec![] }])),
        (
            MagicSymbol::Magic { inner: k("mutations"), adornment: vec![false] },
            CompiledRuleSet::Rules(vec![CompiledRule { aggr: vec![None], relation: stored, contained_rules: vec![] }]),
        ),
    ];
    assert!(program_translatable(&program));
    let t = translate_program(&program);
    assert_eq!(t.0.len(), 2);
    assert_eq!(t.0[0].name, "?");
    assert!(matches!(&t.0[0].relation, DiffdafRelation::Predicate(n) if n == "mutations|Mf"));
    assert_eq!(t.0[1].name, "mutations|Mf");
    assert!(matches!(&t.0[1].relation, DiffdafRelation::Predicate(n) if n == "mutations"));
}

#[test]
fn other_plans_are_not_translatable() {
    let scan = RelAlgebra::relation(ks(&["m"]), o(), "mutations".to_string());
    assert!(!is_translatable(&scan));
    assert!(!is_translatable(&RelAlgebra::unit(o())));
    let two_scans = RelAlgebra::relation(ks(&["m"]), o(), "a".to_string())
        .cartesian_join(RelAlgebra::relation(ks(&["n"]), o(), "b".to_string()), o());
    assert!(!is_translatable(&two_scans));
    let mut rows = InlineFixedRA::unit(o());
    rows.data.push(vec![]);
    let not_unit = RelAlgebra::Fixed(rows).cartesian_join(RelAlgebra::relation(ks(&["m"]), o(), "a".to_string()), o());
    assert!(!is_translatable(&not_unit));
    let nested = RelAlgebra::unit(o()).cartesian_join(two_scans, o());
    assert!(!is_translatable(&nested));
    assert!(!program_translatable(&vec![(named("f"), CompiledRuleSet::Fixed(fixed_apply(1)))]));
    assert!(!program_translatable(&vec![(named("f"), CompiledRuleSet::Rules(vec![]))]));
    assert!(program_translatable(&vec![]));
}

#[test]
fn column_types_are_copied() {
    let t = NullableColType {
        coltype: ColType::Tuple(vec![
            NullableColType { coltype: ColType::Int, nullable: false },
            NullableColType {
                coltype: ColType::List { eltype: Box::new(NullableColType { coltype: ColType::Uuid, nullable: true }), len: Some(3) },
                nullable: true,
            },
        ]),
        nullable: false,
    };
    let cols = vec![ColumnDef { name: "c".to_string(), typing: t, default_gen: Some(Expr::Const { val: DataValue::Int(0), span: o() }) }];
    let copy = clone_columns(&cols);
    assert_eq!(format!("{:?}", copy), format!("{:?}", cols));
}

#[test]
fn lists_are_reversed_and_aggregations_copied() {
    assert_eq!(reversed(vec![1, 2, 3]), vec![3, 2, 1]);
    assert_eq!(reversed(Vec::<u8>::new()), Vec::<u8>::new());
    let a = vec![None, aggr(true), Some((Aggregation { name: "collect".to_string(), is_meet: false }, vec![DataValue::Int(5)]))];
    assert_eq!(format!("{:?}", clone_aggr(&a)), format!("{:?}", a));
}

#[test]
fn errors_say_what_went_wrong() {
    let at = SourceSpan(4, 2);
    assert_eq!(CompileError::RuleNotFound { name: "r".to_string(), span: at }.to_string(), "Requested rule r not found");
    assert_eq!(
        CompileError::ArityMismatch { name: "r".to_string(), expected: 2, given: 3, span: at }.to_string(),
        "Arity mismatch for rule application r"
    );
    assert_eq!(
        CompileError::UnboundSymbolInRuleHead { name: "z".to_string(), span: at }.to_string(),
        "Symbol 'z' in rule head is unbound"
    );
    assert_eq!(
        CompileError::StoredRelationNotFound { name: "s".to_string() }.to_string(),
        "Cannot find requested stored relation 's'"
    );
    assert_eq!(
        CompileError::RelNameConflict { name: "s".to_string() }.to_string(),
        "Cannot create relation s as one with the same name already exists"
    );
    assert_eq!(
        CompileError::StoreRelationConflict { name: "s".to_string() }.to_string(),
        "Stored relation s conflicts with an existing one"
    );
    assert_eq!(CompileError::BadBinding { name: "b".to_string(), span: at }.to_string(), "Cannot find binding b");
    assert_eq!(RuleNotFoundError("r".to_string(), at).to_string(), "The requested rule 'r' cannot be found");
    assert_eq!(CompileError::BadBinding { name: "b".to_string(), span: at }.span(), Some(at));
    assert_eq!(CompileError::RelNameConflict { name: "s".to_string() }.span(), None);
}

struct HeadWide;

impl FixedRule for HeadWide {
    fn arity(&self, _options: &Vec<(String, Expr)>, rule_head: &Vec<Symbol>, _span: SourceSpan) -> Result<usize, CompileError> {
        Ok(rule_head.len())
    }
}

#[test]
fn a_simple_fixed_rule_has_the_arity_it_was_made_with() {
    let rule = SimpleFixedRule::new(3, |_inputs: Vec<NamedRows>, _options: Vec<(String, DataValue)>| -> Result<NamedRows, CompileError> {
        Ok(NamedRows::new(vec![], vec![]))
    });
    let mut options = vec![("k".to_string(), Expr::Const { val: DataValue::Int(7), span: o() })];
    assert!(rule.init_options(&mut options, o()).is_ok());
    assert_eq!(options.len(), 1);
    assert_eq!(options[0].0, "k");
    assert_eq!(rule.arity(&options, &ks(&["a"]), o()).unwrap(), 3);
    assert_eq!(rule.arity(&vec![], &vec![], SourceSpan(1, 2)).unwrap(), 3);
    assert_eq!(SimpleFixedRule::new(0, ()).arity(&vec![], &ks(&["a", "b"]), o()).unwrap(), 0);
}

#[test]
fn a_fixed_rule_that_says_nothing_of_its_options_accepts_them() {
    let mut options = vec![("k".to_string(), Expr::Const { val: DataValue::Null, span: o() })];
    assert!(HeadWide.init_options(&mut options, o()).is_ok());
    assert_eq!(options.len(), 1);
    assert_eq!(HeadWide.arity(&options, &ks(&["a", "b"]), o()).unwrap(), 2);
}

#[test]
fn an_input_relation_answers_for_its_argument() {
    let mut c = Compiler::new();
    c.create_relation("edges".to_string(), 2).unwrap();
    let mut stores = ArityMap::new();
    stores.insert(named("reach"), 3);
    let stored = MagicFixedRuleRuleArg::Stored { name: k("edges"), bindings: ks(&["a", "b"]), span: SourceSpan(3, 5) };
    let input = FixedRuleInputRelation { arg_manifest: &stored, stores: &stores, compiler: &c };
    assert_eq!(input.arity().unwrap(), 2);
    assert_eq!(input.span(), SourceSpan(3, 5));
    let map = input.get_binding_map(4);
    let got: Vec<(String, usize)> = map.iter().map(|(s, i)| (s.name.clone(), *i)).collect();
    assert_eq!(got, vec![("a".to_string(), 4), ("b".to_string(), 5)]);
    let derived = MagicFixedRuleRuleArg::InMem { name: named("reach"), bindings: ks(&["x"]), span: o() };
    let input = FixedRuleInputRelation { arg_manifest: &derived, stores: &stores, compiler: &c };
    assert_eq!(input.arity().unwrap(), 3);
    let gone = MagicSymbol::Muggle { inner: Symbol::new("nope", SourceSpan(9, 4)) };
    let missing = MagicFixedRuleRuleArg::InMem { name: gone, bindings: vec![], span: o() };
    let input = FixedRuleInputRelation { arg_manifest: &missing, stores: &stores, compiler: &c };
    match input.arity() {
        Err(InputRelationError::RuleNotFound(RuleNotFoundError(name, span))) => {
            assert_eq!(name, "nope");
            assert_eq!(span, SourceSpan(9, 4));
        }
        other => panic!("a missing rule was expected, not {:?}", other),
    }
    assert!(input.get_binding_map(0).is_empty());
}
