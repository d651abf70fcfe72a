use cozo_compile::compiled::{CompiledRule, CompiledRuleSet, MagicRulesOrFixed};
use cozo_compile::explain::{can_be_explained, explain_compiled};
use cozo_compile::expr::{Expr, Op};
use cozo_compile::fixed_rule::{FixedRuleHandle, MagicFixedRuleApply};
use cozo_compile::join_kind::join_is_prefix;
use cozo_compile::magic::MagicSymbol;
use cozo_compile::program::{Aggregation, MagicAtom, MagicInlineRule, MagicRelationApplyAtom, MagicRuleApplyAtom};
use cozo_compile::ra::{InlineFixedRA, InnerJoin, Joiner, RelAlgebra};
use cozo_compile::registry::Compiler;
use cozo_compile::strata::{MagicProgram, StratifiedMagicProgram};
use cozo_compile::symb::{SourceSpan, Symbol};
use cozo_compile::symbol_set::SymbolSet;
use cozo_compile::value::DataValue;

fn z() -> SourceSpan {
    SourceSpan(0, 0)
}

fn sm(name: &str) -> Symbol {
    Symbol::new(name, z())
}

fn sms(names: &[&str]) -> Vec<Symbol> {
    names.iter().map(|n| sm(n)).collect()
}

fn plain(name: &str) -> MagicSymbol {
    MagicSymbol::Muggle { inner: sm(name) }
}

fn text(s: &str) -> String {
    DataValue::from_str(s).to_string()
}

fn list(items: &[&str]) -> String {
    DataValue::List(items.iter().map(|s| DataValue::from_str(s)).collect()).to_string()
}

fn pairs(items: &[(&str, &str)]) -> String {
    DataValue::List(
        items.iter().map(|(a, b)| DataValue::List(vec![DataValue::from_str(a), DataValue::from_str(b)])).collect(),
    )
    .to_string()
}

fn shown(row: &Vec<DataValue>) -> Vec<String> {
    row.iter().map(|v| v.to_string()).collect()
}

fn join_of(left: RelAlgebra, right: RelAlgebra, lk: &[&str], rk: &[&str]) -> InnerJoin {
    InnerJoin {
        left,
        right,
        joiner: Joiner { left_keys: sms(lk), right_keys: sms(rk) },
        to_eliminate: SymbolSet::new(),
        span: z(),
    }
}

fn scan_stored(bindings: &[&str]) -> RelAlgebra {
    RelAlgebra::relation(sms(bindings), z(), "st".to_string())
}

fn scan_mem(bindings: &[&str]) -> RelAlgebra {
    RelAlgebra::derived(sms(bindings), plain("mem"), z())
}

fn fixed_with_rows(n: usize) -> RelAlgebra {
    let mut f = InlineFixedRA::unit(z());
    f.bindings = sms(&["k"]);
    f.data = (0..n).map(|i| vec![DataValue::Int(i as i64)]).collect();
    RelAlgebra::Fixed(f)
}

#[test]
fn prefix_positions() {
    assert!(join_is_prefix(&vec![]));
    assert!(join_is_prefix(&vec![0]));
    assert!(join_is_prefix(&vec![0, 1]));
    assert!(join_is_prefix(&vec![1, 0]));
    assert!(join_is_prefix(&vec![2, 0, 1]));
    assert!(!join_is_prefix(&vec![1]));
    assert!(!join_is_prefix(&vec![0, 2]));
    assert!(!join_is_prefix(&vec![0, 0]));
    assert!(!join_is_prefix(&vec![1, 2]));
}

#[test]
fn positions_make_a_prefix_when_sorted_they_count_up_from_zero() {
    for code in 0..(5usize * 5 * 5 * 5) {
        for len in 0..=4usize {
            let mut digits = code;
            let mut positions: Vec<usize> = Vec::new();
            for _ in 0..len {
                positions.push(digits % 5);
                digits /= 5;
            }
            let mut sorted = positions.clone();
            sorted.sort();
            let counts_up = sorted.iter().copied().eq(0..len);
            assert_eq!(join_is_prefix(&positions), counts_up, "positions {:?}", positions);
        }
    }
}

#[test]
fn keys_at_the_first_positions_make_a_prefix_join() {
    let j = join_of(scan_mem(&["x", "y"]), scan_stored(&["a", "b", "c"]), &["x", "y"], &["a", "b"]);
    assert_eq!(j.join_type(), "stored_prefix_join");
    let j = join_of(scan_mem(&["x", "y"]), scan_stored(&["a", "b", "c"]), &["x", "y"], &["b", "a"]);
    assert_eq!(j.join_type(), "stored_prefix_join");
    let j = join_of(scan_mem(&["x", "y"]), scan_mem(&["a", "b", "c"]), &["x", "y"], &["a", "b"]);
    assert_eq!(j.join_type(), "mem_prefix_join");
    let j = join_of(scan_mem(&["x", "y"]), scan_mem(&["a", "b", "c"]), &[], &[]);
    assert_eq!(j.join_type(), "mem_prefix_join");
}

#[test]
fn keys_with_a_gap_make_a_materialized_join() {
    let j = join_of(scan_mem(&["x", "y"]), scan_stored(&["a", "b", "c"]), &["x", "y"], &["a", "c"]);
    assert_eq!(j.join_type(), "stored_mat_join");
    let j = join_of(scan_mem(&["x", "y"]), scan_mem(&["a", "b", "c"]), &["x", "y"], &["a", "c"]);
    assert_eq!(j.join_type(), "mem_mat_join");
    let j = join_of(scan_mem(&["x", "y"]), scan_mem(&["a", "b", "c"]), &["x"], &["b"]);
    assert_eq!(j.join_type(), "mem_mat_join");
}

#[test]
fn join_indices_are_positions_in_the_bindings() {
    let j = Joiner { left_keys: sms(&["y", "x"]), right_keys: sms(&["c", "a"]) };
    let (l, r) = j.join_indices(&sms(&["x", "y"]), &sms(&["a", "b", "c"]));
    assert_eq!(l, vec![1, 0]);
    assert_eq!(r, vec![2, 0]);
    let map = j.as_map();
    assert_eq!(map, vec![("y".to_string(), "c".to_string()), ("x".to_string(), "a".to_string())]);
}

#[test]
fn joins_against_rows_given_in_place() {
    assert_eq!(join_of(scan_mem(&["x"]), fixed_with_rows(0), &["x"], &["k"]).join_type(), "null_join");
    assert_eq!(join_of(scan_mem(&["x"]), fixed_with_rows(1), &["x"], &["k"]).join_type(), "singleton_join");
    assert_eq!(join_of(scan_mem(&["x"]), fixed_with_rows(2), &["x"], &["k"]).join_type(), "fixed_join");
    assert_eq!(join_of(scan_mem(&["x"]), fixed_with_rows(5), &["x"], &["k"]).join_type(), "fixed_join");
}

#[test]
fn joins_against_other_operators_are_generic() {
    let right = scan_mem(&["a"]).cartesian_join(scan_mem(&["b"]), z());
    assert_eq!(join_of(scan_mem(&["x"]), right, &["x"], &["a"]).join_type(), "generic_mat_join");
    let right = scan_mem(&["a"]).unify(sm("b"), Expr::Const { val: DataValue::Int(1), span: z() }, false, z());
    assert_eq!(join_of(scan_mem(&["x"]), right, &["x"], &["a"]).join_type(), "generic_mat_join");
    let right = RelAlgebra::unit(z()).filter(Expr::Const { val: DataValue::Bool(true), span: z() });
    assert_eq!(join_of(scan_mem(&["x"]), right, &[], &[]).join_type(), "generic_mat_join");
}

#[test]
fn plans_that_cannot_be_laid_out_are_told() {
    let reordered = scan_mem(&["a"]).reorder(sms(&["a"]));
    let bad = scan_mem(&["x"]).join(reordered, sms(&["x"]), sms(&["a"]), z());
    assert!(!bad.is_explainable());
    let unbound = scan_mem(&["x"]).join(scan_mem(&["a"]), sms(&["nope"]), sms(&["a"]), z());
    assert!(!unbound.is_explainable());
    let under_unit = RelAlgebra::unit(z()).join(scan_mem(&["a"]), sms(&["nope"]), sms(&["a"]), z());
    assert!(under_unit.is_explainable());
    let good = scan_mem(&["x"]).join(scan_mem(&["a"]), sms(&["x"]), sms(&["a"]), z());
    assert!(good.is_explainable());
    assert!(can_be_explained(&vec![vec![(
        plain("q"),
        CompiledRuleSet::Rules(vec![CompiledRule { aggr: vec![], relation: good, contained_rules: vec![] }])
    )]]));
    assert!(!can_be_explained(&vec![vec![(
        plain("q"),
        CompiledRuleSet::Rules(vec![CompiledRule { aggr: vec![], relation: bad, contained_rules: vec![] }])
    )]]));
}

#[test]
fn family_program_is_laid_out() {
    let mut c = Compiler::new();
    c.create_relation("has_added".to_string(), 2).unwrap();
    c.create_relation("has_target".to_string(), 2).unwrap();
    c.create_relation("mutations".to_string(), 1).unwrap();
    let rule_app = |name: &str, args: &[&str]| {
        MagicAtom::Rule(MagicRuleApplyAtom { name: plain(name), args: sms(args), span: z() })
    };
    let rel_app = |name: &str, args: &[&str]| {
        MagicAtom::Relation(MagicRelationApplyAtom { name: sm(name), args: sms(args), span: z() })
    };
    let clause = |head: &[&str], body: Vec<MagicAtom>| MagicRulesOrFixed::Rules {
        rules: vec![MagicInlineRule { head: sms(head), aggr: head.iter().map(|_| None).collect(), body }],
    };
    let program = StratifiedMagicProgram(vec![MagicProgram {
        prog: vec![
            (plain("mutations"), clause(&["m"], vec![rel_app("mutations", &["m"])])),
            (plain("has_added"), clause(&["m", "n"], vec![rel_app("has_added", &["m", "n"])])),
            (plain("has_target"), clause(&["m", "n"], vec![rel_app("has_target", &["m", "n"])])),
            (
                plain("is_parent"),
                clause(
                    &["p", "c"],
                    vec![rule_app("mutations", &["m"]), rule_app("has_added", &["m", "c"]), rule_app("has_target", &["m", "p"])],
                ),
            ),
            (plain("?"), clause(&["x", "y"], vec![rule_app("is_parent", &["x", "y"])])),
        ],
    }]);
    let compiled = c.stratified_magic_compile(program).unwrap();
    assert!(can_be_explained(&compiled));
    let table = explain_compiled(&compiled).unwrap();
    assert_eq!(
        table.headers,
        vec!["stratum", "rule_idx", "rule", "atom_idx", "op", "ref", "joins_on", "filters/expr", "out_relation"]
    );
    assert!(table.next.is_none());
    let rows: Vec<Vec<String>> = table.rows.iter().map(shown).collect();
    let n = "null".to_string();
    let expected: Vec<Vec<String>> = vec![
        vec!["0".into(), "0".into(), text("mutations"), "0".into(), text("out"), n.clone(), n.clone(), n.clone(), list(&["m"])],
        vec!["0".into(), "0".into(), text("mutations"), "1".into(), text("load_stored"), text(":mutations"), n.clone(), list(&[]), list(&["m"])],
        vec!["0".into(), "1".into(), text("has_added"), "0".into(), text("out"), n.clone(), n.clone(), n.clone(), list(&["m", "n"])],
        vec!["0".into(), "1".into(), text("has_added"), "1".into(), text("load_stored"), text(":has_added"), n.clone(), list(&[]), list(&["m", "n"])],
        vec!["0".into(), "2".into(), text("has_target"), "0".into(), text("out"), n.clone(), n.clone(), n.clone(), list(&["m", "n"])],
        vec!["0".into(), "2".into(), text("has_target"), "1".into(), text("load_stored"), text(":has_target"), n.clone(), list(&[]), list(&["m", "n"])],
        vec!["0".into(), "3".into(), text("is_parent"), "0".into(), text("out"), n.clone(), n.clone(), n.clone(), list(&["p", "c"])],
        vec!["0".into(), "3".into(), text("is_parent"), "6".into(), text("load_mem"), text("mutations"), n.clone(), list(&[]), list(&["m"])],
        vec!["0".into(), "3".into(), text("is_parent"), "5".into(), text("load_mem"), text("has_added"), n.clone(), list(&[]), list(&["**0", "c"])],
        vec!["0".into(), "3".into(), text("is_parent"), "4".into(), text("mem_prefix_join"), n.clone(), pairs(&[("m", "**0")]), n.clone(), list(&["m", "c"])],
        vec!["0".into(), "3".into(), text("is_parent"), "3".into(), text("load_mem"), text("has_target"), n.clone(), list(&[]), list(&["**1", "p"])],
        vec!["0".into(), "3".into(), text("is_parent"), "2".into(), text("mem_prefix_join"), n.clone(), pairs(&[("m", "**1")]), n.clone(), list(&["c", "p"])],
        vec!["0".into(), "3".into(), text("is_parent"), "1".into(), text("reorder"), n.clone(), n.clone(), n.clone(), list(&["p", "c"])],
        vec!["0".into(), "4".into(), text("?"), "0".into(), text("out"), n.clone(), n.clone(), n.clone(), list(&["x", "y"])],
        vec!["0".into(), "4".into(), text("?"), "1".into(), text("load_mem"), text("is_parent"), n.clone(), list(&[]), list(&["x", "y"])],
    ];
    assert_eq!(rows.len(), expected.len());
    for (i, (got, want)) in rows.iter().zip(expected.iter()).enumerate() {
        assert_eq!(got, want, "row {}", i);
    }
    let join_rows = rows.iter().filter(|r| r[2] == text("is_parent") && r[4].ends_with("join\"")).count();
    assert_eq!(join_rows, 2);
}

#[test]
fn filters_unifications_fixed_rules_and_aggregations_are_laid_out() {
    let lit = |i: i64| Expr::Const { val: DataValue::Int(i), span: z() };
    let var = |n: &str| Expr::Binding { var: sm(n), tuple_pos: None };
    let scan = scan_mem(&["a"]).filter(Expr::Apply { op: Op::Gt, args: vec![var("a"), lit(1)], span: z() });
    let plan = scan
        .unify(sm("b"), Expr::Apply { op: Op::Add, args: vec![var("a"), lit(1)], span: z() }, true, z())
        .filter(Expr::Apply { op: Op::Lt, args: vec![var("b"), lit(9)], span: z() });
    let meet = Aggregation { name: "min".to_string(), is_meet: true };
    let count = Aggregation { name: "count".to_string(), is_meet: false };
    let with_meet = CompiledRule { aggr: vec![None, Some((meet, vec![]))], relation: plan, contained_rules: vec![] };
    let with_count = CompiledRule {
        aggr: vec![Some((Aggregation { name: "min".to_string(), is_meet: true }, vec![])), Some((count, vec![DataValue::Int(1)]))],
        relation: fixed_with_rows(2),
        contained_rules: vec![],
    };
    let fixed = MagicFixedRuleApply {
        fixed_handle: FixedRuleHandle::new("PageRank", z()),
        rule_args: vec![],
        options: vec![],
        span: z(),
        arity: 2,
    };
    let strata = vec![
        vec![],
        vec![
            (plain("algo"), CompiledRuleSet::Fixed(fixed)),
            (MagicSymbol::Magic { inner: sm("q"), adornment: vec![true, false] }, CompiledRuleSet::Rules(vec![with_meet, with_count])),
        ],
    ];
    assert!(can_be_explained(&strata));
    let table = explain_compiled(&strata).unwrap();
    let rows: Vec<Vec<String>> = table.rows.iter().map(shown).collect();
    let n = "null".to_string();
    let expected: Vec<Vec<String>> = vec![
        vec!["1".into(), "0".into(), text("algo"), "0".into(), text("algo"), n.clone(), n.clone(), n.clone(), n.clone()],
        vec!["1".into(), "0".into(), text("q|Mbf"), "0".into(), text("meet_aggr_out"), n.clone(), n.clone(), n.clone(), list(&["a", "b"])],
        vec!["1".into(), "0".into(), text("q|Mbf"), "3".into(), text("load_mem"), text("mem"), n.clone(), list(&["gt(a, 1)"]), list(&["a"])],
        vec!["1".into(), "0".into(), text("q|Mbf"), "2".into(), text("multi-unify"), text("b"), n.clone(), text("add(a, 1)"), list(&["a", "b"])],
        vec!["1".into(), "0".into(), text("q|Mbf"), "1".into(), text("filter"), n.clone(), n.clone(), list(&["lt(b, 9)"]), list(&["a", "b"])],
        vec!["1".into(), "1".into(), text("q|Mbf"), "0".into(), text("aggr_out"), n.clone(), n.clone(), n.clone(), list(&["k"])],
        vec!["1".into(), "1".into(), text("q|Mbf"), "1".into(), text("fixed"), n.clone(), n.clone(), n.clone(), list(&["k"])],
    ];
    assert_eq!(rows.len(), expected.len());
    for (i, (got, want)) in rows.iter().zip(expected.iter()).enumerate() {
        assert_eq!(got, want, "row {}", i);
    }
}

#[test]
fn an_empty_program_has_only_headers() {
    let table = explain_compiled(&vec![]).unwrap();
    assert_eq!(table.headers.len(), 9);
    assert!(table.rows.is_empty());
}
