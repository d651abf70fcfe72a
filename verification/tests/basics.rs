use cozo_compile::expr::{Expr, Op};
use cozo_compile::magic::{MagicSymbol, SymbolGen};
use cozo_compile::symb::{find_position, SourceSpan, Symbol};
use cozo_compile::symbol_set::SymbolSet;
use cozo_compile::text::{decimal_string, signed_decimal_string};
use cozo_compile::value::DataValue;

fn sp() -> SourceSpan {
    SourceSpan(0, 0)
}

fn sym(name: &str) -> Symbol {
    Symbol::new(name, sp())
}

fn var(name: &str) -> Expr {
    Expr::Binding { var: sym(name), tuple_pos: None }
}

#[test]
fn symbol_keeps_name_and_span() {
    let s = Symbol::new("x", SourceSpan(1, 2));
    assert_eq!(s.name, "x");
    assert_eq!(s.span, SourceSpan(1, 2));
    assert_eq!(s.to_string(), "x");
}

#[test]
fn symbols_are_the_same_by_name_only() {
    let a = Symbol::new("x", SourceSpan(1, 2));
    let b = Symbol::new("x", SourceSpan(7, 1));
    let c = Symbol::new("y", SourceSpan(1, 2));
    assert!(a.same_name(&b));
    assert!(!a.same_name(&c));
}

#[test]
fn ignored_symbols_start_with_a_tilde() {
    assert!(sym("~0").is_generated_ignored_symbol());
    assert!(!sym("x").is_generated_ignored_symbol());
    assert!(!sym("").is_generated_ignored_symbol());
    assert!(!sym("x~").is_generated_ignored_symbol());
}

#[test]
fn decimal_strings() {
    assert_eq!(decimal_string(0), "0");
    assert_eq!(decimal_string(7), "7");
    assert_eq!(decimal_string(10), "10");
    assert_eq!(decimal_string(1234567890), "1234567890");
    assert_eq!(decimal_string(u128::MAX), "340282366920938463463374607431768211455");
}

#[test]
fn signed_decimal_strings() {
    assert_eq!(signed_decimal_string(0), "0");
    assert_eq!(signed_decimal_string(42), "42");
    assert_eq!(signed_decimal_string(-42), "-42");
    assert_eq!(signed_decimal_string(i64::MIN), "-9223372036854775808");
    assert_eq!(signed_decimal_string(i64::MAX), "9223372036854775807");
}

#[test]
fn generator_hands_out_names_in_turn() {
    let mut g = SymbolGen::new();
    let a = g.fresh(SourceSpan(3, 4));
    let b = g.fresh(sp());
    assert_eq!(a.name, "**0");
    assert_eq!(a.span, SourceSpan(3, 4));
    assert_eq!(b.name, "**1");
    assert_eq!(g.next_id, 2);
    for _ in 0..9 {
        g.fresh(sp());
    }
    assert_eq!(g.fresh(sp()).name, "**11");
}

#[test]
fn magic_symbol_text() {
    let plain = MagicSymbol::Muggle { inner: sym("rel") };
    let magic = MagicSymbol::Magic { inner: sym("rel"), adornment: vec![true, false, true] };
    let none = MagicSymbol::Magic { inner: sym("rel"), adornment: vec![] };
    assert_eq!(plain.to_string(), "rel");
    assert_eq!(magic.to_string(), "rel|Mbfb");
    assert_eq!(none.to_string(), "rel|M");
    assert_eq!(magic.symbol().name, "rel");
}

#[test]
fn magic_symbols_are_the_same_by_kind_name_and_adornment() {
    let plain = MagicSymbol::Muggle { inner: sym("rel") };
    let plain2 = MagicSymbol::Muggle { inner: Symbol::new("rel", SourceSpan(9, 9)) };
    let magic = MagicSymbol::Magic { inner: sym("rel"), adornment: vec![true, false] };
    let magic2 = MagicSymbol::Magic { inner: sym("rel"), adornment: vec![true, false] };
    let magic3 = MagicSymbol::Magic { inner: sym("rel"), adornment: vec![true, true] };
    let magic4 = MagicSymbol::Magic { inner: sym("rel"), adornment: vec![true] };
    assert!(plain.same_relation(&plain2));
    assert!(!plain.same_relation(&magic));
    assert!(!magic.same_relation(&plain));
    assert!(magic.same_relation(&magic2));
    assert!(!magic.same_relation(&magic3));
    assert!(!magic.same_relation(&magic4));
    assert!(magic.clone().same_relation(&magic));
}

#[test]
fn symbol_set_insert_and_contains() {
    let mut s = SymbolSet::new();
    assert_eq!(s.len(), 0);
    assert!(s.insert(sym("a")));
    assert!(s.insert(sym("b")));
    assert!(!s.insert(Symbol::new("a", SourceSpan(5, 5))));
    assert_eq!(s.len(), 2);
    assert!(s.contains(&sym("a")));
    assert!(s.contains(&sym("b")));
    assert!(!s.contains(&sym("c")));
}

#[test]
fn symbol_set_subset_and_union() {
    let ab = SymbolSet::from_symbols(&vec![sym("a"), sym("b"), sym("a")]);
    let abc = SymbolSet::from_symbols(&vec![sym("c"), sym("b"), sym("a")]);
    assert_eq!(ab.len(), 2);
    assert!(ab.is_subset(&abc));
    assert!(!abc.is_subset(&ab));
    assert!(SymbolSet::new().is_subset(&ab));
    let mut u = ab.duplicate();
    u.extend(&abc);
    assert_eq!(u.len(), 3);
    assert!(abc.is_subset(&u) && u.is_subset(&abc));
    u.extend_from(&vec![sym("d")]);
    assert!(u.contains(&sym("d")));
}

#[test]
fn position_is_the_last_occurrence() {
    let b = vec![sym("a"), sym("b"), sym("a"), sym("c")];
    assert_eq!(find_position(&b, &sym("a")), Some(2));
    assert_eq!(find_position(&b, &sym("b")), Some(1));
    assert_eq!(find_position(&b, &sym("c")), Some(3));
    assert_eq!(find_position(&b, &sym("z")), None);
    assert_eq!(find_position(&vec![], &sym("a")), None);
}

#[test]
fn data_value_text() {
    assert_eq!(DataValue::Null.to_string(), "null");
    assert_eq!(DataValue::Bool(true).to_string(), "true");
    assert_eq!(DataValue::Bool(false).to_string(), "false");
    assert_eq!(DataValue::Int(-5).to_string(), "-5");
    assert_eq!(DataValue::from_str("hi").to_string(), "\"hi\"");
    assert_eq!(DataValue::List(vec![]).to_string(), "[]");
    assert_eq!(
        DataValue::List(vec![DataValue::Int(1), DataValue::List(vec![DataValue::Null]), DataValue::from_str("x")])
            .to_string(),
        "[1, [null], \"x\"]"
    );
}

#[test]
fn data_value_clone_is_equal() {
    let v = DataValue::List(vec![DataValue::Int(1), DataValue::from_str("x"), DataValue::List(vec![DataValue::Bool(true)])]);
    assert_eq!(v.clone().to_string(), v.to_string());
}

#[test]
fn expr_text() {
    let e = Expr::Apply {
        op: Op::And,
        args: vec![
            Expr::Apply { op: Op::Gt, args: vec![var("a"), Expr::Const { val: DataValue::Int(3), span: sp() }], span: sp() },
            Expr::Apply { op: Op::IsIn, args: vec![var("b"), var("c")], span: sp() },
        ],
        span: sp(),
    };
    assert_eq!(e.to_string(), "and(gt(a, 3), is_in(b, c))");
    assert_eq!(Expr::Apply { op: Op::List, args: vec![], span: sp() }.to_string(), "list()");
    assert_eq!(e.clone().to_string(), e.to_string());
}

#[test]
fn expr_span() {
    assert_eq!(Expr::Binding { var: Symbol::new("a", SourceSpan(4, 1)), tuple_pos: None }.span(), SourceSpan(4, 1));
    assert_eq!(Expr::Const { val: DataValue::Null, span: SourceSpan(2, 3) }.span(), SourceSpan(2, 3));
    assert_eq!(Expr::Apply { op: Op::Or, args: vec![], span: SourceSpan(5, 6) }.span(), SourceSpan(5, 6));
}

#[test]
fn conjunction_is_split_at_the_top_only() {
    let inner = Expr::Apply { op: Op::And, args: vec![var("b"), var("c")], span: sp() };
    let e = Expr::Apply { op: Op::And, args: vec![var("a"), inner], span: sp() };
    let parts = e.to_conjunction();
    assert_eq!(parts.len(), 2);
    assert_eq!(parts[0].to_string(), "a");
    assert_eq!(parts[1].to_string(), "and(b, c)");
    let single = Expr::Apply { op: Op::Or, args: vec![var("a"), var("b")], span: sp() };
    let parts = single.to_conjunction();
    assert_eq!(parts.len(), 1);
    assert_eq!(parts[0].to_string(), "or(a, b)");
}

#[test]
fn expr_bindings_are_collected() {
    let e = Expr::Apply {
        op: Op::Add,
        args: vec![var("a"), Expr::Apply { op: Op::Mul, args: vec![var("b"), var("a")], span: sp() }, Expr::Const { val: DataValue::Int(1), span: sp() }],
        span: sp(),
    };
    let b = e.bindings();
    assert_eq!(b.len(), 2);
    assert!(b.contains(&sym("a")));
    assert!(b.contains(&sym("b")));
    assert_eq!(Expr::Const { val: DataValue::Null, span: sp() }.bindings().len(), 0);
}

#[test]
fn expr_build_tests() {
    let eq = Expr::build_equate(vec![var("a"), var("b")], SourceSpan(1, 1));
    let is_in = Expr::build_is_in(vec![var("a"), var("b")], SourceSpan(1, 1));
    assert_eq!(eq.to_string(), "eq(a, b)");
    assert_eq!(is_in.to_string(), "is_in(a, b)");
    assert_eq!(eq.span(), SourceSpan(1, 1));
}

#[test]
fn expr_fill_binding_indices() {
    let mut e = Expr::Apply { op: Op::Add, args: vec![var("b"), var("z"), var("a")], span: sp() };
    let bindings = vec![sym("a"), sym("b")];
    assert_eq!(e.first_unbound(&bindings).map(|s| s.name), Some("z".to_string()));
    e.fill_binding_indices(&bindings);
    match e {
        Expr::Apply { args, .. } => {
            assert!(matches!(&args[0], Expr::Binding { tuple_pos: Some(1), .. }));
            assert!(matches!(&args[1], Expr::Binding { tuple_pos: None, .. }));
            assert!(matches!(&args[2], Expr::Binding { tuple_pos: Some(0), .. }));
        }
        _ => unreachable!(),
    }
    let all = Expr::Apply { op: Op::Add, args: vec![var("b"), var("a")], span: sp() };
    assert!(all.first_unbound(&bindings).is_none());
}
