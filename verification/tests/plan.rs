use cozo_compile::error::CompileError;
use cozo_compile::expr::{Expr, Op};
use cozo_compile::magic::MagicSymbol;
use cozo_compile::ra::{InlineFixedRA, RelAlgebra};
use cozo_compile::symb::{SourceSpan, Symbol};
use cozo_compile::symbol_set::SymbolSet;
use cozo_compile::value::DataValue;

fn sp0() -> SourceSpan {
    SourceSpan(0, 0)
}

fn s(name: &str) -> Symbol {
    Symbol::new(name, sp0())
}

fn syms(names: &[&str]) -> Vec<Symbol> {
    names.iter().map(|n| s(n)).collect()
}

fn names(v: &Vec<Symbol>) -> Vec<String> {
    v.iter().map(|x| x.name.clone()).collect()
}

fn v(name: &str) -> Expr {
    Expr::Binding { var: s(name), tuple_pos: None }
}

fn num(i: i64) -> Expr {
    Expr::Const { val: DataValue::Int(i), span: sp0() }
}

fn app(op: Op, args: Vec<Expr>) -> Expr {
    Expr::Apply { op, args, span: SourceSpan(7, 7) }
}

fn mem(name: &str, bindings: &[&str]) -> RelAlgebra {
    RelAlgebra::derived(syms(bindings), MagicSymbol::Muggle { inner: s(name) }, SourceSpan(1, 1))
}

fn stored(name: &str, bindings: &[&str]) -> RelAlgebra {
    RelAlgebra::relation(syms(bindings), SourceSpan(2, 2), name.to_string())
}

fn used(names: &[&str]) -> SymbolSet {
    SymbolSet::from_symbols(&syms(names))
}

fn filters_of(r: &RelAlgebra) -> Vec<String> {
    match r {
        RelAlgebra::TempStore(t) => t.filters.iter().map(|f| f.to_string()).collect(),
        RelAlgebra::Stored(t) => t.filters.iter().map(|f| f.to_string()).collect(),
        RelAlgebra::Filter(t) => t.filters.iter().map(|f| f.to_string()).collect(),
        _ => vec![],
    }
}

#[test]
fn unit_plan_is_unit() {
    let u = RelAlgebra::unit(SourceSpan(3, 4));
    assert!(u.is_unit());
    assert_eq!(u.span(), SourceSpan(3, 4));
    assert!(u.bindings_after_eliminate().is_empty());
    match &u {
        RelAlgebra::Fixed(f) => {
            assert!(f.bindings.is_empty());
            assert_eq!(f.data.len(), 1);
            assert!(f.data[0].is_empty());
        }
        _ => panic!("the unit plan is a fixed relation"),
    }
    let f = InlineFixedRA::unit(SourceSpan(3, 4));
    assert_eq!(f.span, SourceSpan(3, 4));
    assert_eq!(f.to_eliminate.len(), 0);
}

#[test]
fn only_the_single_empty_row_is_unit() {
    let mut f = InlineFixedRA::unit(sp0());
    f.data.push(vec![]);
    assert!(!RelAlgebra::Fixed(f).is_unit());
    let mut g = InlineFixedRA::unit(sp0());
    g.bindings.push(s("a"));
    assert!(!RelAlgebra::Fixed(g).is_unit());
    let mut h = InlineFixedRA::unit(sp0());
    h.data.clear();
    assert!(!RelAlgebra::Fixed(h).is_unit());
    assert!(!mem("r", &[]).is_unit());
}

#[test]
fn scans_expose_their_bindings() {
    let m = mem("r", &["a", "b"]);
    assert_eq!(names(&m.bindings_after_eliminate()), vec!["a", "b"]);
    assert_eq!(names(&m.bindings_before_eliminate()), vec!["a", "b"]);
    assert!(m.eliminate_set().is_none());
    assert_eq!(m.span(), SourceSpan(1, 1));
    let st = stored("s", &["x"]);
    assert_eq!(names(&st.bindings_after_eliminate()), vec!["x"]);
    assert!(st.eliminate_set().is_none());
    assert_eq!(st.span(), SourceSpan(2, 2));
    match &st {
        RelAlgebra::Stored(x) => {
            assert_eq!(x.name, "s");
            assert!(x.filters.is_empty());
        }
        _ => panic!("a scan of a stored relation was asked for"),
    }
}

#[test]
fn join_exposes_left_then_right() {
    let j = mem("r", &["a", "b"]).join(stored("s", &["c"]), syms(&["a"]), syms(&["c"]), SourceSpan(5, 5));
    assert_eq!(names(&j.bindings_before_eliminate()), vec!["a", "b", "c"]);
    assert_eq!(names(&j.bindings_after_eliminate()), vec!["a", "b", "c"]);
    assert_eq!(j.span(), SourceSpan(5, 5));
    assert_eq!(j.eliminate_set().map(|e| e.len()), Some(0));
    match &j {
        RelAlgebra::Join(inner) => {
            assert_eq!(names(&inner.joiner.left_keys), vec!["a"]);
            assert_eq!(names(&inner.joiner.right_keys), vec!["c"]);
            assert_eq!(names(&inner.bindings()), vec!["a", "b", "c"]);
        }
        _ => panic!("a join was asked for"),
    }
}

#[test]
fn cartesian_join_has_no_keys() {
    let j = mem("r", &["a"]).cartesian_join(mem("s", &["b"]), sp0());
    match &j {
        RelAlgebra::Join(inner) => {
            assert!(inner.joiner.left_keys.is_empty());
            assert!(inner.joiner.right_keys.is_empty());
        }
        _ => panic!("a join was asked for"),
    }
    assert_eq!(names(&j.bindings_after_eliminate()), vec!["a", "b"]);
}

#[test]
fn reorder_exposes_the_new_order() {
    let r = mem("r", &["a", "b"]).reorder(syms(&["b", "a"]));
    assert_eq!(names(&r.bindings_after_eliminate()), vec!["b", "a"]);
    assert!(r.eliminate_set().is_none());
    assert_eq!(r.span(), SourceSpan(1, 1));
}

#[test]
fn unify_adds_a_binding_at_the_end() {
    let u = mem("r", &["a"]).unify(s("b"), app(Op::Add, vec![v("a"), num(1)]), false, SourceSpan(9, 9));
    assert_eq!(names(&u.bindings_after_eliminate()), vec!["a", "b"]);
    assert_eq!(u.span(), SourceSpan(9, 9));
    match &u {
        RelAlgebra::Unification(x) => {
            assert!(!x.is_multi);
            assert_eq!(x.binding.name, "b");
            assert_eq!(x.expr.to_string(), "add(a, 1)");
        }
        _ => panic!("a unification was asked for"),
    }
}

#[test]
fn eliminate_marks_what_is_not_used() {
    let mut j = mem("r", &["a", "b"]).join(mem("s", &["k", "c"]), syms(&["a"]), syms(&["k"]), sp0());
    j.eliminate_temp_vars(&used(&["b", "c"]));
    assert_eq!(names(&j.bindings_before_eliminate()), vec!["a", "b", "k", "c"]);
    assert_eq!(names(&j.bindings_after_eliminate()), vec!["b", "c"]);
    let e = j.eliminate_set().unwrap();
    assert_eq!(e.len(), 2);
    assert!(e.contains(&s("a")));
    assert!(e.contains(&s("k")));
}

#[test]
fn eliminate_keeps_join_keys_in_the_children() {
    let inner = mem("r", &["a", "b"]).join(mem("s", &["k", "c"]), syms(&["a"]), syms(&["k"]), sp0());
    let mut outer = inner.join(mem("t", &["k2", "d"]), syms(&["b"]), syms(&["k2"]), sp0());
    outer.eliminate_temp_vars(&used(&["d"]));
    assert_eq!(names(&outer.bindings_after_eliminate()), vec!["d"]);
    match &outer {
        RelAlgebra::Join(o) => {
            assert_eq!(names(&o.left.bindings_after_eliminate()), vec!["b"]);
            assert_eq!(names(&o.right.bindings_after_eliminate()), vec!["k2", "d"]);
            match &o.left {
                RelAlgebra::Join(i) => {
                    assert_eq!(names(&i.left.bindings_after_eliminate()), vec!["a", "b"]);
                    assert_eq!(names(&i.right.bindings_after_eliminate()), vec!["k", "c"]);
                    assert!(i.to_eliminate.contains(&s("a")));
                    assert!(i.to_eliminate.contains(&s("k")));
                    assert!(i.to_eliminate.contains(&s("c")));
                    assert!(!i.to_eliminate.contains(&s("b")));
                }
                _ => panic!("the left child is a join"),
            }
        }
        _ => panic!("a join was asked for"),
    }
}

#[test]
fn eliminate_keeps_what_the_filters_of_a_derived_scan_on_the_right_read() {
    let right = mem("s", &["k"]).filter(app(Op::Gt, vec![v("b"), num(0)]));
    let left = mem("q", &["a", "b"]).cartesian_join(mem("p", &["z"]), sp0());
    let mut j = left.join(right, syms(&["a"]), syms(&["k"]), sp0());
    j.eliminate_temp_vars(&used(&[]));
    match &j {
        RelAlgebra::Join(o) => {
            assert_eq!(names(&o.left.bindings_after_eliminate()), vec!["a", "b"]);
        }
        _ => panic!("a join was asked for"),
    }
    let right = stored("s", &["k"]).filter(app(Op::Gt, vec![v("b"), num(0)]));
    let left = mem("q", &["a", "b"]).cartesian_join(mem("p", &["z"]), sp0());
    let mut j = left.join(right, syms(&["a"]), syms(&["k"]), sp0());
    j.eliminate_temp_vars(&used(&[]));
    match &j {
        RelAlgebra::Join(o) => {
            assert_eq!(names(&o.left.bindings_after_eliminate()), vec!["a"]);
        }
        _ => panic!("a join was asked for"),
    }
}

#[test]
fn eliminate_through_filter_and_unification() {
    let base = mem("r", &["a", "b", "c"]).cartesian_join(RelAlgebra::unit(sp0()), sp0());
    let u = base.unify(s("d"), app(Op::Add, vec![v("a"), num(1)]), false, sp0());
    let mut f = u.filter(app(Op::Gt, vec![v("b"), num(0)]));
    f.eliminate_temp_vars(&used(&["d"]));
    assert_eq!(names(&f.bindings_after_eliminate()), vec!["d"]);
    match &f {
        RelAlgebra::Filter(x) => {
            assert_eq!(names(&x.parent.bindings_after_eliminate()), vec!["b", "d"]);
            match x.parent.as_ref() {
                RelAlgebra::Unification(un) => {
                    assert_eq!(names(&un.parent.bindings_after_eliminate()), vec!["a", "b"]);
                }
                _ => panic!("under the filter is the unification"),
            }
        }
        _ => panic!("a filter was asked for"),
    }
}

#[test]
fn a_unification_never_drops_its_own_binding() {
    let mut u = mem("r", &["a"]).unify(s("b"), num(1), false, sp0());
    u.eliminate_temp_vars(&used(&["a"]));
    assert_eq!(names(&u.bindings_after_eliminate()), vec!["a", "b"]);
}

#[test]
fn fixed_relation_drops_unused_bindings() {
    let mut f = InlineFixedRA::unit(sp0());
    f.bindings = syms(&["a", "b"]);
    f.data = vec![vec![DataValue::Int(1), DataValue::Int(2)]];
    f.do_eliminate_temp_vars(&used(&["b"]));
    let r = RelAlgebra::Fixed(f);
    assert_eq!(names(&r.bindings_before_eliminate()), vec!["a", "b"]);
    assert_eq!(names(&r.bindings_after_eliminate()), vec!["b"]);
}

#[test]
fn filter_on_a_scan_is_kept_with_the_scan() {
    let m = mem("r", &["a"]).filter(app(Op::Gt, vec![v("a"), num(1)])).filter(app(Op::Lt, vec![v("a"), num(9)]));
    assert!(matches!(m, RelAlgebra::TempStore(_)));
    assert_eq!(filters_of(&m), vec!["gt(a, 1)", "lt(a, 9)"]);
    let st = stored("r", &["a"]).filter(app(Op::Gt, vec![v("a"), num(1)]));
    assert!(matches!(st, RelAlgebra::Stored(_)));
    assert_eq!(filters_of(&st), vec!["gt(a, 1)"]);
}

#[test]
fn filter_wraps_fixed_reorder_and_unification() {
    let f = RelAlgebra::unit(sp0()).filter(app(Op::Gt, vec![num(2), num(1)]));
    match &f {
        RelAlgebra::Filter(x) => {
            assert!(x.parent.is_unit());
            assert_eq!(x.span, SourceSpan(7, 7));
            assert_eq!(x.to_eliminate.len(), 0);
        }
        _ => panic!("a filter was asked for"),
    }
    assert_eq!(filters_of(&f), vec!["gt(2, 1)"]);
    let r = mem("r", &["a"]).reorder(syms(&["a"])).filter(v("a"));
    assert!(matches!(&r, RelAlgebra::Filter(x) if matches!(x.parent.as_ref(), RelAlgebra::Reorder(_))));
    let u = mem("r", &["a"]).unify(s("b"), num(1), true, sp0()).filter(v("b"));
    assert!(matches!(&u, RelAlgebra::Filter(x) if matches!(x.parent.as_ref(), RelAlgebra::Unification(_))));
    let twice = u.filter(v("a"));
    assert_eq!(filters_of(&twice), vec!["b", "a"]);
    assert!(matches!(&twice, RelAlgebra::Filter(x) if matches!(x.parent.as_ref(), RelAlgebra::Unification(_))));
}

#[test]
fn filter_that_reads_the_left_child_goes_under_the_join() {
    let j = mem("a_rel", &["a", "b"]).join(mem("b_rel", &["c"]), vec![], vec![], SourceSpan(5, 5));
    let r = j.filter(app(Op::Gt, vec![v("a"), num(1)]));
    match &r {
        RelAlgebra::Join(inner) => {
            assert_eq!(filters_of(&inner.left), vec!["gt(a, 1)"]);
            assert!(filters_of(&inner.right).is_empty());
            assert_eq!(inner.span, SourceSpan(5, 5));
        }
        _ => panic!("the filter must not stay above the join"),
    }
}

#[test]
fn filter_that_reads_the_right_child_goes_under_the_join() {
    let j = mem("a_rel", &["a", "b"]).join(stored("b_rel", &["c"]), vec![], vec![], sp0());
    let r = j.filter(app(Op::Gt, vec![v("c"), num(1)]));
    match &r {
        RelAlgebra::Join(inner) => {
            assert!(filters_of(&inner.left).is_empty());
            assert_eq!(filters_of(&inner.right), vec!["gt(c, 1)"]);
        }
        _ => panic!("the filter must not stay above the join"),
    }
}

#[test]
fn conjunction_is_split_between_the_children() {
    let j = mem("a_rel", &["a", "b"]).join(mem("b_rel", &["c"]), vec![], vec![], SourceSpan(5, 5));
    let f = app(
        Op::And,
        vec![
            app(Op::Gt, vec![v("a"), num(1)]),
            app(Op::Gt, vec![v("c"), num(2)]),
            app(Op::Eq, vec![v("a"), v("c")]),
            app(Op::Lt, vec![v("b"), v("a")]),
        ],
    );
    let r = j.filter(f);
    match &r {
        RelAlgebra::Filter(top) => {
            assert_eq!(filters_of(&r), vec!["eq(a, c)"]);
            assert_eq!(top.span, SourceSpan(5, 5));
            match top.parent.as_ref() {
                RelAlgebra::Join(inner) => {
                    assert_eq!(filters_of(&inner.left), vec!["gt(a, 1)", "lt(b, a)"]);
                    assert_eq!(filters_of(&inner.right), vec!["gt(c, 2)"]);
                }
                _ => panic!("under the filter is the join"),
            }
        }
        _ => panic!("the clause that reads both children stays above the join"),
    }
    assert_eq!(names(&r.bindings_after_eliminate()), vec!["a", "b", "c"]);
}

#[test]
fn filter_goes_down_through_nested_joins() {
    let inner = mem("p", &["a"]).join(mem("q", &["b"]), vec![], vec![], sp0());
    let outer = inner.join(mem("r", &["c"]), vec![], vec![], sp0());
    let r = outer.filter(app(Op::Gt, vec![v("b"), num(1)]));
    match &r {
        RelAlgebra::Join(o) => match &o.left {
            RelAlgebra::Join(i) => {
                assert!(filters_of(&i.left).is_empty());
                assert_eq!(filters_of(&i.right), vec!["gt(b, 1)"]);
            }
            _ => panic!("the left child stays a join"),
        },
        _ => panic!("the filter must not stay above the join"),
    }
}

#[test]
fn filter_without_variables_goes_left() {
    let j = mem("p", &["a"]).join(mem("q", &["b"]), vec![], vec![], sp0());
    let r = j.filter(app(Op::Gt, vec![num(2), num(1)]));
    match &r {
        RelAlgebra::Join(o) => {
            assert_eq!(filters_of(&o.left), vec!["gt(2, 1)"]);
        }
        _ => panic!("the filter must not stay above the join"),
    }
}

#[test]
fn resolution_fills_positions() {
    let scan = mem("r", &["a", "b"]).filter(app(Op::Gt, vec![v("b"), v("a")]));
    let u = scan.unify(s("c"), app(Op::Add, vec![v("b"), num(1)]), false, sp0());
    let mut f = u.filter(app(Op::Eq, vec![v("c"), v("a")]));
    assert!(f.first_unbound().is_none());
    assert!(f.fill_binding_indices_and_compile().is_ok());
    match &f {
        RelAlgebra::Filter(x) => {
            match &x.filters[0] {
                Expr::Apply { args, .. } => {
                    assert!(matches!(&args[0], Expr::Binding { tuple_pos: Some(2), .. }));
                    assert!(matches!(&args[1], Expr::Binding { tuple_pos: Some(0), .. }));
                }
                _ => panic!("the filter is an application"),
            }
            match x.parent.as_ref() {
                RelAlgebra::Unification(un) => {
                    match &un.expr {
                        Expr::Apply { args, .. } => {
                            assert!(matches!(&args[0], Expr::Binding { tuple_pos: Some(1), .. }));
                        }
                        _ => panic!("the expression is an application"),
                    }
                    match un.parent.as_ref() {
                        RelAlgebra::TempStore(t) => match &t.filters[0] {
                            Expr::Apply { args, .. } => {
                                assert!(matches!(&args[0], Expr::Binding { tuple_pos: Some(1), .. }));
                                assert!(matches!(&args[1], Expr::Binding { tuple_pos: Some(0), .. }));
                            }
                            _ => panic!("the filter is an application"),
                        },
                        _ => panic!("under the unification is the scan"),
                    }
                }
                _ => panic!("under the filter is the unification"),
            }
        }
        _ => panic!("a filter was asked for"),
    }
}

#[test]
fn resolution_is_against_what_is_left_after_elimination() {
    let base = mem("r", &["a", "b", "c"]).cartesian_join(RelAlgebra::unit(sp0()), sp0());
    let mut f = base.unify(s("d"), num(0), false, sp0()).filter(app(Op::Gt, vec![v("c"), v("d")]));
    f.eliminate_temp_vars(&used(&["d"]));
    assert!(f.fill_binding_indices_and_compile().is_ok());
    match &f {
        RelAlgebra::Filter(x) => match &x.filters[0] {
            Expr::Apply { args, .. } => {
                assert!(matches!(&args[0], Expr::Binding { tuple_pos: Some(0), .. }));
                assert!(matches!(&args[1], Expr::Binding { tuple_pos: Some(1), .. }));
            }
            _ => panic!("the filter is an application"),
        },
        _ => panic!("a filter was asked for"),
    }
}

#[test]
fn resolution_reports_the_first_missing_variable_and_changes_nothing() {
    let scan = mem("r", &["a"]).filter(app(Op::Gt, vec![v("a"), Expr::Binding { var: Symbol::new("nope", SourceSpan(8, 4)), tuple_pos: None }]));
    let mut f = scan.unify(s("c"), v("other"), false, sp0());
    assert_eq!(f.first_unbound().map(|x| x.name), Some("nope".to_string()));
    match f.fill_binding_indices_and_compile() {
        Err(CompileError::BadBinding { name, span }) => {
            assert_eq!(name, "nope");
            assert_eq!(span, SourceSpan(8, 4));
        }
        other => panic!("a missing binding was expected, not {:?}", other),
    }
    match &f {
        RelAlgebra::Unification(un) => match un.parent.as_ref() {
            RelAlgebra::TempStore(t) => match &t.filters[0] {
                Expr::Apply { args, .. } => {
                    assert!(matches!(&args[0], Expr::Binding { tuple_pos: None, .. }));
                }
                _ => panic!("the filter is an application"),
            },
            _ => panic!("under the unification is the scan"),
        },
        _ => panic!("a unification was asked for"),
    }
}
