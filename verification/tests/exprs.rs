use wolfram_expr::{Expr, ExprKind, Normal, Number, Symbol};

fn whole(v: i64) -> Expr {
    Expr::number(Number::Integer(v))
}

#[test]
fn list_displays_with_full_names() {
    let expr = Expr::normal(
        Expr::symbol(Symbol::new("System`List")),
        vec![whole(1), whole(2), whole(3)],
    );
    assert_eq!(expr.display_string(), "System`List[1, 2, 3]");
}

#[test]
fn display_of_leaves() {
    assert_eq!(whole(0).display_string(), "0");
    assert_eq!(whole(-42).display_string(), "-42");
    assert_eq!(whole(i64::MAX).display_string(), "9223372036854775807");
    assert_eq!(whole(i64::MIN).display_string(), "-9223372036854775808");
    assert_eq!(Expr::symbol(Symbol::new("Global`x")).display_string(), "Global`x");
    assert_eq!(Expr::string("hello").display_string(), "\"hello\"");
    assert_eq!(
        Expr::string("he\"ll\\o").display_string(),
        "\"he\\\"ll\\\\o\""
    );
}

#[test]
fn display_of_reals_is_bit_exact() {
    let bits = (1.5f64).to_bits();
    let expr = Expr::real_from_bits(bits);
    assert_eq!(expr.display_string(), format!("{}.", bits));
}

#[test]
fn nested_heads_display_left_to_right() {
    let g = Expr::symbol(Symbol::new("Global`g"));
    let x = Expr::symbol(Symbol::new("Global`x"));
    let y = Expr::symbol(Symbol::new("Global`y"));
    let gx = Expr::normal(g, vec![x]);
    let gxy = Expr::normal(gx, vec![y]);
    assert_eq!(gxy.display_string(), "Global`g[Global`x][Global`y]");
}

#[test]
fn empty_normal_displays_and_parses() {
    let expr = Expr::normal(Expr::symbol(Symbol::new("MyPackage`Foo")), vec![]);
    assert_eq!(expr.display_string(), "MyPackage`Foo[]");
    assert_eq!(Expr::parse("MyPackage`Foo[]").unwrap(), expr);
}

#[test]
fn parse_display_round_trips() {
    let cases = vec![
        whole(7),
        whole(-1),
        whole(i64::MIN),
        Expr::real_from_bits((3.25f64).to_bits()),
        Expr::string(""),
        Expr::string("a\\b\"c"),
        Expr::symbol(Symbol::new("System`Plus")),
        Expr::normal(
            Expr::symbol(Symbol::new("System`List")),
            vec![whole(1), whole(2), whole(3)],
        ),
        Expr::normal(
            Expr::normal(Expr::symbol(Symbol::new("Global`g")), vec![whole(1)]),
            vec![Expr::string("x]y"), Expr::null()],
        ),
    ];
    for expr in cases {
        let shown = expr.display_string();
        let parsed = Expr::parse(&shown).unwrap_or_else(|| panic!("no parse: {}", shown));
        assert_eq!(parsed, expr, "{}", shown);
    }
}

#[test]
fn parse_rejects_what_display_never_writes() {
    assert!(Expr::parse("").is_none());
    assert!(Expr::parse("007").is_none());
    assert!(Expr::parse("1 ").is_none());
    assert!(Expr::parse("f[1").is_none());
    assert!(Expr::parse("List").is_none());
    assert!(Expr::parse("System`List[1,2]").is_none());
    assert!(Expr::parse("\"open").is_none());
    assert!(Expr::parse("-1.").is_none());
}

#[test]
fn real_of_nan_bits_is_refused() {
    let nan_bits = f64::NAN.to_bits();
    assert!(Number::try_real(nan_bits).is_none());
    let fine = Number::try_real((1.5f64).to_bits());
    assert_eq!(fine, Some(Number::Real((1.5f64).to_bits())));
}

#[test]
fn real_round_trips_to_equal_value() {
    let expr = Expr::real_from_bits((1.5f64).to_bits());
    let parsed = Expr::parse(&expr.display_string()).unwrap();
    assert_eq!(parsed, expr);
}

#[test]
fn copy_on_write_leaves_other_holders_alone() {
    let mut a = Expr::normal(
        Expr::symbol(Symbol::new("System`List")),
        vec![whole(1), whole(2)],
    );
    let b = a.clone();
    assert_eq!(a.ref_count(), 2);
    *a.kind_mut() = ExprKind::Integer(5);
    assert_eq!(a, whole(5));
    assert_eq!(b.display_string(), "System`List[1, 2]");
    assert_eq!(a.ref_count(), 1);
    assert_eq!(b.ref_count(), 1);
}

#[test]
fn sole_holder_mutates_in_place() {
    let mut a = whole(1);
    assert_eq!(a.ref_count(), 1);
    *a.kind_mut() = ExprKind::Integer(2);
    assert_eq!(a.ref_count(), 1);
    assert_eq!(a, whole(2));
}

#[test]
fn to_kind_returns_the_tree() {
    let expr = Expr::normal(Expr::symbol(Symbol::new("Global`f")), vec![whole(9)]);
    let kept = expr.clone();
    match expr.to_kind() {
        ExprKind::Normal(normal) => {
            assert_eq!(normal.head(), &Expr::symbol(Symbol::new("Global`f")));
            assert_eq!(normal.elements(), &[whole(9)]);
        },
        other => panic!("unexpected kind: {:?}", other),
    }
    assert_eq!(kept.ref_count(), 1);
}

#[test]
fn tag_walks_down_heads() {
    assert_eq!(whole(5).tag(), None);
    assert_eq!(Expr::string("hello").tag(), None);
    let foo = Symbol::new("Global`foo");
    assert_eq!(Expr::symbol(foo.clone()).tag(), Some(foo.clone()));
    let f = Symbol::new("Global`f");
    let call = Expr::normal(Expr::symbol(f.clone()), vec![whole(1)]);
    assert_eq!(call.tag(), Some(f.clone()));
    let nested = Expr::normal(call, vec![whole(2)]);
    assert_eq!(nested.tag(), Some(f));
}

#[test]
fn shape_accessors() {
    let f = Symbol::new("Global`f");
    let call = Expr::normal(Expr::symbol(f.clone()), vec![whole(10), whole(20)]);
    assert_eq!(call.normal_head(), Some(Expr::symbol(f.clone())));
    assert_eq!(call.normal_part(0), Some(&whole(10)));
    assert_eq!(call.normal_part(1), Some(&whole(20)));
    assert_eq!(call.normal_part(2), None);
    assert!(call.try_normal().is_some());
    assert!(call.try_symbol().is_none());
    assert_eq!(call.try_number(), None);
    assert!(call.has_normal_head(&f));
    assert!(!call.has_normal_head(&Symbol::new("Global`g")));

    let leaf = whole(3);
    assert_eq!(leaf.normal_head(), None);
    assert_eq!(leaf.normal_part(0), None);
    assert!(leaf.try_normal().is_none());
    assert_eq!(leaf.try_number(), Some(Number::Integer(3)));
    let sym_expr = Expr::symbol(f.clone());
    assert_eq!(sym_expr.try_symbol(), Some(&f));
    assert_eq!(sym_expr.try_number(), None);
    assert!(sym_expr == f);
    assert!(!(leaf == f));
}

#[test]
fn normal_node_accessors() {
    let head = Expr::symbol(Symbol::new("Global`h"));
    let normal = Normal::new(head.clone(), vec![whole(1), whole(2)]);
    assert_eq!(normal.head(), &head);
    assert_eq!(normal.elements().len(), 2);
    assert!(normal.has_head(&Symbol::new("Global`h")));
    assert_eq!(normal.clone().into_elements(), vec![whole(1), whole(2)]);
    let expr: Expr = Expr::new(ExprKind::Normal(normal));
    assert_eq!(expr.display_string(), "Global`h[1, 2]");
}

#[test]
fn null_is_the_system_null_symbol() {
    let null = Expr::null();
    assert_eq!(null.display_string(), "System`Null");
    assert_eq!(null.try_symbol().map(|s| s.as_str().to_string()),
        Some("System`Null".to_string()));
}

#[test]
fn structural_equality_ignores_sharing() {
    let a = Expr::normal(Expr::symbol(Symbol::new("Global`f")), vec![whole(1)]);
    let b = Expr::normal(Expr::symbol(Symbol::new("Global`f")), vec![whole(1)]);
    assert_eq!(a, b);
    let c = a.clone();
    assert_eq!(a, c);
    assert_ne!(a, whole(1));
}

#[test]
fn conversions_build_the_expected_leaves() {
    let sym = Symbol::new("Global`x");
    assert_eq!(Expr::from(sym.clone()), Expr::symbol(sym.clone()));
    assert_eq!(Expr::from(&sym), Expr::symbol(sym.clone()));
    assert_eq!(Expr::from(7i64), whole(7));
    assert_eq!(Expr::from(-3i32), whole(-3));
    assert_eq!(Expr::from(200u8), whole(200));
    assert_eq!(Expr::from(1000u16), whole(1000));
    assert_eq!(Expr::from(70000u32), whole(70000));
    assert_eq!(Expr::from(-7i8), whole(-7));
    assert_eq!(Expr::from(-300i16), whole(-300));
    assert_eq!(Expr::from("hi"), Expr::string("hi"));
    assert_eq!(Symbol::from(&sym), sym);
    let normal = Normal::new(Expr::symbol(sym.clone()), vec![whole(1)]);
    assert_eq!(Expr::from(normal.clone()), Expr::new(ExprKind::Normal(normal)));
    assert_eq!(ExprKind::from(Number::Integer(4)), ExprKind::Integer(4));
    let bits = (2.5f64).to_bits();
    assert_eq!(ExprKind::from(Number::Real(bits)), ExprKind::Real(bits));
}

#[test]
fn handles_are_pointer_sized() {
    assert_eq!(std::mem::size_of::<Expr>(), std::mem::size_of::<usize>());
    assert_eq!(std::mem::align_of::<Expr>(), std::mem::align_of::<usize>());
    assert_eq!(std::mem::size_of::<Symbol>(), std::mem::size_of::<usize>());
    assert_eq!(std::mem::align_of::<Symbol>(), std::mem::align_of::<usize>());
}

#[test]
fn parse_accepts_any_valid_symbol_text() {
    for text in ["System`Plus", "a`b`c`d", "$Ctx`$x9"] {
        let parsed = Expr::parse(text).unwrap();
        assert_eq!(parsed, Expr::symbol(Symbol::new(text)));
    }
}
