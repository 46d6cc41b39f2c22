use wolfram_expr::symbol::{Context, ContextRef, RelativeContext, SymbolName, SymbolNameRef,
    SymbolRef};
use wolfram_expr::Symbol;

#[test]
fn symbol_accepts_qualified_names() {
    assert!(Symbol::try_new("System`List").is_some());
    assert!(SymbolRef::try_new("System`List").is_some());
    assert!(Symbol::try_new("MyPackage`Sub`name").is_some());
    assert!(Symbol::try_new("a`b").is_some());
    assert!(Symbol::try_new("$Ctx`$x9").is_some());
}

#[test]
fn symbol_rejects_bad_text() {
    assert!(Symbol::try_new("List").is_none());
    assert!(Symbol::try_new("123").is_none());
    assert!(Symbol::try_new("").is_none());
    assert!(Symbol::try_new("`List").is_none());
    assert!(Symbol::try_new("System`").is_none());
    assert!(Symbol::try_new("System``List").is_none());
    assert!(Symbol::try_new("System`9List").is_none());
    assert!(Symbol::try_new("Sys tem`List").is_none());
    assert!(Symbol::try_new("Sysüem`List").is_none());
}

#[test]
fn symbol_context_and_name_recombine() {
    let sym = Symbol::new("MyPackage`Sub`name");
    let context = sym.context();
    let name = sym.symbol_name();
    assert_eq!(context.as_str(), "MyPackage`Sub`");
    assert_eq!(name.as_str(), "name");
    let rebuilt = format!("{}{}", context.as_str(), name.as_str());
    assert_eq!(rebuilt, "MyPackage`Sub`name");
    assert_eq!(rebuilt, sym.as_str());
}

#[test]
fn symbol_ref_splits_at_last_delimiter() {
    let sym_ref = SymbolRef::try_new("a`b`c`d").unwrap();
    assert_eq!(sym_ref.context().as_str(), "a`b`c`");
    assert_eq!(sym_ref.symbol_name().as_str(), "d");
    assert_eq!(sym_ref.as_str(), "a`b`c`d");
    assert_eq!(sym_ref.to_symbol().as_str(), "a`b`c`d");
}

#[test]
fn name_is_never_a_symbol() {
    for text in ["Plus", "x", "$", "a1b2", "$MaxValue9"] {
        assert!(SymbolName::try_new(text).is_some(), "{}", text);
        assert!(Symbol::try_new(text).is_none(), "{}", text);
    }
}

#[test]
fn symbol_name_rejects_bad_text() {
    assert!(SymbolName::try_new("").is_none());
    assert!(SymbolName::try_new("9x").is_none());
    assert!(SymbolName::try_new("a`b").is_none());
    assert!(SymbolName::try_new("a b").is_none());
    assert!(SymbolNameRef::try_new("a-b").is_none());
}

#[test]
fn context_accepts_and_decomposes() {
    let context = Context::try_new("MyPackage`Sub`").unwrap();
    let components = context.components();
    assert_eq!(components.len(), 2);
    assert_eq!(components[0].as_str(), "MyPackage");
    assert_eq!(components[1].as_str(), "Sub");
}

#[test]
fn context_requires_trailing_delimiter() {
    assert!(Context::try_new("MyPackage`Sub").is_none());
    assert!(Context::try_new("").is_none());
    assert!(Context::try_new("`").is_none());
    assert!(Context::try_new("`MyPackage`").is_none());
    assert!(Context::try_new("My``Package`").is_none());
}

#[test]
fn context_three_components() {
    let context = Context::new("MyPackage`Sub`Module`");
    let components = context.components();
    assert_eq!(components.len(), 3);
    assert_eq!(components[0].as_str(), "MyPackage");
    assert_eq!(components[1].as_str(), "Sub");
    assert_eq!(components[2].as_str(), "Module");
}

#[test]
fn join_appends_one_component() {
    let context = Context::from_symbol_name(&SymbolName::try_new("MyContext").unwrap());
    assert_eq!(context.as_str(), "MyContext`");
    let before = context.components().len();
    let private = context.join(SymbolNameRef::try_new("Private").unwrap());
    assert_eq!(private.as_str(), "MyContext`Private`");
    let after = private.components();
    assert_eq!(after.len(), before + 1);
    assert_eq!(after[after.len() - 1].as_str(), "Private");
}

#[test]
fn well_known_contexts() {
    assert_eq!(Context::global().as_str(), "Global`");
    assert_eq!(Context::system().as_str(), "System`");
    assert_eq!(Context::system().as_context_ref().as_str(), "System`");
}

#[test]
fn relative_context_accepts_and_decomposes() {
    let relative = RelativeContext::try_new("`Sub`Module`").unwrap();
    let components = relative.components();
    assert_eq!(components.len(), 2);
    assert_eq!(components[0].as_str(), "Sub");
    assert_eq!(components[1].as_str(), "Module");
    assert_eq!(relative.as_str(), "`Sub`Module`");
}

#[test]
fn relative_context_requires_leading_delimiter() {
    assert!(RelativeContext::try_new("Sub`Module`").is_none());
    assert!(RelativeContext::try_new("`").is_none());
    assert!(RelativeContext::try_new("``Sub`").is_none());
    assert!(RelativeContext::try_new("").is_none());
}

#[test]
fn context_ref_round_trip() {
    let context_ref = ContextRef::try_new("A`B`").unwrap();
    assert_eq!(context_ref.as_str(), "A`B`");
    assert_eq!(context_ref.to_context().as_str(), "A`B`");
}

#[test]
fn owned_values_compare_by_text() {
    let a = Symbol::new("Global`x");
    let b = Symbol::try_new("Global`x").unwrap();
    assert_eq!(a, b);
    assert_eq!(a.clone(), b);
    assert_ne!(a, Symbol::new("Global`y"));
    assert_eq!(Context::new("A`"), Context::try_new("A`").unwrap());
    let name = SymbolName::try_new("foo").unwrap();
    assert_eq!(name.clone(), name);
    assert_eq!(name.as_symbol_name_ref().as_str(), "foo");
}

#[test]
fn owned_values_order_by_text() {
    let a = Symbol::new("Global`a");
    let b = Symbol::new("Global`b");
    assert!(a < b);
    assert!(Context::new("A`") < Context::new("B`"));
    assert!(SymbolName::try_new("x").unwrap() < SymbolName::try_new("y").unwrap());
    assert!(SymbolRef::try_new("A`a").unwrap() < SymbolRef::try_new("A`b").unwrap());
}
