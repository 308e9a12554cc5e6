use microcad_lang::ir::{Constant, Expression, Function, FunctionSignature};
use microcad_lang::library::{Library, Symbol, SymbolDef, UnresolvedPath, Visibility};
use microcad_lang::manifest::{LibraryId, LibraryInfo, LibrarySection, Manifest, Version};

fn empty_fn() -> Function {
    Function { signature: FunctionSignature { parameters: vec![] }, statements: vec![] }
}

fn names(parts: &[&str]) -> Vec<String> {
    parts.iter().map(|s| s.to_string()).collect()
}

/// root
/// ├── pub mod foo
/// │   ├── fn bar (private)
/// │   └── pub qux
/// ├── const BAZ (private)
/// └── use foo::*
fn sample() -> (Library, usize, usize, usize, usize, usize) {
    let mut lib = Library::new();
    let foo = lib.append_symbol(Symbol::named("foo".into(), Visibility::Public, SymbolDef::InlineModule));
    let bar = lib.append_symbol_to(foo, Symbol::named("bar".into(), Visibility::Private, SymbolDef::Function(empty_fn())));
    let baz = lib.append_symbol(Symbol::named("BAZ".into(), Visibility::Private, SymbolDef::Constant(Constant { expr: Expression::Value })));
    let wildcard = lib.append_symbol(Symbol::wildcard(UnresolvedPath::relative(names(&["foo"])), Visibility::Private));
    let qux = lib.append_symbol_to(foo, Symbol::named("qux".into(), Visibility::Public, SymbolDef::Constant(Constant { expr: Expression::Value })));
    (lib, foo, bar, baz, wildcard, qux)
}

#[test]
fn look_up_relative_and_private() {
    let (lib, foo, bar, baz, _, _) = sample();
    assert_eq!(lib.look_up(lib.root, &UnresolvedPath::relative(names(&["foo"]))), Some(foo));
    // `bar` is private to `foo`: not visible from the root.
    assert_eq!(lib.look_up(lib.root, &UnresolvedPath::relative(names(&["foo", "bar"]))), None);
    // but visible from inside `foo`.
    assert_eq!(lib.look_up(foo, &UnresolvedPath::relative(names(&["bar"]))), Some(bar));
    // names of enclosing scopes are found from inside.
    assert_eq!(lib.look_up(bar, &UnresolvedPath::relative(names(&["BAZ"]))), Some(baz));
    assert_eq!(lib.look_up(lib.root, &UnresolvedPath::relative(names(&["nothing"]))), None);
    assert_eq!(lib.look_up(lib.root, &UnresolvedPath::relative(Vec::new())), None);
}

#[test]
fn look_up_through_wildcard_and_absolute() {
    let (lib, _, bar, _, _, qux) = sample();
    assert_eq!(lib.look_up(lib.root, &UnresolvedPath::relative(names(&["qux"]))), Some(qux));
    assert_eq!(lib.look_up(bar, &UnresolvedPath::absolute(names(&["foo", "qux"]))), Some(qux));
}

#[test]
fn visibility_and_paths() {
    let (lib, foo, bar, baz, _, qux) = sample();
    assert!(lib.is_visible(qux, lib.root));
    assert!(!lib.is_visible(bar, lib.root));
    assert!(lib.is_visible(bar, foo));
    assert!(lib.is_visible(baz, bar));
    assert!(lib.is_descendant_or_same(bar, foo));
    assert!(lib.is_descendant_or_same(foo, foo));
    assert!(!lib.is_descendant_or_same(foo, bar));
    let path = lib.abs_path(bar);
    assert_eq!(path.parts, names(&["foo", "bar"]));
    assert_eq!(path.iter().cloned().collect::<Vec<String>>(), names(&["foo", "bar"]));
    assert_eq!(lib.find_child(foo, &"qux".to_string()), Some(qux));
    assert_eq!(lib.find_child(foo, &"nothing".to_string()), None);
    assert!(lib.is_public(foo));
    assert!(!lib.is_public(bar));
}

#[test]
fn wildcard_cycle_terminates() {
    // root: use a::*; mod a { use b::*; } mod b { use a::*; }
    let mut lib = Library::new();
    let a = lib.append_symbol(Symbol::named("a".into(), Visibility::Public, SymbolDef::InlineModule));
    let b = lib.append_symbol(Symbol::named("b".into(), Visibility::Public, SymbolDef::InlineModule));
    lib.append_symbol_to(a, Symbol::wildcard(UnresolvedPath::relative(names(&["b"])), Visibility::Private));
    lib.append_symbol_to(b, Symbol::wildcard(UnresolvedPath::relative(names(&["a"])), Visibility::Private));
    assert_eq!(lib.look_up(a, &UnresolvedPath::relative(names(&["missing"]))), None);
}

fn manifest(name: &str, no_std: Option<bool>) -> Manifest {
    Manifest {
        library: LibrarySection {
            name: name.to_string(),
            description: None,
            version: Version::new(1, 2, 3),
            authors: None,
            documentation: None,
            license: None,
            no_std,
        },
        dependencies: None,
    }
}

#[test]
fn library_id_and_dependencies() {
    let mut lib = Library::new();
    assert_eq!(lib.id(), LibraryId::Root);
    assert!(!lib.no_std());
    lib.with_manifest(manifest("gears", Some(true)));
    assert!(lib.no_std());
    assert_eq!(lib.name().map(|s| s.as_str()), Some("gears"));
    assert_eq!(lib.version(), Some(&Version::new(1, 2, 3)));
    assert_eq!(
        lib.id(),
        LibraryId::Named(LibraryInfo { name: "gears".into(), version: Version::new(1, 2, 3) })
    );
    let std_info = LibraryInfo { name: "std".into(), version: Version::new(0, 1, 0) };
    lib.add_std(std_info.clone());
    lib.insert_dependency("std".into(), LibraryId::Root);
    assert_eq!(lib.dependencies.len(), 1);
    assert_eq!(lib.dependencies[0].1, LibraryId::Root);
}

#[test]
fn manifest_one_line() {
    assert_eq!(manifest("gears", None).to_string_one_line(), "gears 1.2.3");
    assert_eq!(Version::new(10, 0, 42).to_text(), "10.0.42");
    let mut v = Version::new(1, 0, 0);
    v.pre = "alpha.1".into();
    assert_eq!(v.to_text(), "1.0.0-alpha.1");
    v.build = "build.5".into();
    assert_eq!(v.to_text(), "1.0.0-alpha.1+build.5");
    v.pre = String::new();
    assert_eq!(v.to_text(), "1.0.0+build.5");
    assert_eq!(microcad_lang::manifest::decimal(0), "0");
    assert_eq!(microcad_lang::manifest::decimal(18446744073709551615), "18446744073709551615");
}

#[test]
fn definition_kind_names() {
    assert_eq!(SymbolDef::Root(None).kind_name(), "Root");
    assert_eq!(SymbolDef::Function(empty_fn()).kind_name(), "Function");
    assert_eq!(SymbolDef::Constant(Constant { expr: Expression::Value }).kind_name(), "Constant");
    assert_eq!(SymbolDef::Wildcard(microcad_lang::library::Path::Unresolved(UnresolvedPath::relative(vec![]))).kind_name(), "Wildcard");
}
