use microcad_lang::ast::{Identifier, WorkbenchKind};
use microcad_lang::check::{type_check, Case, TypeAnnotation};
use microcad_lang::diag::{ResolveError, ResolveErrorKind};
use microcad_lang::ir::{
    Constant, Expression, Function, FunctionLocalAssignment, FunctionSignature, FunctionStatement,
    Group, Init, InitStatement, Parameter, Scope, Source, Workbench, WorkbenchExpression,
    WorkbenchSignature, WorkbenchStatement,
};
use microcad_lang::library::{Library, Path, Symbol, SymbolDef, SymbolId, UnresolvedPath, Visibility};
use microcad_lang::manifest::{LibraryId, LibraryInfo, LibrarySection, Manifest, Version};
use microcad_lang::library::{Meta, SourceFile};
use microcad_lang::resolve::cache::LibraryCache;
use microcad_lang::resolve::load::{
    attach_module, attach_source, locate_failed, push_found, IrChild, IrRoot, IrTree, LocateOutcome, PendingModule, SourceIr,
};
use microcad_lang::resolve::{LocalTable, ResolveStack, ResolveStackFrame, ResolveVisitor};
use microcad_lang::span::Span;

fn empty_fn() -> Function {
    Function { signature: FunctionSignature { parameters: vec![] }, statements: vec![] }
}

fn empty_workbench() -> Workbench {
    Workbench { kind: WorkbenchKind::Part, signature: WorkbenchSignature { parameters: vec![], inits: vec![] }, statements: vec![] }
}

fn id(name: &str, start: usize) -> Identifier {
    Identifier { span: Span { start, end: start + name.len() }, name: name.to_string() }
}

#[test]
fn local_table_declare_use_unused() {
    let mut t = LocalTable::new();
    assert!(!t.has_local(&"a".to_string()));
    t.declare_local("a".into());
    t.declare_local("b".into());
    assert!(t.has_local(&"a".to_string()));
    assert!(t.use_local(&id("a", 4)));
    assert!(!t.use_local(&id("c", 8)));
    assert_eq!(t.unused_locals(), vec!["b".to_string()]);
    // declaring again forgets the uses
    t.declare_local("a".into());
    let mut unused = t.unused_locals();
    unused.sort();
    assert_eq!(unused, vec!["a".to_string(), "b".to_string()]);
}

#[test]
fn stack_shadowing_and_symbol_frames() {
    let mut stack = ResolveStack::new();
    stack.push(ResolveStackFrame::Symbol(3));
    stack.push(ResolveStackFrame::Function(LocalTable::new()));
    stack.declare_local("x".into());
    stack.push(ResolveStackFrame::FunctionScope(LocalTable::new()));
    stack.declare_local("x".into());
    assert_eq!(stack.symbol_node_id(), Some(3));
    assert!(stack.use_local(&id("x", 0)));
    // the innermost `x` got the use: the outer one is still unused
    let inner = stack.pop();
    match inner {
        ResolveStackFrame::FunctionScope(t) => assert!(t.unused_locals().is_empty()),
        _ => panic!("function scope expected"),
    }
    assert_eq!(stack.local_table().map(|t| t.unused_locals()), Some(vec!["x".to_string()]));
    assert!(!stack.use_local(&id("y", 0)));
    stack.pop();
    stack.pop();
    assert_eq!(stack.symbol_node_id(), None);
}

fn lib_with(name: &str, version: Version) -> Library {
    let mut lib = Library::new();
    lib.with_manifest(Manifest {
        library: LibrarySection {
            name: name.into(),
            description: None,
            version,
            authors: None,
            documentation: None,
            license: None,
            no_std: None,
        },
        dependencies: None,
    });
    lib
}

#[test]
fn visit_path_resolves_items_externals_and_locals() {
    let v = Version::new(1, 0, 0);
    let mut lib = Library::new();
    let foo = lib.append_symbol(Symbol::named("foo".into(), Visibility::Public, SymbolDef::Function(empty_fn())));
    let dep_id = LibraryId::Named(LibraryInfo { name: "gears".into(), version: v.clone() });
    lib.insert_dependency("gears".into(), dep_id.clone());

    let mut gears = lib_with("gears", v.clone());
    let g = gears.append_symbol(Symbol::named("gears".into(), Visibility::Public, SymbolDef::InlineModule));
    let spur = gears.append_symbol_to(g, Symbol::named("spur".into(), Visibility::Public, SymbolDef::Function(empty_fn())));
    let libs = vec![gears];

    let mut visitor = ResolveVisitor::new(&lib, &libs);
    visitor.stack.push(ResolveStackFrame::Symbol(foo));

    // an item of the library
    let mut path = Path::Unresolved(UnresolvedPath::absolute(vec!["foo".into()]));
    let candidates = visitor.path_candidates(match &path { Path::Unresolved(u) => u, _ => unreachable!() });
    assert_eq!(candidates, Some(vec![SymbolId::Item(foo)]));
    visitor.visit_path(&mut path);
    assert_eq!(path, Path::Resolved(SymbolId::Item(foo)));

    // an item of a dependency
    let mut path = Path::Unresolved(UnresolvedPath::relative(vec!["gears".into(), "spur".into()]));
    let u = match &path { Path::Unresolved(u) => u.clone(), _ => unreachable!() };
    assert_eq!(visitor.path_candidates(&u), Some(vec![SymbolId::External { lib_id: dep_id.clone(), id: spur }]));
    visitor.visit_path(&mut path);
    assert_eq!(path, Path::Resolved(SymbolId::External { lib_id: dep_id, id: spur }));

    // a local
    visitor.stack.push(ResolveStackFrame::Function(LocalTable::new()));
    visitor.declare_local("r".into());
    let mut path = Path::Unresolved(UnresolvedPath::relative(vec!["r".into()]));
    visitor.visit_path(&mut path);
    assert_eq!(path, Path::Resolved(SymbolId::Local("r".into())));

    // a single name that is no local cannot be resolved
    assert_eq!(visitor.path_candidates(&UnresolvedPath::relative(vec!["s".into()])), None);
}

#[test]
fn missing_dependency_cannot_be_resolved() {
    let mut lib = Library::new();
    lib.insert_dependency("std".into(), LibraryId::Root);
    let libs: Vec<Library> = Vec::new();
    let visitor = ResolveVisitor::new(&lib, &libs);
    assert_eq!(visitor.path_candidates(&UnresolvedPath::relative(vec!["std".into(), "x".into()])), None);
}

#[test]
fn case_check() {
    let span = Span { start: 1, end: 4 };
    assert_eq!(SymbolDef::Workbench(empty_workbench()).expected_case(), Some(Case::Pascal));
    assert_eq!(SymbolDef::Constant(Constant { expr: Expression::Value }).expected_case(), Some(Case::UpperSnake));
    assert_eq!(SymbolDef::Function(empty_fn()).expected_case(), Some(Case::LowerSnake));
    assert_eq!(SymbolDef::Root(None).expected_case(), None);
    assert_eq!(SymbolDef::Workbench(empty_workbench()).case_check(Case::Pascal, span), Ok(()));
    assert_eq!(
        SymbolDef::Constant(Constant { expr: Expression::Value }).case_check(Case::LowerSnake, span),
        Err(ResolveError::new(ResolveErrorKind::WrongCase {
            expected: Case::UpperSnake,
            actual: Case::LowerSnake,
            src_ref: span
        }))
    );
    assert_eq!(SymbolDef::Wildcard(Path::Resolved(SymbolId::Item(1))).case_check(Case::Other, span), Ok(()));
}

fn name(n: &str) -> Expression {
    Expression::Name(Path::Unresolved(UnresolvedPath::relative(vec![n.into()])))
}

fn local(n: &str) -> Expression {
    Expression::Name(Path::Resolved(SymbolId::Local(n.into())))
}

#[test]
fn visit_fn_declares_parameters_then_locals_in_order() {
    let lib = Library::new();
    let libs: Vec<Library> = Vec::new();
    let mut visitor = ResolveVisitor::new(&lib, &libs);
    let mut f = Function {
        signature: FunctionSignature {
            parameters: vec![Parameter { id: "x".into(), default_value: Some(Expression::Value) }],
        },
        statements: vec![
            FunctionStatement::LocalAssignment(FunctionLocalAssignment {
                id: "y".into(),
                expression: Expression::Compound(vec![name("x"), Expression::Value]),
            }),
            FunctionStatement::Scope(Scope {
                statements: vec![
                    FunctionStatement::LocalAssignment(FunctionLocalAssignment {
                        id: "z".into(),
                        expression: Expression::Value,
                    }),
                    FunctionStatement::Expression(name("z")),
                ],
            }),
            FunctionStatement::Expression(Expression::Compound(vec![name("y"), name("x")])),
        ],
    };
    visitor.visit_fn(&mut f);
    assert_eq!(
        f.statements[0],
        FunctionStatement::LocalAssignment(FunctionLocalAssignment {
            id: "y".into(),
            expression: Expression::Compound(vec![local("x"), Expression::Value]),
        })
    );
    assert_eq!(
        f.statements[1],
        FunctionStatement::Scope(Scope {
            statements: vec![
                FunctionStatement::LocalAssignment(FunctionLocalAssignment {
                    id: "z".into(),
                    expression: Expression::Value,
                }),
                FunctionStatement::Expression(local("z")),
            ],
        })
    );
    assert_eq!(f.statements[2], FunctionStatement::Expression(Expression::Compound(vec![local("y"), local("x")])));
    assert_eq!(f.signature.parameters[0].default_value, Some(Expression::Value));
    // the function's scope was left again
    assert_eq!(visitor.stack.symbol_node_id(), None);
}

#[test]
fn visit_workbench_declares_parameters_inits_and_named_values() {
    let lib = Library::new();
    let libs: Vec<Library> = Vec::new();
    let mut visitor = ResolveVisitor::new(&lib, &libs);
    visitor.stack.push(ResolveStackFrame::Workbench(LocalTable::new()));
    let mut w = Workbench {
        kind: WorkbenchKind::Sketch,
        signature: WorkbenchSignature {
            parameters: vec![Parameter { id: "r".into(), default_value: None }],
            inits: vec![Init {
                parameters: vec![Parameter { id: "d".into(), default_value: None }],
                statements: vec![InitStatement {
                    name: "r".into(),
                    expression: WorkbenchExpression::Value(Expression::Compound(vec![name("d"), name("r")])),
                }],
            }],
        },
        statements: vec![
            WorkbenchStatement { name: Some("a".into()), expression: WorkbenchExpression::Value(name("r")) },
            WorkbenchStatement {
                name: None,
                expression: WorkbenchExpression::Group(Group {
                    statements: vec![
                        WorkbenchStatement { name: Some("b".into()), expression: WorkbenchExpression::Value(Expression::Value) },
                        WorkbenchStatement { name: None, expression: WorkbenchExpression::Value(name("b")) },
                    ],
                }),
            },
            WorkbenchStatement { name: None, expression: WorkbenchExpression::Value(name("a")) },
        ],
    };
    visitor.visit_workbench(&mut w);
    assert_eq!(
        w.signature.inits[0].statements[0].expression,
        WorkbenchExpression::Value(Expression::Compound(vec![local("d"), local("r")]))
    );
    assert_eq!(w.statements[0].expression, WorkbenchExpression::Value(local("r")));
    assert_eq!(
        w.statements[1].expression,
        WorkbenchExpression::Group(Group {
            statements: vec![
                WorkbenchStatement { name: Some("b".into()), expression: WorkbenchExpression::Value(Expression::Value) },
                WorkbenchStatement { name: None, expression: WorkbenchExpression::Value(local("b")) },
            ],
        })
    );
    assert_eq!(w.statements[2].expression, WorkbenchExpression::Value(local("a")));
    // the named values and parameters are locals of the workbench's scope, the group's are not
    let table = visitor.stack.local_table().unwrap();
    assert!(table.has_local(&"r".to_string()));
    assert!(table.has_local(&"d".to_string()));
    assert!(table.has_local(&"a".to_string()));
    assert!(!table.has_local(&"b".to_string()));
}

#[test]
fn visit_source_and_symbol_definitions() {
    let mut lib = Library::new();
    let foo = lib.append_symbol(Symbol::named("foo".into(), Visibility::Public, SymbolDef::Function(empty_fn())));
    let libs: Vec<Library> = Vec::new();
    let mut visitor = ResolveVisitor::new(&lib, &libs);

    let mut source = Source {
        statements: vec![
            WorkbenchStatement { name: Some("a".into()), expression: WorkbenchExpression::Value(Expression::Value) },
            WorkbenchStatement { name: None, expression: WorkbenchExpression::Value(name("a")) },
        ],
    };
    visitor.visit_source(&mut source);
    assert_eq!(source.statements[1].expression, WorkbenchExpression::Value(local("a")));

    // an alias and a constant name absolute paths, seen from the symbol being resolved
    let mut alias = Symbol::named(
        "bar".into(),
        Visibility::Public,
        SymbolDef::Alias(Path::Unresolved(UnresolvedPath::absolute(vec!["foo".into()]))),
    );
    visitor.visit_symbol(0, &mut alias);
    assert_eq!(alias.def, SymbolDef::Alias(Path::Resolved(SymbolId::Item(foo))));
    let mut constant = Symbol::named(
        "C".into(),
        Visibility::Public,
        SymbolDef::Constant(Constant {
            expr: Expression::Compound(vec![Expression::Name(Path::Unresolved(UnresolvedPath::absolute(vec!["foo".into()])))]),
        }),
    );
    visitor.visit_symbol(0, &mut constant);
    assert_eq!(
        constant.def,
        SymbolDef::Constant(Constant { expr: Expression::Compound(vec![Expression::Name(Path::Resolved(SymbolId::Item(foo)))]) })
    );
    assert_eq!(visitor.stack.symbol_node_id(), None);
}

#[test]
fn resolving_a_resolved_function_again_changes_nothing() {
    let lib = Library::new();
    let libs: Vec<Library> = Vec::new();
    let mut visitor = ResolveVisitor::new(&lib, &libs);
    let mut f = Function {
        signature: FunctionSignature { parameters: vec![Parameter { id: "x".into(), default_value: None }] },
        statements: vec![FunctionStatement::Expression(Expression::Compound(vec![name("x"), Expression::Value]))],
    };
    visitor.visit_fn(&mut f);
    let once = Function {
        signature: FunctionSignature { parameters: vec![Parameter { id: "x".into(), default_value: None }] },
        statements: vec![FunctionStatement::Expression(Expression::Compound(vec![local("x"), Expression::Value]))],
    };
    assert_eq!(f, once);
    visitor.visit_fn(&mut f);
    assert_eq!(f, once);
}

#[test]
fn block_locals_are_not_seen_after_the_block() {
    let lib = Library::new();
    let libs: Vec<Library> = Vec::new();
    let mut visitor = ResolveVisitor::new(&lib, &libs);
    visitor.stack.push(ResolveStackFrame::Function(LocalTable::new()));
    let mut block = FunctionStatement::Scope(Scope {
        statements: vec![FunctionStatement::LocalAssignment(FunctionLocalAssignment {
            id: "inner".into(),
            expression: Expression::Value,
        })],
    });
    visitor.visit_fn_statement(&mut block);
    assert!(!visitor.stack.local_table().unwrap().has_local(&"inner".to_string()));
    let mut group = WorkbenchStatement {
        name: None,
        expression: WorkbenchExpression::Group(Group {
            statements: vec![WorkbenchStatement { name: Some("g".into()), expression: WorkbenchExpression::Value(Expression::Value) }],
        }),
    };
    visitor.visit_workbench_statement(&mut group);
    assert!(!visitor.stack.local_table().unwrap().has_local(&"g".to_string()));
}

#[test]
fn library_cache_keeps_one_library_per_id() {
    let v = Version::new(1, 0, 0);
    let gears_id = LibraryId::Named(LibraryInfo { name: "gears".into(), version: v.clone() });
    let mut cache = LibraryCache::new();
    assert_eq!(cache.insert(lib_with("gears", v.clone())).unwrap(), gears_id.clone());
    assert_eq!(cache.insert(Library::new()).unwrap(), LibraryId::Root);
    assert_eq!(cache.libraries().len(), 2);
    // a library with an id already loaded replaces the one loaded before
    let mut again = lib_with("gears", v.clone());
    let spur = again.append_symbol(Symbol::named("spur".into(), Visibility::Public, SymbolDef::Function(empty_fn())));
    assert_eq!(cache.insert(again).unwrap(), gears_id.clone());
    assert_eq!(cache.libraries().len(), 2);
    let found = cache.get(&gears_id).unwrap();
    assert_eq!(found.abs_path(spur).parts, vec!["spur".to_string()]);
    let other = LibraryId::Named(LibraryInfo { name: "gears".into(), version: Version::new(2, 0, 0) });
    assert!(cache.get(&other).is_none());
    let mut alpha = Version::new(1, 0, 0);
    alpha.pre = "alpha".into();
    let pre_release = LibraryId::Named(LibraryInfo { name: "gears".into(), version: alpha });
    assert!(cache.get(&pre_release).is_none());
}

#[test]
fn type_check_compares_known_types() {
    let length = |start: usize| TypeAnnotation { ty: "Length".into(), src_ref: Span { start, end: start + 6 } };
    let scalar = TypeAnnotation { ty: "Scalar".into(), src_ref: Span { start: 20, end: 26 } };
    assert_eq!(type_check(&Some(length(0)), &Some(length(10))), Ok(()));
    assert_eq!(type_check(&None, &Some(scalar.clone())), Ok(()));
    assert_eq!(type_check(&Some(length(0)), &None), Ok(()));
    assert_eq!(
        type_check(&Some(length(0)), &Some(scalar)),
        Err(ResolveError::new(ResolveErrorKind::TypeMismatch {
            specified: "Length".into(),
            specified_src_ref: Span { start: 0, end: 6 },
            actual: "Scalar".into(),
            actual_src_ref: Span { start: 20, end: 26 },
        }))
    );
}

#[test]
fn loading_a_source_file_and_its_file_module() {
    let mut lib = Library::new();
    // a source file that does not lower leaves the library as it was
    let err = attach_source(&mut lib, None, "bad.µcad".into(), None).unwrap_err();
    assert_eq!(err.kind(), &ResolveErrorKind::CompileError { path: "bad.µcad".into() });
    assert_eq!(lib.arena.len(), 1);
    let item = IrTree {
        nodes: vec![
            (Symbol::named("g".into(), Visibility::Public, SymbolDef::InlineModule), None),
            (Symbol::named("f".into(), Visibility::Public, SymbolDef::Function(empty_fn())), Some(0)),
        ],
    };
    let ir = SourceIr {
        root: IrRoot::Source {
            meta: Meta { name: None, vis: Visibility::Public },
            doc: String::new(),
            source: microcad_lang::ir::Source { statements: vec![] },
        },
        children: vec![IrChild::FileModule("m".into()), IrChild::Item(item)],
    };
    let (id, modules) = attach_source(&mut lib, None, "main.µcad".into(), Some(ir)).unwrap();
    assert_eq!(id, 0);
    assert!(matches!(&lib.arena[0].value.def, SymbolDef::SourceFile(SourceFile::Loaded { path, .. }) if path == "main.µcad"));
    assert_eq!(lib.arena[0].children, vec![1, 2]);
    assert_eq!(modules, vec![(1, "m".to_string())]);
    assert_eq!(lib.arena[1].value.def, SymbolDef::Root(None));
    assert_eq!(lib.arena[2].value.meta.name, Some("g".to_string()));
    assert_eq!(lib.arena[2].children, vec![3]);
    assert_eq!(lib.arena[3].parent, Some(2));
    // the file module does not lower: its placeholder stays, with an error
    let (more, diag) = attach_module(&mut lib, 1, "m.µcad".into(), Ok(None));
    assert!(more.is_empty());
    assert_eq!(diag.unwrap().kind(), &ResolveErrorKind::CompileError { path: "m.µcad".into() });
    assert_eq!(lib.arena[1].value.def, SymbolDef::Root(None));
    // it lowers: the placeholder becomes the loaded file
    let module = SourceIr {
        root: IrRoot::Source {
            meta: Meta { name: Some("m".into()), vis: Visibility::Private },
            doc: String::new(),
            source: microcad_lang::ir::Source { statements: vec![] },
        },
        children: vec![],
    };
    let (more, diag) = attach_module(&mut lib, 1, "m.µcad".into(), Ok(Some(module)));
    assert!(more.is_empty() && diag.is_none());
    assert!(matches!(&lib.arena[1].value.def, SymbolDef::SourceFile(SourceFile::Loaded { .. })));
    assert_eq!(lib.arena[1].value.meta.name, Some("m".to_string()));
}

#[test]
fn workbench_from_definition_adds_the_default_init() {
    let wb = Workbench {
        kind: WorkbenchKind::Op,
        signature: WorkbenchSignature {
            parameters: vec![],
            inits: vec![
                Init { parameters: vec![Parameter { id: "d".into(), default_value: None }], statements: vec![] },
                Init { parameters: vec![], statements: vec![] },
            ],
        },
        statements: vec![],
    };
    let m = microcad_lang::mir::workbench_from_ir(wb);
    assert_eq!(m.kind, WorkbenchKind::Op);
    assert_eq!(m.inits.len(), 3);
    assert_eq!(m.inits[0].parameters, vec![Parameter { id: "d".into(), default_value: None }]);
    assert!(m.inits[1].parameters.is_empty());
    assert!(m.inits[2].parameters.is_empty() && m.inits[2].statements.is_empty());
    assert!(m.statements.is_empty());
}

#[test]
fn a_module_that_cannot_be_located_stops_its_file() {
    let mut pending: Vec<PendingModule> = Vec::new();
    push_found(&mut pending, vec![(1, "a".to_string()), (2, "b".to_string())], &"main.µcad".to_string(), true);
    push_found(&mut pending, vec![(3, "c".to_string())], &"a.µcad".to_string(), false);
    assert_eq!(pending.iter().map(|m| m.placeholder).collect::<Vec<_>>(), vec![3, 1, 2]);
    let failed = pending.remove(0);
    let err = microcad_lang::diag::ResolveError::new(ResolveErrorKind::CompileError { path: "c".into() });
    assert!(matches!(locate_failed(&mut pending, &failed, err), LocateOutcome::Report(_)));
    assert_eq!(pending.len(), 2);
    let failed = pending.remove(0);
    let err = microcad_lang::diag::ResolveError::new(ResolveErrorKind::CompileError { path: "a".into() });
    assert!(matches!(locate_failed(&mut pending, &failed, err), LocateOutcome::Fail(_)));
    assert!(pending.is_empty());
}
