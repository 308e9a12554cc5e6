use microcad_lang::ast::{BinaryOperator, Expression, LiteralKind, Statement, WorkbenchKind};
use microcad_lang::parse::{parse, ParseErrorKind};
use microcad_lang::span::{Span, Spanned};
use microcad_lang::token::{SpannedToken, Token};

/// Builds tokens with consecutive spans from their source texts.
struct Toks {
    toks: Vec<SpannedToken>,
    at: usize,
}

impl Toks {
    fn new() -> Self {
        Toks { toks: Vec::new(), at: 0 }
    }
    fn t(mut self, text: &str, value: Token) -> Self {
        let start = self.at;
        self.at += text.len();
        self.toks.push(Spanned { span: Span { start, end: self.at }, value });
        self
    }
    fn ws(self) -> Self {
        self.t(" ", Token::Whitespace(" ".to_string()))
    }
    fn id(self, name: &str) -> Self {
        self.t(name, Token::Identifier(name.to_string()))
    }
    fn num(self, text: &str) -> Self {
        self.t(text, Token::LiteralInt(text.to_string()))
    }
}

#[test]
fn parse_precedence_and_left_grouping() {
    // x = 1 + 2 * 3 - 4;
    let toks = Toks::new()
        .id("x").ws().t("=", Token::OperatorAssignment).ws()
        .num("1").ws().t("+", Token::OperatorAdd).ws()
        .num("2").ws().t("*", Token::OperatorMultiply).ws()
        .num("3").ws().t("-", Token::OperatorSubtract).ws()
        .num("4").t(";", Token::SigilSemiColon)
        .toks;
    let program = parse(&toks).expect("parses");
    assert_eq!(program.span, Span { start: 0, end: 18 });
    assert_eq!(program.statements.statements.len(), 1);
    let Statement::LocalAssignment(a) = &program.statements.statements[0].0 else { panic!("assignment") };
    assert_eq!(a.id.name, "x");
    // ((1 + (2 * 3)) - 4)
    let Expression::BinaryOperation(top) = a.expr.as_ref() else { panic!("binary") };
    assert_eq!(top.op.value, BinaryOperator::Subtract);
    let Expression::BinaryOperation(left) = top.lhs.as_ref() else { panic!("binary") };
    assert_eq!(left.op.value, BinaryOperator::Add);
    let Expression::BinaryOperation(mul) = left.rhs.as_ref() else { panic!("binary") };
    assert_eq!(mul.op.value, BinaryOperator::Multiply);
    let Expression::Literal(four) = top.rhs.as_ref() else { panic!("literal") };
    match &four.literal {
        LiteralKind::Integer(i) => assert_eq!(i.value, 4),
        other => panic!("integer expected, got {other:?}"),
    }
}

#[test]
fn parse_quantity_and_untypable() {
    // a = 4mm; b = true mm;
    let toks = Toks::new()
        .id("a").ws().t("=", Token::OperatorAssignment).ws()
        .num("4").t("mm", Token::Unit("mm".to_string())).t(";", Token::SigilSemiColon)
        .toks;
    let program = parse(&toks).expect("parses");
    let Statement::LocalAssignment(a) = &program.statements.statements[0].0 else { panic!() };
    let Expression::Literal(lit) = a.expr.as_ref() else { panic!() };
    match &lit.literal {
        LiteralKind::Quantity(q) => {
            assert_eq!(q.raw, "4");
            assert_eq!(q.unit.name, "mm");
        }
        other => panic!("quantity expected, got {other:?}"),
    }

    let toks = Toks::new()
        .id("b").ws().t("=", Token::OperatorAssignment).ws()
        .t("true", Token::LiteralBool(true)).t("mm", Token::Unit("mm".to_string())).t(";", Token::SigilSemiColon)
        .toks;
    let program = parse(&toks).expect("parses");
    let Statement::LocalAssignment(a) = &program.statements.statements[0].0 else { panic!() };
    let Expression::Literal(lit) = a.expr.as_ref() else { panic!() };
    assert!(matches!(lit.literal, LiteralKind::Error(_)));
}

#[test]
fn parse_workbench_and_function() {
    // part Foo() { }
    let toks = Toks::new()
        .t("part", Token::KeywordPart).ws().id("Foo")
        .t("(", Token::SigilOpenBracket).t(")", Token::SigilCloseBracket).ws()
        .t("{", Token::SigilOpenCurlyBracket).ws().t("}", Token::SigilCloseCurlyBracket)
        .toks;
    let program = parse(&toks).expect("parses");
    match &program.statements.statements[0].0 {
        Statement::Workbench(kind, def) => {
            assert_eq!(*kind, WorkbenchKind::Part);
            assert_eq!(def.id.as_ref().unwrap().name, "Foo");
            assert_eq!(def.span, Span { start: 0, end: 14 });
        }
        other => panic!("workbench expected, got {other:?}"),
    }

    // fn f(a: Length = 2) -> Length { a }
    let toks = Toks::new()
        .t("fn", Token::KeywordFn).ws().id("f")
        .t("(", Token::SigilOpenBracket).id("a").t(":", Token::SigilColon).ws().id("Length").ws()
        .t("=", Token::OperatorAssignment).ws().num("2").t(")", Token::SigilCloseBracket).ws()
        .t("->", Token::SigilSingleArrow).ws().id("Length").ws()
        .t("{", Token::SigilOpenCurlyBracket).ws().id("a").ws().t("}", Token::SigilCloseCurlyBracket)
        .toks;
    let program = parse(&toks).expect("parses");
    match &program.statements.statements[0].0 {
        Statement::Function(def) => {
            let params = def.parameters.as_ref().unwrap();
            assert_eq!(params.parameters.len(), 1);
            assert_eq!(params.parameters[0].id.name, "a");
            assert!(params.parameters[0].default.is_some());
            assert!(def.return_type.is_some());
            let body = def.body.as_ref().unwrap();
            assert!(body.statements.tail.is_some());
        }
        other => panic!("function expected, got {other:?}"),
    }
}

#[test]
fn parse_keyword_as_identifier_is_an_error() {
    // x = mod;
    let toks = Toks::new()
        .id("x").ws().t("=", Token::OperatorAssignment).ws().t("mod", Token::KeywordMod)
        .t(";", Token::SigilSemiColon)
        .toks;
    let errors = parse(&toks).expect_err("keyword used as a name");
    assert!(errors
        .iter()
        .any(|e| matches!(e.kind, ParseErrorKind::KeywordAsIdentifier("mod"))));
}

#[test]
fn parse_missing_semicolon_is_an_error() {
    // x = 1 y;
    let toks = Toks::new()
        .id("x").ws().t("=", Token::OperatorAssignment).ws().num("1").ws().id("y")
        .t(";", Token::SigilSemiColon)
        .toks;
    let errors = parse(&toks).expect_err("missing semicolon");
    assert_eq!(errors.len(), 1);
    assert!(matches!(&errors[0].kind, ParseErrorKind::Expected { expected, .. } if expected[0] == "semicolon"));
}

#[test]
fn parse_reserved_keyword_statement() {
    // struct S { }
    let toks = Toks::new()
        .t("struct", Token::KeywordStruct).ws().id("S").ws()
        .t("{", Token::SigilOpenCurlyBracket).ws().t("}", Token::SigilCloseCurlyBracket)
        .toks;
    let errors = parse(&toks).expect_err("reserved keyword");
    assert_eq!(errors.len(), 1);
    assert!(matches!(errors[0].kind, ParseErrorKind::ReservedKeyword("struct")));

    // struct; is an expression statement naming a reserved keyword
    let toks = Toks::new()
        .t("struct", Token::KeywordStruct).t(";", Token::SigilSemiColon)
        .toks;
    let errors = parse(&toks).expect_err("reserved keyword as a name");
    assert!(matches!(errors[0].kind, ParseErrorKind::ReservedKeywordAsIdentifier("struct")));
}

#[test]
fn parse_empty_input() {
    let program = parse(&Vec::new()).expect("empty program");
    assert!(program.statements.statements.is_empty());
    assert!(program.statements.tail.is_none());
}

#[test]
fn parse_unclosed_body_is_an_error() {
    // { x
    let toks = Toks::new()
        .t("{", Token::SigilOpenCurlyBracket).ws().id("x")
        .toks;
    assert!(parse(&toks).is_err());
}

#[test]
fn statements_that_end_with_a_semicolon() {
    // x = 1;
    let toks = Toks::new()
        .id("x").ws().t("=", Token::OperatorAssignment).ws()
        .num("1").t(";", Token::SigilSemiColon)
        .toks;
    let program = parse(&toks).expect("parses");
    assert!(program.statements.statements[0].0.ends_with_semicolon());
    assert!(!Statement::Error(Span { start: 0, end: 0 }).ends_with_semicolon());
    let id = microcad_lang::ast::Identifier { span: Span { start: 3, end: 6 }, name: "foo".into() };
    let path = microcad_lang::ast::SymbolPath::from_identifier(id);
    assert_eq!(path.span, Span { start: 3, end: 6 });
    assert_eq!(path.parts.len(), 1);
    assert_eq!(path.parts[0].name, "foo");
    assert!(path.prefix.is_none());
}

#[test]
fn parse_chain_of_three_literals() {
    // 1 + 2 * 3;
    let toks = Toks::new()
        .num("1").ws().t("+", Token::OperatorAdd).ws()
        .num("2").ws().t("*", Token::OperatorMultiply).ws()
        .num("3").t(";", Token::SigilSemiColon)
        .toks;
    let program = parse(&toks).expect("a program");
    assert_eq!(program.statements.statements.len(), 1);
    assert!(program.statements.tail.is_none());
    match &program.statements.statements[0].0 {
        Statement::Expression(s) => match &s.expression {
            Expression::BinaryOperation(b) => {
                assert_eq!(b.op.value, BinaryOperator::Add);
                assert!(matches!(*b.lhs, Expression::Literal(_)));
                match &*b.rhs {
                    Expression::BinaryOperation(r) => assert_eq!(r.op.value, BinaryOperator::Multiply),
                    _ => panic!("the product binds tighter"),
                }
            },
            _ => panic!("a binary operation"),
        },
        _ => panic!("an expression statement"),
    }
    // 1 - 2 - 3;
    let toks = Toks::new()
        .num("1").ws().t("-", Token::OperatorSubtract).ws()
        .num("2").ws().t("-", Token::OperatorSubtract).ws()
        .num("3").t(";", Token::SigilSemiColon)
        .toks;
    let program = parse(&toks).expect("a program");
    match &program.statements.statements[0].0 {
        Statement::Expression(s) => match &s.expression {
            Expression::BinaryOperation(b) => {
                assert_eq!(b.op.value, BinaryOperator::Subtract);
                assert!(matches!(*b.lhs, Expression::BinaryOperation(_)));
                assert!(matches!(*b.rhs, Expression::Literal(_)));
            },
            _ => panic!("a binary operation"),
        },
        _ => panic!("an expression statement"),
    }
}

#[test]
fn parse_public_constant_without_const() {
    // pub A = 1;
    let toks = Toks::new()
        .t("pub", Token::KeywordPub).ws().id("A").ws().t("=", Token::OperatorAssignment).ws()
        .num("1").t(";", Token::SigilSemiColon)
        .toks;
    let program = parse(&toks).expect("a program");
    assert_eq!(program.statements.statements.len(), 1);
    match &program.statements.statements[0].0 {
        Statement::Const(c) => {
            assert_eq!(c.id.name, "A");
            assert_eq!(c.keyword_span, Span { start: 0, end: 3 });
            assert_eq!(c.vis.as_ref().map(|v| v.span), Some(Span { start: 0, end: 3 }));
            assert!(c.ty.is_none());
            assert!(matches!(*c.expr, Expression::Literal(_)));
        },
        _ => panic!("a constant"),
    }
}

#[test]
fn parse_body_with_one_statement() {
    // mod m { pub A = 1; }
    let toks = Toks::new()
        .t("mod", Token::KeywordMod).ws().id("m").ws().t("{", Token::SigilOpenCurlyBracket).ws()
        .t("pub", Token::KeywordPub).ws().id("A").ws().t("=", Token::OperatorAssignment).ws()
        .num("1").t(";", Token::SigilSemiColon).ws().t("}", Token::SigilCloseCurlyBracket)
        .toks;
    let program = parse(&toks).expect("a program");
    assert_eq!(program.statements.statements.len(), 1);
    match &program.statements.statements[0].0 {
        Statement::InlineModule(d) => {
            let body = d.body.as_ref().expect("a body");
            assert_eq!(body.statements.statements.len(), 1);
            assert!(body.statements.tail.is_none());
            assert!(matches!(body.statements.statements[0].0, Statement::Const(_)));
        },
        _ => panic!("an inline module"),
    }
}

#[test]
fn parse_statements_one_after_another() {
    // 1 + 2 * 3; pub A = 1; x = 2;
    let toks = Toks::new()
        .num("1").ws().t("+", Token::OperatorAdd).ws()
        .num("2").ws().t("*", Token::OperatorMultiply).ws()
        .num("3").t(";", Token::SigilSemiColon).ws()
        .t("pub", Token::KeywordPub).ws().id("A").ws().t("=", Token::OperatorAssignment).ws()
        .num("1").t(";", Token::SigilSemiColon).ws()
        .id("x").ws().t("=", Token::OperatorAssignment).ws()
        .num("2").t(";", Token::SigilSemiColon)
        .toks;
    let program = parse(&toks).expect("a program");
    let sts = &program.statements.statements;
    assert_eq!(sts.len(), 3);
    assert!(program.statements.tail.is_none());
    assert!(matches!(sts[0].0, Statement::Expression(_)));
    assert!(matches!(sts[1].0, Statement::Const(_)));
    // each statement covers its own tokens: the second starts at `pub`, the third at `x`
    assert_eq!(sts[1].0.span().start, 11);
    assert_eq!(sts[2].0.span().start, 22);
    assert_eq!(program.span, Span { start: 0, end: 28 });
}

#[test]
fn parse_unclosed_module_is_an_error() {
    // mod m {
    let toks = Toks::new()
        .t("mod", Token::KeywordMod).ws().id("m").ws().t("{", Token::SigilOpenCurlyBracket)
        .toks;
    let errors = parse(&toks).expect_err("an unclosed block");
    assert!(!errors.is_empty());
}

#[test]
fn parse_difference_of_names_keeps_operand_order() {
    // a - b;
    let toks = Toks::new()
        .id("a").ws().t("-", Token::OperatorSubtract).ws().id("b").t(";", Token::SigilSemiColon)
        .toks;
    let program = parse(&toks).expect("a program");
    match &program.statements.statements[0].0 {
        Statement::Expression(s) => match &s.expression {
            Expression::BinaryOperation(b) => {
                assert_eq!(b.op.value, BinaryOperator::Subtract);
                match (&*b.lhs, &*b.rhs) {
                    (Expression::SymbolPath(l), Expression::SymbolPath(r)) => {
                        assert_eq!(l.parts[0].name, "a");
                        assert_eq!(r.parts[0].name, "b");
                        assert_eq!(r.span, Span { start: 4, end: 5 });
                    },
                    _ => panic!("two names"),
                }
            },
            _ => panic!("a binary operation"),
        },
        _ => panic!("an expression statement"),
    }
}

#[test]
fn parse_use_function_workbench_and_module() {
    // use a::b; fn f() { pub A = 1; } part w() { 1 + 2 * 3; } mod m { }
    let toks = Toks::new()
        .t("use", Token::KeywordUse).ws().id("a").t("::", Token::SigilDoubleColon).id("b")
        .t(";", Token::SigilSemiColon).ws()
        .t("fn", Token::KeywordFn).ws().id("f").t("(", Token::SigilOpenBracket).t(")", Token::SigilCloseBracket).ws()
        .t("{", Token::SigilOpenCurlyBracket).ws()
        .t("pub", Token::KeywordPub).ws().id("A").ws().t("=", Token::OperatorAssignment).ws()
        .num("1").t(";", Token::SigilSemiColon).ws().t("}", Token::SigilCloseCurlyBracket).ws()
        .t("part", Token::KeywordPart).ws().id("w").t("(", Token::SigilOpenBracket).t(")", Token::SigilCloseBracket).ws()
        .t("{", Token::SigilOpenCurlyBracket).ws()
        .num("1").ws().t("+", Token::OperatorAdd).ws().num("2").ws().t("*", Token::OperatorMultiply).ws()
        .num("3").t(";", Token::SigilSemiColon).ws().t("}", Token::SigilCloseCurlyBracket).ws()
        .t("mod", Token::KeywordMod).ws().id("m").ws()
        .t("{", Token::SigilOpenCurlyBracket).ws().t("}", Token::SigilCloseCurlyBracket)
        .toks;
    let program = parse(&toks).expect("a program");
    let sts = &program.statements.statements;
    assert_eq!(sts.len(), 4);
    match &sts[0].0 {
        Statement::Use(u) => {
            assert!(u.vis.is_none() && u.use_as.is_none());
            assert_eq!(u.name.parts.len(), 2);
        },
        _ => panic!("a use statement"),
    }
    match &sts[1].0 {
        Statement::Function(d) => {
            assert_eq!(d.id.as_ref().unwrap().name, "f");
            assert_eq!(d.parameters.as_ref().unwrap().parameters.len(), 0);
            let body = d.body.as_ref().unwrap();
            assert_eq!(body.statements.statements.len(), 1);
            assert!(matches!(body.statements.statements[0].0, Statement::Const(_)));
        },
        _ => panic!("a function"),
    }
    match &sts[2].0 {
        Statement::Workbench(kind, d) => {
            assert_eq!(*kind, WorkbenchKind::Part);
            assert_eq!(d.id.as_ref().unwrap().name, "w");
            assert_eq!(d.body.as_ref().unwrap().statements.statements.len(), 1);
        },
        _ => panic!("a workbench"),
    }
    match &sts[3].0 {
        Statement::InlineModule(d) => {
            assert_eq!(d.id.as_ref().unwrap().name, "m");
            assert!(d.parameters.is_none());
            assert!(d.body.as_ref().unwrap().statements.statements.is_empty());
        },
        _ => panic!("an inline module"),
    }
}

#[test]
fn parse_assignments_of_names_and_chains() {
    // x = y; z = 1 + 2;
    let toks = Toks::new()
        .id("x").ws().t("=", Token::OperatorAssignment).ws().id("y").t(";", Token::SigilSemiColon).ws()
        .id("z").ws().t("=", Token::OperatorAssignment).ws()
        .num("1").ws().t("+", Token::OperatorAdd).ws().num("2").t(";", Token::SigilSemiColon)
        .toks;
    let program = parse(&toks).expect("a program");
    let sts = &program.statements.statements;
    assert_eq!(sts.len(), 2);
    match &sts[0].0 {
        Statement::LocalAssignment(a) => {
            assert_eq!(a.id.name, "x");
            assert!(a.ty.is_none());
            match &*a.expr {
                Expression::SymbolPath(p) => assert_eq!(p.parts[0].name, "y"),
                _ => panic!("a name"),
            }
        },
        _ => panic!("an assignment"),
    }
    match &sts[1].0 {
        Statement::LocalAssignment(a) => {
            assert_eq!(a.id.name, "z");
            assert!(matches!(&*a.expr, Expression::BinaryOperation(b) if b.op.value == BinaryOperator::Add));
        },
        _ => panic!("an assignment"),
    }
}

#[test]
fn parse_function_first_is_not_refused() {
    // fn f() { }
    let toks = Toks::new()
        .t("fn", Token::KeywordFn).ws().id("f").t("(", Token::SigilOpenBracket).t(")", Token::SigilCloseBracket).ws()
        .t("{", Token::SigilOpenCurlyBracket).t("}", Token::SigilCloseCurlyBracket)
        .toks;
    let program = parse(&toks).expect("a program");
    assert!(matches!(program.statements.statements[0].0, Statement::Function(_)));
}

#[test]
fn parse_if_statement_with_a_body() {
    // if x { pub A = 1; }
    let toks = Toks::new()
        .t("if", Token::KeywordIf).ws().id("x").ws().t("{", Token::SigilOpenCurlyBracket).ws()
        .t("pub", Token::KeywordPub).ws().id("A").ws().t("=", Token::OperatorAssignment).ws()
        .num("1").t(";", Token::SigilSemiColon).ws().t("}", Token::SigilCloseCurlyBracket)
        .toks;
    let program = parse(&toks).expect("a program");
    assert_eq!(program.statements.statements.len(), 1);
    match &program.statements.statements[0].0 {
        Statement::Expression(s) => match &s.expression {
            Expression::If(i) => {
                assert!(matches!(*i.condition, Expression::SymbolPath(_)));
                assert_eq!(i.body.statements.statements.len(), 1);
                assert!(i.next_if.is_none() && i.else_body.is_none());
            },
            _ => panic!("an if"),
        },
        _ => panic!("an expression statement"),
    }
}

#[test]
fn parse_function_body_with_assignment_and_use() {
    // fn f() { x = 1; use a; }
    let toks = Toks::new()
        .t("fn", Token::KeywordFn).ws().id("f").t("(", Token::SigilOpenBracket).t(")", Token::SigilCloseBracket).ws()
        .t("{", Token::SigilOpenCurlyBracket).ws()
        .id("x").ws().t("=", Token::OperatorAssignment).ws().num("1").t(";", Token::SigilSemiColon).ws()
        .t("use", Token::KeywordUse).ws().id("a").t(";", Token::SigilSemiColon).ws()
        .t("}", Token::SigilCloseCurlyBracket)
        .toks;
    let program = parse(&toks).expect("a program");
    match &program.statements.statements[0].0 {
        Statement::Function(d) => {
            let sts = &d.body.as_ref().unwrap().statements.statements;
            assert_eq!(sts.len(), 2);
            assert!(matches!(sts[0].0, Statement::LocalAssignment(_)));
            assert!(matches!(sts[1].0, Statement::Use(_)));
        },
        _ => panic!("a function"),
    }
}

#[test]
fn parse_function_returning_a_name() {
    // fn f() { return x; }
    let toks = Toks::new()
        .t("fn", Token::KeywordFn).ws().id("f").t("(", Token::SigilOpenBracket).t(")", Token::SigilCloseBracket).ws()
        .t("{", Token::SigilOpenCurlyBracket).ws()
        .t("return", Token::KeywordReturn).ws().id("x").t(";", Token::SigilSemiColon).ws()
        .t("}", Token::SigilCloseCurlyBracket)
        .toks;
    let program = parse(&toks).expect("a program");
    match &program.statements.statements[0].0 {
        Statement::Function(d) => match &d.body.as_ref().unwrap().statements.statements[0].0 {
            Statement::Return(r) => assert!(matches!(r.value, Some(Expression::SymbolPath(_)))),
            _ => panic!("a return"),
        },
        _ => panic!("a function"),
    }
}

#[test]
fn parse_module_holding_a_function() {
    // mod m { fn f() { x = 1; } use a; }
    let toks = Toks::new()
        .t("mod", Token::KeywordMod).ws().id("m").ws().t("{", Token::SigilOpenCurlyBracket).ws()
        .t("fn", Token::KeywordFn).ws().id("f").t("(", Token::SigilOpenBracket).t(")", Token::SigilCloseBracket).ws()
        .t("{", Token::SigilOpenCurlyBracket).ws()
        .id("x").ws().t("=", Token::OperatorAssignment).ws().num("1").t(";", Token::SigilSemiColon).ws()
        .t("}", Token::SigilCloseCurlyBracket).ws()
        .t("use", Token::KeywordUse).ws().id("a").t(";", Token::SigilSemiColon).ws()
        .t("}", Token::SigilCloseCurlyBracket)
        .toks;
    let program = parse(&toks).expect("a program");
    assert_eq!(program.statements.statements.len(), 1);
    match &program.statements.statements[0].0 {
        Statement::InlineModule(d) => {
            let sts = &d.body.as_ref().unwrap().statements.statements;
            assert_eq!(sts.len(), 2);
            assert!(matches!(sts[0].0, Statement::Function(_)));
            assert!(matches!(sts[1].0, Statement::Use(_)));
        },
        _ => panic!("a module"),
    }
}

#[test]
fn parse_if_with_else() {
    // if x { y = 1; } else { y = 2; }
    let toks = Toks::new()
        .t("if", Token::KeywordIf).ws().id("x").ws().t("{", Token::SigilOpenCurlyBracket).ws()
        .id("y").ws().t("=", Token::OperatorAssignment).ws().num("1").t(";", Token::SigilSemiColon).ws()
        .t("}", Token::SigilCloseCurlyBracket).ws().t("else", Token::KeywordElse).ws()
        .t("{", Token::SigilOpenCurlyBracket).ws()
        .id("y").ws().t("=", Token::OperatorAssignment).ws().num("2").t(";", Token::SigilSemiColon).ws()
        .t("}", Token::SigilCloseCurlyBracket)
        .toks;
    let program = parse(&toks).expect("a program");
    match &program.statements.statements[0].0 {
        Statement::Expression(s) => match &s.expression {
            Expression::If(i) => {
                assert!(i.next_if.is_none());
                assert_eq!(i.else_body.as_ref().unwrap().statements.statements.len(), 1);
            },
            _ => panic!("an if"),
        },
        _ => panic!("an expression statement"),
    }
}
