use microcad_lang::ast::{Comment, CommentInner, ItemExtra, ItemExtras, LeadingExtras, TrailingExtras, Whitespace};
use microcad_lang::span::Span;
use microcad_lang::token::Token;
use microcad_lang::visitor::{CommentCollector, ExpectedDiagnostic, ExpectedDiagnosticsCollector, Severity};

#[test]
fn expected_diagnostic_from_comment() {
    let line = 10;
    let diag1 = ExpectedDiagnostic::from_comment("// error: UnexpectedToken", line).expect("Some");

    assert_eq!(diag1.severity, Severity::Error);
    assert_eq!(diag1.code.unwrap(), "UnexpectedToken");

    let diag2 = ExpectedDiagnostic::from_comment("// warning", line).expect("Some");
    assert_eq!(diag2.severity, Severity::Warning);
    assert!(diag2.code.is_none());

    assert!(ExpectedDiagnostic::from_comment("// Regular comment", line).is_none());
}

#[test]
fn expected_diagnostic_case_and_aliases() {
    let d = ExpectedDiagnostic::from_comment("/// WARN: Foo  ", 3).expect("Some");
    assert_eq!(d.severity, Severity::Warning);
    assert_eq!(d.line, 3);
    assert_eq!(d.code.as_deref(), Some("Foo"));

    let d = ExpectedDiagnostic::from_comment("//help", 1).expect("Some");
    assert_eq!(d.severity, Severity::Advice);
    assert!(d.code.is_none());

    let d = ExpectedDiagnostic::from_comment("// Advice:", 1).expect("Some");
    assert_eq!(d.severity, Severity::Advice);
    assert_eq!(d.code.as_deref(), Some(""));

    // The severity word itself is not trimmed before the colon.
    assert!(ExpectedDiagnostic::from_comment("// error : X", 1).is_none());
    assert!(ExpectedDiagnostic::from_comment("//", 1).is_none());
    assert!(ExpectedDiagnostic::from_comment("//   ", 1).is_none());
    assert!(ExpectedDiagnostic::from_comment("// errors", 1).is_none());
}

fn comment(start: usize, text: &str) -> ItemExtra {
    ItemExtra::Comment(Comment {
        span: Span { start, end: start + text.len() },
        inner: CommentInner::SingleLine(text.to_string()),
    })
}

#[test]
fn comment_collector_keeps_order_and_skips_whitespace() {
    let extras = ItemExtras {
        leading: LeadingExtras(vec![comment(0, "// A"), ItemExtra::Whitespace(Whitespace("\n".to_string()))]),
        trailing: TrailingExtras(vec![comment(10, "// B")]),
    };
    let mut collector = CommentCollector::new();
    collector.visit_extras(&extras);
    let found: Vec<usize> = collector.comments().iter().map(|c| c.span.start).collect();
    assert_eq!(found, vec![0, 10]);
}

/// Builds tokens with consecutive spans from their source texts.
struct Toks {
    toks: Vec<microcad_lang::token::SpannedToken>,
    at: usize,
}

impl Toks {
    fn new() -> Self {
        Toks { toks: Vec::new(), at: 0 }
    }
    fn t(mut self, text: &str, value: Token) -> Self {
        let start = self.at;
        self.at += text.len();
        self.toks.push(microcad_lang::span::Spanned { span: Span { start, end: self.at }, value });
        self
    }
}

#[test]
fn comment_collector_finds_comments_inside_expressions() {
    // "// A\nfoo(1, // B\n2);\n// C"
    let toks = Toks::new()
        .t("// A", Token::SingleLineComment("// A".into()))
        .t("\n", Token::Whitespace("\n".into()))
        .t("foo", Token::Identifier("foo".into()))
        .t("(", Token::SigilOpenBracket)
        .t("1", Token::LiteralInt("1".into()))
        .t(",", Token::SigilComma)
        .t(" ", Token::Whitespace(" ".into()))
        .t("// B", Token::SingleLineComment("// B".into()))
        .t("\n", Token::Whitespace("\n".into()))
        .t("2", Token::LiteralInt("2".into()))
        .t(")", Token::SigilCloseBracket)
        .t(";", Token::SigilSemiColon)
        .t("\n", Token::Whitespace("\n".into()))
        .t("// C", Token::SingleLineComment("// C".into()))
        .toks;
    let program = microcad_lang::parse::parse(&toks).expect("parses");
    let mut collector = CommentCollector::new();
    collector.visit_statement_list(&program.statements);
    let found: Vec<String> = collector
        .comments()
        .iter()
        .map(|c| match &c.inner {
            CommentInner::SingleLine(s) | CommentInner::MultiLine(s) => s.clone(),
        })
        .collect();
    assert_eq!(found, vec!["// A".to_string(), "// B".to_string(), "// C".to_string()]);
}

#[test]
fn expected_diagnostics_collector_reads_lines_and_codes() {
    let source = "foo(1, 2); // error: SomeErrorCode\n// warning: SomeCode";
    let toks = Toks::new()
        .t("foo", Token::Identifier("foo".into()))
        .t("(", Token::SigilOpenBracket)
        .t("1", Token::LiteralInt("1".into()))
        .t(",", Token::SigilComma)
        .t(" ", Token::Whitespace(" ".into()))
        .t("2", Token::LiteralInt("2".into()))
        .t(")", Token::SigilCloseBracket)
        .t(";", Token::SigilSemiColon)
        .t(" ", Token::Whitespace(" ".into()))
        .t("// error: SomeErrorCode", Token::SingleLineComment("// error: SomeErrorCode".into()))
        .t("\n", Token::Whitespace("\n".into()))
        .t("// warning: SomeCode", Token::SingleLineComment("// warning: SomeCode".into()))
        .toks;
    assert_eq!(toks.last().unwrap().span.end, source.len());
    let program = microcad_lang::parse::parse(&toks).expect("parses");
    let mut collector = ExpectedDiagnosticsCollector::new(source);
    collector.visit_statement_list(&program.statements);
    let diags = collector.diagnostics();
    assert_eq!(diags.len(), 2);
    assert_eq!(diags[0].severity, Severity::Error);
    assert_eq!(diags[0].line, 1);
    assert_eq!(diags[0].code.as_deref(), Some("SomeErrorCode"));
    assert_eq!(diags[1].severity, Severity::Warning);
    assert_eq!(diags[1].line, 2);
    assert_eq!(diags[1].code.as_deref(), Some("SomeCode"));
}
