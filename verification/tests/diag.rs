use microcad_lang::check::Case;
use microcad_lang::diag::{ParseIssue, ResolveError, ResolveErrorKind, ResolveIssue};
use microcad_lang::locate::LocateError;
use microcad_lang::parse::{ParseError, ParseErrorKind};
use microcad_lang::span::Span;
use microcad_lang::visitor::Severity;

fn parse_error() -> ParseError {
    ParseError { span: Span { start: 2, end: 5 }, kind: ParseErrorKind::UnterminatedString }
}

#[test]
fn parse_issue_severity_and_place() {
    let issue = ParseIssue::Error(parse_error());
    assert_eq!(issue.severity(), Severity::Error);
    assert_eq!(issue.src_ref(), Some(Span { start: 2, end: 5 }));
}

#[test]
fn resolve_error_places() {
    let span = Span { start: 7, end: 9 };
    let wrong = ResolveError::new(ResolveErrorKind::WrongCase { expected: Case::Pascal, actual: Case::LowerSnake, src_ref: span });
    assert_eq!(wrong.src_ref(), Some(span));
    let mismatch = ResolveError::new(ResolveErrorKind::TypeMismatch {
        specified: "Length".into(),
        specified_src_ref: span,
        actual: "Scalar".into(),
        actual_src_ref: Span { start: 12, end: 13 },
    });
    assert_eq!(mismatch.src_ref(), Some(span));
    let io = ResolveError::new(ResolveErrorKind::IOError("denied".into()));
    assert_eq!(io.src_ref(), None);
    assert_eq!(io.kind(), &ResolveErrorKind::IOError("denied".into()));
}

#[test]
fn resolve_error_from_other_errors() {
    let located: ResolveError = LocateError::FileNotFound { path: "a.µcad".into() }.into();
    assert_eq!(located.kind(), &ResolveErrorKind::Locate(LocateError::FileNotFound { path: "a.µcad".into() }));
    let parsed: ResolveError = parse_error().into();
    assert_eq!(parsed.kind(), &ResolveErrorKind::ParseError(parse_error()));
    let kind: ResolveError = ResolveErrorKind::SourceHasNoPath("x".into()).into();
    assert_eq!(kind.src_ref(), None);
}

#[test]
fn resolve_issue_from_parse_issue() {
    let issue = ResolveIssue::from_parse_issue(ParseIssue::Error(parse_error()));
    assert_eq!(issue, ResolveIssue::Error(ResolveError::new(ResolveErrorKind::ParseError(parse_error()))));
    assert_eq!(issue.severity(), Severity::Error);
    // a parse error carries no place once it is a resolve error
    assert_eq!(issue.src_ref(), None);
}

#[test]
fn builtin_name_has_its_own_url() {
    assert_eq!(microcad_lang::locate::builtin_url("__builtin"), Some("builtin:///builtin".to_string()));
    assert_eq!(microcad_lang::locate::builtin_url("__builtins"), None);
    assert_eq!(microcad_lang::locate::builtin_url("builtin"), None);
    assert_eq!(microcad_lang::locate::builtin_url(""), None);
}

#[test]
fn converted_issue_keeps_severity() {
    let p = ParseIssue::Error(parse_error());
    let severity = p.severity();
    let r: ResolveIssue = p.into();
    assert_eq!(r.severity(), severity);
}
