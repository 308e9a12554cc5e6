//! Issues reported while parsing and resolving.

use vstd::prelude::*;

use crate::check::Case;
use crate::locate::LocateError;
use crate::parse::ParseError;
use crate::span::Span;
use crate::visitor::Severity;

verus! {

/// A type with no value outside this crate, and none is ever made inside it.
///
/// The issue kinds below that can never occur carry one of these, so no issue of theirs
/// can be built.
#[derive(Debug, Clone, Copy, PartialEq, Eq)]
pub struct Unreachable {
    never: (),
}

/// Warnings that occurred during parsing (the parser reports none yet).
#[derive(Debug, Clone, Copy, PartialEq, Eq)]
#[non_exhaustive]
pub enum ParseWarning {
    /// Never built.
    Never(Unreachable),
}

/// Info and advice that occurred during parsing (the parser reports none yet).
#[derive(Debug, Clone, Copy, PartialEq, Eq)]
#[non_exhaustive]
pub enum ParseInfo {
    /// Never built.
    Never(Unreachable),
}

/// Errors of building the unresolved tree (none can occur yet).
#[derive(Debug, Clone, Copy, PartialEq, Eq)]
pub enum ScaffoldError {
    /// Never built.
    Never(Unreachable),
}

/// An issue found while parsing.
#[derive(Debug, Clone, PartialEq)]
pub enum ParseIssue {
    /// A parse error.
    Error(ParseError),
    /// A warning from the parser.
    Warning(ParseWarning),
    /// An info from the parser.
    Info(ParseInfo),
}

/// The severity of a parse issue: that of its variant.
pub open spec fn parse_issue_severity(issue: ParseIssue) -> Severity {
    match issue {
        ParseIssue::Error(_) => Severity::Error,
        ParseIssue::Warning(_) => Severity::Warning,
        ParseIssue::Info(_) => Severity::Advice,
    }
}

impl ParseIssue {
    /// The severity of the issue: that of its variant.
    pub fn severity(&self) -> (s: Severity)
        ensures
            s == parse_issue_severity(*self),
    {
        match self {
            ParseIssue::Error(_) => Severity::Error,
            ParseIssue::Warning(_) => Severity::Warning,
            ParseIssue::Info(_) => Severity::Advice,
        }
    }

    /// Where the issue is in the source: the span of an error; other issues have none.
    pub fn src_ref(&self) -> (r: Option<Span>)
        ensures
            r == match self {
                ParseIssue::Error(e) => Some(e.span),
                _ => None,
            },
    {
        match self {
            ParseIssue::Error(e) => Some(e.span),
            _ => None,
        }
    }
}

/// What went wrong while resolving.
#[derive(Debug, Clone, PartialEq)]
#[allow(inconsistent_fields)]
pub enum ResolveErrorKind {
    /// An input or output error, with its message.
    IOError(String),
    /// An error of lowering to the intermediate representation, with its message.
    LowerError(String),
    /// An error of parsing.
    ParseError(ParseError),
    /// A file that could not be located.
    Locate(LocateError),
    /// A manifest that could not be read or written, with the message.
    Manifest(String),
    /// An error of the standard library, with its message.
    StdLib(String),
    /// A name written in another case than its symbol asks for.
    WrongCase {
        /// The case asked for.
        expected: Case,
        /// The case the name is written in.
        actual: Case,
        /// Where the name is.
        src_ref: Span,
    },
    /// A value of another type than the one specified.
    TypeMismatch {
        /// The type specified.
        specified: String,
        /// Where the type was specified.
        specified_src_ref: Span,
        /// The type found.
        actual: String,
        /// Where the value is.
        actual_src_ref: Span,
    },
    /// No source with the given hash.
    NoSourceWithHash(u64),
    /// A file that did not compile.
    CompileError {
        /// The path of the file.
        path: String,
    },
    /// A library entry point at an unexpected place.
    NoLibraryEntryPoint {
        /// The path of the `lib.µcad` file.
        lib_mu: String,
    },
    /// A source that has no path.
    SourceHasNoPath(String),
}

/// An error from resolving.
#[derive(Debug, Clone, PartialEq)]
pub struct ResolveError(pub Box<ResolveErrorKind>);

impl ResolveError {
    /// An error of the given kind.
    pub fn new(kind: ResolveErrorKind) -> (e: ResolveError)
        ensures
            *e.0 == kind,
    {
        ResolveError(Box::new(kind))
    }

    /// The kind of this error.
    pub fn kind(&self) -> (k: &ResolveErrorKind)
        ensures
            *k == *self.0,
    {
        &self.0
    }

    /// Where the error is in the source: the name of a wrong case, the specified type of a
    /// mismatch; other errors have no place.
    pub fn src_ref(&self) -> (r: Option<Span>)
        ensures
            r == match *self.0 {
                ResolveErrorKind::WrongCase { src_ref, .. } => Some(src_ref),
                ResolveErrorKind::TypeMismatch { specified_src_ref, .. } => Some(specified_src_ref),
                _ => None,
            },
    {
        match &*self.0 {
            ResolveErrorKind::WrongCase { src_ref, .. } => Some(*src_ref),
            ResolveErrorKind::TypeMismatch { specified_src_ref, .. } => Some(*specified_src_ref),
            _ => None,
        }
    }
}

impl From<ResolveErrorKind> for ResolveError {
    fn from(kind: ResolveErrorKind) -> (e: ResolveError) {
        ResolveError(Box::new(kind))
    }
}

impl vstd::std_specs::convert::FromSpecImpl<ResolveErrorKind> for ResolveError {
    open spec fn obeys_from_spec() -> bool {
        true
    }

    open spec fn from_spec(kind: ResolveErrorKind) -> ResolveError {
        ResolveError(Box::new(kind))
    }
}

impl From<LocateError> for ResolveError {
    fn from(err: LocateError) -> (e: ResolveError) {
        ResolveError(Box::new(ResolveErrorKind::Locate(err)))
    }
}

impl vstd::std_specs::convert::FromSpecImpl<LocateError> for ResolveError {
    open spec fn obeys_from_spec() -> bool {
        true
    }

    open spec fn from_spec(err: LocateError) -> ResolveError {
        ResolveError(Box::new(ResolveErrorKind::Locate(err)))
    }
}

impl From<ParseError> for ResolveError {
    fn from(err: ParseError) -> (e: ResolveError) {
        ResolveError(Box::new(ResolveErrorKind::ParseError(err)))
    }
}

impl vstd::std_specs::convert::FromSpecImpl<ParseError> for ResolveError {
    open spec fn obeys_from_spec() -> bool {
        true
    }

    open spec fn from_spec(err: ParseError) -> ResolveError {
        ResolveError(Box::new(ResolveErrorKind::ParseError(err)))
    }
}

/// Warnings that occurred while resolving.
#[derive(Debug, Clone, PartialEq)]
pub enum ResolveWarning {
    /// A warning of the parser.
    Parse(ParseWarning),
}

/// Info and advice from resolving.
#[derive(Debug, Clone, PartialEq)]
pub enum ResolveInfo {
    /// An info of the parser.
    Parse(ParseInfo),
}

/// An issue found while resolving.
#[derive(Debug, Clone, PartialEq)]
pub enum ResolveIssue {
    /// A resolve error.
    Error(ResolveError),
    /// A warning.
    Warning(ResolveWarning),
    /// An info.
    Info(ResolveInfo),
}

/// The severity of a resolve issue: that of its variant.
pub open spec fn resolve_issue_severity(issue: ResolveIssue) -> Severity {
    match issue {
        ResolveIssue::Error(_) => Severity::Error,
        ResolveIssue::Warning(_) => Severity::Warning,
        ResolveIssue::Info(_) => Severity::Advice,
    }
}

/// The resolve issue a parse issue makes: each kind goes to the same kind.
pub open spec fn resolve_issue_of(issue: ParseIssue) -> ResolveIssue {
    match issue {
        ParseIssue::Error(e) => ResolveIssue::Error(ResolveError(Box::new(ResolveErrorKind::ParseError(e)))),
        ParseIssue::Warning(w) => ResolveIssue::Warning(ResolveWarning::Parse(w)),
        ParseIssue::Info(i) => ResolveIssue::Info(ResolveInfo::Parse(i)),
    }
}

impl ResolveIssue {
    /// The severity of the issue: that of its variant.
    pub fn severity(&self) -> (s: Severity)
        ensures
            s == resolve_issue_severity(*self),
    {
        match self {
            ResolveIssue::Error(_) => Severity::Error,
            ResolveIssue::Warning(_) => Severity::Warning,
            ResolveIssue::Info(_) => Severity::Advice,
        }
    }

    /// Where the issue is in the source: that of an error; other issues have none.
    pub fn src_ref(&self) -> (r: Option<Span>)
        ensures
            r == match self {
                ResolveIssue::Error(e) => match *e.0 {
                    ResolveErrorKind::WrongCase { src_ref, .. } => Some(src_ref),
                    ResolveErrorKind::TypeMismatch { specified_src_ref, .. } => Some(specified_src_ref),
                    _ => None,
                },
                _ => None,
            },
    {
        match self {
            ResolveIssue::Error(e) => e.src_ref(),
            _ => None,
        }
    }

    /// The issue a parse issue makes: each kind goes to the same kind.
    pub fn from_parse_issue(issue: ParseIssue) -> (r: ResolveIssue)
        ensures
            r == resolve_issue_of(issue),
    {
        match issue {
            ParseIssue::Error(e) => ResolveIssue::Error(ResolveError::new(ResolveErrorKind::ParseError(e))),
            ParseIssue::Warning(w) => ResolveIssue::Warning(ResolveWarning::Parse(w)),
            ParseIssue::Info(i) => ResolveIssue::Info(ResolveInfo::Parse(i)),
        }
    }
}

impl From<ParseIssue> for ResolveIssue {
    fn from(issue: ParseIssue) -> (r: ResolveIssue) {
        ResolveIssue::from_parse_issue(issue)
    }
}

impl vstd::std_specs::convert::FromSpecImpl<ParseIssue> for ResolveIssue {
    open spec fn obeys_from_spec() -> bool {
        true
    }

    open spec fn from_spec(issue: ParseIssue) -> ResolveIssue {
        resolve_issue_of(issue)
    }
}

} // verus!
