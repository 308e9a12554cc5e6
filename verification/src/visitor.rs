//! Walking the syntax tree: collecting comments and expected diagnostics.

use vstd::prelude::*;
use vstd::string::StringSliceAdditionalSpecFns;

use crate::ast::{
    Argument, ArrayItem, Attribute, AttributeCommand, Call, Comment, CommentInner, Definition, Element,
    ElementInner, Expression, ExpressionStatement, If, ItemExtra, ItemExtras, LocalAssignment, Parameter,
    ParameterList, Statement, StatementList, StringPart, TrailingExtras, TupleItem,
};

verus! {

/// Severity of a diagnostic.
#[derive(Debug, Clone, Copy, PartialEq, Eq, Structural)]
pub enum Severity {
    /// An advice or help.
    Advice,
    /// A warning.
    Warning,
    /// An error.
    Error,
}

/// Is `c` a white space character in the sense of Unicode's `White_Space` property.
pub open spec fn is_white_space(c: char) -> bool {
    ||| ('\u{9}' <= c && c <= '\u{d}')
    ||| c == ' '
    ||| c == '\u{85}'
    ||| c == '\u{a0}'
    ||| c == '\u{1680}'
    ||| ('\u{2000}' <= c && c <= '\u{200a}')
    ||| c == '\u{2028}'
    ||| c == '\u{2029}'
    ||| c == '\u{202f}'
    ||| c == '\u{205f}'
    ||| c == '\u{3000}'
}

/// Tests [`is_white_space`].
pub fn white_space(c: char) -> (b: bool)
    ensures
        b == is_white_space(c),
{
    ('\u{9}' <= c && c <= '\u{d}') || c == ' ' || c == '\u{85}' || c == '\u{a0}' || c == '\u{1680}'
        || ('\u{2000}' <= c && c <= '\u{200a}') || c == '\u{2028}' || c == '\u{2029}' || c
        == '\u{202f}' || c == '\u{205f}' || c == '\u{3000}'
}

/// `s` without its leading `/` characters.
pub open spec fn strip_slashes(s: Seq<char>) -> Seq<char>
    decreases s.len(),
{
    if s.len() > 0 && s[0] == '/' {
        strip_slashes(s.drop_first())
    } else {
        s
    }
}

/// `s` without leading white space.
pub open spec fn trim_start(s: Seq<char>) -> Seq<char>
    decreases s.len(),
{
    if s.len() > 0 && is_white_space(s[0]) {
        trim_start(s.drop_first())
    } else {
        s
    }
}

/// `s` without trailing white space.
pub open spec fn trim_end(s: Seq<char>) -> Seq<char>
    decreases s.len(),
{
    if s.len() > 0 && is_white_space(s.last()) {
        trim_end(s.drop_last())
    } else {
        s
    }
}

/// `s` without white space at either end.
pub open spec fn trim(s: Seq<char>) -> Seq<char> {
    trim_end(trim_start(s))
}

/// Index of the first `:` in `s`, or `s.len()` if there is none.
pub open spec fn first_colon(s: Seq<char>) -> int
    decreases s.len(),
{
    if s.len() == 0 {
        0
    } else if s[0] == ':' {
        0
    } else {
        1 + first_colon(s.drop_first())
    }
}

/// Code point of a character taken in ASCII lower case.
pub open spec fn lower(c: char) -> u32 {
    if 'A' <= c && c <= 'Z' {
        ((c as u32) + 32) as u32
    } else {
        c as u32
    }
}

/// Does `word`, with ASCII letters taken in lower case, spell `target`.
///
/// All targets used here are lower case ASCII; no other character lowers to one of their
/// letters, so this is what comparing the Unicode lower case of `word` gives.
pub open spec fn lower_equals(word: Seq<char>, target: Seq<char>) -> bool {
    word.len() == target.len() && forall|i: int| 0 <= i < word.len() ==> lower(#[trigger] word[i]) == target[i] as u32
}

/// The severity named by a word: `error`, `warn`/`warning`, `advice`/`help`, in any case.
pub open spec fn severity_of_word(word: Seq<char>) -> Option<Severity> {
    if lower_equals(word, seq!['e', 'r', 'r', 'o', 'r']) {
        Some(Severity::Error)
    } else if lower_equals(word, seq!['w', 'a', 'r', 'n']) || lower_equals(
        word,
        seq!['w', 'a', 'r', 'n', 'i', 'n', 'g'],
    ) {
        Some(Severity::Warning)
    } else if lower_equals(word, seq!['a', 'd', 'v', 'i', 'c', 'e']) || lower_equals(
        word,
        seq!['h', 'e', 'l', 'p'],
    ) {
        Some(Severity::Advice)
    } else {
        None
    }
}

/// The comment text after its slashes, trimmed.
pub open spec fn comment_content(comment: Seq<char>) -> Seq<char> {
    trim(strip_slashes(comment))
}

/// Severity expected by a comment `severity[: code]`, if it names one.
pub open spec fn expected_severity(comment: Seq<char>) -> Option<Severity> {
    let content = comment_content(comment);
    if content.len() == 0 {
        None
    } else {
        severity_of_word(content.subrange(0, first_colon(content)))
    }
}

/// Code expected by a comment `severity: code`, trimmed.
pub open spec fn expected_code(comment: Seq<char>) -> Option<Seq<char>> {
    let content = comment_content(comment);
    let k = first_colon(content);
    if k < content.len() {
        Some(trim(content.subrange(k + 1, content.len() as int)))
    } else {
        None
    }
}

/// Are two texts equal.
pub fn text_equals(a: &str, b: &str) -> (r: bool)
    ensures
        r == (a@ == b@),
{
    let n = a.unicode_len();
    if n != b.unicode_len() {
        return false;
    }
    let mut i: usize = 0;
    while i < n
        invariant
            n == a@.len(),
            n == b@.len(),
            i <= n,
            forall|j: int| 0 <= j < i ==> a@[j] == b@[j],
        decreases n - i,
    {
        if a.get_char(i) != b.get_char(i) {
            return false;
        }
        i = i + 1;
    }
    assert(a@ =~= b@);
    true
}

/// A diagnostic that a test source expects, written as a comment.
#[derive(Debug)]
pub struct ExpectedDiagnostic {
    /// `error`, `warning`, `advice`
    pub severity: Severity,
    /// Line.
    pub line: u32,
    /// An optional error code.
    pub code: Option<String>,
}

proof fn lemma_first_colon_bounds(s: Seq<char>)
    ensures
        0 <= first_colon(s) <= s.len(),
        first_colon(s) < s.len() ==> s[first_colon(s)] == ':',
        forall|j: int| 0 <= j < first_colon(s) ==> s[j] != ':',
    decreases s.len(),
{
    if s.len() > 0 && s[0] != ':' {
        lemma_first_colon_bounds(s.drop_first());
        assert forall|j: int| 0 <= j < first_colon(s) implies s[j] != ':' by {
            if j > 0 {
                assert(s[j] == s.drop_first()[j - 1]);
            }
        }
    }
}

/// Index of the first character of `s` after its leading slashes.
fn skip_slashes(s: &str) -> (i: usize)
    ensures
        i <= s@.len(),
        strip_slashes(s@) == s@.subrange(i as int, s@.len() as int),
{
    let n = s.unicode_len();
    let mut i: usize = 0;
    assert(s@.subrange(0, n as int) =~= s@);
    while i < n && s.get_char(i) == '/'
        invariant
            n == s@.len(),
            i <= n,
            strip_slashes(s@) == strip_slashes(s@.subrange(i as int, n as int)),
        decreases n - i,
    {
        assert(s@.subrange(i as int, n as int).drop_first() =~= s@.subrange(i + 1, n as int));
        i = i + 1;
    }
    proof {
        if i < n {
            assert(s@.subrange(i as int, n as int)[0] == s@[i as int]);
        }
    }
    i
}

/// Bounds `a..b` of `s@.subrange(from, to)` trimmed.
fn trim_bounds(s: &str, from: usize, to: usize) -> (r: (usize, usize))
    requires
        from <= to <= s@.len(),
    ensures
        from <= r.0 <= r.1 <= to,
        trim(s@.subrange(from as int, to as int)) == s@.subrange(r.0 as int, r.1 as int),
{
    let mut a = from;
    while a < to && white_space(s.get_char(a))
        invariant
            from <= a <= to <= s@.len(),
            trim_start(s@.subrange(from as int, to as int)) == trim_start(
                s@.subrange(a as int, to as int),
            ),
        decreases to - a,
    {
        assert(s@.subrange(a as int, to as int).drop_first() =~= s@.subrange(a + 1, to as int));
        a = a + 1;
    }
    let mut b = to;
    while b > a && white_space(s.get_char(b - 1))
        invariant
            from <= a <= b <= to <= s@.len(),
            trim_start(s@.subrange(from as int, to as int)) == s@.subrange(a as int, to as int)
                || a == to,
            trim_end(s@.subrange(a as int, to as int)) == trim_end(s@.subrange(a as int, b as int)),
        decreases b - a,
    {
        assert(s@.subrange(a as int, b as int).drop_last() =~= s@.subrange(a as int, b - 1));
        b = b - 1;
    }
    proof {
        let sub = s@.subrange(a as int, to as int);
        if a == to {
            assert(sub.len() == 0);
        }
        assert(trim_start(s@.subrange(from as int, to as int)) == sub) by {
            if a < to {
                assert(!is_white_space(s@[a as int]));
                assert(sub[0] == s@[a as int]);
            }
        }
        if b > a {
            assert(s@.subrange(a as int, b as int).last() == s@[b - 1]);
        }
    }
    (a, b)
}

/// Index of the first `:` in `s@[from..to]` relative to `s`, or `to`.
fn find_colon(s: &str, from: usize, to: usize) -> (k: usize)
    requires
        from <= to <= s@.len(),
    ensures
        from <= k <= to,
        k - from == first_colon(s@.subrange(from as int, to as int)),
{
    let mut k = from;
    while k < to && s.get_char(k) != ':'
        invariant
            from <= k <= to <= s@.len(),
            first_colon(s@.subrange(from as int, to as int)) == (k - from) + first_colon(
                s@.subrange(k as int, to as int),
            ),
        decreases to - k,
    {
        assert(s@.subrange(k as int, to as int).drop_first() =~= s@.subrange(k + 1, to as int));
        k = k + 1;
    }
    k
}

/// Is `s@[from..to]` equal to the lower case ASCII `target`, ignoring ASCII case.
fn word_is(s: &str, from: usize, to: usize, target: &str) -> (b: bool)
    requires
        from <= to <= s@.len(),
    ensures
        b == lower_equals(s@.subrange(from as int, to as int), target@),
{
    let n = target.unicode_len();
    if to - from != n {
        return false;
    }
    let mut i: usize = 0;
    while i < n
        invariant
            n == target@.len(),
            to - from == n,
            from <= to <= s@.len(),
            i <= n,
            forall|j: int| 0 <= j < i ==> lower(s@[from + j]) == target@[j] as u32,
        decreases n - i,
    {
        let c = s.get_char(from + i);
        let l: u32 = if 'A' <= c && c <= 'Z' {
            (c as u32) + 32
        } else {
            c as u32
        };
        if l != target.get_char(i) as u32 {
            assert(s@.subrange(from as int, to as int)[i as int] == s@[from + i]);
            return false;
        }
        i = i + 1;
    }
    assert forall|j: int| 0 <= j < n implies lower(
        #[trigger] s@.subrange(from as int, to as int)[j],
    ) == target@[j] as u32 by {
        assert(s@.subrange(from as int, to as int)[j] == s@[from + j]);
    }
    true
}

impl ExpectedDiagnostic {
    /// Reads an expected diagnostic from a comment such as `// error: Code` or `// warning`.
    ///
    /// Comments that name no severity give `None`.
    pub fn from_comment(comment: &str, line: u32) -> (r: Option<ExpectedDiagnostic>)
        ensures
            r.is_some() == expected_severity(comment@).is_some(),
            r.is_some() ==> {
                let d = r.unwrap();
                &&& d.severity == expected_severity(comment@).unwrap()
                &&& d.line == line
                &&& d.code.is_some() == expected_code(comment@).is_some()
                &&& d.code.is_some() ==> d.code.unwrap()@ == expected_code(comment@).unwrap()
            },
    {
        let start = skip_slashes(comment);
        let len = comment.unicode_len();
        let (a, b) = trim_bounds(comment, start, len);
        let ghost content = comment@.subrange(a as int, b as int);
        assert(comment_content(comment@) == content);
        if a == b {
            return None;
        }
        let k = find_colon(comment, a, b);
        proof {
            lemma_first_colon_bounds(content);
            assert(content.subrange(0, (k - a) as int) =~= comment@.subrange(a as int, k as int));
        }
        let severity = if word_is(comment, a, k, "error") {
            Severity::Error
        } else if word_is(comment, a, k, "warn") || word_is(comment, a, k, "warning") {
            Severity::Warning
        } else if word_is(comment, a, k, "advice") || word_is(comment, a, k, "help") {
            Severity::Advice
        } else {
            proof {
                reveal_strlit("error");
                reveal_strlit("warn");
                reveal_strlit("warning");
                reveal_strlit("advice");
                reveal_strlit("help");
            }
            return None;
        };
        proof {
            reveal_strlit("error");
            reveal_strlit("warn");
            reveal_strlit("warning");
            reveal_strlit("advice");
            reveal_strlit("help");
        }
        let code = if k < b {
            let (c0, c1) = trim_bounds(comment, k + 1, b);
            proof {
                assert(content.subrange((k - a) + 1, content.len() as int) =~= comment@.subrange(
                    k + 1,
                    b as int,
                ));
            }
            Some(comment.substring_char(c0, c1).to_owned())
        } else {
            None
        };
        Some(ExpectedDiagnostic { severity, line, code })
    }
}

/// The comments among a list of extras, in order.
pub open spec fn extra_comments(xs: Seq<ItemExtra>) -> Seq<Comment>
    decreases xs.len(),
{
    if xs.len() == 0 {
        Seq::empty()
    } else {
        extra_comments(xs.drop_last()) + match xs.last() {
            ItemExtra::Comment(c) => seq![c],
            ItemExtra::Whitespace(_) => Seq::empty(),
        }
    }
}

/// The comments of the extras of a node: those before it, then those after it.
pub open spec fn item_extras_comments(e: ItemExtras) -> Seq<Comment> {
    extra_comments(e.leading.0@) + extra_comments(e.trailing.0@)
}

/// The comments of a node's extras and of the nodes inside it, in the order of its fields.
pub open spec fn expression_comments(e: Expression) -> Seq<Comment>
    decreases e, 0nat,
{
    match e {
        Expression::Literal(l) => item_extras_comments(l.extras),
        Expression::Bracketed(inner, _) => expression_comments(*inner),
        Expression::Tuple(t) => item_extras_comments(t.extras) + tuple_items_comments(t.values, t.values@.len()),
        Expression::ArrayRange(r) => item_extras_comments(r.extras) + array_item_comments(*r.start) + array_item_comments(*r.end),
        Expression::ArrayList(a) => item_extras_comments(a.extras) + array_items_comments(a.items, a.items@.len()),
        Expression::String(s) => item_extras_comments(s.extras) + string_parts_comments(s.parts, s.parts@.len()),
        Expression::SymbolPath(p) => item_extras_comments(p.extras),
        Expression::Marker(_) => Seq::empty(),
        Expression::BinaryOperation(b) => expression_comments(*b.lhs) + expression_comments(*b.rhs),
        Expression::UnaryOperation(u) => item_extras_comments(u.extras) + expression_comments(*u.rhs),
        Expression::Body(b) => statement_list_comments(b.statements),
        Expression::Call(c) => call_comments(c),
        Expression::ElementAccess(a) => expression_comments(*a.expr) + elements_comments(a.element_chain, a.element_chain@.len()),
        Expression::If(i) => if_comments(i),
        Expression::Error(_) => Seq::empty(),
    }
}

/// The comments of an item of a tuple.
pub open spec fn tuple_item_comments(t: TupleItem) -> Seq<Comment>
    decreases t, 0nat,
{
    item_extras_comments(t.extras) + expression_comments(t.expr)
}

/// The comments of the first `n` items of a tuple.
pub open spec fn tuple_items_comments(v: Vec<TupleItem>, n: nat) -> Seq<Comment>
    decreases v, n,
{
    if n == 0 || n > v@.len() {
        Seq::empty()
    } else {
        tuple_items_comments(v, (n - 1) as nat) + tuple_item_comments(v@[n - 1])
    }
}

/// The comments of an item of an array.
pub open spec fn array_item_comments(a: ArrayItem) -> Seq<Comment>
    decreases a, 0nat,
{
    item_extras_comments(a.extras) + expression_comments(a.expr)
}

/// The comments of the first `n` items of an array.
pub open spec fn array_items_comments(v: Vec<ArrayItem>, n: nat) -> Seq<Comment>
    decreases v, n,
{
    if n == 0 || n > v@.len() {
        Seq::empty()
    } else {
        array_items_comments(v, (n - 1) as nat) + array_item_comments(v@[n - 1])
    }
}

/// The comments of a part of a format string: those of an embedded expression.
pub open spec fn string_part_comments(p: StringPart) -> Seq<Comment>
    decreases p, 0nat,
{
    match p {
        StringPart::Expression(x) => item_extras_comments(x.extras) + expression_comments(*x.expr),
        _ => Seq::empty(),
    }
}

/// The comments of the first `n` parts of a format string.
pub open spec fn string_parts_comments(v: Vec<StringPart>, n: nat) -> Seq<Comment>
    decreases v, n,
{
    if n == 0 || n > v@.len() {
        Seq::empty()
    } else {
        string_parts_comments(v, (n - 1) as nat) + string_part_comments(v@[n - 1])
    }
}

/// The comments of an argument.
pub open spec fn argument_comments(a: Argument) -> Seq<Comment>
    decreases a, 0nat,
{
    match a {
        Argument::Unnamed(x) => item_extras_comments(x.extras) + expression_comments(x.expr),
        Argument::Named(x) => item_extras_comments(x.extras) + expression_comments(x.expr),
    }
}

/// The comments of the first `n` arguments.
pub open spec fn arguments_comments(v: Vec<Argument>, n: nat) -> Seq<Comment>
    decreases v, n,
{
    if n == 0 || n > v@.len() {
        Seq::empty()
    } else {
        arguments_comments(v, (n - 1) as nat) + argument_comments(v@[n - 1])
    }
}

/// The comments of a call: its own, its name's, then those of its argument list.
pub open spec fn call_comments(c: Call) -> Seq<Comment>
    decreases c, 0nat,
{
    item_extras_comments(c.extras) + item_extras_comments(c.name.extras) + item_extras_comments(c.arguments.extras)
        + arguments_comments(c.arguments.arguments, c.arguments.arguments@.len())
}

/// The comments of an element of an element access.
pub open spec fn element_comments(e: Element) -> Seq<Comment>
    decreases e, 0nat,
{
    item_extras_comments(e.extras) + match e.inner {
        ElementInner::Method(c) => call_comments(*c),
        ElementInner::ArrayElement(x) => expression_comments(*x),
        _ => Seq::empty(),
    }
}

/// The comments of the first `n` elements of an element access.
pub open spec fn elements_comments(v: Vec<Element>, n: nat) -> Seq<Comment>
    decreases v, n,
{
    if n == 0 || n > v@.len() {
        Seq::empty()
    } else {
        elements_comments(v, (n - 1) as nat) + element_comments(v@[n - 1])
    }
}

/// The comments of an `if`: its own, the condition's, the body's, then those of the next
/// `if` and of the `else` body.
pub open spec fn if_comments(i: If) -> Seq<Comment>
    decreases i, 0nat,
{
    item_extras_comments(i.extras) + expression_comments(*i.condition) + statement_list_comments(i.body.statements)
        + match i.next_if {
            Some(n) => if_comments(*n),
            None => Seq::empty(),
        } + match i.else_body {
            Some(b) => statement_list_comments(b.statements),
            None => Seq::empty(),
        }
}

/// The comments of an attribute command.
pub open spec fn command_comments(c: AttributeCommand) -> Seq<Comment>
    decreases c, 0nat,
{
    match c {
        AttributeCommand::Ident(_) => Seq::empty(),
        AttributeCommand::Assignment(a) => local_assignment_comments(a),
        AttributeCommand::Call(x) => call_comments(x),
    }
}

/// The comments of the first `n` commands of an attribute.
pub open spec fn commands_comments(v: Vec<AttributeCommand>, n: nat) -> Seq<Comment>
    decreases v, n,
{
    if n == 0 || n > v@.len() {
        Seq::empty()
    } else {
        commands_comments(v, (n - 1) as nat) + command_comments(v@[n - 1])
    }
}

/// The comments of an attribute.
pub open spec fn attribute_comments(a: Attribute) -> Seq<Comment>
    decreases a, 0nat,
{
    item_extras_comments(a.extras) + commands_comments(a.commands, a.commands@.len())
}

/// The comments of the first `n` attributes.
pub open spec fn attributes_comments(v: Vec<Attribute>, n: nat) -> Seq<Comment>
    decreases v, n,
{
    if n == 0 || n > v@.len() {
        Seq::empty()
    } else {
        attributes_comments(v, (n - 1) as nat) + attribute_comments(v@[n - 1])
    }
}

/// The comments of an assignment to a local.
pub open spec fn local_assignment_comments(a: LocalAssignment) -> Seq<Comment>
    decreases a, 0nat,
{
    item_extras_comments(a.extras) + attributes_comments(a.attr, a.attr@.len()) + expression_comments(*a.expr)
}

/// The comments of a parameter.
pub open spec fn parameter_comments(p: Parameter) -> Seq<Comment>
    decreases p, 0nat,
{
    item_extras_comments(p.extras) + attributes_comments(p.attr, p.attr@.len()) + match p.default {
        Some(d) => expression_comments(d),
        None => Seq::empty(),
    }
}

/// The comments of the first `n` parameters.
pub open spec fn parameters_comments(v: Vec<Parameter>, n: nat) -> Seq<Comment>
    decreases v, n,
{
    if n == 0 || n > v@.len() {
        Seq::empty()
    } else {
        parameters_comments(v, (n - 1) as nat) + parameter_comments(v@[n - 1])
    }
}

/// The comments of a parameter list.
pub open spec fn parameter_list_comments(p: ParameterList) -> Seq<Comment>
    decreases p, 0nat,
{
    item_extras_comments(p.extras) + parameters_comments(p.parameters, p.parameters@.len())
}

/// The comments of an expression statement.
pub open spec fn expression_statement_comments(s: ExpressionStatement) -> Seq<Comment>
    decreases s, 0nat,
{
    item_extras_comments(s.extras) + attributes_comments(s.attr, s.attr@.len()) + expression_comments(s.expression)
}

/// The comments of a definition: its own, its attributes', its parameters', its body's.
pub open spec fn definition_comments(d: Definition) -> Seq<Comment>
    decreases d, 0nat,
{
    item_extras_comments(d.extras) + attributes_comments(d.attr, d.attr@.len()) + match d.parameters {
        Some(p) => parameter_list_comments(p),
        None => Seq::empty(),
    } + match d.body {
        Some(b) => statement_list_comments(b.statements),
        None => Seq::empty(),
    }
}

/// The comments of a statement and of the nodes inside it, in the order of its fields.
pub open spec fn statement_comments(s: Statement) -> Seq<Comment>
    decreases s, 0nat,
{
    match s {
        Statement::Workbench(_, d) => definition_comments(d),
        Statement::InlineModule(d) => definition_comments(d),
        Statement::FileModule(d) => definition_comments(d),
        Statement::Function(d) => definition_comments(d),
        Statement::Init(d) => definition_comments(d),
        Statement::Use(u) => attributes_comments(u.attr, u.attr@.len()) + item_extras_comments(u.extras)
            + item_extras_comments(u.name.extras),
        Statement::Const(c) => item_extras_comments(c.extras) + attributes_comments(c.attr, c.attr@.len())
            + expression_comments(*c.expr),
        Statement::Return(r) => item_extras_comments(r.extras) + match r.value {
            Some(v) => expression_comments(v),
            None => Seq::empty(),
        },
        Statement::InnerAttribute(a) => attribute_comments(a),
        Statement::InnerDocComment(_) => Seq::empty(),
        Statement::LocalAssignment(a) => local_assignment_comments(a),
        Statement::Property(p) => item_extras_comments(p.extras) + attributes_comments(p.attr, p.attr@.len())
            + expression_comments(*p.value),
        Statement::Expression(x) => expression_statement_comments(x),
        Statement::Error(_) => Seq::empty(),
    }
}

/// The comments of the first `n` statements, each followed by the extras after it.
pub open spec fn statements_comments(v: Vec<(Statement, TrailingExtras)>, n: nat) -> Seq<Comment>
    decreases v, n,
{
    if n == 0 || n > v@.len() {
        Seq::empty()
    } else {
        statements_comments(v, (n - 1) as nat) + statement_comments(v@[n - 1].0) + extra_comments(v@[n - 1].1.0@)
    }
}

/// The comments of a statement list: its own extras, each statement followed by the
/// extras after it, then the tail expression.
pub open spec fn statement_list_comments(l: StatementList) -> Seq<Comment>
    decreases l, 0nat,
{
    item_extras_comments(l.extras) + statements_comments(l.statements, l.statements@.len()) + match l.tail {
        Some(t) => expression_statement_comments(*t),
        None => Seq::empty(),
    }
}

/// The comments that references point to.
pub open spec fn pointed<'a>(v: Seq<&'a Comment>) -> Seq<Comment> {
    v.map_values(|c: &'a Comment| *c)
}

/// Collects the comments (not the doc comments) of a syntax tree, in order.
#[derive(Debug)]
pub struct CommentCollector<'a>(pub Vec<&'a Comment>);

impl<'a> CommentCollector<'a> {
    /// A collector that has seen no comment.
    pub fn new() -> (c: CommentCollector<'a>)
        ensures
            c.0@.len() == 0,
    {
        CommentCollector(Vec::new())
    }

    /// Records a comment.
    pub fn visit_comment(&mut self, comment: &'a Comment)
        ensures
            pointed(final(self).0@) == pointed(old(self).0@).push(*comment),
    {
        self.0.push(comment);
        assert(pointed(self.0@) =~= pointed(old(self).0@).push(*comment));
    }

    /// Records the comments among `extras`.
    pub fn visit_extra_list(&mut self, extras: &'a Vec<ItemExtra>)
        ensures
            pointed(final(self).0@) == pointed(old(self).0@) + extra_comments(extras@),
    {
        let mut i: usize = 0;
        while i < extras.len()
            invariant
                i <= extras.len(),
                pointed(self.0@) == pointed(old(self).0@) + extra_comments(extras@.take(i as int)),
            decreases extras.len() - i,
        {
            assert(extras@.take(i + 1).drop_last() =~= extras@.take(i as int));
            match &extras[i] {
                ItemExtra::Comment(c) => {
                    self.visit_comment(c);
                },
                ItemExtra::Whitespace(_) => {},
            }
            assert(pointed(self.0@) =~= pointed(old(self).0@) + extra_comments(extras@.take(i + 1)));
            i = i + 1;
        }
        assert(extras@.take(extras@.len() as int) =~= extras@);
    }

    /// Records the comments of a node's extras, those before it first.
    pub fn visit_extras(&mut self, extras: &'a ItemExtras)
        ensures
            pointed(final(self).0@) == pointed(old(self).0@) + item_extras_comments(*extras),
    {
        self.visit_extra_list(&extras.leading.0);
        self.visit_extra_list(&extras.trailing.0);
        assert(pointed(self.0@) =~= pointed(old(self).0@) + item_extras_comments(*extras));
    }

    /// Records the comments of an expression and of the nodes inside it, in order.
    pub fn visit_expression(&mut self, e: &'a Expression)
        ensures
            pointed(final(self).0@) == pointed(old(self).0@) + expression_comments(*e),
        decreases e,
    {
        match e {
            Expression::Literal(l) => self.visit_extras(&l.extras),
            Expression::Bracketed(inner, _) => self.visit_expression(&**inner),
            Expression::Tuple(t) => {
                self.visit_extras(&t.extras);
                self.visit_tuple_items(&t.values);
            },
            Expression::ArrayRange(r) => {
                self.visit_extras(&r.extras);
                self.visit_array_item(&*r.start);
                self.visit_array_item(&*r.end);
            },
            Expression::ArrayList(a) => {
                self.visit_extras(&a.extras);
                self.visit_array_items(&a.items);
            },
            Expression::String(s) => {
                self.visit_extras(&s.extras);
                self.visit_string_parts(&s.parts);
            },
            Expression::SymbolPath(p) => self.visit_extras(&p.extras),
            Expression::Marker(_) => {},
            Expression::BinaryOperation(b) => {
                self.visit_expression(&*b.lhs);
                self.visit_expression(&*b.rhs);
            },
            Expression::UnaryOperation(u) => {
                self.visit_extras(&u.extras);
                self.visit_expression(&*u.rhs);
            },
            Expression::Body(b) => self.visit_statement_list(&b.statements),
            Expression::Call(c) => self.visit_call(c),
            Expression::ElementAccess(a) => {
                self.visit_expression(&*a.expr);
                self.visit_elements(&a.element_chain);
            },
            Expression::If(i) => self.visit_if(i),
            Expression::Error(_) => {},
        }
        assert(pointed(self.0@) =~= pointed(old(self).0@) + expression_comments(*e));
    }

    /// Records the comments of an item of a tuple.
    pub fn visit_tuple_item(&mut self, t: &'a TupleItem)
        ensures
            pointed(final(self).0@) == pointed(old(self).0@) + tuple_item_comments(*t),
        decreases t,
    {
        self.visit_extras(&t.extras);
        self.visit_expression(&t.expr);
        assert(pointed(self.0@) =~= pointed(old(self).0@) + tuple_item_comments(*t));
    }

    /// Records the comments of an item of an array.
    pub fn visit_array_item(&mut self, a: &'a ArrayItem)
        ensures
            pointed(final(self).0@) == pointed(old(self).0@) + array_item_comments(*a),
        decreases a,
    {
        self.visit_extras(&a.extras);
        self.visit_expression(&a.expr);
        assert(pointed(self.0@) =~= pointed(old(self).0@) + array_item_comments(*a));
    }

    /// Records the comments of a part of a format string.
    pub fn visit_string_part(&mut self, p: &'a StringPart)
        ensures
            pointed(final(self).0@) == pointed(old(self).0@) + string_part_comments(*p),
        decreases p,
    {
        match p {
            StringPart::Expression(x) => {
                self.visit_extras(&x.extras);
                self.visit_expression(&*x.expr);
            },
            _ => {},
        }
        assert(pointed(self.0@) =~= pointed(old(self).0@) + string_part_comments(*p));
    }

    /// Records the comments of an argument.
    pub fn visit_argument(&mut self, a: &'a Argument)
        ensures
            pointed(final(self).0@) == pointed(old(self).0@) + argument_comments(*a),
        decreases a,
    {
        match a {
            Argument::Unnamed(x) => {
                self.visit_extras(&x.extras);
                self.visit_expression(&x.expr);
            },
            Argument::Named(x) => {
                self.visit_extras(&x.extras);
                self.visit_expression(&x.expr);
            },
        }
        assert(pointed(self.0@) =~= pointed(old(self).0@) + argument_comments(*a));
    }

    /// Records the comments of a call: its own, its name's, then those of its arguments.
    pub fn visit_call(&mut self, c: &'a Call)
        ensures
            pointed(final(self).0@) == pointed(old(self).0@) + call_comments(*c),
        decreases c,
    {
        self.visit_extras(&c.extras);
        self.visit_extras(&c.name.extras);
        self.visit_extras(&c.arguments.extras);
        self.visit_arguments(&c.arguments.arguments);
        assert(pointed(self.0@) =~= pointed(old(self).0@) + call_comments(*c));
    }

    /// Records the comments of an element of an element access.
    pub fn visit_element(&mut self, e: &'a Element)
        ensures
            pointed(final(self).0@) == pointed(old(self).0@) + element_comments(*e),
        decreases e,
    {
        self.visit_extras(&e.extras);
        match &e.inner {
            ElementInner::Method(c) => self.visit_call(&**c),
            ElementInner::ArrayElement(x) => self.visit_expression(&**x),
            _ => {},
        }
        assert(pointed(self.0@) =~= pointed(old(self).0@) + element_comments(*e));
    }

    /// Records the comments of an `if`, then those of the next `if` and the `else` body.
    pub fn visit_if(&mut self, i: &'a If)
        ensures
            pointed(final(self).0@) == pointed(old(self).0@) + if_comments(*i),
        decreases i,
    {
        self.visit_extras(&i.extras);
        self.visit_expression(&*i.condition);
        self.visit_statement_list(&i.body.statements);
        match &i.next_if {
            Some(n) => self.visit_if(&**n),
            None => {},
        }
        match &i.else_body {
            Some(b) => self.visit_statement_list(&b.statements),
            None => {},
        }
        assert(pointed(self.0@) =~= pointed(old(self).0@) + if_comments(*i));
    }

    /// Records the comments of an attribute command.
    pub fn visit_attribute_command(&mut self, c: &'a AttributeCommand)
        ensures
            pointed(final(self).0@) == pointed(old(self).0@) + command_comments(*c),
        decreases c,
    {
        match c {
            AttributeCommand::Ident(_) => {},
            AttributeCommand::Assignment(a) => self.visit_local_assignment(a),
            AttributeCommand::Call(x) => self.visit_call(x),
        }
        assert(pointed(self.0@) =~= pointed(old(self).0@) + command_comments(*c));
    }

    /// Records the comments of an attribute.
    pub fn visit_attribute(&mut self, a: &'a Attribute)
        ensures
            pointed(final(self).0@) == pointed(old(self).0@) + attribute_comments(*a),
        decreases a,
    {
        self.visit_extras(&a.extras);
        self.visit_commands(&a.commands);
        assert(pointed(self.0@) =~= pointed(old(self).0@) + attribute_comments(*a));
    }

    /// Records the comments of an assignment to a local.
    pub fn visit_local_assignment(&mut self, a: &'a LocalAssignment)
        ensures
            pointed(final(self).0@) == pointed(old(self).0@) + local_assignment_comments(*a),
        decreases a,
    {
        self.visit_extras(&a.extras);
        self.visit_attributes(&a.attr);
        self.visit_expression(&*a.expr);
        assert(pointed(self.0@) =~= pointed(old(self).0@) + local_assignment_comments(*a));
    }

    /// Records the comments of a parameter.
    pub fn visit_parameter(&mut self, p: &'a Parameter)
        ensures
            pointed(final(self).0@) == pointed(old(self).0@) + parameter_comments(*p),
        decreases p,
    {
        self.visit_extras(&p.extras);
        self.visit_attributes(&p.attr);
        match &p.default {
            Some(d) => self.visit_expression(d),
            None => {},
        }
        assert(pointed(self.0@) =~= pointed(old(self).0@) + parameter_comments(*p));
    }

    /// Records the comments of a parameter list.
    pub fn visit_parameter_list(&mut self, p: &'a ParameterList)
        ensures
            pointed(final(self).0@) == pointed(old(self).0@) + parameter_list_comments(*p),
        decreases p,
    {
        self.visit_extras(&p.extras);
        self.visit_parameters(&p.parameters);
        assert(pointed(self.0@) =~= pointed(old(self).0@) + parameter_list_comments(*p));
    }

    /// Records the comments of an expression statement.
    pub fn visit_expression_statement(&mut self, s: &'a ExpressionStatement)
        ensures
            pointed(final(self).0@) == pointed(old(self).0@) + expression_statement_comments(*s),
        decreases s,
    {
        self.visit_extras(&s.extras);
        self.visit_attributes(&s.attr);
        self.visit_expression(&s.expression);
        assert(pointed(self.0@) =~= pointed(old(self).0@) + expression_statement_comments(*s));
    }

    /// Records the comments of a definition: its own, its attributes', its parameters', then
    /// its body's.
    pub fn visit_definition(&mut self, d: &'a Definition)
        ensures
            pointed(final(self).0@) == pointed(old(self).0@) + definition_comments(*d),
        decreases d,
    {
        self.visit_extras(&d.extras);
        self.visit_attributes(&d.attr);
        match &d.parameters {
            Some(p) => self.visit_parameter_list(p),
            None => {},
        }
        match &d.body {
            Some(b) => self.visit_statement_list(&b.statements),
            None => {},
        }
        assert(pointed(self.0@) =~= pointed(old(self).0@) + definition_comments(*d));
    }

    /// Records the comments of a statement and of the nodes inside it, in order.
    pub fn visit_statement(&mut self, statement: &'a Statement)
        ensures
            pointed(final(self).0@) == pointed(old(self).0@) + statement_comments(*statement),
        decreases statement,
    {
        match statement {
            Statement::Workbench(_, d) => self.visit_definition(d),
            Statement::InlineModule(d) => self.visit_definition(d),
            Statement::FileModule(d) => self.visit_definition(d),
            Statement::Function(d) => self.visit_definition(d),
            Statement::Init(d) => self.visit_definition(d),
            Statement::Use(u) => {
                self.visit_attributes(&u.attr);
                self.visit_extras(&u.extras);
                self.visit_extras(&u.name.extras);
            },
            Statement::Const(c) => {
                self.visit_extras(&c.extras);
                self.visit_attributes(&c.attr);
                self.visit_expression(&*c.expr);
            },
            Statement::Return(r) => {
                self.visit_extras(&r.extras);
                match &r.value {
                    Some(v) => self.visit_expression(v),
                    None => {},
                }
            },
            Statement::InnerAttribute(a) => self.visit_attribute(a),
            Statement::InnerDocComment(_) => {},
            Statement::LocalAssignment(a) => self.visit_local_assignment(a),
            Statement::Property(p) => {
                self.visit_extras(&p.extras);
                self.visit_attributes(&p.attr);
                self.visit_expression(&*p.value);
            },
            Statement::Expression(x) => self.visit_expression_statement(x),
            Statement::Error(_) => {},
        }
        assert(pointed(self.0@) =~= pointed(old(self).0@) + statement_comments(*statement));
    }

    /// Records the comments of statements, each followed by the extras after it.
    fn visit_statements(&mut self, v: &'a Vec<(Statement, TrailingExtras)>)
        ensures
            pointed(final(self).0@) == pointed(old(self).0@) + statements_comments(*v, v@.len()),
        decreases v,
    {
        let mut i: usize = 0;
        while i < v.len()
            invariant
                i <= v@.len(),
                pointed(self.0@) == pointed(old(self).0@) + statements_comments(*v, i as nat),
            decreases v@.len() - i,
        {
            proof {
                assert(decreases_to!(*v => v@));
                assert(decreases_to!(v@ => v@[i as int]));
                let pair = v@[i as int];
                assert(decreases_to!(pair => pair.0));
            }
            self.visit_statement(&v[i].0);
            self.visit_extra_list(&v[i].1.0);
            assert(pointed(self.0@) =~= pointed(old(self).0@) + statements_comments(*v, (i + 1) as nat));
            i = i + 1;
        }
    }

    /// Records the comments of a statement list: its own extras, each statement followed by
    /// the extras after it, then the tail expression.
    pub fn visit_statement_list(&mut self, list: &'a StatementList)
        ensures
            pointed(final(self).0@) == pointed(old(self).0@) + statement_list_comments(*list),
        decreases list,
    {
        self.visit_extras(&list.extras);
        self.visit_statements(&list.statements);
        match &list.tail {
            Some(t) => self.visit_expression_statement(&**t),
            None => {},
        }
        assert(pointed(self.0@) =~= pointed(old(self).0@) + statement_list_comments(*list));
    }

    /// Records the comments of the items of a tuple, in order.
    fn visit_tuple_items(&mut self, v: &'a Vec<TupleItem>)
        ensures
            pointed(final(self).0@) == pointed(old(self).0@) + tuple_items_comments(*v, v@.len()),
        decreases v,
    {
        let mut i: usize = 0;
        while i < v.len()
            invariant
                i <= v@.len(),
                pointed(self.0@) == pointed(old(self).0@) + tuple_items_comments(*v, i as nat),
            decreases v@.len() - i,
        {
            proof {
                assert(decreases_to!(*v => v@));
                assert(decreases_to!(v@ => v@[i as int]));
            }
            self.visit_tuple_item(&v[i]);
            assert(pointed(self.0@) =~= pointed(old(self).0@) + tuple_items_comments(*v, (i + 1) as nat));
            i = i + 1;
        }
    }

    /// Records the comments of the items of an array, in order.
    fn visit_array_items(&mut self, v: &'a Vec<ArrayItem>)
        ensures
            pointed(final(self).0@) == pointed(old(self).0@) + array_items_comments(*v, v@.len()),
        decreases v,
    {
        let mut i: usize = 0;
        while i < v.len()
            invariant
                i <= v@.len(),
                pointed(self.0@) == pointed(old(self).0@) + array_items_comments(*v, i as nat),
            decreases v@.len() - i,
        {
            proof {
                assert(decreases_to!(*v => v@));
                assert(decreases_to!(v@ => v@[i as int]));
            }
            self.visit_array_item(&v[i]);
            assert(pointed(self.0@) =~= pointed(old(self).0@) + array_items_comments(*v, (i + 1) as nat));
            i = i + 1;
        }
    }

    /// Records the comments of the parts of a format string, in order.
    fn visit_string_parts(&mut self, v: &'a Vec<StringPart>)
        ensures
            pointed(final(self).0@) == pointed(old(self).0@) + string_parts_comments(*v, v@.len()),
        decreases v,
    {
        let mut i: usize = 0;
        while i < v.len()
            invariant
                i <= v@.len(),
                pointed(self.0@) == pointed(old(self).0@) + string_parts_comments(*v, i as nat),
            decreases v@.len() - i,
        {
            proof {
                assert(decreases_to!(*v => v@));
                assert(decreases_to!(v@ => v@[i as int]));
            }
            self.visit_string_part(&v[i]);
            assert(pointed(self.0@) =~= pointed(old(self).0@) + string_parts_comments(*v, (i + 1) as nat));
            i = i + 1;
        }
    }

    /// Records the comments of the arguments, in order.
    fn visit_arguments(&mut self, v: &'a Vec<Argument>)
        ensures
            pointed(final(self).0@) == pointed(old(self).0@) + arguments_comments(*v, v@.len()),
        decreases v,
    {
        let mut i: usize = 0;
        while i < v.len()
            invariant
                i <= v@.len(),
                pointed(self.0@) == pointed(old(self).0@) + arguments_comments(*v, i as nat),
            decreases v@.len() - i,
        {
            proof {
                assert(decreases_to!(*v => v@));
                assert(decreases_to!(v@ => v@[i as int]));
            }
            self.visit_argument(&v[i]);
            assert(pointed(self.0@) =~= pointed(old(self).0@) + arguments_comments(*v, (i + 1) as nat));
            i = i + 1;
        }
    }

    /// Records the comments of the elements of an element access, in order.
    fn visit_elements(&mut self, v: &'a Vec<Element>)
        ensures
            pointed(final(self).0@) == pointed(old(self).0@) + elements_comments(*v, v@.len()),
        decreases v,
    {
        let mut i: usize = 0;
        while i < v.len()
            invariant
                i <= v@.len(),
                pointed(self.0@) == pointed(old(self).0@) + elements_comments(*v, i as nat),
            decreases v@.len() - i,
        {
            proof {
                assert(decreases_to!(*v => v@));
                assert(decreases_to!(v@ => v@[i as int]));
            }
            self.visit_element(&v[i]);
            assert(pointed(self.0@) =~= pointed(old(self).0@) + elements_comments(*v, (i + 1) as nat));
            i = i + 1;
        }
    }

    /// Records the comments of the commands of an attribute, in order.
    fn visit_commands(&mut self, v: &'a Vec<AttributeCommand>)
        ensures
            pointed(final(self).0@) == pointed(old(self).0@) + commands_comments(*v, v@.len()),
        decreases v,
    {
        let mut i: usize = 0;
        while i < v.len()
            invariant
                i <= v@.len(),
                pointed(self.0@) == pointed(old(self).0@) + commands_comments(*v, i as nat),
            decreases v@.len() - i,
        {
            proof {
                assert(decreases_to!(*v => v@));
                assert(decreases_to!(v@ => v@[i as int]));
            }
            self.visit_attribute_command(&v[i]);
            assert(pointed(self.0@) =~= pointed(old(self).0@) + commands_comments(*v, (i + 1) as nat));
            i = i + 1;
        }
    }

    /// Records the comments of the attributes, in order.
    fn visit_attributes(&mut self, v: &'a Vec<Attribute>)
        ensures
            pointed(final(self).0@) == pointed(old(self).0@) + attributes_comments(*v, v@.len()),
        decreases v,
    {
        let mut i: usize = 0;
        while i < v.len()
            invariant
                i <= v@.len(),
                pointed(self.0@) == pointed(old(self).0@) + attributes_comments(*v, i as nat),
            decreases v@.len() - i,
        {
            proof {
                assert(decreases_to!(*v => v@));
                assert(decreases_to!(v@ => v@[i as int]));
            }
            self.visit_attribute(&v[i]);
            assert(pointed(self.0@) =~= pointed(old(self).0@) + attributes_comments(*v, (i + 1) as nat));
            i = i + 1;
        }
    }

    /// Records the comments of the parameters, in order.
    fn visit_parameters(&mut self, v: &'a Vec<Parameter>)
        ensures
            pointed(final(self).0@) == pointed(old(self).0@) + parameters_comments(*v, v@.len()),
        decreases v,
    {
        let mut i: usize = 0;
        while i < v.len()
            invariant
                i <= v@.len(),
                pointed(self.0@) == pointed(old(self).0@) + parameters_comments(*v, i as nat),
            decreases v@.len() - i,
        {
            proof {
                assert(decreases_to!(*v => v@));
                assert(decreases_to!(v@ => v@[i as int]));
            }
            self.visit_parameter(&v[i]);
            assert(pointed(self.0@) =~= pointed(old(self).0@) + parameters_comments(*v, (i + 1) as nat));
            i = i + 1;
        }
    }

    /// The comments collected so far.
    pub fn comments(&self) -> (v: &Vec<&'a Comment>)
        ensures
            v@ == self.0@,
    {
        &self.0
    }
}

/// Does `d` describe what the single line comment `text` on line `line` expects.
pub open spec fn describes(d: ExpectedDiagnostic, text: Seq<char>, line: int) -> bool {
    &&& expected_severity(text) matches Some(s) && d.severity == s
    &&& d.line == line
    &&& d.code.is_some() == expected_code(text).is_some()
    &&& d.code.is_some() ==> d.code.unwrap()@ == expected_code(text).unwrap()
}

/// Are `ds` the diagnostics that `comments` of `source` expect, in order: one for each
/// single line comment that names a severity, on the line where it starts.
pub open spec fn collects(source: Seq<u8>, comments: Seq<Comment>, ds: Seq<ExpectedDiagnostic>) -> bool
    decreases comments.len(),
{
    if comments.len() == 0 {
        ds.len() == 0
    } else {
        let c = comments.last();
        match c.inner {
            CommentInner::SingleLine(text) => if expected_severity(text@) is Some {
                &&& ds.len() > 0
                &&& describes(ds.last(), text@, line_of(source, c.span.start as int))
                &&& collects(source, comments.drop_last(), ds.drop_last())
            } else {
                collects(source, comments.drop_last(), ds)
            },
            CommentInner::MultiLine(_) => collects(source, comments.drop_last(), ds),
        }
    }
}

/// The number of `\n` bytes among the first `n` bytes of `b`.
pub open spec fn newlines(b: Seq<u8>, n: int) -> int
    decreases n,
{
    if n <= 0 || n > b.len() {
        0
    } else {
        newlines(b, n - 1) + if b[n - 1] == 10u8 { 1int } else { 0int }
    }
}

proof fn lemma_newlines_bound(b: Seq<u8>, n: int)
    requires
        0 <= n <= b.len(),
    ensures
        0 <= newlines(b, n) <= n,
    decreases n,
{
    if n > 0 {
        lemma_newlines_bound(b, n - 1);
    }
}

/// The line, counted from 1, of the byte at `offset` in `source`; an offset past the end
/// counts the lines of the whole source.
pub open spec fn line_of(source: Seq<u8>, offset: int) -> int {
    1 + newlines(source, if offset < source.len() { offset } else { source.len() as int })
}

/// Collects the diagnostics that the comments of a source expect, with their lines.
#[derive(Debug)]
pub struct ExpectedDiagnosticsCollector<'a> {
    source: &'a str,
    diagnostics: Vec<ExpectedDiagnostic>,
}

impl<'a> ExpectedDiagnosticsCollector<'a> {
    /// The source the collector reads lines from.
    pub closed spec fn source(&self) -> Seq<u8> {
        self.source.spec_bytes()
    }

    /// The lines of the source can be counted in a `u32`.
    pub open spec fn wf(&self) -> bool {
        self.source().len() < u32::MAX
    }

    /// The diagnostics collected so far.
    pub closed spec fn collected(&self) -> Seq<ExpectedDiagnostic> {
        self.diagnostics@
    }

    /// A collector for `source` without diagnostics.
    pub fn new(source: &'a str) -> (c: ExpectedDiagnosticsCollector<'a>)
        requires
            source.spec_bytes().len() < u32::MAX,
        ensures
            c.wf(),
            c.source() == source.spec_bytes(),
            c.collected().len() == 0,
    {
        ExpectedDiagnosticsCollector { source, diagnostics: Vec::new() }
    }

    /// The line of the byte at `offset`.
    fn line(&self, offset: usize) -> (l: u32)
        requires
            self.wf(),
        ensures
            l == line_of(self.source(), offset as int),
    {
        let b = self.source.as_bytes();
        let n = if offset < b.len() { offset } else { b.len() };
        let mut count: u32 = 0;
        let mut i: usize = 0;
        while i < n
            invariant
                n <= b@.len(),
                b@ == self.source(),
                self.wf(),
                i <= n,
                count == newlines(b@, i as int),
            decreases n - i,
        {
            proof {
                lemma_newlines_bound(b@, i as int);
            }
            if b[i] == 10u8 {
                count = count + 1;
            }
            i = i + 1;
        }
        proof {
            lemma_newlines_bound(b@, n as int);
        }
        count + 1
    }

    /// Records what a single line comment expects, on the line where it starts.
    pub fn visit_comment(&mut self, comment: &Comment)
        requires
            old(self).wf(),
        ensures
            final(self).wf(),
            final(self).source() == old(self).source(),
            match comment.inner {
                CommentInner::SingleLine(text) => if expected_severity(text@) is Some {
                    &&& final(self).collected().len() == old(self).collected().len() + 1
                    &&& final(self).collected().drop_last() == old(self).collected()
                    &&& describes(final(self).collected().last(), text@, line_of(old(self).source(), comment.span.start as int))
                } else {
                    final(self).collected() == old(self).collected()
                },
                CommentInner::MultiLine(_) => final(self).collected() == old(self).collected(),
            },
    {
        match &comment.inner {
            CommentInner::SingleLine(text) => {
                let line = self.line(comment.span.start);
                match ExpectedDiagnostic::from_comment(text.as_str(), line) {
                    Some(d) => {
                        self.diagnostics.push(d);
                        assert(self.diagnostics@.drop_last() =~= old(self).diagnostics@);
                    },
                    None => {},
                }
            },
            CommentInner::MultiLine(_) => {},
        }
    }

    /// Records what the single line comments of a statement list expect, in the order
    /// the comment collector meets them.
    pub fn visit_statement_list(&mut self, list: &StatementList)
        requires
            old(self).wf(),
        ensures
            final(self).wf(),
            final(self).source() == old(self).source(),
            final(self).collected().len() >= old(self).collected().len(),
            final(self).collected().take(old(self).collected().len() as int) == old(self).collected(),
            collects(
                old(self).source(),
                statement_list_comments(*list),
                final(self).collected().skip(old(self).collected().len() as int),
            ),
    {
        let mut comments = CommentCollector::new();
        comments.visit_statement_list(list);
        let v = comments.comments();
        let ghost n0 = self.collected().len() as int;
        let ghost all = pointed(v@);
        assert(all == statement_list_comments(*list)) by {
            assert(pointed(comments.0@) =~= Seq::<Comment>::empty() + statement_list_comments(*list));
        }
        let mut i: usize = 0;
        while i < v.len()
            invariant
                self.wf(),
                self.source() == old(self).source(),
                all == pointed(v@),
                n0 == old(self).collected().len(),
                i <= v@.len(),
                n0 <= self.collected().len(),
                self.collected().take(n0) == old(self).collected(),
                collects(old(self).source(), all.take(i as int), self.collected().skip(n0)),
            decreases v@.len() - i,
        {
            let ghost before = self.collected();
            self.visit_comment(v[i]);
            proof {
                assert(all.take(i + 1).drop_last() =~= all.take(i as int));
                assert(all.take(i + 1).last() == *v@[i as int]);
                if self.collected().len() > before.len() {
                    assert(self.collected().skip(n0).drop_last() =~= before.skip(n0));
                    assert(self.collected().skip(n0).last() == self.collected().last());
                    assert(self.collected().take(n0) =~= before.take(n0));
                }
            }
            i = i + 1;
        }
        assert(all.take(v@.len() as int) =~= all);
    }

    /// The diagnostics collected so far.
    pub fn diagnostics(&self) -> (d: &Vec<ExpectedDiagnostic>)
        ensures
            d@ == self.collected(),
    {
        &self.diagnostics
    }
}

} // verus!
