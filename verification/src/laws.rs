//! Properties that hold across the operations of the library.

use vstd::prelude::*;

use crate::diag::{parse_issue_severity, resolve_issue_of, resolve_issue_severity, ParseIssue};
use crate::ast::BinaryOperator;
use crate::check::Case;
use crate::lex::{normal_expected, normal_wf, NormalToken, QuoteVariant, TokenShape};
use crate::locate::{
    extension_of, first_mod_file, first_with_extension, is_microcad_file, joined, microcad_extensions, mod_file_name,
    resolved_path_spec, with_extension, PathFacts,
};
use crate::parse::token_operator;
use crate::token::Token;
use crate::library::{marks_union, Library, UnresolvedPath};
use crate::resolve::cache::{inserted, lemma_loaded_from, lemma_loaded_from_first};
use crate::resolve::{loaded_from, same_library_id};
use crate::library::symbol::SymbolDef;
use crate::ir::{FunctionStatement, Group, Scope, WorkbenchExpression, WorkbenchStatement};
use crate::resolve::visitor::{def_ok, def_resolved, env_of, fn_stmt_after, lemma_def_resolved_fixed, wb_stmt_after};
use crate::resolve::{innermost_with_local, top_locals, ResolveStackFrame, ResolveVisitor};
use crate::rst::{path_pieces, tree_inserted, SymbolHandle, SymbolTree};
use crate::span::{Span, Spanned};

verus! {

/// A handle inserted into a symbol index is found at the position that was its length, and
/// the handles before it stay where they were.
pub proof fn index_insert_then_get(index: Seq<SymbolHandle>, h: SymbolHandle)
    ensures
        index.push(h).len() == index.len() + 1,
        index.push(h)[index.len() as int] == h,
        forall|i: int| 0 <= i < index.len() ==> #[trigger] index.push(h)[i] == index[i],
{
}

/// A local that was just declared is found, and using it then records exactly that use.
pub proof fn declared_local_is_used(locals: Map<Seq<char>, Seq<Span>>, name: Seq<char>, at: Span)
    ensures
        locals.insert(name, Seq::empty()).contains_key(name),
        locals.insert(name, Seq::empty()).insert(name, locals.insert(name, Seq::empty())[name].push(at))[name]
            == seq![at],
{
    assert(Seq::<Span>::empty().push(at) =~= seq![at]);
}

/// Leaving a scope just entered gives back its frame and the stack as it was before.
pub proof fn push_then_pop(frames: Seq<ResolveStackFrame>, frame: ResolveStackFrame)
    ensures
        frames.push(frame).last() == frame,
        frames.push(frame).drop_last() == frames,
{
    assert(frames.push(frame).drop_last() =~= frames);
}

/// A local of the innermost scope shadows the locals of the same name in the scopes
/// around it: a use of the name is recorded in the innermost scope.
pub proof fn innermost_local_shadows(frames: Seq<ResolveStackFrame>, frame: ResolveStackFrame, name: Seq<char>)
    requires
        frame.has_local_spec(name),
    ensures
        innermost_with_local(frames.push(frame), name, frames.len() + 1int) == Some(frames.len() as int),
{
}

/// A scope that does not know a name passes its uses on to the scopes around it.
pub proof fn outer_local_is_found(frames: Seq<ResolveStackFrame>, frame: ResolveStackFrame, name: Seq<char>)
    requires
        !frame.has_local_spec(name),
    ensures
        innermost_with_local(frames.push(frame), name, frames.len() + 1int) == innermost_with_local(frames, name, frames.len() as int),
{
    lemma_innermost_prefix(frames, frame, name, frames.len() as int);
}

proof fn lemma_innermost_prefix(frames: Seq<ResolveStackFrame>, frame: ResolveStackFrame, name: Seq<char>, n: int)
    requires
        0 <= n <= frames.len(),
    ensures
        innermost_with_local(frames.push(frame), name, n) == innermost_with_local(frames, name, n),
    decreases n,
{
    if n > 0 {
        assert(frames.push(frame)[n - 1] == frames[n - 1]);
        lemma_innermost_prefix(frames, frame, name, n - 1);
    }
}

/// Every symbol counts as enclosed in itself.
pub proof fn node_encloses_itself(lib: Library, node: int)
    ensures
        lib.is_descendant_or_same_spec(node, node),
{
}

/// An integer directly followed by `..` becomes two tokens whose spans split the span of
/// the raw token: the integer without its last two characters, then `..`.
pub proof fn int_range_split(token: Spanned<NormalToken>)
    requires
        token.value is LiteralIntWithRange,
        normal_wf(token),
    ensures
        normal_expected(token).len() == 2,
        normal_expected(token)[0].0.start == token.span.start,
        normal_expected(token)[0].0.end == normal_expected(token)[1].0.start,
        normal_expected(token)[1].0.end == token.span.end,
        normal_expected(token)[1].0.end - normal_expected(token)[1].0.start == 2,
{
}

/// Names joined with `::`.
pub open spec fn join_path(names: Seq<Seq<char>>) -> Seq<char>
    decreases names.len(),
{
    if names.len() == 0 {
        Seq::empty()
    } else if names.len() == 1 {
        names[0]
    } else {
        names[0] + seq![':', ':'] + join_path(names.drop_first())
    }
}

/// Reading a symbol path back from its names joined with `::` gives the names, for names
/// that are not empty and hold no `:`.
pub proof fn symbol_path_round_trip(names: Seq<Seq<char>>)
    requires
        forall|i: int| 0 <= i < names.len() ==> (#[trigger] names[i]).len() > 0,
        forall|i: int, k: int| 0 <= i < names.len() && 0 <= k < names[i].len() ==> #[trigger] names[i][k] != ':',
    ensures
        path_pieces(join_path(names), 0, 0) == names,
    decreases names.len(),
{
    if names.len() == 0 {
        assert(path_pieces(Seq::<char>::empty(), 0, 0) =~= Seq::<Seq<char>>::empty());
    } else {
        let n0 = names[0];
        let s = join_path(names);
        if names.len() == 1 {
            lemma_skip(s, 0, 0, n0.len() as int);
            assert(s.subrange(0, s.len() as int) =~= n0);
            assert(path_pieces(s, 0, 0) =~= names);
        } else {
            let rest = names.drop_first();
            let p = n0 + seq![':', ':'];
            let j = join_path(rest);
            assert(s == p + j);
            assert forall|k: int| 0 <= k < n0.len() implies s[k] != ':' by {
                assert(s[k] == n0[k]);
                assert(names[0][k] != ':');
            }
            lemma_skip(s, 0, 0, n0.len() as int);
            assert(s[n0.len() as int] == ':');
            assert(s[n0.len() + 1int] == ':');
            lemma_shift(p, j, 0, 0);
            assert(p.len() == n0.len() + 2);
            assert forall|i: int| 0 <= i < rest.len() implies (#[trigger] rest[i]).len() > 0 by {
                assert(rest[i] == names[i + 1]);
            }
            assert forall|i: int, k: int| 0 <= i < rest.len() && 0 <= k < rest[i].len() implies #[trigger] rest[i][k] != ':' by {
                assert(rest[i] == names[i + 1]);
            }
            symbol_path_round_trip(rest);
            assert(s.subrange(0, n0.len() as int) =~= n0);
            assert(seq![n0] + rest =~= names);
        }
    }
}

/// Characters that are not `:` are passed over while looking for a separator.
proof fn lemma_skip(s: Seq<char>, seg: int, i: int, j: int)
    requires
        0 <= i <= j <= s.len(),
        forall|k: int| i <= k < j ==> s[k] != ':',
    ensures
        path_pieces(s, seg, i) == path_pieces(s, seg, j),
    decreases j - i,
{
    if i < j {
        lemma_skip(s, seg, i + 1, j);
    }
}

/// Looking for pieces in the part `t` of `p + t` is looking for them in `t`.
proof fn lemma_shift(p: Seq<char>, t: Seq<char>, a: int, b: int)
    requires
        0 <= a <= b,
    ensures
        path_pieces(p + t, p.len() + a, p.len() + b) == path_pieces(t, a, b),
    decreases t.len() - b,
{
    let s = p + t;
    let i = p.len() + b;
    if b >= t.len() {
        if a < t.len() {
            assert(s.subrange(p.len() + a, s.len() as int) =~= t.subrange(a, t.len() as int));
        }
    } else if b + 1 < t.len() && t[b] == ':' && t[b + 1] == ':' {
        assert(s[i] == t[b]);
        assert(s[i + 1] == t[b + 1]);
        lemma_shift(p, t, b + 2, b + 2);
        if a < b {
            assert(s.subrange(p.len() + a, i) =~= t.subrange(a, b));
        }
    } else {
        assert(s[i] == t[b]);
        if b + 1 < t.len() {
            assert(s[i + 1] == t[b + 1]);
        }
        lemma_shift(p, t, a, b + 1);
    }
}

/// Leaving a scope of a tree builder just entered returns to the scopes open before it.
pub proof fn enter_then_exit(scopes: Seq<SymbolHandle>, entered: SymbolHandle)
    ensures
        (if scopes.push(entered).len() > 0 { scopes.push(entered).drop_last() } else { scopes.push(entered) }) == scopes,
{
    assert(scopes.push(entered).drop_last() =~= scopes);
}

/// A definition that one visitor resolved holds resolved paths only: any visitor, in any
/// scopes, can resolve it again, and doing so leaves it as it is.
pub proof fn resolving_again_changes_nothing(v: ResolveVisitor, w: ResolveVisitor, a: SymbolDef, b: SymbolDef)
    requires
        def_resolved(env_of(v), top_locals(v.stack.frames()), a, b),
    ensures
        def_ok(env_of(w), top_locals(w.stack.frames()), b),
        def_resolved(env_of(w), top_locals(w.stack.frames()), b, b),
{
    lemma_def_resolved_fixed(env_of(v), top_locals(v.stack.frames()), a, b, env_of(w), top_locals(w.stack.frames()));
}

/// The locals declared inside a block of a function, or a group of a workbench, are not
/// seen after it: the block declares nothing in the scope around it.
pub proof fn block_locals_stay_inside(top: Option<Map<Seq<char>, Seq<Span>>>, block: Scope, group: Group)
    ensures
        fn_stmt_after(top, FunctionStatement::Scope(block)) == top,
        wb_stmt_after(top, WorkbenchStatement { name: None, expression: WorkbenchExpression::Group(group) }) == top,
{
}

/// A library inserted into the cache is the one found again by its id, whether it replaced
/// a library with that id or was added.
pub proof fn cache_insert_then_get(libs: Seq<Library>, library: Library)
    ensures
        loaded_from(inserted(libs, library), library.id_spec(), 0) matches Some(k)
            && inserted(libs, library)[k] == library,
{
    let id = library.id_spec();
    lemma_loaded_from(libs, id, 0);
    let after = inserted(libs, library);
    match loaded_from(libs, id, 0) {
        Some(k) => {
            assert forall|j: int| 0 <= j < k implies !same_library_id(#[trigger] after[j].id_spec(), id) by {
                assert(after[j] == libs[j]);
            }
            lemma_loaded_from_first(after, id, 0, k);
        },
        None => {
            let n = libs.len() as int;
            assert forall|j: int| 0 <= j < n implies !same_library_id(#[trigger] after[j].id_spec(), id) by {
                assert(after[j] == libs[j]);
            }
            lemma_loaded_from_first(after, id, 0, n);
        },
    }
}


/// Parents and children agree: `c` is a child of `x` exactly when `x` is the parent of `c`.
pub open spec fn links_agree<DATA>(t: SymbolTree<DATA>) -> bool {
    forall|x: int, c: int|
        #![trigger t.children_of(x), t.parent_of(c)]
        0 <= x < t.size() && 0 <= c < t.size() ==> (t.children_of(x).contains(SymbolHandle(c as usize))
            <==> t.parent_of(c) == Some(SymbolHandle(x as usize)))
}

/// Inserting a tree whose only parentless symbol is its first one below a symbol `p` keeps
/// parents and children in agreement; the first inserted symbol gets `p` as its parent and
/// is the last child of `p`.
pub proof fn insert_keeps_links<DATA>(a: SymbolTree<DATA>, t: SymbolTree<DATA>, p: SymbolHandle, b: SymbolTree<DATA>)
    requires
        a.wf(),
        t.wf(),
        links_agree(a),
        links_agree(t),
        t.size() > 0,
        t.parent_of(0) is None,
        forall|k: int| 0 < k < t.size() ==> #[trigger] t.parent_of(k) is Some,
        a.has(p),
        a.size() + t.size() <= usize::MAX,
        tree_inserted(a, Some(p), t, b),
    ensures
        links_agree(b),
        b.parent_of(a.size()) == Some(p),
        b.children_of(p.0 as int).last() == SymbolHandle(a.size() as usize),
{
    let n = a.size();
    a.lemma_wf_order();
    t.lemma_wf_order();
    assert(t.id_of(0) == t.id_of(0));
    assert(b.children_of(p.0 as int) == a.children_of(p.0 as int).push(SymbolHandle(n as usize)));
    let f = |h: SymbolHandle| SymbolHandle((h.0 + n) as usize);
    assert forall|x: int, c: int|
        #![trigger b.children_of(x), b.parent_of(c)]
        0 <= x < b.size() && 0 <= c < b.size() implies (b.children_of(x).contains(SymbolHandle(c as usize))
            <==> b.parent_of(c) == Some(SymbolHandle(x as usize))) by {
        if x < n {
            assert(b.id_of(x) == a.id_of(x));
            let ch = b.children_of(x);
            if c < n {
                assert(b.id_of(c) == a.id_of(c));
                assert(a.children_of(x) == a.children_of(x));
                assert(a.parent_of(c) == a.parent_of(c));
                if ch.contains(SymbolHandle(c as usize)) {
                    let w = choose|w: int| 0 <= w < ch.len() && ch[w] == SymbolHandle(c as usize);
                    if SymbolHandle(x as usize) == p && w == ch.len() - 1 {
                    } else {
                        assert(a.children_of(x)[w] == ch[w]);
                    }
                }
                if a.children_of(x).contains(SymbolHandle(c as usize)) {
                    let w = choose|w: int| 0 <= w < a.children_of(x).len() && a.children_of(x)[w] == SymbolHandle(c as usize);
                    assert(ch[w] == a.children_of(x)[w]);
                }
            } else {
                let k = c - n;
                assert(t.id_of(k) == t.id_of(k));
                if ch.contains(SymbolHandle(c as usize)) {
                    let w = choose|w: int| 0 <= w < ch.len() && ch[w] == SymbolHandle(c as usize);
                    if SymbolHandle(x as usize) == p && w == ch.len() - 1 {
                    } else {
                        assert(a.children_of(x)[w] == ch[w]);
                    }
                }
                if k == 0 {
                    if SymbolHandle(x as usize) == p {
                        assert(ch[ch.len() - 1] == SymbolHandle(n as usize));
                    }
                } else {
                    assert(t.parent_of(k) is Some);
                }
            }
        } else {
            let j = x - n;
            assert(t.id_of(j) == t.id_of(j));
            let tc = t.children_of(j);
            let ch = b.children_of(x);
            assert(SymbolHandle(x as usize) != p);
            assert(ch == tc.map_values(f));
            if c < n {
                assert(b.id_of(c) == a.id_of(c));
                if ch.contains(SymbolHandle(c as usize)) {
                    let w = choose|w: int| 0 <= w < ch.len() && ch[w] == SymbolHandle(c as usize);
                    assert(ch[w] == f(tc[w]));
                }
            } else {
                let k = c - n;
                assert(t.id_of(k) == t.id_of(k));
                assert(t.children_of(j) == t.children_of(j) && t.parent_of(k) == t.parent_of(k));
                if ch.contains(SymbolHandle(c as usize)) {
                    let w = choose|w: int| 0 <= w < ch.len() && ch[w] == SymbolHandle(c as usize);
                    assert(ch[w] == f(tc[w]));
                    assert(tc[w] == SymbolHandle(k as usize));
                    assert(tc.contains(SymbolHandle(k as usize)));
                }
                if tc.contains(SymbolHandle(k as usize)) {
                    let w = choose|w: int| 0 <= w < tc.len() && tc[w] == SymbolHandle(k as usize);
                    assert(ch[w] == f(tc[w]));
                    assert(ch.contains(SymbolHandle(c as usize)));
                }
                if k == 0 {
                    assert(!tc.contains(SymbolHandle(0usize)));
                }
            }
        }
    }
}


/// A path that starts with the root indicator is searched from the top of the tree: in a
/// tree whose first symbol is the only one without a parent, every symbol resolves it as
/// the first symbol does.
pub proof fn absolute_resolution_ignores_position<DATA>(t: SymbolTree<DATA>, h: int, path: Seq<Seq<char>>)
    requires
        t.wf(),
        0 <= h < t.size(),
        forall|k: int| 0 < k < t.size() ==> #[trigger] t.parent_of(k) is Some,
    ensures
        t.resolve_spec(h, path, true) == t.resolve_spec(0, path, true),
    decreases h,
{
    t.lemma_wf_order();
    if h > 0 {
        let p = t.parent_of(h)->0;
        absolute_resolution_ignores_position(t, p.0 as int, path);
    }
}


/// Turning a parse issue into a resolve issue keeps its severity: an error stays an error, a
/// warning a warning and an info an advice.
pub proof fn conversion_keeps_severity(issue: ParseIssue)
    ensures
        resolve_issue_severity(resolve_issue_of(issue)) == parse_issue_severity(issue),
{
}

/// Each operator token stands for the binary operator of the same name, `<` for "less than"
/// and `>` for "greater than" among them, and no other token stands for an operator.
pub proof fn operator_tokens_name_their_operators()
    ensures
        token_operator(Token::OperatorNear) == Some(BinaryOperator::Near),
        token_operator(Token::OperatorPowerXor) == Some(BinaryOperator::PowerXor),
        token_operator(Token::OperatorXor) == Some(BinaryOperator::Xor),
        token_operator(Token::OperatorUnion) == Some(BinaryOperator::Union),
        token_operator(Token::OperatorIntersect) == Some(BinaryOperator::Intersect),
        token_operator(Token::OperatorMultiply) == Some(BinaryOperator::Multiply),
        token_operator(Token::OperatorDivide) == Some(BinaryOperator::Divide),
        token_operator(Token::OperatorAdd) == Some(BinaryOperator::Add),
        token_operator(Token::OperatorSubtract) == Some(BinaryOperator::Subtract),
        token_operator(Token::OperatorLessEqual) == Some(BinaryOperator::LessEqual),
        token_operator(Token::OperatorGreaterEqual) == Some(BinaryOperator::GreaterEqual),
        token_operator(Token::OperatorLessThan) == Some(BinaryOperator::LessThan),
        token_operator(Token::OperatorGreaterThan) == Some(BinaryOperator::GreaterThan),
        token_operator(Token::OperatorEqual) == Some(BinaryOperator::Equal),
        token_operator(Token::OperatorNotEqual) == Some(BinaryOperator::NotEqual),
        token_operator(Token::OperatorOr) == Some(BinaryOperator::Or),
        token_operator(Token::OperatorAnd) == Some(BinaryOperator::And),
        forall|t: Token|
            #[trigger] token_operator(t) is Some ==> t == Token::OperatorNear
                || t == Token::OperatorPowerXor
                || t == Token::OperatorXor
                || t == Token::OperatorUnion
                || t == Token::OperatorIntersect
                || t == Token::OperatorMultiply
                || t == Token::OperatorDivide
                || t == Token::OperatorAdd
                || t == Token::OperatorSubtract
                || t == Token::OperatorLessEqual
                || t == Token::OperatorGreaterEqual
                || t == Token::OperatorLessThan
                || t == Token::OperatorGreaterThan
                || t == Token::OperatorEqual
                || t == Token::OperatorNotEqual
                || t == Token::OperatorOr
                || t == Token::OperatorAnd,
{
}

/// Every raw token other than an integer with a range and a string maps to the one parser
/// token of the same name, with the same text and span: `true` to the boolean `true`,
/// `false` to the boolean `false`, a lone quote to the quote sigil.
pub proof fn raw_tokens_keep_their_name(span: Span)
    ensures
        forall|c: String|
            #[trigger] normal_expected((Spanned { span, value: NormalToken::Whitespace(c) }))
                == seq![(span, TokenShape::Exact(Token::Whitespace(c)))],
        forall|c: String|
            #[trigger] normal_expected((Spanned { span, value: NormalToken::SingleLineComment(c) }))
                == seq![(span, TokenShape::Exact(Token::SingleLineComment(c)))],
        forall|c: String|
            #[trigger] normal_expected((Spanned { span, value: NormalToken::MultiLineComment(c) }))
                == seq![(span, TokenShape::Exact(Token::MultiLineComment(c)))],
        forall|c: String|
            #[trigger] normal_expected((Spanned { span, value: NormalToken::DocComment(c) }))
                == seq![(span, TokenShape::Exact(Token::DocComment(c)))],
        forall|c: String|
            #[trigger] normal_expected((Spanned { span, value: NormalToken::InnerDocComment(c) }))
                == seq![(span, TokenShape::Exact(Token::InnerDocComment(c)))],
        forall|c: String|
            #[trigger] normal_expected((Spanned { span, value: NormalToken::Identifier(c) }))
                == seq![(span, TokenShape::Exact(Token::Identifier(c)))],
        forall|c: String|
            #[trigger] normal_expected((Spanned { span, value: NormalToken::Unit(c) }))
                == seq![(span, TokenShape::Exact(Token::Unit(c)))],
        forall|c: String|
            #[trigger] normal_expected((Spanned { span, value: NormalToken::LiteralInt(c) }))
                == seq![(span, TokenShape::Exact(Token::LiteralInt(c)))],
        forall|c: String|
            #[trigger] normal_expected((Spanned { span, value: NormalToken::LiteralFloat(c) }))
                == seq![(span, TokenShape::Exact(Token::LiteralFloat(c)))],
        normal_expected((Spanned { span, value: NormalToken::KeywordMod }))
            == seq![(span, TokenShape::Exact(Token::KeywordMod))],
        normal_expected((Spanned { span, value: NormalToken::KeywordPart }))
            == seq![(span, TokenShape::Exact(Token::KeywordPart))],
        normal_expected((Spanned { span, value: NormalToken::KeywordSketch }))
            == seq![(span, TokenShape::Exact(Token::KeywordSketch))],
        normal_expected((Spanned { span, value: NormalToken::KeywordOp }))
            == seq![(span, TokenShape::Exact(Token::KeywordOp))],
        normal_expected((Spanned { span, value: NormalToken::KeywordFn }))
            == seq![(span, TokenShape::Exact(Token::KeywordFn))],
        normal_expected((Spanned { span, value: NormalToken::KeywordIf }))
            == seq![(span, TokenShape::Exact(Token::KeywordIf))],
        normal_expected((Spanned { span, value: NormalToken::KeywordElse }))
            == seq![(span, TokenShape::Exact(Token::KeywordElse))],
        normal_expected((Spanned { span, value: NormalToken::KeywordUse }))
            == seq![(span, TokenShape::Exact(Token::KeywordUse))],
        normal_expected((Spanned { span, value: NormalToken::KeywordAs }))
            == seq![(span, TokenShape::Exact(Token::KeywordAs))],
        normal_expected((Spanned { span, value: NormalToken::KeywordReturn }))
            == seq![(span, TokenShape::Exact(Token::KeywordReturn))],
        normal_expected((Spanned { span, value: NormalToken::KeywordPub }))
            == seq![(span, TokenShape::Exact(Token::KeywordPub))],
        normal_expected((Spanned { span, value: NormalToken::KeywordConst }))
            == seq![(span, TokenShape::Exact(Token::KeywordConst))],
        normal_expected((Spanned { span, value: NormalToken::KeywordProp }))
            == seq![(span, TokenShape::Exact(Token::KeywordProp))],
        normal_expected((Spanned { span, value: NormalToken::KeywordInit }))
            == seq![(span, TokenShape::Exact(Token::KeywordInit))],
        normal_expected((Spanned { span, value: NormalToken::KeywordPlugin }))
            == seq![(span, TokenShape::Exact(Token::KeywordPlugin))],
        normal_expected((Spanned { span, value: NormalToken::KeywordAssembly }))
            == seq![(span, TokenShape::Exact(Token::KeywordAssembly))],
        normal_expected((Spanned { span, value: NormalToken::KeywordMaterial }))
            == seq![(span, TokenShape::Exact(Token::KeywordMaterial))],
        normal_expected((Spanned { span, value: NormalToken::KeywordUnit }))
            == seq![(span, TokenShape::Exact(Token::KeywordUnit))],
        normal_expected((Spanned { span, value: NormalToken::KeywordEnum }))
            == seq![(span, TokenShape::Exact(Token::KeywordEnum))],
        normal_expected((Spanned { span, value: NormalToken::KeywordStruct }))
            == seq![(span, TokenShape::Exact(Token::KeywordStruct))],
        normal_expected((Spanned { span, value: NormalToken::KeywordMatch }))
            == seq![(span, TokenShape::Exact(Token::KeywordMatch))],
        normal_expected((Spanned { span, value: NormalToken::KeywordType }))
            == seq![(span, TokenShape::Exact(Token::KeywordType))],
        normal_expected((Spanned { span, value: NormalToken::KeywordExtern }))
            == seq![(span, TokenShape::Exact(Token::KeywordExtern))],
        normal_expected((Spanned { span, value: NormalToken::SigilColon }))
            == seq![(span, TokenShape::Exact(Token::SigilColon))],
        normal_expected((Spanned { span, value: NormalToken::SigilSemiColon }))
            == seq![(span, TokenShape::Exact(Token::SigilSemiColon))],
        normal_expected((Spanned { span, value: NormalToken::SigilDoubleColon }))
            == seq![(span, TokenShape::Exact(Token::SigilDoubleColon))],
        normal_expected((Spanned { span, value: NormalToken::SigilOpenBracket }))
            == seq![(span, TokenShape::Exact(Token::SigilOpenBracket))],
        normal_expected((Spanned { span, value: NormalToken::SigilCloseBracket }))
            == seq![(span, TokenShape::Exact(Token::SigilCloseBracket))],
        normal_expected((Spanned { span, value: NormalToken::SigilOpenSquareBracket }))
            == seq![(span, TokenShape::Exact(Token::SigilOpenSquareBracket))],
        normal_expected((Spanned { span, value: NormalToken::SigilCloseSquareBracket }))
            == seq![(span, TokenShape::Exact(Token::SigilCloseSquareBracket))],
        normal_expected((Spanned { span, value: NormalToken::SigilOpenCurlyBracket }))
            == seq![(span, TokenShape::Exact(Token::SigilOpenCurlyBracket))],
        normal_expected((Spanned { span, value: NormalToken::SigilCloseCurlyBracket }))
            == seq![(span, TokenShape::Exact(Token::SigilCloseCurlyBracket))],
        normal_expected((Spanned { span, value: NormalToken::SigilHash }))
            == seq![(span, TokenShape::Exact(Token::SigilHash))],
        normal_expected((Spanned { span, value: NormalToken::SigilDot }))
            == seq![(span, TokenShape::Exact(Token::SigilDot))],
        normal_expected((Spanned { span, value: NormalToken::SigilComma }))
            == seq![(span, TokenShape::Exact(Token::SigilComma))],
        normal_expected((Spanned { span, value: NormalToken::SigilDoubleDot }))
            == seq![(span, TokenShape::Exact(Token::SigilDoubleDot))],
        normal_expected((Spanned { span, value: NormalToken::SigilAt }))
            == seq![(span, TokenShape::Exact(Token::SigilAt))],
        normal_expected((Spanned { span, value: NormalToken::SigilSingleArrow }))
            == seq![(span, TokenShape::Exact(Token::SigilSingleArrow))],
        normal_expected((Spanned { span, value: NormalToken::OperatorAdd }))
            == seq![(span, TokenShape::Exact(Token::OperatorAdd))],
        normal_expected((Spanned { span, value: NormalToken::OperatorSubtract }))
            == seq![(span, TokenShape::Exact(Token::OperatorSubtract))],
        normal_expected((Spanned { span, value: NormalToken::OperatorMultiply }))
            == seq![(span, TokenShape::Exact(Token::OperatorMultiply))],
        normal_expected((Spanned { span, value: NormalToken::OperatorDivide }))
            == seq![(span, TokenShape::Exact(Token::OperatorDivide))],
        normal_expected((Spanned { span, value: NormalToken::OperatorUnion }))
            == seq![(span, TokenShape::Exact(Token::OperatorUnion))],
        normal_expected((Spanned { span, value: NormalToken::OperatorIntersect }))
            == seq![(span, TokenShape::Exact(Token::OperatorIntersect))],
        normal_expected((Spanned { span, value: NormalToken::OperatorPowerXor }))
            == seq![(span, TokenShape::Exact(Token::OperatorPowerXor))],
        normal_expected((Spanned { span, value: NormalToken::OperatorGreaterThan }))
            == seq![(span, TokenShape::Exact(Token::OperatorGreaterThan))],
        normal_expected((Spanned { span, value: NormalToken::OperatorLessThan }))
            == seq![(span, TokenShape::Exact(Token::OperatorLessThan))],
        normal_expected((Spanned { span, value: NormalToken::OperatorGreaterEqual }))
            == seq![(span, TokenShape::Exact(Token::OperatorGreaterEqual))],
        normal_expected((Spanned { span, value: NormalToken::OperatorLessEqual }))
            == seq![(span, TokenShape::Exact(Token::OperatorLessEqual))],
        normal_expected((Spanned { span, value: NormalToken::OperatorNear }))
            == seq![(span, TokenShape::Exact(Token::OperatorNear))],
        normal_expected((Spanned { span, value: NormalToken::OperatorEqual }))
            == seq![(span, TokenShape::Exact(Token::OperatorEqual))],
        normal_expected((Spanned { span, value: NormalToken::OperatorNotEqual }))
            == seq![(span, TokenShape::Exact(Token::OperatorNotEqual))],
        normal_expected((Spanned { span, value: NormalToken::OperatorAnd }))
            == seq![(span, TokenShape::Exact(Token::OperatorAnd))],
        normal_expected((Spanned { span, value: NormalToken::OperatorOr }))
            == seq![(span, TokenShape::Exact(Token::OperatorOr))],
        normal_expected((Spanned { span, value: NormalToken::OperatorXor }))
            == seq![(span, TokenShape::Exact(Token::OperatorXor))],
        normal_expected((Spanned { span, value: NormalToken::OperatorNot }))
            == seq![(span, TokenShape::Exact(Token::OperatorNot))],
        normal_expected((Spanned { span, value: NormalToken::OperatorAssignment }))
            == seq![(span, TokenShape::Exact(Token::OperatorAssignment))],
        normal_expected((Spanned { span, value: NormalToken::LiteralBoolTrue }))
            == seq![(span, TokenShape::Exact(Token::LiteralBool(true)))],
        normal_expected((Spanned { span, value: NormalToken::LiteralBoolFalse }))
            == seq![(span, TokenShape::Exact(Token::LiteralBool(false)))],
        normal_expected((Spanned { span, value: NormalToken::Quote(QuoteVariant::Unit) }))
            == seq![(span, TokenShape::Exact(Token::SigilQuote))],
{
}

/// The µcad extensions are exactly `µcad`, `mcad` and `ucad`: a path is a µcad file exactly
/// when it is an existing file whose extension is one of the three.
pub proof fn microcad_files_have_a_microcad_extension(facts: &PathFacts, p: Seq<char>)
    ensures
        is_microcad_file(facts, p) <==> facts.is_file(p) && (extension_of(p) == Some(seq!['µ', 'c', 'a', 'd'])
            || extension_of(p) == Some(seq!['m', 'c', 'a', 'd']) || extension_of(p) == Some(seq!['u', 'c', 'a', 'd'])),
{
    let exts = microcad_extensions();
    assert(exts[0] == seq!['µ', 'c', 'a', 'd']);
    assert(exts[1] == seq!['m', 'c', 'a', 'd']);
    assert(exts[2] == seq!['u', 'c', 'a', 'd']);
}

/// A path that is no µcad file stands for the first of its siblings with the extensions
/// `µcad`, `mcad` and `ucad` that exists, tried in this order, each once; failing those, a
/// directory stands for the first of its files `mod.µcad`, `mod.mcad` and `mod.ucad` that
/// exists; anything else for nothing.
pub proof fn extensions_are_tried_in_turn(facts: &PathFacts, p: Seq<char>)
    requires
        !is_microcad_file(facts, p),
    ensures
        ({
            let a = with_extension(p, seq!['µ', 'c', 'a', 'd']);
            let b = with_extension(p, seq!['m', 'c', 'a', 'd']);
            let c = with_extension(p, seq!['u', 'c', 'a', 'd']);
            let ma = joined(p, seq!['m', 'o', 'd', '.', 'µ', 'c', 'a', 'd']);
            let mb = joined(p, seq!['m', 'o', 'd', '.', 'm', 'c', 'a', 'd']);
            let mc = joined(p, seq!['m', 'o', 'd', '.', 'u', 'c', 'a', 'd']);
            resolved_path_spec(facts, p) == if facts.is_present(a) {
                Some(a)
            } else if facts.is_present(b) {
                Some(b)
            } else if facts.is_present(c) {
                Some(c)
            } else if !facts.is_dir(p) {
                None
            } else if facts.is_present(ma) {
                Some(ma)
            } else if facts.is_present(mb) {
                Some(mb)
            } else if facts.is_present(mc) {
                Some(mc)
            } else {
                None
            }
        }),
{
    let exts = microcad_extensions();
    assert(exts[0] == seq!['µ', 'c', 'a', 'd']);
    assert(exts[1] == seq!['m', 'c', 'a', 'd']);
    assert(exts[2] == seq!['u', 'c', 'a', 'd']);
    assert(mod_file_name(exts[0]) =~= seq!['m', 'o', 'd', '.', 'µ', 'c', 'a', 'd']);
    assert(mod_file_name(exts[1]) =~= seq!['m', 'o', 'd', '.', 'm', 'c', 'a', 'd']);
    assert(mod_file_name(exts[2]) =~= seq!['m', 'o', 'd', '.', 'u', 'c', 'a', 'd']);
    assert(first_with_extension(facts, p, 3) is None);
    assert(first_with_extension(facts, p, 2) == if facts.is_present(with_extension(p, exts[2])) {
        Some(with_extension(p, exts[2]))
    } else {
        None
    });
    assert(first_with_extension(facts, p, 1) == if facts.is_present(with_extension(p, exts[1])) {
        Some(with_extension(p, exts[1]))
    } else {
        first_with_extension(facts, p, 2)
    });
    assert(first_with_extension(facts, p, 0) == if facts.is_present(with_extension(p, exts[0])) {
        Some(with_extension(p, exts[0]))
    } else {
        first_with_extension(facts, p, 1)
    });
    assert(first_mod_file(facts, p, 3) is None);
    assert(first_mod_file(facts, p, 2) == if facts.is_present(joined(p, mod_file_name(exts[2]))) {
        Some(joined(p, mod_file_name(exts[2])))
    } else {
        None
    });
    assert(first_mod_file(facts, p, 1) == if facts.is_present(joined(p, mod_file_name(exts[1]))) {
        Some(joined(p, mod_file_name(exts[1])))
    } else {
        first_mod_file(facts, p, 2)
    });
    assert(first_mod_file(facts, p, 0) == if facts.is_present(joined(p, mod_file_name(exts[0]))) {
        Some(joined(p, mod_file_name(exts[0])))
    } else {
        first_mod_file(facts, p, 1)
    });
}

/// Modules, source files and functions are named in lower snake case, workbenches in Pascal
/// case and constants in upper snake case; aliases, wildcards and roots follow no rule.
pub proof fn names_expected_by_kind(d: SymbolDef)
    ensures
        d is SourceFile ==> d.expected_case_spec() == Some(Case::LowerSnake),
        d is InlineModule ==> d.expected_case_spec() == Some(Case::LowerSnake),
        d is Function ==> d.expected_case_spec() == Some(Case::LowerSnake),
        d is Workbench ==> d.expected_case_spec() == Some(Case::Pascal),
        d is Constant ==> d.expected_case_spec() == Some(Case::UpperSnake),
        (d is Alias || d is Wildcard || d is Root) ==> d.expected_case_spec() is None,
{
}

/// Wildcard imports that come before position `k` among the children of `scope` and are not
/// followed change nothing in the search from `j` on.
proof fn lemma_skip_wildcards(lib: Library, scope: int, name: Seq<char>, from: int, v: Seq<bool>, j: int, k: int)
    requires
        0 <= j <= k <= lib.children_of(scope).len(),
        forall|l: int|
            j <= l < k ==> !(lib.is_wildcard(#[trigger] lib.children_of(scope)[l] as int) && lib.children_of(scope)[l] < v.len()
                && !v[lib.children_of(scope)[l] as int]),
    ensures
        lib.find_in_wildcards_spec(scope, name, from, v, j) == lib.find_in_wildcards_spec(scope, name, from, v, k),
    decreases k - j,
{
    if j < k {
        lemma_skip_wildcards(lib, scope, name, from, v, j + 1, k);
    }
}

/// Each step of a look-up, not only the first, finds a name imported by a wildcard: where
/// `scope` has no visible child named `names[i]`, and the first of its wildcard imports not
/// yet followed, `use p::*`, leads (with that import set aside) to a symbol `target` that has
/// a visible child `imported` of that name, descending from `scope` by that last name of the
/// path finds `imported`.
pub proof fn wildcard_import_found_at_each_step(
    lib: Library,
    scope: int,
    names: Seq<Seq<char>>,
    i: int,
    from: int,
    v: Seq<bool>,
    k: int,
    target: int,
    imported: int,
)
    requires
        0 <= i,
        i == names.len() - 1,
        match lib.first_named_child(scope, names[i]) {
            Some(c) => !lib.is_visible_spec(c, from),
            None => true,
        },
        0 <= k < lib.children_of(scope).len(),
        forall|l: int|
            0 <= l < k ==> !(lib.is_wildcard(#[trigger] lib.children_of(scope)[l] as int) && lib.children_of(scope)[l] < v.len()
                && !v[lib.children_of(scope)[l] as int]),
        ({
            let w = lib.children_of(scope)[k] as int;
            &&& lib.is_wildcard(w)
            &&& w < v.len()
            &&& !v[w]
            &&& lib.wildcard_path(w) matches Some(p) && lib.look_up_internal_spec(scope, p, v.update(w, true)).0 == Some(target)
        }),
        lib.first_named_child(target, names[i]) == Some(imported),
        lib.is_visible_spec(imported, from),
    ensures
        lib.look_up_downwards_spec(scope, names, i, from, v).0 == Some(imported),
{
    let name = names[i];
    lemma_skip_wildcards(lib, scope, name, from, v, 0, k);
    let w = lib.children_of(scope)[k] as int;
    let p = lib.wildcard_path(w)->Some_0;
    let v1 = v.update(w, true);
    let (t, v2) = lib.look_up_internal_spec(scope, p, v1);
    assert(t == Some(target));
    assert(lib.find_in_wildcards_spec(scope, name, from, v, k).0 == Some(imported));
    let (m, v3) = lib.find_child_or_wildcard_spec(scope, name, from, v);
    assert(m == Some(imported));
    assert(lib.look_up_downwards_spec(imported, names, i + 1, from, marks_union(v3, v)).0 == Some(imported));
}

/// A path of two names is found through a wildcard import: where the first name leads, from
/// `start` (from the root for an absolute path), to a visible `scope` without a visible child
/// of the second name, and the first wildcard import of `scope`, `use p::*`, leads (with that
/// import set aside) to a symbol `target` with a visible child `imported` of that name, the
/// look-up of the path finds `imported`.
pub proof fn look_up_through_wildcard(
    lib: Library,
    start: int,
    path: UnresolvedPath,
    scope: int,
    k: int,
    target: int,
    imported: int,
)
    requires
        0 <= start,
        path.names().len() == 2,
        lib.first_named_child(if path.is_absolute { lib.root as int } else { start }, path.names()[0]) == Some(scope),
        lib.is_visible_spec(scope, start),
        match lib.first_named_child(scope, path.names()[1]) {
            Some(c) => !lib.is_visible_spec(c, start),
            None => true,
        },
        0 <= k < lib.children_of(scope).len(),
        forall|l: int| 0 <= l < k ==> !lib.is_wildcard(#[trigger] lib.children_of(scope)[l] as int),
        ({
            let w = lib.children_of(scope)[k] as int;
            &&& lib.is_wildcard(w)
            &&& w < lib.size()
            &&& lib.wildcard_path(w) matches Some(p) && lib.look_up_internal_spec(scope, p, lib.no_marks().update(w, true)).0
                == Some(target)
        }),
        lib.first_named_child(target, path.names()[1]) == Some(imported),
        lib.is_visible_spec(imported, start),
    ensures
        lib.look_up_spec(start, path) == Some(imported),
{
    let names = path.names();
    let v = lib.no_marks();
    assert(marks_union(v, v) =~= v);
    assert(lib.find_child_or_wildcard_spec(if path.is_absolute { lib.root as int } else { start }, names[0], start, v)
        == (Some(scope), v));
    wildcard_import_found_at_each_step(lib, scope, names, 1, start, v, k, target, imported);
}

/// Descending from `scope` by the last name of a path finds a visible child of that name
/// before anything its wildcard imports bring in.
pub proof fn visible_child_found_first(lib: Library, scope: int, names: Seq<Seq<char>>, i: int, from: int, v: Seq<bool>, child: int)
    requires
        0 <= i,
        i == names.len() - 1,
        lib.first_named_child(scope, names[i]) == Some(child),
        lib.is_visible_spec(child, from),
    ensures
        lib.look_up_downwards_spec(scope, names, i, from, v).0 == Some(child),
{
    let (m, v1) = lib.find_child_or_wildcard_spec(scope, names[i], from, v);
    assert(m == Some(child));
    assert(lib.look_up_downwards_spec(child, names, i + 1, from, marks_union(v1, v)).0 == Some(child));
}

/// A single name is found through a wildcard import of the scope the look-up starts in: where
/// `start` has no visible child of that name, and its first wildcard import, `use p::*`, leads
/// (with that import set aside) to a symbol `target` with a visible child `imported` of that
/// name, looking the name up from `start` finds `imported`.
pub proof fn name_found_through_wildcard_of_start(
    lib: Library,
    start: int,
    path: UnresolvedPath,
    k: int,
    target: int,
    imported: int,
)
    requires
        0 <= start,
        !path.is_absolute,
        path.names().len() == 1,
        match lib.first_named_child(start, path.names()[0]) {
            Some(c) => !lib.is_visible_spec(c, start),
            None => true,
        },
        0 <= k < lib.children_of(start).len(),
        forall|l: int| 0 <= l < k ==> !lib.is_wildcard(#[trigger] lib.children_of(start)[l] as int),
        ({
            let w = lib.children_of(start)[k] as int;
            &&& lib.is_wildcard(w)
            &&& w < lib.size()
            &&& lib.wildcard_path(w) matches Some(p) && lib.look_up_internal_spec(start, p, lib.no_marks().update(w, true)).0
                == Some(target)
        }),
        lib.first_named_child(target, path.names()[0]) == Some(imported),
        lib.is_visible_spec(imported, start),
    ensures
        lib.look_up_spec(start, path) == Some(imported),
{
    let name = path.names()[0];
    let v = lib.no_marks();
    lemma_skip_wildcards(lib, start, name, start, v, 0, k);
    let w = lib.children_of(start)[k] as int;
    let p = lib.wildcard_path(w)->Some_0;
    let (t, v2) = lib.look_up_internal_spec(start, p, v.update(w, true));
    assert(t == Some(target));
    assert(lib.find_in_wildcards_spec(start, name, start, v, k).0 == Some(imported));
    assert(lib.find_child_or_wildcard_spec(start, name, start, v).0 == Some(imported));
}

/// A relative look-up climbs: where the scope it starts in has neither a visible child of
/// the path's single name nor any wildcard import, the name is looked for in the scope
/// around it, and a visible child of that name there is found.
pub proof fn name_found_in_enclosing_scope(lib: Library, start: int, path: UnresolvedPath, child: int)
    requires
        0 <= start,
        !path.is_absolute,
        path.names().len() == 1,
        match lib.first_named_child(start, path.names()[0]) {
            Some(c) => !lib.is_visible_spec(c, start),
            None => true,
        },
        forall|l: int|
            0 <= l < lib.children_of(start).len() ==> !lib.is_wildcard(#[trigger] lib.children_of(start)[l] as int),
        lib.parent_of(start) matches Some(parent) && parent < start && lib.first_named_child(parent as int, path.names()[0])
            == Some(child),
        lib.is_visible_spec(child, start),
    ensures
        lib.look_up_spec(start, path) == Some(child),
{
    let name = path.names()[0];
    let names = path.names();
    let v = lib.no_marks();
    let parent = lib.parent_of(start)->Some_0 as int;
    let len = lib.children_of(start).len() as int;
    lemma_skip_wildcards(lib, start, name, start, v, 0, len);
    assert(lib.find_child_or_wildcard_spec(start, name, start, v) == (None::<int>, v));
    assert(marks_union(v, v) =~= v);
    assert(lib.find_child_or_wildcard_spec(parent, name, start, v) == (Some(child), v));
    assert(lib.climb_spec(parent, names, start, v).0 == Some(child));
}

} // verus!
