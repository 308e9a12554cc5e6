//! Walking definitions scope by scope to resolve the paths in them: functions, workbenches
//! and source files declare their parameters and named values as locals of the scope they
//! are in, and each path is resolved with the locals declared before it.

use vstd::prelude::*;

use crate::ir::{
    Expression, Function, FunctionLocalAssignment, FunctionSignature, FunctionStatement, Group, Init,
    Parameter, Scope, Source, Workbench, WorkbenchExpression, WorkbenchSignature, WorkbenchStatement,
};
use crate::library::symbol::{Path, SourceFile, Symbol, SymbolDef};
use crate::library::{Library, SymbolNodeId};
use crate::resolve::{
    LocalTable, ResolveStackFrame, ResolveVisitor, candidates_in, innermost_symbol, top_locals,
};
use crate::span::Span;

verus! {

/// What resolving reads besides the innermost locals: the library, the loaded libraries and
/// the innermost symbol.
pub open spec fn env_of(v: ResolveVisitor) -> (Library, Seq<Library>, Option<SymbolNodeId>) {
    (*v.lib, v.libs@, innermost_symbol(v.stack.frames(), v.stack.frames().len() as int))
}

/// The locals after declaring `name`: it is added, or its usages are cleared; without a
/// local table nothing is declared.
pub open spec fn declared(top: Option<Map<Seq<char>, Seq<Span>>>, name: Seq<char>) -> Option<Map<Seq<char>, Seq<Span>>> {
    match top {
        Some(m) => Some(m.insert(name, Seq::empty())),
        None => None,
    }
}

/// Is the path resolved already, or does it name exactly one symbol.
pub open spec fn path_ok(
    env: (Library, Seq<Library>, Option<SymbolNodeId>),
    top: Option<Map<Seq<char>, Seq<Span>>>,
    p: Path,
) -> bool {
    p matches Path::Unresolved(u) ==> (candidates_in(env.0, env.1, env.2, top, u) matches Some(c) && c.len() == 1)
}

/// The path resolved to the one symbol it names; a resolved path stays as it is.
pub open spec fn path_resolved(
    env: (Library, Seq<Library>, Option<SymbolNodeId>),
    top: Option<Map<Seq<char>, Seq<Span>>>,
    p: Path,
) -> Path {
    match p {
        Path::Unresolved(u) => Path::Resolved(candidates_in(env.0, env.1, env.2, top, u)->0[0]),
        Path::Resolved(_) => p,
    }
}

/// Can each path of the expression be resolved.
pub open spec fn expr_ok(
    env: (Library, Seq<Library>, Option<SymbolNodeId>),
    top: Option<Map<Seq<char>, Seq<Span>>>,
    e: Expression,
) -> bool
    decreases e,
{
    match e {
        Expression::Name(p) => path_ok(env, top, p),
        Expression::Value => true,
        Expression::Compound(es) => forall|i: int| 0 <= i < es.len() ==> expr_ok(env, top, #[trigger] es@[i]),
    }
}

/// Is `b` the expression `a` with each path resolved.
pub open spec fn expr_resolved(
    env: (Library, Seq<Library>, Option<SymbolNodeId>),
    top: Option<Map<Seq<char>, Seq<Span>>>,
    a: Expression,
    b: Expression,
) -> bool
    decreases a,
{
    match a {
        Expression::Name(p) => b == Expression::Name(path_resolved(env, top, p)),
        Expression::Value => b == Expression::Value,
        Expression::Compound(es) => b matches Expression::Compound(fs) && fs.len() == es.len()
            && forall|i: int| 0 <= i < es.len() ==> expr_resolved(env, top, #[trigger] es@[i], fs@[i]),
    }
}

/// The frames keep their number, the outer ones stay as they are and the innermost keeps
/// its kind.
pub open spec fn keeps_scopes(a: Seq<ResolveStackFrame>, b: Seq<ResolveStackFrame>) -> bool {
    &&& b.len() == a.len()
    &&& forall|j: int| 0 <= j < a.len() - 1 ==> #[trigger] b[j] == a[j]
    &&& a.len() > 0 ==> b.last().same_kind(a.last())
}

proof fn lemma_innermost_symbol_same(a: Seq<ResolveStackFrame>, b: Seq<ResolveStackFrame>, n: int)
    requires
        0 <= n <= a.len(),
        n <= b.len(),
        forall|j: int| 0 <= j < n ==> a[j] == b[j],
    ensures
        innermost_symbol(a, n) == innermost_symbol(b, n),
    decreases n,
{
    if n > 0 {
        lemma_innermost_symbol_same(a, b, n - 1);
    }
}

proof fn lemma_keeps_symbol(a: Seq<ResolveStackFrame>, b: Seq<ResolveStackFrame>)
    requires
        keeps_scopes(a, b),
    ensures
        innermost_symbol(a, a.len() as int) == innermost_symbol(b, b.len() as int),
        top_locals(a) is Some <==> top_locals(b) is Some,
{
    if a.len() > 0 {
        lemma_innermost_symbol_same(a, b, a.len() - 1);
    }
}

/// The locals after declaring the first `n` parameters, in order.
pub open spec fn params_declared(top: Option<Map<Seq<char>, Seq<Span>>>, ps: Seq<Parameter>, n: int) -> Option<Map<Seq<char>, Seq<Span>>>
    decreases n,
{
    if n <= 0 {
        top
    } else {
        declared(params_declared(top, ps, n - 1), ps[n - 1].id@)
    }
}

/// Can the default values of the parameters be resolved.
pub open spec fn params_ok(
    env: (Library, Seq<Library>, Option<SymbolNodeId>),
    top: Option<Map<Seq<char>, Seq<Span>>>,
    ps: Seq<Parameter>,
) -> bool {
    forall|i: int| 0 <= i < ps.len() ==> ((#[trigger] ps[i]).default_value matches Some(d) ==> expr_ok(env, top, d))
}

/// Is `qs` the parameters `ps` with the paths of their default values resolved.
pub open spec fn params_resolved(
    env: (Library, Seq<Library>, Option<SymbolNodeId>),
    top: Option<Map<Seq<char>, Seq<Span>>>,
    ps: Seq<Parameter>,
    qs: Seq<Parameter>,
) -> bool {
    &&& qs.len() == ps.len()
    &&& forall|i: int| 0 <= i < ps.len() ==> {
        &&& (#[trigger] qs[i]).id == ps[i].id
        &&& match (ps[i].default_value, qs[i].default_value) {
            (Some(d), Some(e)) => expr_resolved(env, top, d, e),
            (None, None) => true,
            _ => false,
        }
    }
}

/// The locals after a statement of a function: an assignment declares its local.
pub open spec fn fn_stmt_after(top: Option<Map<Seq<char>, Seq<Span>>>, s: FunctionStatement) -> Option<Map<Seq<char>, Seq<Span>>> {
    match s {
        FunctionStatement::LocalAssignment(a) => declared(top, a.id@),
        _ => top,
    }
}

/// The locals after the first `n` statements of a function.
pub open spec fn fn_stmts_after(top: Option<Map<Seq<char>, Seq<Span>>>, ss: Seq<FunctionStatement>, n: int) -> Option<Map<Seq<char>, Seq<Span>>>
    decreases n,
{
    if n <= 0 {
        top
    } else {
        fn_stmt_after(fn_stmts_after(top, ss, n - 1), ss[n - 1])
    }
}

/// Can each path of a function statement be resolved: those of a nested block in a scope
/// of its own, which starts without locals.
pub open spec fn fn_stmt_ok(
    env: (Library, Seq<Library>, Option<SymbolNodeId>),
    top: Option<Map<Seq<char>, Seq<Span>>>,
    s: FunctionStatement,
) -> bool
    decreases s,
{
    match s {
        FunctionStatement::LocalAssignment(a) => expr_ok(env, top, a.expression),
        FunctionStatement::Scope(sc) => forall|i: int| 0 <= i < sc.statements.len() ==> fn_stmt_ok(
            env,
            fn_stmts_after(Some(Map::empty()), sc.statements@, i),
            #[trigger] sc.statements@[i],
        ),
        FunctionStatement::Expression(e) => expr_ok(env, top, e),
    }
}

/// Is `b` the function statement `a` with each path resolved.
pub open spec fn fn_stmt_resolved(
    env: (Library, Seq<Library>, Option<SymbolNodeId>),
    top: Option<Map<Seq<char>, Seq<Span>>>,
    a: FunctionStatement,
    b: FunctionStatement,
) -> bool
    decreases a,
{
    match a {
        FunctionStatement::LocalAssignment(x) => b matches FunctionStatement::LocalAssignment(y) && y.id == x.id
            && expr_resolved(env, top, x.expression, y.expression),
        FunctionStatement::Scope(sc) => b matches FunctionStatement::Scope(sd) && sd.statements.len() == sc.statements.len()
            && forall|i: int| 0 <= i < sc.statements.len() ==> fn_stmt_resolved(
                env,
                fn_stmts_after(Some(Map::empty()), sc.statements@, i),
                #[trigger] sc.statements@[i],
                sd.statements@[i],
            ),
        FunctionStatement::Expression(e) => b matches FunctionStatement::Expression(f) && expr_resolved(env, top, e, f),
    }
}

/// Can each path of the statements be resolved, each with the locals before it.
pub open spec fn fn_stmts_ok(
    env: (Library, Seq<Library>, Option<SymbolNodeId>),
    top: Option<Map<Seq<char>, Seq<Span>>>,
    ss: Seq<FunctionStatement>,
) -> bool {
    forall|i: int| 0 <= i < ss.len() ==> fn_stmt_ok(env, fn_stmts_after(top, ss, i), #[trigger] ss[i])
}

/// Are `ts` the statements `ss` with each path resolved, each with the locals before it.
pub open spec fn fn_stmts_resolved(
    env: (Library, Seq<Library>, Option<SymbolNodeId>),
    top: Option<Map<Seq<char>, Seq<Span>>>,
    ss: Seq<FunctionStatement>,
    ts: Seq<FunctionStatement>,
) -> bool {
    &&& ts.len() == ss.len()
    &&& forall|i: int| 0 <= i < ss.len() ==> fn_stmt_resolved(env, fn_stmts_after(top, ss, i), #[trigger] ss[i], ts[i])
}

/// Can each path of a function be resolved: in a scope of its own that starts without
/// locals, the default values before the parameters are declared, then the statements.
pub open spec fn fn_ok(env: (Library, Seq<Library>, Option<SymbolNodeId>), f: Function) -> bool {
    let top = Some(Map::<Seq<char>, Seq<Span>>::empty());
    let ps = f.signature.parameters@;
    &&& params_ok(env, top, ps)
    &&& fn_stmts_ok(env, params_declared(top, ps, ps.len() as int), f.statements@)
}

/// Is `g` the function `f` with each path resolved.
pub open spec fn fn_resolved(env: (Library, Seq<Library>, Option<SymbolNodeId>), f: Function, g: Function) -> bool {
    let top = Some(Map::<Seq<char>, Seq<Span>>::empty());
    let ps = f.signature.parameters@;
    &&& params_resolved(env, top, ps, g.signature.parameters@)
    &&& fn_stmts_resolved(env, params_declared(top, ps, ps.len() as int), f.statements@, g.statements@)
}

/// The locals after a statement of a workbench or source file: a named value is declared.
pub open spec fn wb_stmt_after(top: Option<Map<Seq<char>, Seq<Span>>>, s: WorkbenchStatement) -> Option<Map<Seq<char>, Seq<Span>>> {
    match s.name {
        Some(n) => declared(top, n@),
        None => top,
    }
}

/// The locals after the first `n` statements of a workbench or source file.
pub open spec fn wb_stmts_after(top: Option<Map<Seq<char>, Seq<Span>>>, ss: Seq<WorkbenchStatement>, n: int) -> Option<Map<Seq<char>, Seq<Span>>>
    decreases n,
{
    if n <= 0 {
        top
    } else {
        wb_stmt_after(wb_stmts_after(top, ss, n - 1), ss[n - 1])
    }
}

/// Can each path of a workbench expression be resolved: those of a group in a scope of its
/// own, which starts without locals.
pub open spec fn wb_expr_ok(
    env: (Library, Seq<Library>, Option<SymbolNodeId>),
    top: Option<Map<Seq<char>, Seq<Span>>>,
    e: WorkbenchExpression,
) -> bool
    decreases e,
{
    match e {
        WorkbenchExpression::Value(x) => expr_ok(env, top, x),
        WorkbenchExpression::Group(g) => forall|i: int| 0 <= i < g.statements.len() ==> wb_expr_ok(
            env,
            wb_stmts_after(Some(Map::empty()), g.statements@, i),
            (#[trigger] g.statements@[i]).expression,
        ),
    }
}

/// Is `b` the workbench expression `a` with each path resolved.
pub open spec fn wb_expr_resolved(
    env: (Library, Seq<Library>, Option<SymbolNodeId>),
    top: Option<Map<Seq<char>, Seq<Span>>>,
    a: WorkbenchExpression,
    b: WorkbenchExpression,
) -> bool
    decreases a,
{
    match a {
        WorkbenchExpression::Value(x) => b matches WorkbenchExpression::Value(y) && expr_resolved(env, top, x, y),
        WorkbenchExpression::Group(g) => b matches WorkbenchExpression::Group(h) && h.statements.len() == g.statements.len()
            && forall|i: int| 0 <= i < g.statements.len() ==> {
                &&& (#[trigger] h.statements@[i]).name == g.statements@[i].name
                &&& wb_expr_resolved(
                    env,
                    wb_stmts_after(Some(Map::empty()), g.statements@, i),
                    g.statements@[i].expression,
                    h.statements@[i].expression,
                )
            },
    }
}

/// Can each path of the statements be resolved, each with the locals before it.
pub open spec fn wb_stmts_ok(
    env: (Library, Seq<Library>, Option<SymbolNodeId>),
    top: Option<Map<Seq<char>, Seq<Span>>>,
    ss: Seq<WorkbenchStatement>,
) -> bool {
    forall|i: int| 0 <= i < ss.len() ==> wb_expr_ok(env, wb_stmts_after(top, ss, i), (#[trigger] ss[i]).expression)
}

/// Are `ts` the statements `ss` with each path resolved, each with the locals before it.
pub open spec fn wb_stmts_resolved(
    env: (Library, Seq<Library>, Option<SymbolNodeId>),
    top: Option<Map<Seq<char>, Seq<Span>>>,
    ss: Seq<WorkbenchStatement>,
    ts: Seq<WorkbenchStatement>,
) -> bool {
    &&& ts.len() == ss.len()
    &&& forall|i: int| 0 <= i < ss.len() ==> {
        &&& (#[trigger] ts[i]).name == ss[i].name
        &&& wb_expr_resolved(env, wb_stmts_after(top, ss, i), ss[i].expression, ts[i].expression)
    }
}

/// The locals after an initializer: its parameters are declared.
pub open spec fn init_after(top: Option<Map<Seq<char>, Seq<Span>>>, init: Init) -> Option<Map<Seq<char>, Seq<Span>>> {
    params_declared(top, init.parameters@, init.parameters@.len() as int)
}

/// The locals after the first `n` initializers.
pub open spec fn inits_after(top: Option<Map<Seq<char>, Seq<Span>>>, inits: Seq<Init>, n: int) -> Option<Map<Seq<char>, Seq<Span>>>
    decreases n,
{
    if n <= 0 {
        top
    } else {
        init_after(inits_after(top, inits, n - 1), inits[n - 1])
    }
}

/// Can each path of an initializer be resolved: the default values of its parameters, then,
/// with the parameters declared, the values of its statements.
pub open spec fn init_ok(
    env: (Library, Seq<Library>, Option<SymbolNodeId>),
    top: Option<Map<Seq<char>, Seq<Span>>>,
    init: Init,
) -> bool {
    &&& params_ok(env, top, init.parameters@)
    &&& forall|i: int| 0 <= i < init.statements.len() ==> wb_expr_ok(
        env,
        init_after(top, init),
        (#[trigger] init.statements@[i]).expression,
    )
}

/// Is `b` the initializer `a` with each path resolved.
pub open spec fn init_resolved(
    env: (Library, Seq<Library>, Option<SymbolNodeId>),
    top: Option<Map<Seq<char>, Seq<Span>>>,
    a: Init,
    b: Init,
) -> bool {
    &&& params_resolved(env, top, a.parameters@, b.parameters@)
    &&& b.statements.len() == a.statements.len()
    &&& forall|i: int| 0 <= i < a.statements.len() ==> {
        &&& (#[trigger] b.statements@[i]).name == a.statements@[i].name
        &&& wb_expr_resolved(env, init_after(top, a), a.statements@[i].expression, b.statements@[i].expression)
    }
}

/// The locals after a workbench signature: its parameters, then those of each initializer.
pub open spec fn wb_sig_after(top: Option<Map<Seq<char>, Seq<Span>>>, sig: WorkbenchSignature) -> Option<Map<Seq<char>, Seq<Span>>> {
    let ps = sig.parameters@;
    inits_after(params_declared(top, ps, ps.len() as int), sig.inits@, sig.inits@.len() as int)
}

/// Can each path of a workbench signature be resolved: the default values of its
/// parameters, then, with those declared, each initializer in order.
pub open spec fn wb_sig_ok(
    env: (Library, Seq<Library>, Option<SymbolNodeId>),
    top: Option<Map<Seq<char>, Seq<Span>>>,
    sig: WorkbenchSignature,
) -> bool {
    let ps = sig.parameters@;
    let t = params_declared(top, ps, ps.len() as int);
    &&& params_ok(env, top, ps)
    &&& forall|k: int| 0 <= k < sig.inits.len() ==> init_ok(env, inits_after(t, sig.inits@, k), #[trigger] sig.inits@[k])
}

/// Is `b` the workbench signature `a` with each path resolved.
pub open spec fn wb_sig_resolved(
    env: (Library, Seq<Library>, Option<SymbolNodeId>),
    top: Option<Map<Seq<char>, Seq<Span>>>,
    a: WorkbenchSignature,
    b: WorkbenchSignature,
) -> bool {
    let ps = a.parameters@;
    let t = params_declared(top, ps, ps.len() as int);
    &&& params_resolved(env, top, ps, b.parameters@)
    &&& b.inits.len() == a.inits.len()
    &&& forall|k: int| 0 <= k < a.inits.len() ==> init_resolved(env, inits_after(t, a.inits@, k), #[trigger] a.inits@[k], b.inits@[k])
}

/// Can each path of a workbench be resolved: its signature, then its statements, in the
/// innermost scope.
pub open spec fn wb_ok(
    env: (Library, Seq<Library>, Option<SymbolNodeId>),
    top: Option<Map<Seq<char>, Seq<Span>>>,
    w: Workbench,
) -> bool {
    &&& wb_sig_ok(env, top, w.signature)
    &&& wb_stmts_ok(env, wb_sig_after(top, w.signature), w.statements@)
}

/// Is `b` the workbench `a` with each path resolved.
pub open spec fn wb_resolved(
    env: (Library, Seq<Library>, Option<SymbolNodeId>),
    top: Option<Map<Seq<char>, Seq<Span>>>,
    a: Workbench,
    b: Workbench,
) -> bool {
    &&& wb_sig_resolved(env, top, a.signature, b.signature)
    &&& wb_stmts_resolved(env, wb_sig_after(top, a.signature), a.statements@, b.statements@)
}

/// The locals after a workbench: those of its signature and its named values.
pub open spec fn wb_after(top: Option<Map<Seq<char>, Seq<Span>>>, w: Workbench) -> Option<Map<Seq<char>, Seq<Span>>> {
    wb_stmts_after(wb_sig_after(top, w.signature), w.statements@, w.statements@.len() as int)
}

/// Can each path of a source file be resolved: none if it is not loaded.
pub open spec fn source_file_ok(env: (Library, Seq<Library>, Option<SymbolNodeId>), f: SourceFile) -> bool {
    match f {
        SourceFile::NotLoaded => true,
        SourceFile::Loaded { source, .. } => wb_stmts_ok(env, Some(Map::empty()), source.statements@),
    }
}

/// Is `b` the source file `a` with each path resolved.
pub open spec fn source_file_resolved(env: (Library, Seq<Library>, Option<SymbolNodeId>), a: SourceFile, b: SourceFile) -> bool {
    match a {
        SourceFile::NotLoaded => b == SourceFile::NotLoaded,
        SourceFile::Loaded { path, source } => b matches SourceFile::Loaded { path: q, source: t } && q == path
            && wb_stmts_resolved(env, Some(Map::empty()), source.statements@, t.statements@),
    }
}

/// Can each path of a definition be resolved.
pub open spec fn def_ok(
    env: (Library, Seq<Library>, Option<SymbolNodeId>),
    top: Option<Map<Seq<char>, Seq<Span>>>,
    def: SymbolDef,
) -> bool {
    match def {
        SymbolDef::Root(Some(f)) => source_file_ok(env, f),
        SymbolDef::Root(None) => true,
        SymbolDef::InlineModule => true,
        SymbolDef::SourceFile(f) => source_file_ok(env, f),
        SymbolDef::Workbench(w) => wb_ok(env, top, w),
        SymbolDef::Function(f) => fn_ok(env, f),
        SymbolDef::Constant(c) => expr_ok(env, top, c.expr),
        SymbolDef::Alias(p) => path_ok(env, top, p),
        SymbolDef::Wildcard(p) => path_ok(env, top, p),
    }
}

/// Is `b` the definition `a` with each path resolved.
pub open spec fn def_resolved(
    env: (Library, Seq<Library>, Option<SymbolNodeId>),
    top: Option<Map<Seq<char>, Seq<Span>>>,
    a: SymbolDef,
    b: SymbolDef,
) -> bool {
    match a {
        SymbolDef::Root(Some(f)) => b matches SymbolDef::Root(Some(g)) && source_file_resolved(env, f, g),
        SymbolDef::Root(None) => b == SymbolDef::Root(None),
        SymbolDef::InlineModule => b == SymbolDef::InlineModule,
        SymbolDef::SourceFile(f) => b matches SymbolDef::SourceFile(g) && source_file_resolved(env, f, g),
        SymbolDef::Workbench(w) => b matches SymbolDef::Workbench(v) && wb_resolved(env, top, w, v),
        SymbolDef::Function(f) => b matches SymbolDef::Function(g) && fn_resolved(env, f, g),
        SymbolDef::Constant(c) => b matches SymbolDef::Constant(d) && expr_resolved(env, top, c.expr, d.expr),
        SymbolDef::Alias(p) => b == SymbolDef::Alias(path_resolved(env, top, p)),
        SymbolDef::Wildcard(p) => b == SymbolDef::Wildcard(path_resolved(env, top, p)),
    }
}

/// The locals after resolving a definition: a workbench declares its values in the
/// innermost scope; the others declare nothing there.
pub open spec fn def_after(top: Option<Map<Seq<char>, Seq<Span>>>, def: SymbolDef) -> Option<Map<Seq<char>, Seq<Span>>> {
    match def {
        SymbolDef::Workbench(w) => wb_after(top, w),
        _ => top,
    }
}

impl<'a> ResolveVisitor<'a> {
    /// Resolves the paths of an expression, in order.
    pub fn visit_expr(&mut self, e: &mut Expression)
        requires
            old(self).wf(),
            expr_ok(env_of(*old(self)), top_locals(old(self).stack.frames()), *old(e)),
        ensures
            *final(self) == *old(self),
            expr_resolved(env_of(*old(self)), top_locals(old(self).stack.frames()), *old(e), *final(e)),
        decreases *old(e),
    {
        let ghost env = env_of(*self);
        let ghost top = top_locals(self.stack.frames());
        match e {
            Expression::Name(p) => self.visit_path(p),
            Expression::Value => {},
            Expression::Compound(es) => {
                let ghost old_vec = *es;
                let ghost old_es = es@;
                let mut i: usize = 0;
                while i < es.len()
                    invariant
                        *self == *old(self),
                        *old(e) == Expression::Compound(old_vec),
                        old_es == old_vec@,
                        self.wf(),
                        env == env_of(*self),
                        top == top_locals(self.stack.frames()),
                        es@.len() == old_es.len(),
                        forall|j: int| 0 <= j < i ==> expr_resolved(env, top, #[trigger] old_es[j], es@[j]),
                        forall|j: int| i <= j < es@.len() ==> #[trigger] es@[j] == old_es[j],
                        forall|j: int| 0 <= j < old_es.len() ==> expr_ok(env, top, #[trigger] old_es[j]),
                    decreases es@.len() - i,
                {
                    proof {
                        let oe = *old(e);
                        assert(decreases_to!(oe => oe->Compound_0));
                        assert(decreases_to!(old_vec => old_vec@));
                        assert(decreases_to!(old_vec@ => old_vec@[i as int]));
                        assert(decreases_to!(*old(e) => es@[i as int]));
                    }
                    self.visit_expr(&mut es[i]);
                    i = i + 1;
                }
            },
        }
    }

    /// Enters a scope whose frame has a local table without locals.
    fn enter(&mut self, frame: ResolveStackFrame)
        requires
            old(self).wf(),
            frame.table() matches Some(t) && t.wf() && t@ == Map::<Seq<char>, Seq<Span>>::empty(),
        ensures
            final(self).wf(),
            final(self).lib == old(self).lib,
            final(self).libs == old(self).libs,
            final(self).stack.frames() == old(self).stack.frames().push(frame),
            env_of(*final(self)) == env_of(*old(self)),
            top_locals(final(self).stack.frames()) == Some(Map::<Seq<char>, Seq<Span>>::empty()),
    {
        self.stack.push(frame);
        proof {
            let a = old(self).stack.frames();
            let b = self.stack.frames();
            lemma_innermost_symbol_same(a, b, a.len() as int);
            assert forall|i: int| 0 <= i < b.len() implies (#[trigger] b[i]).wf()
                && (b[i] matches ResolveStackFrame::Symbol(n) ==> n < self.lib.size()) by {
                if i < a.len() {
                    assert(b[i] == a[i]);
                }
            }
        }
    }

    /// Leaves the innermost scope.
    fn leave(&mut self)
        requires
            old(self).wf(),
            old(self).stack.frames().len() > 0,
        ensures
            final(self).wf(),
            final(self).lib == old(self).lib,
            final(self).libs == old(self).libs,
            final(self).stack.frames() == old(self).stack.frames().drop_last(),
    {
        let _ = self.stack.pop();
        proof {
            let a = old(self).stack.frames();
            let b = self.stack.frames();
            assert forall|i: int| 0 <= i < b.len() implies (#[trigger] b[i]).wf()
                && (b[i] matches ResolveStackFrame::Symbol(n) ==> n < self.lib.size()) by {
                assert(b[i] == a[i]);
            }
        }
    }

    /// Declares a local in the innermost scope, as far as the scopes read it.
    fn declare(&mut self, name: &String)
        requires
            old(self).wf(),
            old(self).stack.frames().len() > 0,
        ensures
            final(self).wf(),
            final(self).lib == old(self).lib,
            final(self).libs == old(self).libs,
            keeps_scopes(old(self).stack.frames(), final(self).stack.frames()),
            env_of(*final(self)) == env_of(*old(self)),
            top_locals(final(self).stack.frames()) == declared(top_locals(old(self).stack.frames()), name@),
    {
        self.declare_local(name.clone());
        proof {
            lemma_keeps_symbol(old(self).stack.frames(), self.stack.frames());
        }
    }

    /// Resolves the paths in the default values of parameters.
    pub fn visit_parameter_list(&mut self, ps: &mut Vec<Parameter>)
        requires
            old(self).wf(),
            params_ok(env_of(*old(self)), top_locals(old(self).stack.frames()), old(ps)@),
        ensures
            *final(self) == *old(self),
            params_resolved(env_of(*old(self)), top_locals(old(self).stack.frames()), old(ps)@, final(ps)@),
    {
        let ghost env = env_of(*self);
        let ghost top = top_locals(self.stack.frames());
        let ghost old_ps = ps@;
        let mut i: usize = 0;
        while i < ps.len()
            invariant
                *self == *old(self),
                self.wf(),
                env == env_of(*self),
                top == top_locals(self.stack.frames()),
                old_ps == old(ps)@,
                ps@.len() == old_ps.len(),
                params_ok(env, top, old_ps),
                forall|j: int| 0 <= j < i ==> {
                    &&& (#[trigger] ps@[j]).id == old_ps[j].id
                    &&& match (old_ps[j].default_value, ps@[j].default_value) {
                        (Some(d), Some(e)) => expr_resolved(env, top, d, e),
                        (None, None) => true,
                        _ => false,
                    }
                },
                forall|j: int| i <= j < ps@.len() ==> #[trigger] ps@[j] == old_ps[j],
            decreases ps@.len() - i,
        {
            assert(old_ps[i as int].default_value matches Some(d) ==> expr_ok(env, top, d));
            match &mut ps[i].default_value {
                Some(d) => self.visit_expr(d),
                None => {},
            }
            i = i + 1;
        }
    }

    /// Declares the parameters as locals of the innermost scope, in order.
    fn declare_parameters(&mut self, ps: &Vec<Parameter>)
        requires
            old(self).wf(),
            old(self).stack.frames().len() > 0,
        ensures
            final(self).wf(),
            final(self).lib == old(self).lib,
            final(self).libs == old(self).libs,
            keeps_scopes(old(self).stack.frames(), final(self).stack.frames()),
            env_of(*final(self)) == env_of(*old(self)),
            top_locals(final(self).stack.frames()) == params_declared(top_locals(old(self).stack.frames()), ps@, ps@.len() as int),
    {
        let mut i: usize = 0;
        while i < ps.len()
            invariant
                self.wf(),
                self.lib == old(self).lib,
                self.libs == old(self).libs,
                keeps_scopes(old(self).stack.frames(), self.stack.frames()),
                env_of(*self) == env_of(*old(self)),
                top_locals(self.stack.frames()) == params_declared(top_locals(old(self).stack.frames()), ps@, i as int),
                i <= ps@.len(),
                self.stack.frames().len() > 0,
            decreases ps@.len() - i,
        {
            self.declare(&ps[i].id);
            i = i + 1;
        }
    }

    /// Resolves the default values of a function's parameters, then declares them.
    pub fn visit_fn_signature(&mut self, signature: &mut FunctionSignature)
        requires
            old(self).wf(),
            old(self).stack.frames().len() > 0,
            params_ok(env_of(*old(self)), top_locals(old(self).stack.frames()), old(signature).parameters@),
        ensures
            final(self).wf(),
            final(self).lib == old(self).lib,
            final(self).libs == old(self).libs,
            keeps_scopes(old(self).stack.frames(), final(self).stack.frames()),
            env_of(*final(self)) == env_of(*old(self)),
            top_locals(final(self).stack.frames()) == params_declared(
                top_locals(old(self).stack.frames()),
                old(signature).parameters@,
                old(signature).parameters@.len() as int,
            ),
            params_resolved(env_of(*old(self)), top_locals(old(self).stack.frames()), old(signature).parameters@, final(signature).parameters@),
    {
        self.visit_parameter_list(&mut signature.parameters);
        assert(forall|j: int| 0 <= j < signature.parameters@.len() ==> #[trigger] signature.parameters@[j].id == old(signature).parameters@[j].id);
        self.declare_parameters(&signature.parameters);
        proof {
            let ps = old(signature).parameters@;
            let qs = signature.parameters@;
            let t = top_locals(old(self).stack.frames());
            assert forall|n: int| 0 <= n <= ps.len() implies params_declared(t, qs, n) == params_declared(t, ps, n) by {
                lemma_params_declared_ids(t, ps, qs, n);
            }
        }
    }

    /// Resolves the value of an assignment to a local, then declares the local.
    pub fn visit_fn_local_assignment(&mut self, local_assignment: &mut FunctionLocalAssignment)
        requires
            old(self).wf(),
            old(self).stack.frames().len() > 0,
            expr_ok(env_of(*old(self)), top_locals(old(self).stack.frames()), old(local_assignment).expression),
        ensures
            final(self).wf(),
            final(self).lib == old(self).lib,
            final(self).libs == old(self).libs,
            keeps_scopes(old(self).stack.frames(), final(self).stack.frames()),
            env_of(*final(self)) == env_of(*old(self)),
            top_locals(final(self).stack.frames()) == declared(top_locals(old(self).stack.frames()), old(local_assignment).id@),
            final(local_assignment).id == old(local_assignment).id,
            expr_resolved(
                env_of(*old(self)),
                top_locals(old(self).stack.frames()),
                old(local_assignment).expression,
                final(local_assignment).expression,
            ),
    {
        self.visit_expr(&mut local_assignment.expression);
        self.declare(&local_assignment.id);
    }

    /// Resolves the paths of a function statement; an assignment declares its local, a
    /// block is resolved in a scope of its own.
    pub fn visit_fn_statement(&mut self, statement: &mut FunctionStatement)
        requires
            old(self).wf(),
            old(self).stack.frames().len() > 0,
            fn_stmt_ok(env_of(*old(self)), top_locals(old(self).stack.frames()), *old(statement)),
        ensures
            final(self).wf(),
            final(self).lib == old(self).lib,
            final(self).libs == old(self).libs,
            keeps_scopes(old(self).stack.frames(), final(self).stack.frames()),
            env_of(*final(self)) == env_of(*old(self)),
            top_locals(final(self).stack.frames()) == fn_stmt_after(top_locals(old(self).stack.frames()), *old(statement)),
            fn_stmt_resolved(env_of(*old(self)), top_locals(old(self).stack.frames()), *old(statement), *final(statement)),
        decreases *old(statement), 2nat,
    {
        let ghost os = *statement;
        match statement {
            FunctionStatement::LocalAssignment(a) => self.visit_fn_local_assignment(a),
            FunctionStatement::Scope(sc) => {
                proof {
                    assert(decreases_to!(os => os->Scope_0));
                }
                self.visit_fn_scope(sc);
            },
            FunctionStatement::Expression(e) => {
                self.visit_expr(e);
                proof {
                    assert(keeps_scopes(old(self).stack.frames(), self.stack.frames()));
                }
            },
        }
    }

    /// Resolves the statements of a function body or block in order, each with the locals
    /// declared before it.
    fn visit_fn_statements(&mut self, statements: &mut Vec<FunctionStatement>)
        requires
            old(self).wf(),
            old(self).stack.frames().len() > 0,
            fn_stmts_ok(env_of(*old(self)), top_locals(old(self).stack.frames()), old(statements)@),
        ensures
            final(self).wf(),
            final(self).lib == old(self).lib,
            final(self).libs == old(self).libs,
            keeps_scopes(old(self).stack.frames(), final(self).stack.frames()),
            env_of(*final(self)) == env_of(*old(self)),
            top_locals(final(self).stack.frames()) == fn_stmts_after(
                top_locals(old(self).stack.frames()),
                old(statements)@,
                old(statements)@.len() as int,
            ),
            fn_stmts_resolved(env_of(*old(self)), top_locals(old(self).stack.frames()), old(statements)@, final(statements)@),
        decreases *old(statements), 0nat,
    {
        let ghost env = env_of(*self);
        let ghost top = top_locals(self.stack.frames());
        let ghost old_vec = *statements;
        let ghost old_ss = statements@;
        let mut i: usize = 0;
        while i < statements.len()
            invariant
                old_vec == *old(statements),
                old_ss == old_vec@,
                self.wf(),
                self.lib == old(self).lib,
                self.libs == old(self).libs,
                keeps_scopes(old(self).stack.frames(), self.stack.frames()),
                env == env_of(*old(self)),
                env == env_of(*self),
                top == top_locals(old(self).stack.frames()),
                top_locals(self.stack.frames()) == fn_stmts_after(top, old_ss, i as int),
                i <= old_ss.len(),
                self.stack.frames().len() > 0,
                statements@.len() == old_ss.len(),
                fn_stmts_ok(env, top, old_ss),
                forall|j: int| 0 <= j < i ==> fn_stmt_resolved(env, fn_stmts_after(top, old_ss, j), #[trigger] old_ss[j], statements@[j]),
                forall|j: int| i <= j < statements@.len() ==> #[trigger] statements@[j] == old_ss[j],
            decreases statements@.len() - i,
        {
            proof {
                assert(decreases_to!(old_vec => old_vec@));
                assert(decreases_to!(old_vec@ => old_vec@[i as int]));
                assert(fn_stmt_ok(env, fn_stmts_after(top, old_ss, i as int), old_ss[i as int]));
            }
            self.visit_fn_statement(&mut statements[i]);
            i = i + 1;
        }
    }

    /// Resolves a block of a function in a scope of its own.
    pub fn visit_fn_scope(&mut self, scope: &mut Scope)
        requires
            old(self).wf(),
            fn_stmts_ok(env_of(*old(self)), Some(Map::empty()), old(scope).statements@),
        ensures
            final(self).wf(),
            final(self).lib == old(self).lib,
            final(self).libs == old(self).libs,
            final(self).stack.frames() == old(self).stack.frames(),
            fn_stmts_resolved(env_of(*old(self)), Some(Map::empty()), old(scope).statements@, final(scope).statements@),
        decreases *old(scope), 1nat,
    {
        let ghost osc = *scope;
        proof {
            assert(decreases_to!(osc => osc.statements));
        }
        self.enter(ResolveStackFrame::FunctionScope(LocalTable::new()));
        self.visit_fn_statements(&mut scope.statements);
        self.leave();
        assert(self.stack.frames() =~= old(self).stack.frames());
    }

    /// Resolves a function in a scope of its own: the default values of its parameters,
    /// then, with the parameters declared, its statements.
    pub fn visit_fn(&mut self, function: &mut Function)
        requires
            old(self).wf(),
            fn_ok(env_of(*old(self)), *old(function)),
        ensures
            final(self).wf(),
            final(self).lib == old(self).lib,
            final(self).libs == old(self).libs,
            final(self).stack.frames() == old(self).stack.frames(),
            fn_resolved(env_of(*old(self)), *old(function), *final(function)),
    {
        self.enter(ResolveStackFrame::Function(LocalTable::new()));
        self.visit_fn_signature(&mut function.signature);
        self.visit_fn_statements(&mut function.statements);
        self.leave();
        assert(self.stack.frames() =~= old(self).stack.frames());
    }
}

impl<'a> ResolveVisitor<'a> {
    /// Resolves a workbench expression: a value in the innermost scope, a group in a scope
    /// of its own.
    pub fn visit_workbench_expr(&mut self, expression: &mut WorkbenchExpression)
        requires
            old(self).wf(),
            wb_expr_ok(env_of(*old(self)), top_locals(old(self).stack.frames()), *old(expression)),
        ensures
            final(self).wf(),
            final(self).lib == old(self).lib,
            final(self).libs == old(self).libs,
            final(self).stack.frames() == old(self).stack.frames(),
            wb_expr_resolved(env_of(*old(self)), top_locals(old(self).stack.frames()), *old(expression), *final(expression)),
        decreases *old(expression), 3nat,
    {
        let ghost oe = *expression;
        match expression {
            WorkbenchExpression::Value(x) => self.visit_expr(x),
            WorkbenchExpression::Group(g) => {
                proof {
                    assert(decreases_to!(oe => oe->Group_0));
                }
                self.visit_workbench_group(g);
            },
        }
    }

    /// Resolves the value of a workbench statement, then declares its name.
    pub fn visit_workbench_statement(&mut self, statement: &mut WorkbenchStatement)
        requires
            old(self).wf(),
            old(self).stack.frames().len() > 0,
            wb_expr_ok(env_of(*old(self)), top_locals(old(self).stack.frames()), old(statement).expression),
        ensures
            final(self).wf(),
            final(self).lib == old(self).lib,
            final(self).libs == old(self).libs,
            keeps_scopes(old(self).stack.frames(), final(self).stack.frames()),
            env_of(*final(self)) == env_of(*old(self)),
            top_locals(final(self).stack.frames()) == wb_stmt_after(top_locals(old(self).stack.frames()), *old(statement)),
            final(statement).name == old(statement).name,
            wb_expr_resolved(
                env_of(*old(self)),
                top_locals(old(self).stack.frames()),
                old(statement).expression,
                final(statement).expression,
            ),
        decreases old(statement).expression, 4nat,
    {
        self.visit_workbench_expr(&mut statement.expression);
        match &statement.name {
            Some(name) => self.declare(name),
            None => {
                assert(keeps_scopes(old(self).stack.frames(), self.stack.frames()));
            },
        }
    }

    /// Resolves workbench or source statements in order, each with the locals declared
    /// before it.
    fn visit_workbench_statements(&mut self, statements: &mut Vec<WorkbenchStatement>)
        requires
            old(self).wf(),
            old(self).stack.frames().len() > 0,
            wb_stmts_ok(env_of(*old(self)), top_locals(old(self).stack.frames()), old(statements)@),
        ensures
            final(self).wf(),
            final(self).lib == old(self).lib,
            final(self).libs == old(self).libs,
            keeps_scopes(old(self).stack.frames(), final(self).stack.frames()),
            env_of(*final(self)) == env_of(*old(self)),
            top_locals(final(self).stack.frames()) == wb_stmts_after(
                top_locals(old(self).stack.frames()),
                old(statements)@,
                old(statements)@.len() as int,
            ),
            wb_stmts_resolved(env_of(*old(self)), top_locals(old(self).stack.frames()), old(statements)@, final(statements)@),
        decreases *old(statements), 5nat,
    {
        let ghost env = env_of(*self);
        let ghost top = top_locals(self.stack.frames());
        let ghost old_vec = *statements;
        let ghost old_ss = statements@;
        let mut i: usize = 0;
        while i < statements.len()
            invariant
                old_vec == *old(statements),
                old_ss == old_vec@,
                self.wf(),
                self.lib == old(self).lib,
                self.libs == old(self).libs,
                keeps_scopes(old(self).stack.frames(), self.stack.frames()),
                env == env_of(*old(self)),
                env == env_of(*self),
                top == top_locals(old(self).stack.frames()),
                top_locals(self.stack.frames()) == wb_stmts_after(top, old_ss, i as int),
                i <= old_ss.len(),
                self.stack.frames().len() > 0,
                statements@.len() == old_ss.len(),
                wb_stmts_ok(env, top, old_ss),
                forall|j: int| 0 <= j < i ==> {
                    &&& (#[trigger] statements@[j]).name == old_ss[j].name
                    &&& wb_expr_resolved(env, wb_stmts_after(top, old_ss, j), old_ss[j].expression, statements@[j].expression)
                },
                forall|j: int| i <= j < statements@.len() ==> #[trigger] statements@[j] == old_ss[j],
            decreases statements@.len() - i,
        {
            proof {
                assert(decreases_to!(old_vec => old_vec@));
                assert(decreases_to!(old_vec@ => old_vec@[i as int]));
                let st = old_vec@[i as int];
                assert(decreases_to!(st => st.expression));
                assert(wb_expr_ok(env, wb_stmts_after(top, old_ss, i as int), old_ss[i as int].expression));
            }
            self.visit_workbench_statement(&mut statements[i]);
            i = i + 1;
        }
    }

    /// Resolves a group of workbench statements in a scope of its own.
    pub fn visit_workbench_group(&mut self, group: &mut Group)
        requires
            old(self).wf(),
            wb_stmts_ok(env_of(*old(self)), Some(Map::empty()), old(group).statements@),
        ensures
            final(self).wf(),
            final(self).lib == old(self).lib,
            final(self).libs == old(self).libs,
            final(self).stack.frames() == old(self).stack.frames(),
            wb_stmts_resolved(env_of(*old(self)), Some(Map::empty()), old(group).statements@, final(group).statements@),
        decreases *old(group), 6nat,
    {
        let ghost og = *group;
        proof {
            assert(decreases_to!(og => og.statements));
        }
        self.enter(ResolveStackFrame::WorkbenchGroup(LocalTable::new()));
        self.visit_workbench_statements(&mut group.statements);
        self.leave();
        assert(self.stack.frames() =~= old(self).stack.frames());
    }
}

impl<'a> ResolveVisitor<'a> {
    /// Resolves an initializer: the default values of its parameters, then, with the
    /// parameters declared in the innermost scope, the values of its statements.
    pub fn visit_workbench_init(&mut self, init: &mut Init)
        requires
            old(self).wf(),
            old(self).stack.frames().len() > 0,
            init_ok(env_of(*old(self)), top_locals(old(self).stack.frames()), *old(init)),
        ensures
            final(self).wf(),
            final(self).lib == old(self).lib,
            final(self).libs == old(self).libs,
            keeps_scopes(old(self).stack.frames(), final(self).stack.frames()),
            env_of(*final(self)) == env_of(*old(self)),
            top_locals(final(self).stack.frames()) == init_after(top_locals(old(self).stack.frames()), *old(init)),
            init_resolved(env_of(*old(self)), top_locals(old(self).stack.frames()), *old(init), *final(init)),
    {
        let ghost env = env_of(*self);
        let ghost top = top_locals(self.stack.frames());
        let ghost old_ps = init.parameters@;
        self.visit_parameter_list(&mut init.parameters);
        assert(forall|j: int| 0 <= j < init.parameters@.len() ==> #[trigger] init.parameters@[j].id == old_ps[j].id);
        self.declare_parameters(&init.parameters);
        proof {
            lemma_params_declared_ids(top, old_ps, init.parameters@, old_ps.len() as int);
        }
        let ghost t = top_locals(self.stack.frames());
        let ghost old_ss = init.statements@;
        let mut i: usize = 0;
        while i < init.statements.len()
            invariant
                self.wf(),
                self.lib == old(self).lib,
                self.libs == old(self).libs,
                keeps_scopes(old(self).stack.frames(), self.stack.frames()),
                env == env_of(*old(self)),
                env == env_of(*self),
                top == top_locals(old(self).stack.frames()),
                t == init_after(top, *old(init)),
                t == top_locals(self.stack.frames()),
                old_ss == old(init).statements@,
                init.statements@.len() == old_ss.len(),
                params_resolved(env, top, old(init).parameters@, init.parameters@),
                forall|j: int| 0 <= j < old_ss.len() ==> wb_expr_ok(env, t, (#[trigger] old_ss[j]).expression),
                forall|j: int| 0 <= j < i ==> {
                    &&& (#[trigger] init.statements@[j]).name == old_ss[j].name
                    &&& wb_expr_resolved(env, t, old_ss[j].expression, init.statements@[j].expression)
                },
                forall|j: int| i <= j < init.statements@.len() ==> #[trigger] init.statements@[j] == old_ss[j],
            decreases init.statements@.len() - i,
        {
            assert(wb_expr_ok(env, t, old_ss[i as int].expression));
            self.visit_workbench_expr(&mut init.statements[i].expression);
            i = i + 1;
        }
    }

    /// Resolves a workbench signature: the default values of its parameters, then, with
    /// those declared in the innermost scope, each initializer in order.
    pub fn visit_workbench_signature(&mut self, signature: &mut WorkbenchSignature)
        requires
            old(self).wf(),
            old(self).stack.frames().len() > 0,
            wb_sig_ok(env_of(*old(self)), top_locals(old(self).stack.frames()), *old(signature)),
        ensures
            final(self).wf(),
            final(self).lib == old(self).lib,
            final(self).libs == old(self).libs,
            keeps_scopes(old(self).stack.frames(), final(self).stack.frames()),
            env_of(*final(self)) == env_of(*old(self)),
            top_locals(final(self).stack.frames()) == wb_sig_after(top_locals(old(self).stack.frames()), *old(signature)),
            wb_sig_resolved(env_of(*old(self)), top_locals(old(self).stack.frames()), *old(signature), *final(signature)),
    {
        let ghost env = env_of(*self);
        let ghost top = top_locals(self.stack.frames());
        let ghost old_ps = signature.parameters@;
        self.visit_parameter_list(&mut signature.parameters);
        assert(forall|j: int| 0 <= j < signature.parameters@.len() ==> #[trigger] signature.parameters@[j].id == old_ps[j].id);
        self.declare_parameters(&signature.parameters);
        proof {
            lemma_params_declared_ids(top, old_ps, signature.parameters@, old_ps.len() as int);
        }
        let ghost t = top_locals(self.stack.frames());
        let ghost old_inits = signature.inits@;
        let mut k: usize = 0;
        while k < signature.inits.len()
            invariant
                self.wf(),
                self.lib == old(self).lib,
                self.libs == old(self).libs,
                keeps_scopes(old(self).stack.frames(), self.stack.frames()),
                env == env_of(*old(self)),
                env == env_of(*self),
                top == top_locals(old(self).stack.frames()),
                t == params_declared(top, old_ps, old_ps.len() as int),
                old_ps == old(signature).parameters@,
                old_inits == old(signature).inits@,
                k <= old_inits.len(),
                self.stack.frames().len() > 0,
                top_locals(self.stack.frames()) == inits_after(t, old_inits, k as int),
                signature.inits@.len() == old_inits.len(),
                params_resolved(env, top, old_ps, signature.parameters@),
                forall|j: int| 0 <= j < old_inits.len() ==> init_ok(env, inits_after(t, old_inits, j), #[trigger] old_inits[j]),
                forall|j: int| 0 <= j < k ==> init_resolved(env, inits_after(t, old_inits, j), #[trigger] old_inits[j], signature.inits@[j]),
                forall|j: int| k <= j < signature.inits@.len() ==> #[trigger] signature.inits@[j] == old_inits[j],
            decreases signature.inits@.len() - k,
        {
            assert(init_ok(env, inits_after(t, old_inits, k as int), old_inits[k as int]));
            self.visit_workbench_init(&mut signature.inits[k]);
            k = k + 1;
        }
    }

    /// Resolves a workbench in the innermost scope: its signature, then its statements, each
    /// named value declared after its value is resolved.
    pub fn visit_workbench(&mut self, workbench: &mut Workbench)
        requires
            old(self).wf(),
            old(self).stack.frames().len() > 0,
            wb_ok(env_of(*old(self)), top_locals(old(self).stack.frames()), *old(workbench)),
        ensures
            final(self).wf(),
            final(self).lib == old(self).lib,
            final(self).libs == old(self).libs,
            keeps_scopes(old(self).stack.frames(), final(self).stack.frames()),
            env_of(*final(self)) == env_of(*old(self)),
            top_locals(final(self).stack.frames()) == wb_after(top_locals(old(self).stack.frames()), *old(workbench)),
            wb_resolved(env_of(*old(self)), top_locals(old(self).stack.frames()), *old(workbench), *final(workbench)),
    {
        self.visit_workbench_signature(&mut workbench.signature);
        self.visit_workbench_statements(&mut workbench.statements);
    }

    /// Resolves a source file in a scope of its own, each named value declared after its
    /// value is resolved.
    pub fn visit_source(&mut self, source: &mut Source)
        requires
            old(self).wf(),
            wb_stmts_ok(env_of(*old(self)), Some(Map::empty()), old(source).statements@),
        ensures
            final(self).wf(),
            final(self).lib == old(self).lib,
            final(self).libs == old(self).libs,
            final(self).stack.frames() == old(self).stack.frames(),
            wb_stmts_resolved(env_of(*old(self)), Some(Map::empty()), old(source).statements@, final(source).statements@),
    {
        self.enter(ResolveStackFrame::Source(LocalTable::new()));
        self.visit_workbench_statements(&mut source.statements);
        self.leave();
        assert(self.stack.frames() =~= old(self).stack.frames());
    }
}

impl<'a> ResolveVisitor<'a> {
    /// Resolves the statements of a loaded source file; one not loaded holds no path.
    pub fn visit_source_file(&mut self, source_file: &mut SourceFile)
        requires
            old(self).wf(),
            source_file_ok(env_of(*old(self)), *old(source_file)),
        ensures
            final(self).wf(),
            final(self).lib == old(self).lib,
            final(self).libs == old(self).libs,
            final(self).stack.frames() == old(self).stack.frames(),
            source_file_resolved(env_of(*old(self)), *old(source_file), *final(source_file)),
    {
        match source_file {
            SourceFile::NotLoaded => {},
            SourceFile::Loaded { path: _, source } => self.visit_source(source),
        }
    }

    /// Resolves the paths of a definition: those of the source file of a root or file
    /// module, of a workbench, function or constant, and the path of an alias or wildcard.
    pub fn visit_def(&mut self, def: &mut SymbolDef)
        requires
            old(self).wf(),
            *old(def) is Workbench ==> old(self).stack.frames().len() > 0,
            def_ok(env_of(*old(self)), top_locals(old(self).stack.frames()), *old(def)),
        ensures
            final(self).wf(),
            final(self).lib == old(self).lib,
            final(self).libs == old(self).libs,
            keeps_scopes(old(self).stack.frames(), final(self).stack.frames()),
            env_of(*final(self)) == env_of(*old(self)),
            top_locals(final(self).stack.frames()) == def_after(top_locals(old(self).stack.frames()), *old(def)),
            def_resolved(env_of(*old(self)), top_locals(old(self).stack.frames()), *old(def), *final(def)),
    {
        match def {
            SymbolDef::Root(root) => match root {
                Some(f) => self.visit_source_file(f),
                None => {},
            },
            SymbolDef::InlineModule => {},
            SymbolDef::SourceFile(f) => self.visit_source_file(f),
            SymbolDef::Workbench(w) => self.visit_workbench(w),
            SymbolDef::Function(f) => self.visit_fn(f),
            SymbolDef::Constant(c) => self.visit_expr(&mut c.expr),
            SymbolDef::Alias(p) => self.visit_path(p),
            SymbolDef::Wildcard(p) => self.visit_path(p),
        }
    }

    /// Resolves the definition of the symbol at `node`, in a frame of that symbol: paths are
    /// looked up from it.
    pub fn visit_symbol(&mut self, node: SymbolNodeId, symbol: &mut Symbol)
        requires
            old(self).wf(),
            node < old(self).lib.size(),
            def_ok((*old(self).lib, old(self).libs@, Some(node)), None, old(symbol).def),
        ensures
            final(self).wf(),
            final(self).lib == old(self).lib,
            final(self).libs == old(self).libs,
            final(self).stack.frames() == old(self).stack.frames(),
            final(symbol).meta == old(symbol).meta,
            final(symbol).doc == old(symbol).doc,
            def_resolved((*old(self).lib, old(self).libs@, Some(node)), None, old(symbol).def, final(symbol).def),
    {
        self.stack.push(ResolveStackFrame::Symbol(node));
        proof {
            let a = old(self).stack.frames();
            let b = self.stack.frames();
            assert forall|i: int| 0 <= i < b.len() implies (#[trigger] b[i]).wf()
                && (b[i] matches ResolveStackFrame::Symbol(n) ==> n < self.lib.size()) by {
                if i < a.len() {
                    assert(b[i] == a[i]);
                }
            }
        }
        self.visit_def(&mut symbol.def);
        self.leave();
        assert(self.stack.frames() =~= old(self).stack.frames());
    }
}

/// A resolved expression holds resolved paths only: it is left as it is, whatever the scopes.
proof fn lemma_expr_resolved_fixed(
    env: (Library, Seq<Library>, Option<SymbolNodeId>),
    top: Option<Map<Seq<char>, Seq<Span>>>,
    a: Expression,
    b: Expression,
    env2: (Library, Seq<Library>, Option<SymbolNodeId>),
    top2: Option<Map<Seq<char>, Seq<Span>>>,
)
    requires
        expr_resolved(env, top, a, b),
    ensures
        expr_ok(env2, top2, b),
        expr_resolved(env2, top2, b, b),
    decreases a,
{
    if let Expression::Compound(es) = a {
        let fs = b->Compound_0;
        assert forall|i: int| 0 <= i < fs.len() implies expr_ok(env2, top2, #[trigger] fs@[i])
            && expr_resolved(env2, top2, fs@[i], fs@[i]) by {
            assert(decreases_to!(a => a->Compound_0));
            assert(decreases_to!(es => es@));
            assert(decreases_to!(es@ => es@[i]));
            lemma_expr_resolved_fixed(env, top, es@[i], fs@[i], env2, top2);
        }
    }
}

proof fn lemma_params_resolved_fixed(
    env: (Library, Seq<Library>, Option<SymbolNodeId>),
    top: Option<Map<Seq<char>, Seq<Span>>>,
    ps: Seq<Parameter>,
    qs: Seq<Parameter>,
    env2: (Library, Seq<Library>, Option<SymbolNodeId>),
    top2: Option<Map<Seq<char>, Seq<Span>>>,
)
    requires
        params_resolved(env, top, ps, qs),
    ensures
        params_ok(env2, top2, qs),
        params_resolved(env2, top2, qs, qs),
{
    assert forall|i: int| 0 <= i < qs.len() implies ((#[trigger] qs[i]).default_value matches Some(d) ==> expr_ok(env2, top2, d)
        && expr_resolved(env2, top2, d, d)) by {
        if let (Some(d), Some(e)) = (ps[i].default_value, qs[i].default_value) {
            lemma_expr_resolved_fixed(env, top, d, e, env2, top2);
        }
    }
}

proof fn lemma_fn_stmt_resolved_fixed(
    env: (Library, Seq<Library>, Option<SymbolNodeId>),
    top: Option<Map<Seq<char>, Seq<Span>>>,
    a: FunctionStatement,
    b: FunctionStatement,
    env2: (Library, Seq<Library>, Option<SymbolNodeId>),
    top2: Option<Map<Seq<char>, Seq<Span>>>,
)
    requires
        fn_stmt_resolved(env, top, a, b),
    ensures
        fn_stmt_ok(env2, top2, b),
        fn_stmt_resolved(env2, top2, b, b),
    decreases a,
{
    match a {
        FunctionStatement::LocalAssignment(x) => {
            lemma_expr_resolved_fixed(env, top, x.expression, b->LocalAssignment_0.expression, env2, top2);
        },
        FunctionStatement::Scope(sc) => {
            let sd = b->Scope_0;
            assert forall|i: int| 0 <= i < sd.statements.len() implies fn_stmt_ok(
                env2,
                fn_stmts_after(Some(Map::empty()), sd.statements@, i),
                #[trigger] sd.statements@[i],
            ) && fn_stmt_resolved(
                env2,
                fn_stmts_after(Some(Map::empty()), sd.statements@, i),
                sd.statements@[i],
                sd.statements@[i],
            ) by {
                assert(decreases_to!(a => a->Scope_0));
                assert(decreases_to!(sc => sc.statements));
                assert(decreases_to!(sc.statements => sc.statements@));
                assert(decreases_to!(sc.statements@ => sc.statements@[i]));
                lemma_fn_stmt_resolved_fixed(
                    env,
                    fn_stmts_after(Some(Map::empty()), sc.statements@, i),
                    sc.statements@[i],
                    sd.statements@[i],
                    env2,
                    fn_stmts_after(Some(Map::empty()), sd.statements@, i),
                );
            }
        },
        FunctionStatement::Expression(e) => {
            lemma_expr_resolved_fixed(env, top, e, b->Expression_0, env2, top2);
        },
    }
}

proof fn lemma_fn_stmts_resolved_fixed(
    env: (Library, Seq<Library>, Option<SymbolNodeId>),
    top: Option<Map<Seq<char>, Seq<Span>>>,
    ss: Seq<FunctionStatement>,
    ts: Seq<FunctionStatement>,
    env2: (Library, Seq<Library>, Option<SymbolNodeId>),
    top2: Option<Map<Seq<char>, Seq<Span>>>,
)
    requires
        fn_stmts_resolved(env, top, ss, ts),
    ensures
        fn_stmts_ok(env2, top2, ts),
        fn_stmts_resolved(env2, top2, ts, ts),
{
    assert forall|i: int| 0 <= i < ts.len() implies fn_stmt_ok(env2, fn_stmts_after(top2, ts, i), #[trigger] ts[i])
        && fn_stmt_resolved(env2, fn_stmts_after(top2, ts, i), ts[i], ts[i]) by {
        lemma_fn_stmt_resolved_fixed(env, fn_stmts_after(top, ss, i), ss[i], ts[i], env2, fn_stmts_after(top2, ts, i));
    }
}

proof fn lemma_wb_expr_resolved_fixed(
    env: (Library, Seq<Library>, Option<SymbolNodeId>),
    top: Option<Map<Seq<char>, Seq<Span>>>,
    a: WorkbenchExpression,
    b: WorkbenchExpression,
    env2: (Library, Seq<Library>, Option<SymbolNodeId>),
    top2: Option<Map<Seq<char>, Seq<Span>>>,
)
    requires
        wb_expr_resolved(env, top, a, b),
    ensures
        wb_expr_ok(env2, top2, b),
        wb_expr_resolved(env2, top2, b, b),
    decreases a,
{
    match a {
        WorkbenchExpression::Value(x) => {
            lemma_expr_resolved_fixed(env, top, x, b->Value_0, env2, top2);
        },
        WorkbenchExpression::Group(g) => {
            let h = b->Group_0;
            assert forall|i: int| 0 <= i < h.statements.len() implies wb_expr_ok(
                env2,
                wb_stmts_after(Some(Map::empty()), h.statements@, i),
                (#[trigger] h.statements@[i]).expression,
            ) && wb_expr_resolved(
                env2,
                wb_stmts_after(Some(Map::empty()), h.statements@, i),
                h.statements@[i].expression,
                h.statements@[i].expression,
            ) by {
                assert(decreases_to!(a => a->Group_0));
                assert(decreases_to!(g => g.statements));
                assert(decreases_to!(g.statements => g.statements@));
                assert(decreases_to!(g.statements@ => g.statements@[i]));
                let st = g.statements@[i];
                assert(decreases_to!(st => st.expression));
                lemma_wb_expr_resolved_fixed(
                    env,
                    wb_stmts_after(Some(Map::empty()), g.statements@, i),
                    g.statements@[i].expression,
                    h.statements@[i].expression,
                    env2,
                    wb_stmts_after(Some(Map::empty()), h.statements@, i),
                );
            }
        },
    }
}

proof fn lemma_wb_stmts_resolved_fixed(
    env: (Library, Seq<Library>, Option<SymbolNodeId>),
    top: Option<Map<Seq<char>, Seq<Span>>>,
    ss: Seq<WorkbenchStatement>,
    ts: Seq<WorkbenchStatement>,
    env2: (Library, Seq<Library>, Option<SymbolNodeId>),
    top2: Option<Map<Seq<char>, Seq<Span>>>,
)
    requires
        wb_stmts_resolved(env, top, ss, ts),
    ensures
        wb_stmts_ok(env2, top2, ts),
        wb_stmts_resolved(env2, top2, ts, ts),
{
    assert forall|i: int| 0 <= i < ts.len() implies wb_expr_ok(env2, wb_stmts_after(top2, ts, i), (#[trigger] ts[i]).expression)
        && wb_expr_resolved(env2, wb_stmts_after(top2, ts, i), ts[i].expression, ts[i].expression) by {
        lemma_wb_expr_resolved_fixed(
            env,
            wb_stmts_after(top, ss, i),
            ss[i].expression,
            ts[i].expression,
            env2,
            wb_stmts_after(top2, ts, i),
        );
    }
}

proof fn lemma_init_resolved_fixed(
    env: (Library, Seq<Library>, Option<SymbolNodeId>),
    top: Option<Map<Seq<char>, Seq<Span>>>,
    a: Init,
    b: Init,
    env2: (Library, Seq<Library>, Option<SymbolNodeId>),
    top2: Option<Map<Seq<char>, Seq<Span>>>,
)
    requires
        init_resolved(env, top, a, b),
    ensures
        init_ok(env2, top2, b),
        init_resolved(env2, top2, b, b),
{
    lemma_params_resolved_fixed(env, top, a.parameters@, b.parameters@, env2, top2);
    assert forall|i: int| 0 <= i < b.statements.len() implies wb_expr_ok(env2, init_after(top2, b), (#[trigger] b.statements@[i]).expression)
        && wb_expr_resolved(env2, init_after(top2, b), b.statements@[i].expression, b.statements@[i].expression) by {
        lemma_wb_expr_resolved_fixed(
            env,
            init_after(top, a),
            a.statements@[i].expression,
            b.statements@[i].expression,
            env2,
            init_after(top2, b),
        );
    }
}

proof fn lemma_wb_resolved_fixed(
    env: (Library, Seq<Library>, Option<SymbolNodeId>),
    top: Option<Map<Seq<char>, Seq<Span>>>,
    a: Workbench,
    b: Workbench,
    env2: (Library, Seq<Library>, Option<SymbolNodeId>),
    top2: Option<Map<Seq<char>, Seq<Span>>>,
)
    requires
        wb_resolved(env, top, a, b),
    ensures
        wb_ok(env2, top2, b),
        wb_resolved(env2, top2, b, b),
{
    let ps = a.signature.parameters@;
    let t = params_declared(top, ps, ps.len() as int);
    let qs = b.signature.parameters@;
    let t2 = params_declared(top2, qs, qs.len() as int);
    lemma_params_resolved_fixed(env, top, ps, qs, env2, top2);
    assert forall|k: int| 0 <= k < b.signature.inits.len() implies init_ok(env2, inits_after(t2, b.signature.inits@, k), #[trigger] b.signature.inits@[k])
        && init_resolved(env2, inits_after(t2, b.signature.inits@, k), b.signature.inits@[k], b.signature.inits@[k]) by {
        lemma_init_resolved_fixed(
            env,
            inits_after(t, a.signature.inits@, k),
            a.signature.inits@[k],
            b.signature.inits@[k],
            env2,
            inits_after(t2, b.signature.inits@, k),
        );
    }
    lemma_wb_stmts_resolved_fixed(
        env,
        wb_sig_after(top, a.signature),
        a.statements@,
        b.statements@,
        env2,
        wb_sig_after(top2, b.signature),
    );
}

/// A resolved definition holds resolved paths only: resolving it again, in any scopes,
/// can be done and leaves it as it is.
pub(crate) proof fn lemma_def_resolved_fixed(
    env: (Library, Seq<Library>, Option<SymbolNodeId>),
    top: Option<Map<Seq<char>, Seq<Span>>>,
    a: SymbolDef,
    b: SymbolDef,
    env2: (Library, Seq<Library>, Option<SymbolNodeId>),
    top2: Option<Map<Seq<char>, Seq<Span>>>,
)
    requires
        def_resolved(env, top, a, b),
    ensures
        def_ok(env2, top2, b),
        def_resolved(env2, top2, b, b),
{
    match a {
        SymbolDef::Root(Some(f)) => {
            if let SourceFile::Loaded { source, .. } = f {
                let t = b->Root_0->Some_0->Loaded_source;
                lemma_wb_stmts_resolved_fixed(env, Some(Map::empty()), source.statements@, t.statements@, env2, Some(Map::empty()));
            }
        },
        SymbolDef::SourceFile(f) => {
            if let SourceFile::Loaded { source, .. } = f {
                let t = b->SourceFile_0->Loaded_source;
                lemma_wb_stmts_resolved_fixed(env, Some(Map::empty()), source.statements@, t.statements@, env2, Some(Map::empty()));
            }
        },
        SymbolDef::Workbench(w) => {
            lemma_wb_resolved_fixed(env, top, w, b->Workbench_0, env2, top2);
        },
        SymbolDef::Function(f) => {
            let g = b->Function_0;
            let top0 = Some(Map::<Seq<char>, Seq<Span>>::empty());
            let ps = f.signature.parameters@;
            let qs = g.signature.parameters@;
            lemma_params_resolved_fixed(env, top0, ps, qs, env2, top0);
            lemma_fn_stmts_resolved_fixed(
                env,
                params_declared(top0, ps, ps.len() as int),
                f.statements@,
                g.statements@,
                env2,
                params_declared(top0, qs, qs.len() as int),
            );
        },
        SymbolDef::Constant(c) => {
            lemma_expr_resolved_fixed(env, top, c.expr, b->Constant_0.expr, env2, top2);
        },
        _ => {},
    }
}

proof fn lemma_params_declared_ids(
    top: Option<Map<Seq<char>, Seq<Span>>>,
    ps: Seq<Parameter>,
    qs: Seq<Parameter>,
    n: int,
)
    requires
        0 <= n <= ps.len(),
        qs.len() == ps.len(),
        forall|j: int| 0 <= j < ps.len() ==> #[trigger] qs[j].id == ps[j].id,
    ensures
        params_declared(top, qs, n) == params_declared(top, ps, n),
    decreases n,
{
    if n > 0 {
        lemma_params_declared_ids(top, ps, qs, n - 1);
        assert(qs[n - 1].id == ps[n - 1].id);
    }
}

} // verus!
