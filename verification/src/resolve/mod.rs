//! Resolving the paths inside the symbols of a library: the stack of scopes with their
//! local values, and the decision which symbol a path names.

use vstd::prelude::*;

pub mod cache;
pub mod load;
pub mod visitor;

use crate::library::symbol::{Path, SymbolDef, SymbolId, UnresolvedPath};
use crate::library::{Library, SymbolNodeId, opt_int};
use crate::manifest::{LibraryId, same_version};
use crate::ast::Identifier;
use crate::span::Span;

verus! {

/// The local values of one scope, each with the places where it is used.
#[derive(Debug)]
pub struct LocalTable {
    locals: Vec<(String, Vec<Span>)>,
}

/// Index of the entry named `name`, if any.
pub open spec fn entry_index(entries: Seq<(String, Vec<Span>)>, name: Seq<char>) -> Option<int> {
    if exists|i: int| 0 <= i < entries.len() && #[trigger] entries[i].0@ == name {
        Some(choose|i: int| 0 <= i < entries.len() && #[trigger] entries[i].0@ == name)
    } else {
        None
    }
}

impl View for LocalTable {
    type V = Map<Seq<char>, Seq<Span>>;

    closed spec fn view(&self) -> Map<Seq<char>, Seq<Span>> {
        Map::new(
            |k: Seq<char>| entry_index(self.locals@, k) is Some,
            |k: Seq<char>| self.locals@[entry_index(self.locals@, k)->0].1@,
        )
    }
}

impl LocalTable {
    /// Each name occurs once.
    pub closed spec fn wf(&self) -> bool {
        forall|i: int, j: int|
            0 <= i < j < self.locals@.len() ==> (#[trigger] self.locals@[i]).0@ != (#[trigger] self.locals@[j]).0@
    }

    proof fn lemma_index(&self, i: int)
        requires
            self.wf(),
            0 <= i < self.locals@.len(),
        ensures
            entry_index(self.locals@, self.locals@[i].0@) == Some(i),
    {
        let name = self.locals@[i].0@;
        let k = choose|k: int| 0 <= k < self.locals@.len() && #[trigger] self.locals@[k].0@ == name;
        if k != i {
            if k < i {
                assert(self.locals@[k].0@ != self.locals@[i].0@);
            } else {
                assert(self.locals@[i].0@ != self.locals@[k].0@);
            }
        }
    }

    /// A table without locals.
    pub fn new() -> (t: LocalTable)
        ensures
            t.wf(),
            t@ == Map::<Seq<char>, Seq<Span>>::empty(),
    {
        let t = LocalTable { locals: Vec::new() };
        assert(t@ =~= Map::<Seq<char>, Seq<Span>>::empty());
        t
    }

    /// Index of the local named `name`.
    fn find(&self, name: &String) -> (r: Option<usize>)
        requires
            self.wf(),
        ensures
            opt_int(r) == entry_index(self.locals@, name@),
    {
        let mut i: usize = 0;
        while i < self.locals.len()
            invariant
                self.wf(),
                i <= self.locals@.len(),
                forall|j: int| 0 <= j < i ==> self.locals@[j].0@ != name@,
            decreases self.locals@.len() - i,
        {
            if self.locals[i].0 == *name {
                proof {
                    self.lemma_index(i as int);
                }
                return Some(i);
            }
            i = i + 1;
        }
        None
    }

    /// Is there a local named `name`.
    pub fn has_local(&self, name: &String) -> (b: bool)
        requires
            self.wf(),
        ensures
            b == self@.contains_key(name@),
    {
        self.find(name).is_some()
    }

    /// Declares the local `name`, without usages; a local of that name is replaced.
    pub fn declare_local(&mut self, name: String)
        requires
            old(self).wf(),
        ensures
            final(self).wf(),
            final(self)@ == old(self)@.insert(name@, Seq::empty()),
    {
        let ghost key = name@;
        match self.find(&name) {
            Some(i) => {
                let ghost prev = self.locals@;
                self.locals.set(i, (name, Vec::new()));
                proof {
                    assert forall|a: int, b: int|
                        0 <= a < b < self.locals@.len() implies (#[trigger] self.locals@[a]).0@
                        != (#[trigger] self.locals@[b]).0@ by {
                        assert(self.locals@[a].0@ == prev[a].0@);
                        assert(self.locals@[b].0@ == prev[b].0@);
                    }
                    self.lemma_view_same_names(prev, i as int);
                    assert(self@ =~= old(self)@.insert(key, Seq::empty()));
                }
            },
            None => {
                let ghost prev = self.locals@;
                self.locals.push((name, Vec::new()));
                proof {
                    assert forall|a: int, b: int|
                        0 <= a < b < self.locals@.len() implies (#[trigger] self.locals@[a]).0@
                        != (#[trigger] self.locals@[b]).0@ by {
                        if b == prev.len() {
                            assert(self.locals@[a] == prev[a]);
                        } else {
                            assert(self.locals@[a] == prev[a]);
                            assert(self.locals@[b] == prev[b]);
                        }
                    }
                    self.lemma_view_pushed(prev);
                    assert(self@ =~= old(self)@.insert(key, Seq::empty()));
                }
            },
        }
    }

    proof fn lemma_view_same_names(&self, prev: Seq<(String, Vec<Span>)>, i: int)
        requires
            self.wf(),
            prev.len() == self.locals@.len(),
            0 <= i < prev.len(),
            forall|j: int| 0 <= j < prev.len() ==> #[trigger] prev[j].0@ == self.locals@[j].0@,
            forall|j: int| 0 <= j < prev.len() && j != i ==> #[trigger] prev[j] == self.locals@[j],
        ensures
            forall|k: Seq<char>| #[trigger] entry_index(self.locals@, k) is Some <==> entry_index(prev, k) is Some,
            self@ =~= Map::new(
                |k: Seq<char>| entry_index(prev, k) is Some,
                |k: Seq<char>| if k == self.locals@[i].0@ { self.locals@[i].1@ } else { prev[entry_index(prev, k)->0].1@ },
            ),
    {
        assert forall|k: Seq<char>| #[trigger] entry_index(self.locals@, k) is Some <==> entry_index(prev, k) is Some by {
            if entry_index(prev, k) is Some {
                let j = entry_index(prev, k)->0;
                assert(self.locals@[j].0@ == k);
            }
            if entry_index(self.locals@, k) is Some {
                let j = entry_index(self.locals@, k)->0;
                assert(prev[j].0@ == k);
            }
        }
        assert forall|k: Seq<char>| entry_index(prev, k) is Some implies #[trigger] self@[k] == (
        if k == self.locals@[i].0@ {
            self.locals@[i].1@
        } else {
            prev[entry_index(prev, k)->0].1@
        }) by {
            let j = entry_index(self.locals@, k)->0;
            self.lemma_index(j);
            if k == self.locals@[i].0@ {
                self.lemma_index(i);
            } else {
                let jp = entry_index(prev, k)->0;
                assert(prev[jp].0@ == self.locals@[jp].0@);
                self.lemma_index(jp);
                assert(jp == j);
                assert(j != i);
            }
        }
    }

    proof fn lemma_view_pushed(&self, prev: Seq<(String, Vec<Span>)>)
        requires
            self.wf(),
            self.locals@.len() == prev.len() + 1,
            forall|j: int| 0 <= j < prev.len() ==> #[trigger] prev[j] == self.locals@[j],
        ensures
            self@ =~= Map::new(
                |k: Seq<char>| entry_index(prev, k) is Some,
                |k: Seq<char>| prev[entry_index(prev, k)->0].1@,
            ).insert(self.locals@.last().0@, self.locals@.last().1@),
    {
        let n = prev.len() as int;
        assert forall|k: Seq<char>| #[trigger] entry_index(self.locals@, k) is Some <==> (entry_index(prev, k) is Some || k == self.locals@[n].0@) by {
            if entry_index(prev, k) is Some {
                let j = entry_index(prev, k)->0;
                assert(self.locals@[j].0@ == k);
            }
            if k == self.locals@[n].0@ {
                assert(self.locals@[n].0@ == k);
            }
            if entry_index(self.locals@, k) is Some {
                let j = entry_index(self.locals@, k)->0;
                if j < n {
                    assert(prev[j].0@ == k);
                }
            }
        }
        assert forall|k: Seq<char>| entry_index(self.locals@, k) is Some implies #[trigger] self@[k] == (
        if k == self.locals@[n].0@ {
            self.locals@[n].1@
        } else {
            prev[entry_index(prev, k)->0].1@
        }) by {
            let j = entry_index(self.locals@, k)->0;
            self.lemma_index(j);
            if k != self.locals@[n].0@ {
                let jp = entry_index(prev, k)->0;
                assert(self.locals@[jp] == prev[jp]);
                self.lemma_index(jp);
            }
        }
    }
}

impl LocalTable {
    /// Records a usage of the local named like `id`, at `id`'s span; false if there is
    /// no such local.
    pub fn use_local(&mut self, id: &Identifier) -> (found: bool)
        requires
            old(self).wf(),
        ensures
            final(self).wf(),
            found == old(self)@.contains_key(id.name@),
            found ==> final(self)@ == old(self)@.insert(id.name@, old(self)@[id.name@].push(id.span)),
            !found ==> *final(self) == *old(self),
    {
        match self.find(&id.name) {
            Some(i) => {
                let ghost prev = self.locals@;
                let mut usages: Vec<Span> = Vec::new();
                let mut j: usize = 0;
                while j < self.locals[i].1.len()
                    invariant
                        i < self.locals@.len(),
                        j <= self.locals@[i as int].1@.len(),
                        usages@ == self.locals@[i as int].1@.take(j as int),
                    decreases self.locals@[i as int].1@.len() - j,
                {
                    usages.push(self.locals[i].1[j]);
                    j = j + 1;
                    assert(usages@ =~= self.locals@[i as int].1@.take(j as int));
                }
                usages.push(id.span);
                let name = self.locals[i].0.clone();
                self.locals.set(i, (name, usages));
                proof {
                    assert(self.locals@[i as int].1@ =~= prev[i as int].1@.push(id.span));
                    assert forall|a: int, b: int|
                        0 <= a < b < self.locals@.len() implies (#[trigger] self.locals@[a]).0@
                        != (#[trigger] self.locals@[b]).0@ by {
                        assert(self.locals@[a].0@ == prev[a].0@);
                        assert(self.locals@[b].0@ == prev[b].0@);
                    }
                    self.lemma_view_same_names(prev, i as int);
                    assert(self@ =~= old(self)@.insert(id.name@, old(self)@[id.name@].push(id.span))) by {
                        assert(old(self).locals@ == prev);
                        old(self).lemma_index(i as int);
                    }
                }
                true
            },
            None => false,
        }
    }

    /// The names of the locals that were never used.
    pub fn unused_locals(&self) -> (r: Vec<String>)
        requires
            self.wf(),
        ensures
            forall|k: Seq<char>| #[trigger] names_of_vec(r@).contains(k) <==> (self@.contains_key(k)
                && self@[k].len() == 0),
            names_of_vec(r@).no_duplicates(),
    {
        let mut r: Vec<String> = Vec::new();
        let mut i: usize = 0;
        while i < self.locals.len()
            invariant
                self.wf(),
                i <= self.locals@.len(),
                names_of_vec(r@) == unused_names(self.locals@.take(i as int)),
            decreases self.locals@.len() - i,
        {
            assert(self.locals@.take(i + 1).drop_last() =~= self.locals@.take(i as int));
            if self.locals[i].1.len() == 0 {
                r.push(self.locals[i].0.clone());
            }
            assert(names_of_vec(r@) =~= unused_names(self.locals@.take(i + 1)));
            i = i + 1;
        }
        proof {
            assert(self.locals@.take(self.locals@.len() as int) =~= self.locals@);
            lemma_unused_names_unique(self.locals@);
            assert forall|k: Seq<char>| #[trigger] names_of_vec(r@).contains(k) <==> (self@.contains_key(k)
                && self@[k].len() == 0) by {
                lemma_unused_names_contains(self.locals@, k);
                if names_of_vec(r@).contains(k) {
                    let j = choose|j: int| 0 <= j < self.locals@.len() && #[trigger] self.locals@[j].0@ == k && self.locals@[j].1@.len() == 0;
                    self.lemma_index(j);
                }
                if self@.contains_key(k) && self@[k].len() == 0 {
                    let j = entry_index(self.locals@, k)->0;
                    self.lemma_index(j);
                }
            }
        }
        r
    }
}

/// The names of the entries without usages, in order.
pub open spec fn unused_names(entries: Seq<(String, Vec<Span>)>) -> Seq<Seq<char>>
    decreases entries.len(),
{
    if entries.len() == 0 {
        Seq::empty()
    } else {
        unused_names(entries.drop_last()) + if entries.last().1@.len() == 0 {
            seq![entries.last().0@]
        } else {
            Seq::empty()
        }
    }
}

proof fn lemma_unused_names_contains(entries: Seq<(String, Vec<Span>)>, k: Seq<char>)
    ensures
        unused_names(entries).contains(k) <==> exists|j: int|
            0 <= j < entries.len() && #[trigger] entries[j].0@ == k && entries[j].1@.len() == 0,
    decreases entries.len(),
{
    if entries.len() > 0 {
        let d = entries.drop_last();
        lemma_unused_names_contains(d, k);
        let tail: Seq<Seq<char>> = if entries.last().1@.len() == 0 {
            seq![entries.last().0@]
        } else {
            Seq::empty()
        };
        if unused_names(entries).contains(k) {
            let a = choose|a: int| 0 <= a < unused_names(entries).len() && unused_names(entries)[a] == k;
            if a < unused_names(d).len() {
                assert(unused_names(d)[a] == k);
                assert(unused_names(d).contains(k));
                let j = choose|j: int| 0 <= j < d.len() && #[trigger] d[j].0@ == k && d[j].1@.len() == 0;
                assert(entries[j] == d[j]);
            } else {
                assert(entries[entries.len() - 1].0@ == k);
            }
        }
        if exists|j: int| 0 <= j < entries.len() && #[trigger] entries[j].0@ == k && entries[j].1@.len() == 0 {
            let j = choose|j: int| 0 <= j < entries.len() && #[trigger] entries[j].0@ == k && entries[j].1@.len() == 0;
            if j < d.len() {
                assert(d[j] == entries[j]);
                assert(unused_names(d).contains(k));
                let a = choose|a: int| 0 <= a < unused_names(d).len() && unused_names(d)[a] == k;
                assert(unused_names(entries)[a] == k);
            } else {
                assert(unused_names(entries)[unused_names(d).len() as int] == k);
            }
        }
    }
}

proof fn lemma_unused_names_unique(entries: Seq<(String, Vec<Span>)>)
    requires
        forall|i: int, j: int|
            0 <= i < j < entries.len() ==> (#[trigger] entries[i]).0@ != (#[trigger] entries[j]).0@,
    ensures
        unused_names(entries).no_duplicates(),
    decreases entries.len(),
{
    if entries.len() > 0 {
        let d = entries.drop_last();
        assert forall|i: int, j: int| 0 <= i < j < d.len() implies (#[trigger] d[i]).0@ != (#[trigger] d[j]).0@ by {
            assert(d[i] == entries[i]);
            assert(d[j] == entries[j]);
        }
        lemma_unused_names_unique(d);
        if entries.last().1@.len() == 0 {
            let k = entries.last().0@;
            lemma_unused_names_contains(d, k);
            if unused_names(d).contains(k) {
                let j = choose|j: int| 0 <= j < d.len() && #[trigger] d[j].0@ == k && d[j].1@.len() == 0;
                assert(entries[j] == d[j]);
                assert(entries[j].0@ != entries[entries.len() - 1].0@);
            }
            let u = unused_names(entries);
            assert forall|a: int, b: int| 0 <= a < u.len() && 0 <= b < u.len() && a != b implies u[a] != u[b] by {
                if a < unused_names(d).len() && b < unused_names(d).len() {
                    assert(u[a] == unused_names(d)[a]);
                    assert(u[b] == unused_names(d)[b]);
                } else if a < unused_names(d).len() {
                    assert(u[a] == unused_names(d)[a]);
                    assert(unused_names(d).contains(u[a]));
                } else {
                    assert(u[b] == unused_names(d)[b]);
                    assert(unused_names(d).contains(u[b]));
                }
            }
        } else {
            assert(unused_names(entries) =~= unused_names(d));
        }
    }
}

/// The texts of a list of names.
pub open spec fn names_of_vec(v: Seq<String>) -> Seq<Seq<char>> {
    v.map_values(|s: String| s@)
}

/// A frame of the resolve stack: a scope with its own locals, or the symbol being resolved.
#[derive(Debug)]
pub enum ResolveStackFrame {
    /// A source file.
    Source(LocalTable),
    /// A function body.
    Function(LocalTable),
    /// A block inside a function.
    FunctionScope(LocalTable),
    /// A workbench body.
    Workbench(LocalTable),
    /// A group of workbench statements.
    WorkbenchGroup(LocalTable),
    /// The library symbol whose definition is being resolved.
    Symbol(SymbolNodeId),
}

impl ResolveStackFrame {
    /// The frame's local table, if it has one.
    pub open spec fn table(&self) -> Option<LocalTable> {
        match self {
            ResolveStackFrame::Source(t) => Some(*t),
            ResolveStackFrame::Function(t) => Some(*t),
            ResolveStackFrame::FunctionScope(t) => Some(*t),
            ResolveStackFrame::Workbench(t) => Some(*t),
            ResolveStackFrame::WorkbenchGroup(t) => Some(*t),
            ResolveStackFrame::Symbol(_) => None,
        }
    }

    /// The frame's local table is well formed, if it has one.
    pub open spec fn wf(&self) -> bool {
        match self.table() {
            Some(t) => t.wf(),
            None => true,
        }
    }

    /// Both frames are of the same kind and, for symbol frames, name the same symbol.
    pub open spec fn same_kind(&self, other: ResolveStackFrame) -> bool {
        match (self, other) {
            (ResolveStackFrame::Source(_), ResolveStackFrame::Source(_)) => true,
            (ResolveStackFrame::Function(_), ResolveStackFrame::Function(_)) => true,
            (ResolveStackFrame::FunctionScope(_), ResolveStackFrame::FunctionScope(_)) => true,
            (ResolveStackFrame::Workbench(_), ResolveStackFrame::Workbench(_)) => true,
            (ResolveStackFrame::WorkbenchGroup(_), ResolveStackFrame::WorkbenchGroup(_)) => true,
            (ResolveStackFrame::Symbol(a), ResolveStackFrame::Symbol(b)) => *a == b,
            _ => false,
        }
    }

    /// Does the frame have a local named `name`.
    pub open spec fn has_local_spec(&self, name: Seq<char>) -> bool {
        self.table() matches Some(t) && t@.contains_key(name)
    }

    /// The frame's local table, if it has one.
    pub fn local_table(&self) -> (r: Option<&LocalTable>)
        ensures
            r.is_some() == self.table().is_some(),
            r.is_some() ==> *r.unwrap() == self.table().unwrap(),
    {
        match self {
            ResolveStackFrame::Source(t) => Some(t),
            ResolveStackFrame::Function(t) => Some(t),
            ResolveStackFrame::FunctionScope(t) => Some(t),
            ResolveStackFrame::Workbench(t) => Some(t),
            ResolveStackFrame::WorkbenchGroup(t) => Some(t),
            ResolveStackFrame::Symbol(_) => None,
        }
    }

    /// The symbol of a symbol frame.
    pub fn symbol_node_id(&self) -> (r: Option<SymbolNodeId>)
        ensures
            r == match self {
                ResolveStackFrame::Symbol(id) => Some(*id),
                _ => None,
            },
    {
        match self {
            ResolveStackFrame::Symbol(id) => Some(*id),
            _ => None,
        }
    }

    /// Declares a local in the frame's table; a frame without one is left as it is.
    pub fn declare_local(&mut self, name: String)
        requires
            old(self).wf(),
        ensures
            final(self).wf(),
            final(self).same_kind(*old(self)),
            old(self).table() is None ==> *final(self) == *old(self),
            old(self).table() matches Some(t) ==> final(self).table().unwrap()@ == t@.insert(name@, Seq::empty()),
    {
        match self {
            ResolveStackFrame::Source(t) => t.declare_local(name),
            ResolveStackFrame::Function(t) => t.declare_local(name),
            ResolveStackFrame::FunctionScope(t) => t.declare_local(name),
            ResolveStackFrame::Workbench(t) => t.declare_local(name),
            ResolveStackFrame::WorkbenchGroup(t) => t.declare_local(name),
            ResolveStackFrame::Symbol(_) => {},
        }
    }

    /// Records a usage of a local of the frame; false if the frame has no such local.
    pub fn use_local(&mut self, id: &Identifier) -> (found: bool)
        requires
            old(self).wf(),
        ensures
            final(self).wf(),
            final(self).same_kind(*old(self)),
            found == old(self).has_local_spec(id.name@),
            !found ==> *final(self) == *old(self),
            found ==> final(self).table().unwrap()@ == old(self).table().unwrap()@.insert(
                id.name@,
                old(self).table().unwrap()@[id.name@].push(id.span),
            ),
    {
        let found = match self {
            ResolveStackFrame::Source(t) => t.use_local(id),
            ResolveStackFrame::Function(t) => t.use_local(id),
            ResolveStackFrame::FunctionScope(t) => t.use_local(id),
            ResolveStackFrame::Workbench(t) => t.use_local(id),
            ResolveStackFrame::WorkbenchGroup(t) => t.use_local(id),
            ResolveStackFrame::Symbol(_) => false,
        };
        found
    }
}

/// Index of the innermost frame below `n` that has a local named `name`.
pub open spec fn innermost_with_local(frames: Seq<ResolveStackFrame>, name: Seq<char>, n: int) -> Option<int>
    decreases n,
{
    if n <= 0 {
        None
    } else if frames[n - 1].has_local_spec(name) {
        Some(n - 1)
    } else {
        innermost_with_local(frames, name, n - 1)
    }
}

/// The symbol of the innermost symbol frame below `n`.
pub open spec fn innermost_symbol(frames: Seq<ResolveStackFrame>, n: int) -> Option<SymbolNodeId>
    decreases n,
{
    if n <= 0 {
        None
    } else if frames[n - 1] is Symbol {
        Some(frames[n - 1]->Symbol_0)
    } else {
        innermost_symbol(frames, n - 1)
    }
}

/// The stack of scopes met while resolving, innermost last.
#[derive(Debug)]
pub struct ResolveStack(Vec<ResolveStackFrame>);

impl ResolveStack {
    /// The frames, outermost first.
    pub closed spec fn frames(&self) -> Seq<ResolveStackFrame> {
        self.0@
    }

    /// Every frame's table is well formed.
    pub open spec fn wf(&self) -> bool {
        forall|i: int| 0 <= i < self.frames().len() ==> (#[trigger] self.frames()[i]).wf()
    }

    /// An empty stack.
    pub fn new() -> (s: ResolveStack)
        ensures
            s.frames() == Seq::<ResolveStackFrame>::empty(),
    {
        ResolveStack(Vec::new())
    }

    /// Enters a scope.
    pub fn push(&mut self, frame: ResolveStackFrame)
        ensures
            final(self).frames() == old(self).frames().push(frame),
    {
        self.0.push(frame);
    }

    /// Leaves the innermost scope.
    pub fn pop(&mut self) -> (f: ResolveStackFrame)
        requires
            old(self).frames().len() > 0,
        ensures
            f == old(self).frames().last(),
            final(self).frames() == old(self).frames().drop_last(),
    {
        match self.0.pop() {
            Some(f) => f,
            None => {
                assert(false);
                ResolveStackFrame::Symbol(0)
            },
        }
    }

    /// The innermost frame.
    pub fn top(&self) -> (f: &ResolveStackFrame)
        requires
            self.frames().len() > 0,
        ensures
            *f == self.frames().last(),
    {
        let n = self.0.len();
        &self.0[n - 1]
    }

    /// The local table of the innermost frame, if it has one.
    pub fn local_table(&self) -> (r: Option<&LocalTable>)
        requires
            self.frames().len() > 0,
        ensures
            r.is_some() == self.frames().last().table().is_some(),
            r.is_some() ==> *r.unwrap() == self.frames().last().table().unwrap(),
    {
        self.top().local_table()
    }

    /// The symbol of the innermost symbol frame.
    pub fn symbol_node_id(&self) -> (r: Option<SymbolNodeId>)
        ensures
            r == innermost_symbol(self.frames(), self.frames().len() as int),
    {
        let mut i = self.0.len();
        while i > 0
            invariant
                i <= self.frames().len(),
                innermost_symbol(self.frames(), self.frames().len() as int) == innermost_symbol(
                    self.frames(),
                    i as int,
                ),
            decreases i,
        {
            match self.0[i - 1].symbol_node_id() {
                Some(id) => return Some(id),
                None => {},
            }
            i = i - 1;
        }
        None
    }

    /// Declares a local in the innermost frame; a frame without a local table is left as it is.
    pub fn declare_local(&mut self, name: String)
        requires
            old(self).wf(),
            old(self).frames().len() > 0,
        ensures
            final(self).wf(),
            final(self).frames().len() == old(self).frames().len(),
            forall|j: int| 0 <= j < old(self).frames().len() - 1 ==> #[trigger] final(self).frames()[j] == old(self).frames()[j],
            final(self).frames().last().same_kind(old(self).frames().last()),
            old(self).frames().last().table() is None ==> final(self).frames().last() == old(self).frames().last(),
            old(self).frames().last().table() matches Some(t) ==> final(self).frames().last().table().unwrap()@
                == t@.insert(name@, Seq::empty()),
    {
        let n = self.0.len();
        let mut frame = self.0.remove(n - 1);
        frame.declare_local(name);
        self.0.push(frame);
        proof {
            assert forall|i: int| 0 <= i < self.frames().len() implies (#[trigger] self.frames()[i]).wf() by {
                if i < n - 1 {
                    assert(self.frames()[i] == old(self).frames()[i]);
                }
            }
        }
    }

    /// Records a usage of a local in the innermost frame that has a local of that name;
    /// false if none has.
    pub fn use_local(&mut self, id: &Identifier) -> (found: bool)
        requires
            old(self).wf(),
        ensures
            final(self).wf(),
            final(self).frames().len() == old(self).frames().len(),
            found == innermost_with_local(old(self).frames(), id.name@, old(self).frames().len() as int) is Some,
            !found ==> final(self).frames() == old(self).frames(),
            found ==> {
                let k = innermost_with_local(old(self).frames(), id.name@, old(self).frames().len() as int)->0;
                &&& forall|j: int| 0 <= j < old(self).frames().len() && j != k ==> #[trigger] final(self).frames()[j] == old(self).frames()[j]
                &&& final(self).frames()[k].same_kind(old(self).frames()[k])
                &&& final(self).frames()[k].table().unwrap()@ == old(self).frames()[k].table().unwrap()@.insert(
                    id.name@,
                    old(self).frames()[k].table().unwrap()@[id.name@].push(id.span),
                )
            },
    {
        let ghost frames0 = self.frames();
        let ghost len = frames0.len() as int;
        let mut i = self.0.len();
        while i > 0
            invariant
                self.frames() == frames0,
                frames0 == old(self).frames(),
                self.wf(),
                len == frames0.len(),
                i <= len,
                innermost_with_local(frames0, id.name@, len) == innermost_with_local(frames0, id.name@, i as int),
            decreases i,
        {
            let known = match self.0[i - 1].local_table() {
                Some(t) => t.has_local(&id.name),
                None => false,
            };
            if known {
                assert(frames0[i - 1].has_local_spec(id.name@));
                let mut frame = self.0.remove(i - 1);
                let found = frame.use_local(id);
                self.0.insert(i - 1, frame);
                proof {
                    assert(self.frames().len() == len);
                    assert(self.frames()[i - 1] == frame);
                    assert forall|j: int| 0 <= j < self.frames().len() implies (#[trigger] self.frames()[j]).wf() by {
                        if j != i - 1 {
                            assert(self.frames()[j] == frames0[j]);
                        }
                    }
                    assert forall|j: int| 0 <= j < len && j != i - 1 implies #[trigger] self.frames()[j] == frames0[j] by {}
                }
                return found;
            }
            assert(!frames0[i - 1].has_local_spec(id.name@));
            i = i - 1;
        }
        false
    }

    /// The names of the unused locals of all frames, innermost frame first.
    pub fn unused_locals(&self) -> (r: Vec<String>)
        requires
            self.wf(),
            forall|i: int| 0 <= i < self.frames().len() ==> (#[trigger] self.frames()[i]).table() is Some,
        ensures
            forall|k: Seq<char>| #[trigger] names_of_vec(r@).contains(k) <==> exists|i: int|
                0 <= i < self.frames().len() && (#[trigger] self.frames()[i]).table().unwrap()@.contains_key(k)
                    && self.frames()[i].table().unwrap()@[k].len() == 0,
    {
        let mut r: Vec<String> = Vec::new();
        let mut i = self.0.len();
        while i > 0
            invariant
                self.wf(),
                forall|f: int| 0 <= f < self.frames().len() ==> (#[trigger] self.frames()[f]).table() is Some,
                i <= self.frames().len(),
                forall|k: Seq<char>| #[trigger] names_of_vec(r@).contains(k) <==> exists|f: int|
                    i <= f < self.frames().len() && (#[trigger] self.frames()[f]).table().unwrap()@.contains_key(k)
                        && self.frames()[f].table().unwrap()@[k].len() == 0,
            decreases i,
        {
            let ghost before = r@;
            match self.0[i - 1].local_table() {
                Some(t) => {
                    let mut u = t.unused_locals();
                    let ghost ut = u@;
                    r.append(&mut u);
                    proof {
                        assert(names_of_vec(r@) =~= names_of_vec(before) + names_of_vec(ut));
                        assert forall|k: Seq<char>| #[trigger] names_of_vec(r@).contains(k) <==> exists|f: int|
                            i - 1 <= f < self.frames().len() && (#[trigger] self.frames()[f]).table().unwrap()@.contains_key(k)
                                && self.frames()[f].table().unwrap()@[k].len() == 0 by {
                            if names_of_vec(r@).contains(k) {
                                let a = choose|a: int| 0 <= a < names_of_vec(r@).len() && names_of_vec(r@)[a] == k;
                                if a < before.len() {
                                    assert(names_of_vec(before)[a] == k);
                                    assert(names_of_vec(before).contains(k));
                                } else {
                                    assert(names_of_vec(ut)[a - before.len()] == k);
                                    assert(names_of_vec(ut).contains(k));
                                    assert(self.frames()[i - 1].table().unwrap() == *t);
                                }
                            }
                            if exists|f: int| i - 1 <= f < self.frames().len() && (#[trigger] self.frames()[f]).table().unwrap()@.contains_key(k)
                                && self.frames()[f].table().unwrap()@[k].len() == 0 {
                                let f = choose|f: int| i - 1 <= f < self.frames().len() && (#[trigger] self.frames()[f]).table().unwrap()@.contains_key(k)
                                    && self.frames()[f].table().unwrap()@[k].len() == 0;
                                if f == i - 1 {
                                    assert(names_of_vec(ut).contains(k));
                                    let a = choose|a: int| 0 <= a < names_of_vec(ut).len() && names_of_vec(ut)[a] == k;
                                    assert(names_of_vec(r@)[before.len() + a] == k);
                                } else {
                                    assert(names_of_vec(before).contains(k));
                                    let a = choose|a: int| 0 <= a < names_of_vec(before).len() && names_of_vec(before)[a] == k;
                                    assert(names_of_vec(r@)[a] == k);
                                }
                            }
                        }
                    }
                },
                None => {
                    assert(false);
                },
            }
            i = i - 1;
        }
        r
    }
}

/// Do two library ids name the same library (names compared by their text).
pub open spec fn same_library_id(a: LibraryId, b: LibraryId) -> bool {
    match (a, b) {
        (LibraryId::Root, LibraryId::Root) => true,
        (LibraryId::Named(x), LibraryId::Named(y)) => x.name@ == y.name@ && same_version(x.version, y.version),
        _ => false,
    }
}

/// Compares two library ids.
pub(crate) fn library_ids_equal(a: &LibraryId, b: &LibraryId) -> (r: bool)
    ensures
        r == same_library_id(*a, *b),
{
    match (a, b) {
        (LibraryId::Root, LibraryId::Root) => true,
        (LibraryId::Named(x), LibraryId::Named(y)) => x.name == y.name && x.version.same(&y.version),
        _ => false,
    }
}

/// The id of the first dependency, from index `k` on, named `name`.
pub open spec fn dependency_from(deps: Seq<(String, LibraryId)>, name: Seq<char>, k: int) -> Option<LibraryId>
    decreases deps.len() - k,
{
    if k < 0 || k >= deps.len() {
        None
    } else if deps[k].0@ == name {
        Some(deps[k].1)
    } else {
        dependency_from(deps, name, k + 1)
    }
}

/// The index of the first loaded library, from index `k` on, with the id `id`.
pub open spec fn loaded_from(libs: Seq<Library>, id: LibraryId, k: int) -> Option<int>
    decreases libs.len() - k,
{
    if k < 0 || k >= libs.len() {
        None
    } else if same_library_id(libs[k].id_spec(), id) {
        Some(k)
    } else {
        loaded_from(libs, id, k + 1)
    }
}

/// The local name a path consists of, if it is a single relative name.
pub open spec fn single_identifier(path: UnresolvedPath) -> Option<String> {
    if !path.is_absolute && path.parts@.len() == 1 {
        Some(path.parts@[0])
    } else {
        None
    }
}

/// A symbol of the library being resolved that the path names, looked up from the symbol
/// `sym`, if there is one.
pub open spec fn item_candidates_at(sym: Option<SymbolNodeId>, lib: Library, path: UnresolvedPath) -> Seq<SymbolId> {
    match sym {
        Some(node) => match lib.look_up_spec(node as int, path) {
            Some(x) => seq![SymbolId::Item(x as usize)],
            None => Seq::empty(),
        },
        None => Seq::empty(),
    }
}

/// A symbol of the library being resolved that the path names, looked up from the
/// innermost symbol frame.
pub open spec fn item_candidates(frames: Seq<ResolveStackFrame>, lib: Library, path: UnresolvedPath) -> Seq<SymbolId> {
    item_candidates_at(innermost_symbol(frames, frames.len() as int), lib, path)
}

/// The locals of the innermost frame, if there is a frame and it has a local table.
pub open spec fn top_locals(frames: Seq<ResolveStackFrame>) -> Option<Map<Seq<char>, Seq<Span>>> {
    if frames.len() > 0 {
        match frames.last().table() {
            Some(t) => Some(t@),
            None => None,
        }
    } else {
        None
    }
}

/// The loaded dependency a relative path starts with, if any: its index among `libs`.
pub open spec fn external_library(lib: Library, libs: Seq<Library>, path: UnresolvedPath) -> Option<int> {
    if !path.is_absolute && path.parts@.len() > 0 {
        match dependency_from(lib.dependencies@, path.parts@[0]@, 0) {
            Some(dep) => loaded_from(libs, dep, 0),
            None => None,
        }
    } else {
        None
    }
}

/// Is the dependency a relative path starts with known but not loaded.
pub open spec fn missing_library(lib: Library, libs: Seq<Library>, path: UnresolvedPath) -> bool {
    &&& !path.is_absolute
    &&& path.parts@.len() > 0
    &&& dependency_from(lib.dependencies@, path.parts@[0]@, 0) matches Some(dep)
    &&& loaded_from(libs, dep, 0) is None
}

/// A symbol of a dependency that the path names, looked up from that library's root.
pub open spec fn external_candidates(lib: Library, libs: Seq<Library>, path: UnresolvedPath) -> Seq<SymbolId> {
    match external_library(lib, libs, path) {
        Some(i) => match libs[i].look_up_spec(libs[i].root as int, path) {
            Some(x) => seq![SymbolId::External { lib_id: libs[i].id_spec(), id: x as usize }],
            None => Seq::empty(),
        },
        None => Seq::empty(),
    }
}

/// The symbols a path may name, seen from the symbol `sym` with the innermost locals `top`:
/// in the library, in a dependency and, for a single name, the local of that name. `None`
/// where the path cannot be resolved at all: its dependency is not loaded, or it is a single
/// name and the innermost locals do not have it.
pub open spec fn candidates_in(
    lib: Library,
    libs: Seq<Library>,
    sym: Option<SymbolNodeId>,
    top: Option<Map<Seq<char>, Seq<Span>>>,
    path: UnresolvedPath,
) -> Option<Seq<SymbolId>> {
    if missing_library(lib, libs, path) {
        None
    } else {
        match single_identifier(path) {
            Some(name) => if top matches Some(m) && m.contains_key(name@) {
                Some(item_candidates_at(sym, lib, path) + external_candidates(lib, libs, path) + seq![SymbolId::Local(name)])
            } else {
                None
            },
            None => Some(item_candidates_at(sym, lib, path) + external_candidates(lib, libs, path)),
        }
    }
}

/// The symbols a path may name, seen from the innermost frames of the stack.
pub open spec fn path_candidates_spec(
    frames: Seq<ResolveStackFrame>,
    lib: Library,
    libs: Seq<Library>,
    path: UnresolvedPath,
) -> Option<Seq<SymbolId>> {
    candidates_in(lib, libs, innermost_symbol(frames, frames.len() as int), top_locals(frames), path)
}

/// Resolves the paths in symbol definitions, keeping track of scopes in a stack.
#[derive(Debug)]
pub struct ResolveVisitor<'a> {
    /// The scopes entered.
    pub stack: ResolveStack,
    /// The library being resolved.
    pub lib: &'a Library,
    /// The loaded libraries, the dependencies among them.
    pub libs: &'a Vec<Library>,
}

impl<'a> ResolveVisitor<'a> {
    /// The libraries can be searched, and each symbol frame names a node of the library.
    pub open spec fn wf(&self) -> bool {
        &&& self.lib.wf()
        &&& forall|i: int| 0 <= i < self.libs@.len() ==> (#[trigger] self.libs@[i]).wf()
        &&& self.stack.wf()
        &&& forall|i: int| 0 <= i < self.stack.frames().len() ==> ((#[trigger] self.stack.frames()[i]) matches ResolveStackFrame::Symbol(n) ==> n < self.lib.size())
    }

    /// A visitor with an empty stack.
    pub fn new(lib: &'a Library, libs: &'a Vec<Library>) -> (v: ResolveVisitor<'a>)
        ensures
            v.stack.frames() == Seq::<ResolveStackFrame>::empty(),
            v.lib == lib,
            v.libs == libs,
    {
        ResolveVisitor { stack: ResolveStack::new(), lib, libs }
    }

    /// The id of the first dependency named `name`.
    fn dependency(&self, name: &String) -> (r: Option<LibraryId>)
        ensures
            r == dependency_from(self.lib.dependencies@, name@, 0),
    {
        let deps = &self.lib.dependencies;
        let mut k: usize = 0;
        while k < deps.len()
            invariant
                deps@ == self.lib.dependencies@,
                k <= deps@.len(),
                dependency_from(deps@, name@, 0) == dependency_from(deps@, name@, k as int),
            decreases deps@.len() - k,
        {
            if deps[k].0 == *name {
                return Some(copy_library_id(&deps[k].1));
            }
            k = k + 1;
        }
        None
    }

    /// The index of the loaded library with id `id`.
    fn loaded(&self, id: &LibraryId) -> (r: Option<usize>)
        ensures
            opt_int(r) == loaded_from(self.libs@, *id, 0),
    {
        let mut k: usize = 0;
        while k < self.libs.len()
            invariant
                k <= self.libs@.len(),
                loaded_from(self.libs@, *id, 0) == loaded_from(self.libs@, *id, k as int),
            decreases self.libs@.len() - k,
        {
            let lid = self.libs[k].id();
            if library_ids_equal(&lid, id) {
                return Some(k);
            }
            k = k + 1;
        }
        None
    }

    /// The symbols `path` may name, or `None` if it cannot be resolved at all.
    pub fn path_candidates(&self, path: &UnresolvedPath) -> (r: Option<Vec<SymbolId>>)
        requires
            self.wf(),
        ensures
            r.is_some() == path_candidates_spec(self.stack.frames(), *self.lib, self.libs@, *path).is_some(),
            r.is_some() ==> r.unwrap()@ == path_candidates_spec(self.stack.frames(), *self.lib, self.libs@, *path).unwrap(),
    {
        let mut paths: Vec<SymbolId> = Vec::new();
        match self.stack.symbol_node_id() {
            Some(node) => {
                proof {
                    lemma_innermost_symbol_in(self.stack.frames(), self.stack.frames().len() as int);
                    let k = innermost_symbol_index(self.stack.frames(), self.stack.frames().len() as int);
                    assert(self.stack.frames()[k] matches ResolveStackFrame::Symbol(n) ==> n < self.lib.size());
                }
                match self.lib.look_up(node, path) {
                    Some(x) => paths.push(SymbolId::Item(x)),
                    None => {},
                }
            },
            None => {},
        }
        assert(paths@ == item_candidates(self.stack.frames(), *self.lib, *path));
        let ghost items = paths@;
        if !path.is_absolute && path.parts.len() > 0 {
            match self.dependency(&path.parts[0]) {
                Some(dep) => match self.loaded(&dep) {
                    Some(i) => {
                        proof {
                            lemma_loaded_from_in(self.libs@, dep, 0);
                        }
                        let other = &self.libs[i];
                        match other.look_up(other.root, path) {
                            Some(x) => paths.push(SymbolId::External { lib_id: other.id(), id: x }),
                            None => {},
                        }
                    },
                    None => return None,
                },
                None => {},
            }
        }
        assert(paths@ =~= items + external_candidates(*self.lib, self.libs@, *path));
        if !path.is_absolute && path.parts.len() == 1 {
            if self.stack.0.len() == 0 {
                return None;
            }
            let known = match self.stack.local_table() {
                Some(t) => t.has_local(&path.parts[0]),
                None => false,
            };
            if !known {
                return None;
            }
            paths.push(SymbolId::Local(path.parts[0].clone()));
        }
        Some(paths)
    }

    /// Resolves `path` to the one symbol it names; a resolved path is left as it is.
    pub fn visit_path(&mut self, path: &mut Path)
        requires
            old(self).wf(),
            *old(path) matches Path::Unresolved(u) ==> {
                &&& path_candidates_spec(old(self).stack.frames(), *old(self).lib, old(self).libs@, u) matches Some(c)
                &&& c.len() == 1
            },
        ensures
            *final(self) == *old(self),
            match *old(path) {
                Path::Unresolved(u) => *final(path) == Path::Resolved(
                    path_candidates_spec(old(self).stack.frames(), *old(self).lib, old(self).libs@, u)->0[0],
                ),
                Path::Resolved(_) => *final(path) == *old(path),
            },
    {
        let resolved = match path {
            Path::Unresolved(u) => {
                match self.path_candidates(u) {
                    Some(c) => {
                        if c.len() == 1 {
                            Some(copy_symbol_id(&c[0]))
                        } else {
                            None
                        }
                    },
                    None => None,
                }
            },
            Path::Resolved(_) => None,
        };
        match resolved {
            Some(id) => {
                *path = Path::Resolved(id);
            },
            None => {},
        }
    }
}

/// A copy of a library id.
fn copy_library_id(id: &LibraryId) -> (r: LibraryId)
    ensures
        r == *id,
{
    match id {
        LibraryId::Root => LibraryId::Root,
        LibraryId::Named(info) => LibraryId::Named(
            crate::manifest::LibraryInfo { name: info.name.clone(), version: info.version.copy() },
        ),
    }
}

/// A copy of a symbol id.
fn copy_symbol_id(id: &SymbolId) -> (r: SymbolId)
    ensures
        r == *id,
{
    match id {
        SymbolId::Local(name) => SymbolId::Local(name.clone()),
        SymbolId::Item(x) => SymbolId::Item(*x),
        SymbolId::External { lib_id, id } => SymbolId::External { lib_id: copy_library_id(lib_id), id: *id },
    }
}

proof fn lemma_loaded_from_in(libs: Seq<Library>, id: LibraryId, k: int)
    requires
        0 <= k,
    ensures
        loaded_from(libs, id, k) matches Some(i) ==> k <= i < libs.len(),
    decreases libs.len() - k,
{
    if k < libs.len() && !same_library_id(libs[k].id_spec(), id) {
        lemma_loaded_from_in(libs, id, k + 1);
    }
}

impl<'a> ResolveVisitor<'a> {
    /// Declares a local in the innermost scope.
    pub fn declare_local(&mut self, name: String)
        requires
            old(self).wf(),
            old(self).stack.frames().len() > 0,
        ensures
            final(self).wf(),
            final(self).lib == old(self).lib,
            final(self).libs == old(self).libs,
            final(self).stack.frames().len() == old(self).stack.frames().len(),
            forall|j: int| 0 <= j < old(self).stack.frames().len() - 1 ==> #[trigger] final(self).stack.frames()[j] == old(self).stack.frames()[j],
            final(self).stack.frames().last().same_kind(old(self).stack.frames().last()),
            old(self).stack.frames().last().table() matches Some(t) ==> final(self).stack.frames().last().table().unwrap()@
                == t@.insert(name@, Seq::empty()),
            old(self).stack.frames().last().table() is None ==> final(self).stack.frames() == old(self).stack.frames(),
    {
        self.stack.declare_local(name);
        proof {
            if old(self).stack.frames().last().table() is None {
                assert(self.stack.frames() =~= old(self).stack.frames());
            }
            let n = self.stack.frames().len();
            assert forall|i: int| 0 <= i < n implies ((#[trigger] self.stack.frames()[i]) matches ResolveStackFrame::Symbol(k) ==> k < self.lib.size()) by {
                if i < n - 1 {
                    assert(self.stack.frames()[i] == old(self).stack.frames()[i]);
                } else {
                    assert(self.stack.frames()[i].same_kind(old(self).stack.frames()[i]));
                }
            }
        }
    }

    /// Records a use of a local in the innermost scope that has it; false if none has.
    pub fn use_local(&mut self, id: &Identifier) -> (found: bool)
        requires
            old(self).wf(),
        ensures
            final(self).lib == old(self).lib,
            final(self).libs == old(self).libs,
            final(self).wf(),
            final(self).stack.frames().len() == old(self).stack.frames().len(),
            found == innermost_with_local(old(self).stack.frames(), id.name@, old(self).stack.frames().len() as int) is Some,
            !found ==> final(self).stack.frames() == old(self).stack.frames(),
            found ==> {
                let k = innermost_with_local(old(self).stack.frames(), id.name@, old(self).stack.frames().len() as int)->0;
                &&& forall|j: int| 0 <= j < old(self).stack.frames().len() && j != k
                    ==> #[trigger] final(self).stack.frames()[j] == old(self).stack.frames()[j]
                &&& final(self).stack.frames()[k].same_kind(old(self).stack.frames()[k])
                &&& final(self).stack.frames()[k].table().unwrap()@ == old(self).stack.frames()[k].table().unwrap()@.insert(
                    id.name@,
                    old(self).stack.frames()[k].table().unwrap()@[id.name@].push(id.span),
                )
            },
    {
        self.stack.use_local(id)
    }
}

/// Index of the innermost symbol frame below `n`.
pub open spec fn innermost_symbol_index(frames: Seq<ResolveStackFrame>, n: int) -> int
    decreases n,
{
    if n <= 0 {
        -1
    } else if frames[n - 1] is Symbol {
        n - 1
    } else {
        innermost_symbol_index(frames, n - 1)
    }
}

proof fn lemma_innermost_symbol_in(frames: Seq<ResolveStackFrame>, n: int)
    requires
        0 <= n <= frames.len(),
        innermost_symbol(frames, n) is Some,
    ensures
        0 <= innermost_symbol_index(frames, n) < n,
        frames[innermost_symbol_index(frames, n)] == ResolveStackFrame::Symbol(innermost_symbol(frames, n)->0),
    decreases n,
{
    if n > 0 && !(frames[n - 1] is Symbol) {
        lemma_innermost_symbol_in(frames, n - 1);
    }
}

} // verus!
