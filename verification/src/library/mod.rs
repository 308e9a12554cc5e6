//! A library: a tree of symbols stored in an arena, and symbol look-up.

pub mod symbol;

use vstd::prelude::*;

use crate::manifest::{LibraryId, LibraryInfo, Manifest, Version};

pub use symbol::{names_of, Meta, Path, SourceFile, Symbol, SymbolAbsPath, SymbolDef, SymbolId, UnresolvedPath, Visibility};

verus! {

/// Index of a symbol node in a library arena.
pub type SymbolNodeId = usize;

/// A node of the symbol arena.
#[derive(Debug)]
pub struct SymbolNode {
    /// The symbol stored at this node.
    pub value: Symbol,
    /// The parent node, `None` for a root.
    pub parent: Option<SymbolNodeId>,
    /// The child nodes in insertion order.
    pub children: Vec<SymbolNodeId>,
}

/// Number of `false` entries among the first `n` entries of `v`.
pub open spec fn unvisited_prefix(v: Seq<bool>, n: nat) -> nat
    decreases n,
{
    if n == 0 {
        0
    } else {
        unvisited_prefix(v, (n - 1) as nat) + if v[n - 1] { 0nat } else { 1nat }
    }
}

/// Number of `false` entries of `v`.
pub open spec fn unvisited(v: Seq<bool>) -> nat {
    unvisited_prefix(v, v.len())
}

/// Pointwise "or" of two markings, with the length of `b`.
pub open spec fn marks_union(a: Seq<bool>, b: Seq<bool>) -> Seq<bool> {
    Seq::new(b.len(), |i: int| a[i] || b[i])
}

/// Unvisited entries only decrease when markings only grow.
pub proof fn lemma_monotone_unvisited(a: Seq<bool>, b: Seq<bool>)
    requires
        a.len() == b.len(),
        forall|i: int| 0 <= i < b.len() && b[i] ==> a[i],
    ensures
        unvisited(a) <= unvisited(b),
        marks_union(a, b) =~= a,
{
    lemma_unvisited_prefix_dominated(a, b, b.len());
}

proof fn lemma_unvisited_prefix_dominated(a: Seq<bool>, b: Seq<bool>, n: nat)
    requires
        n <= a.len(),
        n <= b.len(),
        forall|i: int| 0 <= i < n ==> (b[i] ==> a[i]),
    ensures
        unvisited_prefix(a, n) <= unvisited_prefix(b, n),
    decreases n,
{
    if n > 0 {
        lemma_unvisited_prefix_dominated(a, b, (n - 1) as nat);
    }
}

/// Joining markings never increases the number of unvisited entries.
pub proof fn lemma_union_unvisited(a: Seq<bool>, b: Seq<bool>)
    ensures
        unvisited(marks_union(a, b)) <= unvisited(b),
{
    lemma_unvisited_prefix_dominated(marks_union(a, b), b, b.len());
}

proof fn lemma_unvisited_prefix_update(v: Seq<bool>, c: int, n: nat)
    requires
        0 <= c < v.len(),
        !v[c],
        n <= v.len(),
    ensures
        unvisited_prefix(v.update(c, true), n) + (if c < n { 1nat } else { 0nat })
            == unvisited_prefix(v, n),
    decreases n,
{
    if n > 0 {
        lemma_unvisited_prefix_update(v, c, (n - 1) as nat);
    }
}

/// Marking an unmarked entry strictly decreases the number of unvisited entries.
pub proof fn lemma_mark_unvisited(v: Seq<bool>, c: int)
    requires
        0 <= c < v.len(),
        !v[c],
    ensures
        unvisited(v.update(c, true)) < unvisited(v),
{
    lemma_unvisited_prefix_update(v, c, v.len());
}

/// Turns an optional node index into an optional integer.
pub open spec fn opt_int(o: Option<usize>) -> Option<int> {
    match o {
        Some(x) => Some(x as int),
        None => None,
    }
}

/// The outcome of a look-up step: the node found and the wildcards visited afterwards.
pub type LookUpOutcome = (Option<int>, Seq<bool>);

/// A library: a tree of symbols with an optional manifest and external dependencies.
#[derive(Debug)]
pub struct Library {
    /// The package manifest, if any.
    pub manifest: Option<Manifest>,
    /// External dependencies by name, with the id of the loaded library.
    pub dependencies: Vec<(String, LibraryId)>,
    /// The symbol root.
    pub root: SymbolNodeId,
    /// The symbol arena.
    pub arena: Vec<SymbolNode>,
}

impl Library {
    /// Number of nodes.
    pub open spec fn size(&self) -> int {
        self.arena@.len() as int
    }

    /// The parent of node `i`.
    pub open spec fn parent_of(&self, i: int) -> Option<usize> {
        self.arena@[i].parent
    }

    /// The children of node `i`.
    pub open spec fn children_of(&self, i: int) -> Seq<usize> {
        self.arena@[i].children@
    }

    /// The name of node `i` as characters.
    pub open spec fn name_of(&self, i: int) -> Option<Seq<char>> {
        match self.arena@[i].value.meta.name {
            Some(s) => Some(s@),
            None => None,
        }
    }

    /// Well-formedness: the root exists, parents precede their children and
    /// every child index is a node.
    pub open spec fn wf(&self) -> bool {
        &&& 0 <= self.root < self.size()
        &&& forall|i: int|
            #![trigger self.arena@[i]]
            0 <= i < self.size() ==> match self.arena@[i].parent {
                Some(p) => p < i,
                None => true,
            }
        &&& forall|i: int, j: int|
            #![trigger self.arena@[i].children@[j]]
            0 <= i < self.size() && 0 <= j < self.arena@[i].children@.len()
                ==> self.arena@[i].children@[j] < self.size()
    }

    /// `node` is `ancestor` or lies below it.
    pub open spec fn is_descendant_or_same_spec(&self, node: int, ancestor: int) -> bool
        decreases node,
    {
        if node == ancestor {
            true
        } else if node < 0 {
            false
        } else {
            match self.parent_of(node) {
                Some(p) => if p < node {
                    self.is_descendant_or_same_spec(p as int, ancestor)
                } else {
                    false
                },
                None => false,
            }
        }
    }

    /// `target` is accessible from `from_scope`: public symbols everywhere, private symbols
    /// inside the module that defines them, root-level symbols everywhere.
    pub open spec fn is_visible_spec(&self, target: int, from_scope: int) -> bool {
        if !(0 <= target < self.size()) {
            false
        } else {
            match self.arena@[target].value.meta.vis {
                Visibility::Public => true,
                Visibility::Private => match self.parent_of(target) {
                    Some(parent) => self.is_descendant_or_same_spec(from_scope, parent as int),
                    None => true,
                },
            }
        }
    }

    /// The first child of `scope`, from position `k` on, whose name is `name`.
    pub open spec fn first_named_child_from(&self, scope: int, name: Seq<char>, k: int) -> Option<int>
        decreases self.children_of(scope).len() - k,
    {
        if k < 0 || k >= self.children_of(scope).len() {
            None
        } else if self.name_of(self.children_of(scope)[k] as int) == Some(name) {
            Some(self.children_of(scope)[k] as int)
        } else {
            self.first_named_child_from(scope, name, k + 1)
        }
    }

    /// The first child of `scope` named `name`.
    pub open spec fn first_named_child(&self, scope: int, name: Seq<char>) -> Option<int> {
        self.first_named_child_from(scope, name, 0)
    }

    /// Node `i` is a wildcard import.
    pub open spec fn is_wildcard(&self, i: int) -> bool {
        self.arena@[i].value.def is Wildcard
    }

    /// The unresolved target path of wildcard node `i`, if it has one.
    pub open spec fn wildcard_path(&self, i: int) -> Option<UnresolvedPath> {
        match self.arena@[i].value.def {
            SymbolDef::Wildcard(Path::Unresolved(p)) => Some(p),
            _ => None,
        }
    }

    /// Look-up of a path from a starting node, with the wildcards already visited.
    pub open spec fn look_up_internal_spec(&self, start: int, path: UnresolvedPath, v: Seq<bool>) -> LookUpOutcome
        decreases unvisited(v), 5nat, 0int,
    {
        let names = path.names();
        if names.len() == 0 {
            (None, v)
        } else if path.is_absolute {
            self.look_up_downwards_spec(self.root as int, names, 0, start, v)
        } else {
            if start >= 0 {
                self.climb_spec(start, names, start, v)
            } else {
                (None, v)
            }
        }
    }

    /// Relative look-up: search `scope` and then its ancestors for the first name.
    pub open spec fn climb_spec(&self, scope: int, names: Seq<Seq<char>>, from: int, v: Seq<bool>) -> LookUpOutcome
        decreases unvisited(v), 4nat, scope,
        when scope >= 0 && names.len() > 0
    {
        let (m, v1) = self.find_child_or_wildcard_spec(scope, names[0], from, v);
        let v2 = marks_union(v1, v);
        proof {
            lemma_union_unvisited(v1, v);
        }
        match m {
            Some(matched) => if names.len() == 1 {
                (Some(matched), v2)
            } else {
                self.look_up_downwards_spec(matched, names, 1, from, v2)
            },
            None => match self.parent_of(scope) {
                Some(p) => if 0 <= p < scope {
                    self.climb_spec(p as int, names, from, v2)
                } else {
                    (None, v2)
                },
                None => (None, v2),
            },
        }
    }

    /// Descend from `curr` along `names[i..]`.
    pub open spec fn look_up_downwards_spec(&self, curr: int, names: Seq<Seq<char>>, i: int, from: int, v: Seq<bool>) -> LookUpOutcome
        decreases unvisited(v), 3nat, names.len() - i,
    {
        if i < 0 || i >= names.len() {
            (Some(curr), v)
        } else {
            let (m, v1) = self.find_child_or_wildcard_spec(curr, names[i], from, v);
            let v2 = marks_union(v1, v);
            proof {
                lemma_union_unvisited(v1, v);
            }
            match m {
                Some(next) => self.look_up_downwards_spec(next, names, i + 1, from, v2),
                None => (None, v2),
            }
        }
    }

    /// Search `scope` for a visible child `name`, then inside its wildcard imports.
    pub open spec fn find_child_or_wildcard_spec(&self, scope: int, name: Seq<char>, from: int, v: Seq<bool>) -> LookUpOutcome
        decreases unvisited(v), 2nat, 0int,
    {
        match self.first_named_child(scope, name) {
            Some(c) if self.is_visible_spec(c, from) => (Some(c), v),
            _ => self.find_in_wildcards_spec(scope, name, from, v, 0),
        }
    }

    /// Search the wildcard imports among the children of `scope` from position `k` on.
    pub open spec fn find_in_wildcards_spec(&self, scope: int, name: Seq<char>, from: int, v: Seq<bool>, k: int) -> LookUpOutcome
        decreases unvisited(v), 1nat, self.children_of(scope).len() - k,
    {
        if k < 0 || k >= self.children_of(scope).len() {
            (None, v)
        } else {
            let c = self.children_of(scope)[k] as int;
            if self.is_wildcard(c) && 0 <= c < v.len() && !v[c] {
                let v1 = v.update(c, true);
                proof {
                    lemma_mark_unvisited(v, c);
                }
                match self.wildcard_path(c) {
                    Some(p) => {
                        let (t, v2) = self.look_up_internal_spec(scope, p, v1);
                        let v3 = marks_union(v2, v1);
                        proof {
                            lemma_union_unvisited(v2, v1);
                        }
                        match t {
                            Some(target) => match self.first_named_child(target, name) {
                                Some(imported) => if self.is_visible_spec(imported, from) {
                                    (Some(imported), v3)
                                } else {
                                    self.find_in_wildcards_spec(scope, name, from, v3, k + 1)
                                },
                                None => self.find_in_wildcards_spec(scope, name, from, v3, k + 1),
                            },
                            None => self.find_in_wildcards_spec(scope, name, from, v3, k + 1),
                        }
                    },
                    None => self.find_in_wildcards_spec(scope, name, from, v1, k + 1),
                }
            } else {
                self.find_in_wildcards_spec(scope, name, from, v, k + 1)
            }
        }
    }

    /// The names of the ancestors of `i` (including `i`), from the root down.
    pub open spec fn abs_path_spec(&self, i: int) -> Seq<Seq<char>>
        decreases i,
    {
        let own = match self.name_of(i) {
            Some(n) => seq![n],
            None => Seq::empty(),
        };
        if i < 0 {
            Seq::empty()
        } else {
            match self.parent_of(i) {
                Some(p) => if p < i {
                    self.abs_path_spec(p as int) + own
                } else {
                    own
                },
                None => own,
            }
        }
    }

    /// The identity of this library: its name and version when it has a manifest.
    pub open spec fn id_spec(&self) -> LibraryId {
        match self.manifest {
            Some(m) => LibraryId::Named(LibraryInfo { name: m.library.name, version: m.library.version }),
            None => LibraryId::Root,
        }
    }

    /// The dependency names are unique.
    pub open spec fn dependencies_unique(&self) -> bool {
        forall|i: int, j: int|
            0 <= i < j < self.dependencies@.len() ==> self.dependencies@[i].0@ != self.dependencies@[j].0@
    }

    /// No wildcard visited yet.
    pub open spec fn no_marks(&self) -> Seq<bool> {
        Seq::new(self.arena@.len(), |i: int| false)
    }

    /// The result of looking up `path` from `start`.
    pub open spec fn look_up_spec(&self, start: int, path: UnresolvedPath) -> Option<int> {
        self.look_up_internal_spec(start, path, self.no_marks()).0
    }
}


/// Compares two names.
fn same_name(a: &String, b: &String) -> (r: bool)
    ensures
        r == (a@ == b@),
{
    *a == *b
}

impl Library {
    /// An empty library without dependencies or source file.
    pub fn new() -> (lib: Library)
        ensures
            lib.wf(),
            lib.size() == 1,
            lib.root == 0,
            lib.arena@[0].value.meta.name is None,
            lib.arena@[0].value.meta.vis == Visibility::Public,
            lib.arena@[0].value.def == SymbolDef::Root(None),
            lib.arena@[0].parent is None,
            lib.arena@[0].children@.len() == 0,
            lib.manifest is None,
            lib.dependencies@.len() == 0,
    {
        let mut arena: Vec<SymbolNode> = Vec::new();
        arena.push(SymbolNode { value: Symbol::root(None), parent: None, children: Vec::new() });
        Library { manifest: None, dependencies: Vec::new(), root: 0, arena }
    }

    /// Appends `symbol` as the last child of `parent` and returns the new node.
    pub fn append_symbol_to(&mut self, parent: SymbolNodeId, symbol: Symbol) -> (id: SymbolNodeId)
        requires
            old(self).wf(),
            parent < old(self).size(),
            old(self).size() < usize::MAX,
        ensures
            final(self).wf(),
            id == old(self).size(),
            final(self).size() == old(self).size() + 1,
            final(self).root == old(self).root,
            final(self).manifest == old(self).manifest,
            final(self).dependencies == old(self).dependencies,
            final(self).arena@[id as int].value == symbol,
            final(self).arena@[id as int].parent == Some(parent),
            final(self).arena@[id as int].children@.len() == 0,
            final(self).arena@[parent as int].children@ == old(self).arena@[parent as int].children@.push(id),
            final(self).arena@[parent as int].value == old(self).arena@[parent as int].value,
            final(self).arena@[parent as int].parent == old(self).arena@[parent as int].parent,
            forall|i: int| 0 <= i < old(self).size() && i != parent ==> #[trigger] final(self).arena@[i] == old(self).arena@[i],
    {
        let id = self.arena.len();
        self.arena.push(SymbolNode { value: symbol, parent: Some(parent), children: Vec::new() });
        self.arena[parent].children.push(id);
        proof {
            assert forall|i: int| 0 <= i < self.size() implies match #[trigger] self.arena@[i].parent {
                Some(p) => p < i,
                None => true,
            } by {
                if i < old(self).size() {
                    assert(old(self).arena@[i].parent == self.arena@[i].parent);
                }
            }
            assert forall|i: int, j: int|
                0 <= i < self.size() && 0 <= j < self.arena@[i].children@.len()
                implies #[trigger] self.arena@[i].children@[j] < self.size() by {
                if i < old(self).size() && i != parent {
                    assert(self.arena@[i] == old(self).arena@[i]);
                } else if i == parent {
                    if j < old(self).arena@[i].children@.len() {
                        assert(self.arena@[i].children@[j] == old(self).arena@[i].children@[j]);
                    }
                }
            }
        }
        id
    }

    /// Puts `symbol` in place of the symbol at `node`; its parent and children stay.
    pub fn replace_symbol(&mut self, node: SymbolNodeId, symbol: Symbol)
        requires
            old(self).wf(),
            node < old(self).size(),
        ensures
            final(self).wf(),
            final(self).size() == old(self).size(),
            final(self).root == old(self).root,
            final(self).manifest == old(self).manifest,
            final(self).dependencies == old(self).dependencies,
            final(self).arena@[node as int].value == symbol,
            final(self).arena@[node as int].parent == old(self).arena@[node as int].parent,
            final(self).arena@[node as int].children == old(self).arena@[node as int].children,
            forall|i: int| 0 <= i < old(self).size() && i != node ==> #[trigger] final(self).arena@[i] == old(self).arena@[i],
    {
        self.arena[node].value = symbol;
        proof {
            assert forall|i: int| 0 <= i < self.size() implies match #[trigger] self.arena@[i].parent {
                Some(p) => p < i,
                None => true,
            } by {
                assert(old(self).arena@[i].parent == self.arena@[i].parent);
            }
            assert forall|i: int, j: int|
                0 <= i < self.size() && 0 <= j < self.arena@[i].children@.len()
                implies #[trigger] self.arena@[i].children@[j] < self.size() by {
                assert(self.arena@[i].children@ == old(self).arena@[i].children@);
            }
        }
    }

    /// Appends `symbol` as the last child of the root.
    pub fn append_symbol(&mut self, symbol: Symbol) -> (id: SymbolNodeId)
        requires
            old(self).wf(),
            old(self).size() < usize::MAX,
        ensures
            final(self).wf(),
            id == old(self).size(),
            final(self).size() == old(self).size() + 1,
            final(self).arena@[id as int].value == symbol,
            final(self).arena@[id as int].parent == Some(old(self).root),
            final(self).arena@[old(self).root as int].children@ == old(self).arena@[old(self).root as int].children@.push(id),
    {
        let root = self.root;
        self.append_symbol_to(root, symbol)
    }

    /// Checks if `node` is equal to or enclosed within `ancestor`.
    pub fn is_descendant_or_same(&self, node: SymbolNodeId, ancestor: SymbolNodeId) -> (r: bool)
        requires
            self.wf(),
            node < self.size(),
        ensures
            r == self.is_descendant_or_same_spec(node as int, ancestor as int),
    {
        let mut cur = node;
        loop
            invariant
                self.wf(),
                cur < self.size(),
                self.is_descendant_or_same_spec(cur as int, ancestor as int)
                    == self.is_descendant_or_same_spec(node as int, ancestor as int),
            decreases cur,
        {
            if cur == ancestor {
                return true;
            }
            match self.arena[cur].parent {
                Some(parent) => {
                    cur = parent;
                },
                None => return false,
            }
        }
    }
    /// Evaluates if `target` symbol is accessible from `from_scope`.
    pub fn is_visible(&self, target: SymbolNodeId, from_scope: SymbolNodeId) -> (r: bool)
        requires
            self.wf(),
            target < self.size() && self.arena@[target as int].value.meta.vis is Private
                && self.parent_of(target as int) is Some ==> from_scope < self.size(),
        ensures
            r == self.is_visible_spec(target as int, from_scope as int),
    {
        if target >= self.arena.len() {
            return false;
        }
        match self.arena[target].value.meta.vis {
            Visibility::Public => true,
            Visibility::Private => match self.arena[target].parent {
                Some(parent) => self.is_descendant_or_same(from_scope, parent),
                None => true,
            },
        }
    }

    /// The first child of `scope` named `name`.
    pub fn find_child_named(&self, scope: SymbolNodeId, name: &String) -> (r: Option<SymbolNodeId>)
        requires
            self.wf(),
            scope < self.size(),
        ensures
            opt_int(r) == self.first_named_child(scope as int, name@),
            r matches Some(c) ==> c < self.size() && self.name_of(c as int) == Some(name@),
    {
        let n = self.arena[scope].children.len();
        let mut k: usize = 0;
        while k < n
            invariant
                self.wf(),
                scope < self.size(),
                n == self.children_of(scope as int).len(),
                k <= n,
                self.first_named_child(scope as int, name@)
                    == self.first_named_child_from(scope as int, name@, k as int),
            decreases n - k,
        {
            let c = self.arena[scope].children[k];
            match &self.arena[c].value.meta.name {
                Some(child_name) => {
                    if same_name(child_name, name) {
                        return Some(c);
                    }
                },
                None => {},
            }
            k = k + 1;
        }
        None
    }
    /// Public entry point for symbol lookup.
    ///
    /// A relative path is searched in `starting_node` and then in its enclosing scopes;
    /// an absolute path is searched from the library root. Each scope is searched for a
    /// visible child of that name first and then inside its wildcard imports, each
    /// wildcard being followed at most once.
    pub fn look_up(&self, starting_node: SymbolNodeId, path: &UnresolvedPath) -> (r: Option<SymbolNodeId>)
        requires
            self.wf(),
            starting_node < self.size(),
        ensures
            opt_int(r) == self.look_up_spec(starting_node as int, *path),
            r matches Some(x) ==> {
                &&& x < self.size()
                &&& self.name_of(x as int) == Some(path.names().last())
                &&& self.is_visible_spec(x as int, starting_node as int)
            },
    {
        let n = self.arena.len();
        let mut visited: Vec<bool> = Vec::new();
        let mut i: usize = 0;
        while i < n
            invariant
                n == self.size(),
                i <= n,
                visited@.len() == i,
                forall|j: int| 0 <= j < i ==> !visited@[j],
            decreases n - i,
        {
            visited.push(false);
            i = i + 1;
        }
        assert(visited@ =~= self.no_marks());
        self.look_up_internal(starting_node, path, &mut visited)
    }

    fn look_up_internal(&self, start: SymbolNodeId, path: &UnresolvedPath, visited: &mut Vec<bool>) -> (r: Option<SymbolNodeId>)
        requires
            self.wf(),
            start < self.size(),
            old(visited)@.len() == self.size(),
        ensures
            final(visited)@.len() == self.size(),
            forall|i: int| 0 <= i < self.size() && old(visited)@[i] ==> final(visited)@[i],
            (opt_int(r), final(visited)@) == self.look_up_internal_spec(start as int, *path, old(visited)@),
            r matches Some(x) ==> {
                &&& x < self.size()
                &&& self.name_of(x as int) == Some(path.names().last())
                &&& self.is_visible_spec(x as int, start as int)
            },
        decreases unvisited(old(visited)@), 5nat, 0int,
    {
        if path.parts.len() == 0 {
            return None;
        }
        if path.is_absolute {
            return self.look_up_downwards(self.root, &path.parts, 0, start, visited);
        }
        let ghost names = path.names();
        let mut scope = start;
        loop
            invariant
                self.wf(),
                start < self.size(),
                scope < self.size(),
                path.parts@.len() > 0,
                !path.is_absolute,
                names == path.names(),
                visited@.len() == self.size(),
                old(visited)@.len() == self.size(),
                forall|i: int| 0 <= i < self.size() && old(visited)@[i] ==> visited@[i],
                unvisited(visited@) <= unvisited(old(visited)@),
                self.climb_spec(scope as int, names, start as int, visited@)
                    == self.look_up_internal_spec(start as int, *path, old(visited)@),
            decreases scope,
        {
            let ghost v0 = visited@;
            let found = self.find_child_or_wildcard(scope, &path.parts[0], start, visited);
            proof {
                lemma_monotone_unvisited(visited@, v0);
                lemma_monotone_unvisited(visited@, old(visited)@);
            }
            match found {
                Some(m) => {
                    if path.parts.len() == 1 {
                        return Some(m);
                    } else {
                        return self.look_up_downwards(m, &path.parts, 1, start, visited);
                    }
                },
                None => {},
            }
            match self.arena[scope].parent {
                Some(p) => {
                    scope = p;
                },
                None => {
                    return None;
                },
            }
        }
    }

    fn look_up_downwards(
        &self,
        start: SymbolNodeId,
        parts: &Vec<String>,
        first: usize,
        from_scope: SymbolNodeId,
        visited: &mut Vec<bool>,
    ) -> (r: Option<SymbolNodeId>)
        requires
            self.wf(),
            start < self.size(),
            from_scope < self.size(),
            old(visited)@.len() == self.size(),
        ensures
            final(visited)@.len() == self.size(),
            forall|i: int| 0 <= i < self.size() && old(visited)@[i] ==> final(visited)@[i],
            (opt_int(r), final(visited)@) == self.look_up_downwards_spec(
                start as int,
                names_of(parts@),
                first as int,
                from_scope as int,
                old(visited)@,
            ),
            r matches Some(x) ==> {
                &&& x < self.size()
                &&& first < parts@.len() ==> self.name_of(x as int) == Some(names_of(parts@).last())
                &&& first < parts@.len() ==> self.is_visible_spec(x as int, from_scope as int)
            },
        decreases unvisited(old(visited)@), 3nat, parts@.len() - first,
    {
        let ghost names = names_of(parts@);
        let mut curr = start;
        let mut j = first;
        while j < parts.len()
            invariant
                self.wf(),
                curr < self.size(),
                from_scope < self.size(),
                first <= j <= parts@.len() || (first > parts@.len() && j == first),
                names == names_of(parts@),
                j > first ==> self.name_of(curr as int) == Some(names[j - 1])
                    && self.is_visible_spec(curr as int, from_scope as int),
                visited@.len() == self.size(),
                old(visited)@.len() == self.size(),
                forall|i: int| 0 <= i < self.size() && old(visited)@[i] ==> visited@[i],
                unvisited(visited@) <= unvisited(old(visited)@),
                self.look_up_downwards_spec(curr as int, names, j as int, from_scope as int, visited@)
                    == self.look_up_downwards_spec(start as int, names, first as int, from_scope as int, old(visited)@),
            decreases parts@.len() - j,
        {
            let ghost v0 = visited@;
            let found = self.find_child_or_wildcard(curr, &parts[j], from_scope, visited);
            proof {
                lemma_monotone_unvisited(visited@, v0);
                lemma_monotone_unvisited(visited@, old(visited)@);
            }
            match found {
                Some(next) => {
                    curr = next;
                    j = j + 1;
                },
                None => {
                    return None;
                },
            }
        }
        Some(curr)
    }

    fn find_child_or_wildcard(
        &self,
        scope: SymbolNodeId,
        name: &String,
        from_scope: SymbolNodeId,
        visited: &mut Vec<bool>,
    ) -> (r: Option<SymbolNodeId>)
        requires
            self.wf(),
            scope < self.size(),
            from_scope < self.size(),
            old(visited)@.len() == self.size(),
        ensures
            final(visited)@.len() == self.size(),
            forall|i: int| 0 <= i < self.size() && old(visited)@[i] ==> final(visited)@[i],
            (opt_int(r), final(visited)@) == self.find_child_or_wildcard_spec(
                scope as int,
                name@,
                from_scope as int,
                old(visited)@,
            ),
            r matches Some(x) ==> {
                &&& x < self.size()
                &&& self.name_of(x as int) == Some(name@)
                &&& self.is_visible_spec(x as int, from_scope as int)
            },
        decreases unvisited(old(visited)@), 2nat, 0int,
    {
        match self.find_child_named(scope, name) {
            Some(child) => {
                if self.is_visible(child, from_scope) {
                    return Some(child);
                }
            },
            None => {},
        }
        let n = self.arena[scope].children.len();
        let mut k: usize = 0;
        while k < n
            invariant
                self.wf(),
                scope < self.size(),
                from_scope < self.size(),
                n == self.children_of(scope as int).len(),
                k <= n,
                visited@.len() == self.size(),
                old(visited)@.len() == self.size(),
                forall|i: int| 0 <= i < self.size() && old(visited)@[i] ==> visited@[i],
                unvisited(visited@) <= unvisited(old(visited)@),
                self.find_in_wildcards_spec(scope as int, name@, from_scope as int, visited@, k as int)
                    == self.find_child_or_wildcard_spec(scope as int, name@, from_scope as int, old(visited)@),
            decreases n - k,
        {
            let c = self.arena[scope].children[k];
            let is_wildcard = match &self.arena[c].value.def {
                SymbolDef::Wildcard(_) => true,
                _ => false,
            };
            if is_wildcard && !visited[c] {
                let ghost v0 = visited@;
                visited.set(c, true);
                proof {
                    lemma_mark_unvisited(v0, c as int);
                    assert forall|i: int| 0 <= i < self.size() && old(visited)@[i] implies visited@[i] by {
                        if i != c {
                            assert(v0[i]);
                        }
                    }
                }
                let ghost v1 = visited@;
                match &self.arena[c].value.def {
                    SymbolDef::Wildcard(Path::Unresolved(target_path)) => {
                        let target = self.look_up_internal(scope, target_path, visited);
                        proof {
                            lemma_monotone_unvisited(visited@, v1);
                            lemma_monotone_unvisited(visited@, old(visited)@);
                        }
                        match target {
                            Some(t) => {
                                match self.find_child_named(t, name) {
                                    Some(imported) => {
                                        if self.is_visible(imported, from_scope) {
                                            return Some(imported);
                                        }
                                    },
                                    None => {},
                                }
                            },
                            None => {},
                        }
                    },
                    _ => {},
                }
            }
            k = k + 1;
        }
        None
    }
    /// Set the manifest.
    pub fn with_manifest(&mut self, manifest: Manifest) -> (r: &mut Self)
        ensures
            r.manifest == Some(manifest),
            r.arena == old(self).arena,
            r.root == old(self).root,
            r.dependencies == old(self).dependencies,
            *final(self) == *final(r),
    {
        self.manifest = Some(manifest);
        self
    }

    /// Returns true if this library does not have standard library as dependency.
    pub fn no_std(&self) -> (b: bool)
        ensures
            b == match self.manifest {
                Some(m) => m.library.no_std == Some(true),
                None => false,
            },
    {
        match &self.manifest {
            Some(manifest) => manifest.no_std(),
            None => false,
        }
    }

    /// Add or replace the dependency `name`.
    pub fn insert_dependency(&mut self, name: String, id: LibraryId)
        requires
            old(self).dependencies_unique(),
        ensures
            final(self).dependencies_unique(),
            final(self).arena == old(self).arena,
            final(self).root == old(self).root,
            final(self).manifest == old(self).manifest,
            exists|k: int|
                0 <= k < final(self).dependencies@.len() && #[trigger] final(self).dependencies@[k].0@ == name@
                    && final(self).dependencies@[k].1 == id,
            forall|k: int|
                0 <= k < old(self).dependencies@.len() && #[trigger] old(self).dependencies@[k].0@ != name@
                    ==> final(self).dependencies@.contains(old(self).dependencies@[k]),
            forall|k: int|
                0 <= k < final(self).dependencies@.len() && #[trigger] final(self).dependencies@[k].0@ != name@
                    ==> old(self).dependencies@.contains(final(self).dependencies@[k]),
    {
        let n = self.dependencies.len();
        let mut k: usize = 0;
        while k < n
            invariant
                n == self.dependencies@.len(),
                *self == *old(self),
                self.dependencies_unique(),
                k <= n,
                forall|j: int| 0 <= j < k ==> self.dependencies@[j].0@ != name@,
            decreases n - k,
        {
            if same_name(&self.dependencies[k].0, &name) {
                let ghost prev = self.dependencies@;
                self.dependencies.set(k, (name, id));
                proof {
                    assert(self.dependencies@[k as int].0@ == prev[k as int].0@);
                    assert forall|a: int, b: int|
                        0 <= a < b < self.dependencies@.len() implies self.dependencies@[a].0@ != self.dependencies@[b].0@ by {
                        assert(self.dependencies@[a].0@ == prev[a].0@);
                        assert(self.dependencies@[b].0@ == prev[b].0@);
                    }
                    assert(self.dependencies@[k as int].0@ == name@);
                    assert forall|j: int| 0 <= j < self.dependencies@.len() && #[trigger] self.dependencies@[j].0@ != name@
                        implies prev.contains(self.dependencies@[j]) by {
                        assert(j != k);
                        assert(prev[j] == self.dependencies@[j]);
                    }
                    assert forall|j: int| 0 <= j < prev.len() && #[trigger] prev[j].0@ != name@
                        implies self.dependencies@.contains(prev[j]) by {
                        assert(self.dependencies@[j] == prev[j]);
                    }
                }
                return;
            }
            k = k + 1;
        }
        let ghost prev = self.dependencies@;
        self.dependencies.push((name, id));
        proof {
            assert(self.dependencies@[n as int] == (name, id));
            assert(self.dependencies@[n as int].0@ == name@ && self.dependencies@[n as int].1 == id);
            assert forall|a: int, b: int|
                0 <= a < b < self.dependencies@.len() implies self.dependencies@[a].0@ != self.dependencies@[b].0@ by {
                if b < n {
                    assert(self.dependencies@[a] == prev[a]);
                    assert(self.dependencies@[b] == prev[b]);
                } else {
                    assert(self.dependencies@[a] == prev[a]);
                }
            }
            assert forall|j: int| 0 <= j < self.dependencies@.len() && #[trigger] self.dependencies@[j].0@ != name@
                implies prev.contains(self.dependencies@[j]) by {
                assert(prev[j] == self.dependencies@[j]);
            }
            assert forall|j: int| 0 <= j < prev.len() && #[trigger] prev[j].0@ != name@
                implies self.dependencies@.contains(prev[j]) by {
                assert(self.dependencies@[j] == prev[j]);
            }
        }
    }

    /// Add the standard library, described by `std_info`, as dependency.
    pub fn add_std(&mut self, std_info: LibraryInfo)
        requires
            old(self).dependencies_unique(),
        ensures
            final(self).dependencies_unique(),
            final(self).arena == old(self).arena,
            final(self).manifest == old(self).manifest,
            exists|k: int|
                0 <= k < final(self).dependencies@.len() && #[trigger] final(self).dependencies@[k].0@ == std_info.name@
                    && final(self).dependencies@[k].1 == LibraryId::Named(std_info),
    {
        let name = std_info.name.clone();
        self.insert_dependency(name, LibraryId::Named(std_info));
    }

    /// The library name from the manifest.
    pub fn name(&self) -> (r: Option<&String>)
        ensures
            r == match self.manifest {
                Some(m) => Some(&m.library.name),
                None => None,
            },
    {
        match &self.manifest {
            Some(manifest) => Some(&manifest.library.name),
            None => None,
        }
    }

    /// The library version from the manifest.
    pub fn version(&self) -> (r: Option<&Version>)
        ensures
            r == match self.manifest {
                Some(m) => Some(&m.library.version),
                None => None,
            },
    {
        match &self.manifest {
            Some(manifest) => Some(&manifest.library.version),
            None => None,
        }
    }

    /// Name and version of this library, if it has a manifest.
    pub fn info(&self) -> (r: Option<LibraryInfo>)
        ensures
            r == match self.manifest {
                Some(m) => Some(LibraryInfo { name: m.library.name, version: m.library.version }),
                None => None,
            },
    {
        match (self.name(), self.version()) {
            (Some(name), Some(ver)) => Some(LibraryInfo { name: name.clone(), version: ver.copy() }),
            _ => None,
        }
    }

    /// The library id: its info, or the root id without manifest.
    pub fn id(&self) -> (r: LibraryId)
        ensures
            r == self.id_spec(),
    {
        match self.info() {
            Some(info) => LibraryId::Named(info),
            None => LibraryId::Root,
        }
    }

    /// Returns true if node `node` is public.
    pub fn is_public(&self, node: SymbolNodeId) -> (b: bool)
        requires
            node < self.size(),
        ensures
            b == (self.arena@[node as int].value.meta.vis == Visibility::Public),
    {
        self.arena[node].value.is_public()
    }

    /// The first child of `node` named `name`.
    pub fn find_child(&self, node: SymbolNodeId, name: &String) -> (r: Option<SymbolNodeId>)
        requires
            self.wf(),
            node < self.size(),
        ensures
            opt_int(r) == self.first_named_child(node as int, name@),
    {
        self.find_child_named(node, name)
    }

    /// Absolute path of a symbol: the names of its ancestors and itself, from the root down.
    pub fn abs_path(&self, node: SymbolNodeId) -> (r: SymbolAbsPath)
        requires
            self.wf(),
            node < self.size(),
        ensures
            names_of(r.parts@) == self.abs_path_spec(node as int),
    {
        let mut reversed: Vec<String> = Vec::new();
        let mut cur = node;
        loop
            invariant_except_break
                self.abs_path_spec(node as int)
                    =~= self.abs_path_spec(cur as int) + names_of(reversed@).reverse(),
            invariant
                self.wf(),
                cur < self.size(),
                node < self.size(),
            ensures
                self.abs_path_spec(node as int) =~= names_of(reversed@).reverse(),
            decreases cur,
        {
            let ghost before = reversed@;
            match &self.arena[cur].value.meta.name {
                Some(n) => {
                    reversed.push(n.clone());
                    proof {
                        assert(names_of(reversed@).reverse() =~= seq![n@] + names_of(before).reverse());
                    }
                },
                None => {},
            }
            match self.arena[cur].parent {
                Some(p) => {
                    proof {
                        assert(self.abs_path_spec(cur as int) + names_of(before).reverse()
                            =~= self.abs_path_spec(p as int) + names_of(reversed@).reverse());
                    }
                    cur = p;
                },
                None => {
                    proof {
                        assert(self.abs_path_spec(cur as int) + names_of(before).reverse()
                            =~= names_of(reversed@).reverse());
                    }
                    break;
                },
            }
        }
        let mut result: Vec<String> = Vec::new();
        let m = reversed.len();
        let mut k: usize = 0;
        while k < m
            invariant
                m == reversed@.len(),
                k <= m,
                names_of(result@) =~= names_of(reversed@).reverse().subrange(0, k as int),
            decreases m - k,
        {
            let ghost before = result@;
            result.push(reversed[m - 1 - k].clone());
            proof {
                assert(names_of(reversed@).reverse()[k as int] == reversed@[m - 1 - k]@);
                assert(names_of(result@) =~= names_of(before).push(reversed@[m - 1 - k]@));
            }
            k = k + 1;
        }
        SymbolAbsPath { parts: result }
    }
}

} // verus!
