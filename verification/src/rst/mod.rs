//! The resolved symbol tree (RST): symbols with an id, a parent and ordered children,
//! stored in insertion order, each with a data value.

use vstd::prelude::*;

pub mod def;

verus! {

/// Position of a symbol in a symbol tree.
#[derive(Debug, Clone, Copy, PartialEq, Eq, PartialOrd, Ord, Hash, Structural)]
pub struct SymbolHandle(pub usize);

/// An ordered list of symbol handles.
#[derive(Debug, Default)]
pub struct SymbolIndex {
    items: Vec<SymbolHandle>,
}

impl View for SymbolIndex {
    type V = Seq<SymbolHandle>;

    closed spec fn view(&self) -> Seq<SymbolHandle> {
        self.items@
    }
}

impl SymbolIndex {
    /// An empty index.
    pub fn new() -> (r: SymbolIndex)
        ensures
            r@ == Seq::<SymbolHandle>::empty(),
    {
        SymbolIndex { items: Vec::new() }
    }

    /// An index holding `handles` in order.
    pub fn from_handles(handles: Vec<SymbolHandle>) -> (r: SymbolIndex)
        ensures
            r@ == handles@,
    {
        SymbolIndex { items: handles }
    }

    /// Number of handles.
    pub fn len(&self) -> (n: usize)
        ensures
            n == self@.len(),
    {
        self.items.len()
    }

    /// Appends a handle.
    pub fn insert(&mut self, hash: SymbolHandle)
        ensures
            final(self)@ == old(self)@.push(hash),
    {
        self.items.push(hash);
    }

    /// The handle at position `index`, if there is one.
    pub fn get_by_index(&self, index: usize) -> (r: Option<&SymbolHandle>)
        ensures
            r == (if index < self@.len() { Some(&self@[index as int]) } else { None }),
    {
        if index < self.items.len() {
            Some(&self.items[index])
        } else {
            None
        }
    }
}

/// A node of a symbol tree.
#[derive(Debug)]
pub struct Symbol {
    /// The symbol id.
    pub id: String,
    parent: Option<SymbolHandle>,
    children: SymbolIndex,
}

impl Symbol {
    /// A symbol without parent or children.
    pub fn new(id: String) -> (s: Symbol)
        ensures
            s.id_spec() == id@,
            s.parent_spec() is None,
            s.children_spec().len() == 0,
    {
        Symbol { id, parent: None, children: SymbolIndex::new() }
    }

    /// The symbol id as characters.
    pub closed spec fn id_spec(&self) -> Seq<char> {
        self.id@
    }

    /// The parent handle.
    pub closed spec fn parent_spec(&self) -> Option<SymbolHandle> {
        self.parent
    }

    /// The child handles.
    pub closed spec fn children_spec(&self) -> Seq<SymbolHandle> {
        self.children@
    }

    /// The parent handle.
    pub fn parent(&self) -> (r: Option<SymbolHandle>)
        ensures
            r == self.parent_spec(),
    {
        self.parent
    }

    /// The child handles in order.
    pub fn children(&self) -> (r: &SymbolIndex)
        ensures
            r@ == self.children_spec(),
    {
        &self.children
    }
}

/// A path of symbol ids: `foo::bar`; the flag tells whether it starts with the root
/// indicator `::`, which has it searched from the top of the tree.
#[derive(Debug)]
pub struct SymbolPath(pub Vec<String>, pub bool);

/// The ids of a symbol path as character sequences.
pub open spec fn path_ids(p: Seq<String>) -> Seq<Seq<char>> {
    Seq::new(p.len(), |i: int| p[i]@)
}

/// A symbol tree: symbols in insertion order, each with a data value.
#[derive(Debug)]
pub struct SymbolTree<DATA> {
    nodes: Vec<Symbol>,
    data: Vec<DATA>,
}

/// `b` is the tree that adding the symbols of `t` to `a` below `parent` gives: the symbols
/// of `a` stay where they were, those of `t` follow with handles shifted by the size of
/// `a`, and the first of them becomes the last child of `parent`.
pub open spec fn tree_inserted<DATA>(a: SymbolTree<DATA>, parent: Option<SymbolHandle>, t: SymbolTree<DATA>, b: SymbolTree<DATA>) -> bool {
    &&& b.size() == a.size() + t.size()
    &&& forall|i: int|
        #![trigger b.id_of(i)]
        0 <= i < a.size() ==> b.id_of(i) == a.id_of(i) && b.parent_of(i) == a.parent_of(i)
            && b.data_of(i) == a.data_of(i)
    &&& forall|i: int|
        #![trigger b.children_of(i)]
        0 <= i < a.size() ==> b.children_of(i) == if parent == Some(SymbolHandle(i as usize)) {
            a.children_of(i).push(SymbolHandle(a.size() as usize))
        } else {
            a.children_of(i)
        }
    &&& forall|k: int|
        #![trigger t.id_of(k)]
        0 <= k < t.size() ==> {
            let i = a.size() + k;
            &&& b.id_of(i) == t.id_of(k)
            &&& b.data_of(i) == t.data_of(k)
            &&& b.parent_of(i) == match t.parent_of(k) {
                Some(p) => Some(SymbolHandle((p.0 + a.size()) as usize)),
                None => parent,
            }
            &&& b.children_of(i) == if parent == Some(SymbolHandle(i as usize)) {
                t.children_of(k).map_values(|c: SymbolHandle| SymbolHandle((c.0 + a.size()) as usize)).push(
                    SymbolHandle(a.size() as usize),
                )
            } else {
                t.children_of(k).map_values(|c: SymbolHandle| SymbolHandle((c.0 + a.size()) as usize))
            }
        }
}

impl<DATA> SymbolTree<DATA> {
    /// Number of symbols.
    pub closed spec fn size(&self) -> int {
        self.nodes@.len() as int
    }

    /// Id of symbol `i`.
    pub closed spec fn id_of(&self, i: int) -> Seq<char> {
        self.nodes@[i].id@
    }

    /// Parent of symbol `i`.
    pub closed spec fn parent_of(&self, i: int) -> Option<SymbolHandle> {
        self.nodes@[i].parent
    }

    /// Children of symbol `i`.
    pub closed spec fn children_of(&self, i: int) -> Seq<SymbolHandle> {
        self.nodes@[i].children@
    }

    /// Data of symbol `i`.
    pub closed spec fn data_of(&self, i: int) -> DATA {
        self.data@[i]
    }

    /// Well-formedness: one data value per symbol, parents precede their children,
    /// children follow their parent and exist.
    pub closed spec fn wf(&self) -> bool {
        &&& self.nodes@.len() == self.data@.len()
        &&& forall|i: int|
            #![trigger self.nodes@[i]]
            0 <= i < self.size() ==> match self.nodes@[i].parent {
                Some(p) => p.0 < i,
                None => true,
            }
        &&& forall|i: int, j: int|
            #![trigger self.nodes@[i].children@[j]]
            0 <= i < self.size() && 0 <= j < self.nodes@[i].children@.len() ==> i
                < self.nodes@[i].children@[j].0 < self.size()
    }

    /// In a well-formed tree each parent comes before its child, and each child comes after
    /// its parent and is a symbol of the tree.
    pub proof fn lemma_wf_order(&self)
        requires
            self.wf(),
        ensures
            forall|i: int|
                #![trigger self.parent_of(i)]
                0 <= i < self.size() ==> (self.parent_of(i) matches Some(p) ==> p.0 < i),
            forall|i: int, j: int|
                #![trigger self.children_of(i)[j]]
                0 <= i < self.size() && 0 <= j < self.children_of(i).len() ==> i < self.children_of(i)[j].0 < self.size(),
    {
        assert forall|i: int| #![trigger self.parent_of(i)] 0 <= i < self.size() implies (self.parent_of(i) matches Some(p) ==> p.0 < i) by {
            assert(self.nodes@[i].parent == self.parent_of(i));
        }
        assert forall|i: int, j: int| #![trigger self.children_of(i)[j]] 0 <= i < self.size() && 0 <= j < self.children_of(i).len()
            implies i < self.children_of(i)[j].0 < self.size() by {
            assert(self.nodes@[i].children@[j] == self.children_of(i)[j]);
        }
    }

    /// Pre-order traversal from `h`: `h`, then the traversal of each child in order.
    pub open spec fn preorder(&self, h: int) -> Seq<int>
        decreases self.size() - h, 1nat, 0int,
    {
        seq![h] + self.preorder_children(h, 0)
    }

    /// Concatenated pre-order traversals of the children of `h` from position `k` on.
    pub open spec fn preorder_children(&self, h: int, k: int) -> Seq<int>
        decreases self.size() - h, 0nat, self.children_of(h).len() - k,
    {
        if k < 0 || k >= self.children_of(h).len() {
            Seq::empty()
        } else {
            let c = self.children_of(h)[k].0 as int;
            if h < c < self.size() {
                self.preorder(c) + self.preorder_children(h, k + 1)
            } else {
                self.preorder_children(h, k + 1)
            }
        }
    }

    /// All symbols reached from `h` by following `path[i..]` downwards, where each step
    /// goes to every child with the next id.
    pub open spec fn search_down_spec(&self, h: int, path: Seq<Seq<char>>, i: int) -> Seq<int>
        decreases path.len() - i, 1nat, 0int,
    {
        if i < 0 || i >= path.len() {
            seq![h]
        } else {
            self.search_down_children(h, path, i, 0)
        }
    }

    /// The matches of `path[i..]` below the children of `h` from position `k` on.
    pub open spec fn search_down_children(&self, h: int, path: Seq<Seq<char>>, i: int, k: int) -> Seq<int>
        decreases path.len() - i, 0nat, self.children_of(h).len() - k,
    {
        if k < 0 || k >= self.children_of(h).len() || i < 0 || i >= path.len() {
            Seq::empty()
        } else {
            let c = self.children_of(h)[k].0 as int;
            let here = if self.id_of(c) == path[i] {
                self.search_down_spec(c, path, i + 1)
            } else {
                Seq::empty()
            };
            here + self.search_down_children(h, path, i, k + 1)
        }
    }

    /// The first symbol reached from `h` along `path[i..]`, trying children in order.
    pub open spec fn descend_spec(&self, h: int, path: Seq<Seq<char>>, i: int) -> Option<int>
        decreases path.len() - i, 1nat, 0int,
    {
        if i < 0 || i >= path.len() {
            Some(h)
        } else {
            self.descend_children(h, path, i, 0)
        }
    }

    /// The first match of `path[i..]` below the children of `h` from position `k` on.
    pub open spec fn descend_children(&self, h: int, path: Seq<Seq<char>>, i: int, k: int) -> Option<int>
        decreases path.len() - i, 0nat, self.children_of(h).len() - k,
    {
        if k < 0 || k >= self.children_of(h).len() || i < 0 || i >= path.len() {
            None
        } else {
            let c = self.children_of(h)[k].0 as int;
            if self.id_of(c) == path[i] {
                match self.descend_spec(c, path, i + 1) {
                    Some(r) => Some(r),
                    None => self.descend_children(h, path, i, k + 1),
                }
            } else {
                self.descend_children(h, path, i, k + 1)
            }
        }
    }

    /// The topmost ancestor of `cur` (`cur` itself where it has no parent).
    pub open spec fn top_of(&self, cur: int) -> int
        decreases cur,
    {
        match self.parent_of(cur) {
            Some(p) => if 0 <= p.0 < cur {
                self.top_of(p.0 as int)
            } else {
                cur
            },
            None => cur,
        }
    }

    /// Resolution of `path` from `cur`: from the top of the tree where the path starts with
    /// the root indicator, else relative to `cur`.
    pub open spec fn resolve_spec(&self, cur: int, path: Seq<Seq<char>>, absolute: bool) -> Option<int> {
        if absolute {
            self.resolve_from(self.top_of(cur), path)
        } else {
            self.resolve_from(cur, path)
        }
    }

    /// Resolution of `path` relative to `cur`: the first of `cur` and its ancestors whose id
    /// is the first id of the path and below which the rest of the path is found.
    pub open spec fn resolve_from(&self, cur: int, path: Seq<Seq<char>>) -> Option<int>
        decreases cur,
    {
        if path.len() == 0 || cur < 0 {
            None
        } else if self.id_of(cur) == path[0] && self.descend_spec(cur, path, 1) is Some {
            self.descend_spec(cur, path, 1)
        } else {
            match self.parent_of(cur) {
                Some(p) => if p.0 < cur {
                    self.resolve_from(p.0 as int, path)
                } else {
                    None
                },
                None => None,
            }
        }
    }

    /// Symbol `i` exists.
    pub open spec fn has(&self, h: SymbolHandle) -> bool {
        0 <= h.0 < self.size()
    }

    /// An empty tree.
    pub fn new() -> (t: SymbolTree<DATA>)
        ensures
            t.wf(),
            t.size() == 0,
    {
        SymbolTree { nodes: Vec::new(), data: Vec::new() }
    }

    /// A tree with one symbol `id` holding `data`.
    pub fn leaf(id: String, data: DATA) -> (t: SymbolTree<DATA>)
        ensures
            t.wf(),
            t.size() == 1,
            t.id_of(0) == id@,
            t.data_of(0) == data,
            t.parent_of(0) is None,
            t.children_of(0).len() == 0,
    {
        let mut nodes: Vec<Symbol> = Vec::new();
        nodes.push(Symbol::new(id));
        let mut d: Vec<DATA> = Vec::new();
        d.push(data);
        SymbolTree { nodes, data: d }
    }

    /// Number of symbols.
    pub fn len(&self) -> (n: usize)
        ensures
            n == self.size(),
    {
        self.nodes.len()
    }

    /// The symbol with handle `handle`, if it exists.
    pub fn get(&self, handle: SymbolHandle) -> (r: Option<SymbolRef<'_, DATA>>)
        ensures
            r matches Some(s) ==> s.tree_spec() == self && s.handle_spec() == handle,
            r is Some <==> self.has(handle),
    {
        if handle.0 < self.nodes.len() {
            Some(SymbolRef { tree: self, handle })
        } else {
            None
        }
    }

    /// The first symbol, the root of the tree.
    pub fn root(&self) -> (r: Option<SymbolRef<'_, DATA>>)
        ensures
            r matches Some(s) ==> s.tree_spec() == self && s.handle_spec() == SymbolHandle(0),
            r is Some <==> self.size() > 0,
    {
        self.get(SymbolHandle(0))
    }

    /// The handle of the last symbol, if any.
    pub fn last_handle(&self) -> (r: Option<SymbolHandle>)
        ensures
            r == (if self.size() > 0 { Some(SymbolHandle((self.size() - 1) as usize)) } else { None }),
    {
        if self.nodes.len() > 0 {
            Some(SymbolHandle(self.nodes.len() - 1))
        } else {
            None
        }
    }

    /// Id of symbol `handle`.
    pub fn id(&self, handle: SymbolHandle) -> (r: &String)
        requires
            self.has(handle),
        ensures
            r@ == self.id_of(handle.0 as int),
    {
        &self.nodes[handle.0].id
    }

    /// Data of symbol `handle`.
    pub fn data(&self, handle: SymbolHandle) -> (r: &DATA)
        requires
            self.wf(),
            self.has(handle),
        ensures
            *r == self.data_of(handle.0 as int),
    {
        &self.data[handle.0]
    }

    /// Parent of symbol `handle`.
    pub fn parent(&self, handle: SymbolHandle) -> (r: Option<SymbolHandle>)
        requires
            self.has(handle),
        ensures
            r == self.parent_of(handle.0 as int),
    {
        self.nodes[handle.0].parent
    }

    /// Children of symbol `handle`.
    pub fn child_handles(&self, handle: SymbolHandle) -> (r: &SymbolIndex)
        requires
            self.has(handle),
        ensures
            r@ == self.children_of(handle.0 as int),
    {
        &self.nodes[handle.0].children
    }

    /// Adds the symbols of `tree` after the existing ones, with handles shifted by the
    /// current size; the handle the first added symbol gets (the current size) becomes the
    /// last child of `parent`, where `parent` is a symbol of the tree after the addition.
    /// The tree stays well formed where `tree` has a symbol and `parent` is one of the
    /// existing symbols.
    pub fn insert(&mut self, parent: Option<SymbolHandle>, tree: SymbolTree<DATA>)
        requires
            old(self).wf(),
            tree.wf(),
            old(self).size() + tree.size() <= usize::MAX,
        ensures
            tree.size() > 0 && (parent matches Some(p) ==> old(self).has(p)) ==> final(self).wf(),
            tree_inserted(*old(self), parent, tree, *final(self)),
    {
        let base = self.nodes.len();
        let n = tree.nodes.len();
        let SymbolTree { nodes: t_nodes, data: mut t_data } = tree;
        let mut k: usize = 0;
        while k < n
            invariant
                n == t_nodes@.len(),
                base == old(self).size(),
                base + n <= usize::MAX,
                k <= n,
                self.nodes@.len() == base + k,
                self.data == old(self).data,
                forall|i: int| 0 <= i < base ==> #[trigger] self.nodes@[i] == old(self).nodes@[i],
                forall|j: int|
                    #![trigger t_nodes@[j]]
                    0 <= j < n ==> match t_nodes@[j].parent {
                        Some(p) => p.0 < j,
                        None => true,
                    },
                forall|j: int, c: int|
                    #![trigger t_nodes@[j].children@[c]]
                    0 <= j < n && 0 <= c < t_nodes@[j].children@.len() ==> j < t_nodes@[j].children@[c].0 < n,
                forall|j: int|
                    #![trigger self.nodes@[base + j]]
                    0 <= j < k ==> {
                        &&& self.nodes@[base + j].id@ == t_nodes@[j].id@
                        &&& self.nodes@[base + j].parent == match t_nodes@[j].parent {
                            Some(p) => Some(SymbolHandle((p.0 + base) as usize)),
                            None => parent,
                        }
                        &&& self.nodes@[base + j].children@ == t_nodes@[j].children@.map_values(
                            |c: SymbolHandle| SymbolHandle((c.0 + base) as usize),
                        )
                    },
            decreases n - k,
        {
            let node = &t_nodes[k];
            let new_parent = match node.parent {
                Some(p) => Some(SymbolHandle(p.0 + base)),
                None => parent,
            };
            let m = node.children.items.len();
            proof {
                assert forall|x: int| 0 <= x < m implies #[trigger] node.children.items@[x].0 < n by {
                    assert(t_nodes@[k as int].children@[x] == node.children.items@[x]);
                }
            }
            let mut children: Vec<SymbolHandle> = Vec::new();
            let mut c: usize = 0;
            while c < m
                invariant
                    m == node.children.items@.len(),
                    c <= m,
                    base + n <= usize::MAX,
                    k < n,
                    node == t_nodes@[k as int],
                    forall|x: int| 0 <= x < m ==> #[trigger] node.children.items@[x].0 < n,
                    children@ == node.children.items@.subrange(0, c as int).map_values(
                        |h: SymbolHandle| SymbolHandle((h.0 + base) as usize),
                    ),
                decreases m - c,
            {
                let h = node.children.items[c];
                children.push(SymbolHandle(h.0 + base));
                proof {
                    assert(node.children.items@.subrange(0, c + 1) =~= node.children.items@.subrange(0, c as int).push(h));
                }
                c = c + 1;
            }
            proof {
                assert(node.children.items@.subrange(0, m as int) =~= node.children.items@);
            }
            self.nodes.push(Symbol { id: node.id.clone(), parent: new_parent, children: SymbolIndex { items: children } });
            k = k + 1;
        }
        self.data.append(&mut t_data);
        let ghost before = self.nodes@;
        match parent {
            Some(p) => {
                if p.0 < self.nodes.len() {
                    self.nodes[p.0].children.items.push(SymbolHandle(base));
                }
            },
            None => {},
        }
        proof {
            assert forall|i: int| 0 <= i < self.size() && !(parent == Some(SymbolHandle(i as usize)))
                implies #[trigger] self.nodes@[i] == before[i] by {}
            if tree.size() > 0 && (parent matches Some(p) ==> old(self).has(p)) {
            assert forall|i: int| 0 <= i < self.size() implies match #[trigger] self.nodes@[i].parent {
                Some(p) => p.0 < i,
                None => true,
            } by {
                if i < base {
                    assert(self.nodes@[i].parent == old(self).nodes@[i].parent);
                } else {
                    let j = i - base;
                    assert(self.nodes@[base + j].parent == self.nodes@[i].parent);
                }
            }
            assert forall|i: int, j: int|
                0 <= i < self.size() && 0 <= j < self.nodes@[i].children@.len() implies i
                < #[trigger] self.nodes@[i].children@[j].0 < self.size() by {
                if i < base {
                    if parent == Some(SymbolHandle(i as usize)) && j == old(self).nodes@[i].children@.len() {
                    } else {
                        assert(self.nodes@[i].children@[j] == old(self).nodes@[i].children@[j]);
                    }
                } else {
                    let jj = i - base;
                    assert(self.nodes@[base + jj].children@ == self.nodes@[i].children@);
                }
            }
            }
            assert forall|i: int| 0 <= i < old(self).size() implies #[trigger] self.id_of(i) == old(self).id_of(i)
                && self.parent_of(i) == old(self).parent_of(i) && self.data_of(i) == old(self).data_of(i) by {
                assert(self.data@[i] == old(self).data@[i]);
            }
            assert forall|kk: int| 0 <= kk < tree.size() implies {
                let i = old(self).size() + kk;
                &&& self.id_of(i) == #[trigger] tree.id_of(kk)
                &&& self.data_of(i) == tree.data_of(kk)
            } by {
                assert(self.nodes@[base + kk] == self.nodes@[old(self).size() + kk]);
                assert(self.data@[base + kk] == tree.data@[kk]);
            }
        }
    }
}

/// A reference to a symbol of a tree.
#[derive(Debug)]
pub struct SymbolRef<'rst, DATA> {
    tree: &'rst SymbolTree<DATA>,
    handle: SymbolHandle,
}

impl<'rst, DATA> Clone for SymbolRef<'rst, DATA> {
    fn clone(&self) -> (r: Self)
        ensures
            r == *self,
    {
        *self
    }
}

impl<'rst, DATA> Copy for SymbolRef<'rst, DATA> {

}

impl<'rst, DATA> SymbolRef<'rst, DATA> {
    /// The tree.
    pub closed spec fn tree_spec(&self) -> &'rst SymbolTree<DATA> {
        self.tree
    }

    /// The handle.
    pub closed spec fn handle_spec(&self) -> SymbolHandle {
        self.handle
    }

    /// The referenced symbol exists in a well-formed tree.
    pub open spec fn valid(&self) -> bool {
        self.tree_spec().wf() && self.tree_spec().has(self.handle_spec())
    }

    /// The handle of the referenced symbol.
    pub fn handle(&self) -> (h: SymbolHandle)
        ensures
            h == self.handle_spec(),
    {
        self.handle
    }

    /// The tree.
    pub fn tree(&self) -> (t: &'rst SymbolTree<DATA>)
        ensures
            t == self.tree_spec(),
    {
        self.tree
    }

    /// The symbol id.
    pub fn id(&self) -> (r: &String)
        requires
            self.valid(),
        ensures
            r@ == self.tree_spec().id_of(self.handle_spec().0 as int),
    {
        self.tree.id(self.handle)
    }

    /// The symbol data.
    pub fn data(&self) -> (r: &DATA)
        requires
            self.valid(),
        ensures
            *r == self.tree_spec().data_of(self.handle_spec().0 as int),
    {
        self.tree.data(self.handle)
    }
}

/// The references `v` point into `tree` at the symbols `hs`.
pub open spec fn refs_at<'rst, DATA>(v: Seq<SymbolRef<'rst, DATA>>, tree: &'rst SymbolTree<DATA>, hs: Seq<int>) -> bool {
    &&& v.len() == hs.len()
    &&& forall|i: int|
        0 <= i < v.len() ==> (#[trigger] v[i]).tree_spec() == tree && v[i].handle_spec().0 == hs[i]
}

impl<'rst, DATA> SymbolRef<'rst, DATA> {
    /// References to the children of this symbol, in order.
    pub fn children(&self) -> (r: Vec<SymbolRef<'rst, DATA>>)
        requires
            self.valid(),
        ensures
            refs_at(r@, self.tree_spec(), self.tree_spec().children_of(self.handle_spec().0 as int).map_values(|c: SymbolHandle| c.0 as int)),
    {
        let tree = self.tree;
        let kids = &tree.nodes[self.handle.0].children.items;
        let n = kids.len();
        let mut out: Vec<SymbolRef<'rst, DATA>> = Vec::new();
        let mut k: usize = 0;
        while k < n
            invariant
                n == kids@.len(),
                k <= n,
                kids@ == tree.children_of(self.handle.0 as int),
                tree == self.tree_spec(),
                refs_at(out@, tree, kids@.subrange(0, k as int).map_values(|c: SymbolHandle| c.0 as int)),
            decreases n - k,
        {
            out.push(SymbolRef { tree, handle: kids[k] });
            proof {
                assert(kids@.subrange(0, k + 1).map_values(|c: SymbolHandle| c.0 as int)
                    =~= kids@.subrange(0, k as int).map_values(|c: SymbolHandle| c.0 as int).push(kids@[k as int].0 as int));
            }
            k = k + 1;
        }
        proof {
            assert(kids@.subrange(0, n as int) =~= kids@);
        }
        out
    }

    /// This symbol and all symbols below it, in pre-order.
    pub fn descendants(&self) -> (r: Vec<SymbolRef<'rst, DATA>>)
        requires
            self.valid(),
        ensures
            refs_at(r@, self.tree_spec(), self.tree_spec().preorder(self.handle_spec().0 as int)),
    {
        let mut out: Vec<SymbolRef<'rst, DATA>> = Vec::new();
        proof {
            assert(handles_of(out@) =~= Seq::<int>::empty());
        }
        collect_preorder(self.tree, self.handle, &mut out);
        proof {
            assert(Seq::<int>::empty() + self.tree.preorder(self.handle.0 as int)
                =~= self.tree.preorder(self.handle.0 as int));
            lemma_refs_at(out@, self.tree, self.tree.preorder(self.handle.0 as int));
        }
        out
    }

    /// All symbols reached by following `path` downwards from this symbol.
    pub fn search_down(&self, path: &SymbolPath) -> (r: Vec<SymbolRef<'rst, DATA>>)
        requires
            self.valid(),
        ensures
            refs_at(r@, self.tree_spec(), self.tree_spec().search_down_spec(self.handle_spec().0 as int, path_ids(path.0@), 0)),
    {
        let mut out: Vec<SymbolRef<'rst, DATA>> = Vec::new();
        proof {
            assert(handles_of(out@) =~= Seq::<int>::empty());
        }
        collect_search_down(self.tree, self.handle, &path.0, 0, &mut out);
        proof {
            assert(Seq::<int>::empty() + self.tree.search_down_spec(self.handle.0 as int, path_ids(path.0@), 0)
                =~= self.tree.search_down_spec(self.handle.0 as int, path_ids(path.0@), 0));
            lemma_refs_at(out@, self.tree, self.tree.search_down_spec(self.handle.0 as int, path_ids(path.0@), 0));
        }
        out
    }

    /// Resolves a path: one that starts with the root indicator from the top of the tree,
    /// any other relative to this symbol. Searches the starting symbol and then its
    /// ancestors for the first id of the path and descends from there along the rest.
    pub fn resolve(&self, path: &SymbolPath) -> (r: Option<SymbolRef<'rst, DATA>>)
        requires
            self.valid(),
        ensures
            r matches Some(s) ==> s.tree_spec() == self.tree_spec(),
            opt_handle(r) == self.tree_spec().resolve_spec(self.handle_spec().0 as int, path_ids(path.0@), path.1),
    {
        let tree = self.tree;
        if path.0.len() == 0 {
            return None;
        }
        let ghost ids = path_ids(path.0@);
        let mut cur = self.handle.0;
        if path.1 {
            loop
                invariant
                    tree == self.tree_spec(),
                    tree.wf(),
                    0 <= cur < tree.size(),
                    tree.top_of(cur as int) == tree.top_of(self.handle.0 as int),
                ensures
                    0 <= cur < tree.size(),
                    cur as int == tree.top_of(self.handle.0 as int),
                decreases cur,
            {
                assert(tree.nodes@[cur as int].parent == tree.parent_of(cur as int));
                match tree.nodes[cur].parent {
                    Some(p) => {
                        cur = p.0;
                    },
                    None => break,
                }
            }
        }
        let ghost start = cur as int;
        proof {
            assert(start == (if path.1 { tree.top_of(self.handle.0 as int) } else { self.handle.0 as int }));
        }
        loop
            invariant
                tree == self.tree_spec(),
                tree.wf(),
                0 <= cur < tree.size(),
                path.0@.len() > 0,
                ids == path_ids(path.0@),
                tree.resolve_from(cur as int, ids) == tree.resolve_from(start, ids),
                start == (if path.1 { tree.top_of(self.handle.0 as int) } else { self.handle.0 as int }),
            decreases cur,
        {
            if same_id(&tree.nodes[cur].id, &path.0[0]) {
                match descend(tree, SymbolHandle(cur), &path.0, 1) {
                    Some(target) => return Some(SymbolRef { tree, handle: target }),
                    None => {},
                }
            }
            match tree.nodes[cur].parent {
                Some(p) => {
                    cur = p.0;
                },
                None => return None,
            }
        }
    }
}

/// The handle index of an optional reference.
pub open spec fn opt_handle<'rst, DATA>(r: Option<SymbolRef<'rst, DATA>>) -> Option<int> {
    match r {
        Some(s) => Some(s.handle_spec().0 as int),
        None => None,
    }
}

fn same_id(a: &String, b: &String) -> (r: bool)
    ensures
        r == (a@ == b@),
{
    *a == *b
}

/// All references of `v` point into `tree`.
pub open spec fn refs_in<'rst, DATA>(v: Seq<SymbolRef<'rst, DATA>>, tree: &'rst SymbolTree<DATA>) -> bool {
    forall|i: int| 0 <= i < v.len() ==> (#[trigger] v[i]).tree_spec() == tree
}

/// The handle indices of the references of `v`.
pub open spec fn handles_of<'rst, DATA>(v: Seq<SymbolRef<'rst, DATA>>) -> Seq<int> {
    Seq::new(v.len(), |i: int| v[i].handle_spec().0 as int)
}

proof fn lemma_refs_at<'rst, DATA>(v: Seq<SymbolRef<'rst, DATA>>, tree: &'rst SymbolTree<DATA>, hs: Seq<int>)
    requires
        refs_in(v, tree),
        handles_of(v) == hs,
    ensures
        refs_at(v, tree, hs),
{
    assert forall|i: int| 0 <= i < v.len() implies (#[trigger] v[i]).tree_spec() == tree && v[i].handle_spec().0 == hs[i] by {
        assert(handles_of(v)[i] == hs[i]);
    }
}

fn push_ref<'rst, DATA>(tree: &'rst SymbolTree<DATA>, h: SymbolHandle, out: &mut Vec<SymbolRef<'rst, DATA>>)
    requires
        refs_in(old(out)@, tree),
    ensures
        refs_in(final(out)@, tree),
        handles_of(final(out)@) == handles_of(old(out)@).push(h.0 as int),
{
    out.push(SymbolRef { tree, handle: h });
    proof {
        assert(handles_of(out@) =~= handles_of(old(out)@).push(h.0 as int));
    }
}

fn collect_preorder<'rst, DATA>(tree: &'rst SymbolTree<DATA>, h: SymbolHandle, out: &mut Vec<SymbolRef<'rst, DATA>>)
    requires
        tree.wf(),
        tree.has(h),
        refs_in(old(out)@, tree),
    ensures
        refs_in(final(out)@, tree),
        handles_of(final(out)@) == handles_of(old(out)@) + tree.preorder(h.0 as int),
    decreases tree.size() - h.0,
{
    push_ref(tree, h, out);
    let kids = &tree.nodes[h.0].children.items;
    let n = kids.len();
    let mut k: usize = 0;
    while k < n
        invariant
            tree.wf(),
            tree.has(h),
            n == kids@.len(),
            kids@ == tree.children_of(h.0 as int),
            k <= n,
            refs_in(out@, tree),
            handles_of(out@) + tree.preorder_children(h.0 as int, k as int)
                == handles_of(old(out)@) + tree.preorder(h.0 as int),
        decreases n - k,
    {
        let c = kids[k];
        assert(tree.children_of(h.0 as int)[k as int] == c);
        let ghost before = handles_of(out@);
        collect_preorder(tree, c, out);
        proof {
            assert(handles_of(out@) + tree.preorder_children(h.0 as int, k + 1)
                =~= before + tree.preorder_children(h.0 as int, k as int));
        }
        k = k + 1;
    }
    proof {
        assert(handles_of(out@) + tree.preorder_children(h.0 as int, n as int) =~= handles_of(out@));
    }
}

fn collect_search_down<'rst, DATA>(
    tree: &'rst SymbolTree<DATA>,
    h: SymbolHandle,
    path: &Vec<String>,
    i: usize,
    out: &mut Vec<SymbolRef<'rst, DATA>>,
)
    requires
        tree.wf(),
        tree.has(h),
        refs_in(old(out)@, tree),
    ensures
        refs_in(final(out)@, tree),
        handles_of(final(out)@) == handles_of(old(out)@) + tree.search_down_spec(h.0 as int, path_ids(path@), i as int),
    decreases path@.len() - i,
{
    let ghost ids = path_ids(path@);
    if i >= path.len() {
        push_ref(tree, h, out);
        return;
    }
    let kids = &tree.nodes[h.0].children.items;
    let n = kids.len();
    let mut k: usize = 0;
    while k < n
        invariant
            tree.wf(),
            tree.has(h),
            i < path.len(),
            ids == path_ids(path@),
            n == kids@.len(),
            kids@ == tree.children_of(h.0 as int),
            k <= n,
            refs_in(out@, tree),
            handles_of(out@) + tree.search_down_children(h.0 as int, ids, i as int, k as int)
                == handles_of(old(out)@) + tree.search_down_spec(h.0 as int, ids, i as int),
        decreases n - k,
    {
        let c = kids[k];
        assert(tree.children_of(h.0 as int)[k as int] == c);
        let ghost before = handles_of(out@);
        if same_id(&tree.nodes[c.0].id, &path[i]) {
            collect_search_down(tree, c, path, i + 1, out);
            proof {
                assert(handles_of(out@) + tree.search_down_children(h.0 as int, ids, i as int, k + 1)
                    =~= before + tree.search_down_children(h.0 as int, ids, i as int, k as int));
            }
        } else {
            proof {
                assert(tree.search_down_children(h.0 as int, ids, i as int, k as int)
                    =~= tree.search_down_children(h.0 as int, ids, i as int, k + 1));
            }
        }
        k = k + 1;
    }
    proof {
        assert(handles_of(out@) + tree.search_down_children(h.0 as int, ids, i as int, n as int) =~= handles_of(out@));
    }
}

fn descend<'rst, DATA>(tree: &'rst SymbolTree<DATA>, h: SymbolHandle, path: &Vec<String>, i: usize) -> (r: Option<SymbolHandle>)
    requires
        tree.wf(),
        tree.has(h),
    ensures
        r matches Some(x) ==> tree.has(x),
        match r {
            Some(x) => Some(x.0 as int),
            None => None,
        } == tree.descend_spec(h.0 as int, path_ids(path@), i as int),
    decreases path@.len() - i,
{
    let ghost ids = path_ids(path@);
    if i >= path.len() {
        return Some(h);
    }
    let kids = &tree.nodes[h.0].children.items;
    let n = kids.len();
    let mut k: usize = 0;
    while k < n
        invariant
            tree.wf(),
            tree.has(h),
            i < path.len(),
            ids == path_ids(path@),
            n == kids@.len(),
            kids@ == tree.children_of(h.0 as int),
            k <= n,
            tree.descend_children(h.0 as int, ids, i as int, k as int) == tree.descend_spec(h.0 as int, ids, i as int),
        decreases n - k,
    {
        let c = kids[k];
        assert(tree.children_of(h.0 as int)[k as int] == c);
        if same_id(&tree.nodes[c.0].id, &path[i]) {
            match descend(tree, c, path, i + 1) {
                Some(r) => return Some(r),
                None => {},
            }
        }
        k = k + 1;
    }
    None
}

/// The non-empty pieces of `s[seg..]`, where pieces are separated by `::`; the scan for a
/// separator is at position `i`.
pub open spec fn path_pieces(s: Seq<char>, seg: int, i: int) -> Seq<Seq<char>>
    decreases s.len() - i,
{
    if i >= s.len() || i < 0 {
        if seg < s.len() {
            seq![s.subrange(seg, s.len() as int)]
        } else {
            Seq::empty()
        }
    } else if i + 1 < s.len() && s[i] == ':' && s[i + 1] == ':' {
        let rest = path_pieces(s, i + 2, i + 2);
        if seg < i {
            seq![s.subrange(seg, i)] + rest
        } else {
            rest
        }
    } else {
        path_pieces(s, seg, i + 1)
    }
}

impl SymbolPath {
    /// Splits `s` at each `::` and keeps the non-empty pieces: `"foo::bar"` gives
    /// `foo`, `bar`; `"::foo::::bar::"` gives the same pieces, and a path that starts with
    /// `::` is marked as searched from the top of the tree.
    pub fn parse(s: &str) -> (p: SymbolPath)
        ensures
            path_ids(p.0@) == path_pieces(s@, 0, 0),
            p.1 == (s@.len() >= 2 && s@[0] == ':' && s@[1] == ':'),
    {
        let n = s.unicode_len();
        let mut parts: Vec<String> = Vec::new();
        let mut seg: usize = 0;
        let mut i: usize = 0;
        while i < n
            invariant
                n == s@.len(),
                seg <= i <= n,
                path_ids(parts@) + path_pieces(s@, seg as int, i as int) == path_pieces(s@, 0, 0),
            decreases n - i,
        {
            if i + 1 < n && s.get_char(i) == ':' && s.get_char(i + 1) == ':' {
                if seg < i {
                    let piece = s.substring_char(seg, i).to_owned();
                    let ghost before = path_ids(parts@);
                    parts.push(piece);
                    proof {
                        assert(path_ids(parts@) =~= before.push(s@.subrange(seg as int, i as int)));
                        assert(path_ids(parts@) + path_pieces(s@, (i + 2) as int, (i + 2) as int)
                            =~= before + path_pieces(s@, seg as int, i as int));
                    }
                }
                seg = i + 2;
                i = i + 2;
            } else {
                i = i + 1;
            }
        }
        if seg < n {
            let piece = s.substring_char(seg, n).to_owned();
            let ghost before = path_ids(parts@);
            parts.push(piece);
            proof {
                assert(path_ids(parts@) =~= before.push(s@.subrange(seg as int, n as int)));
                assert(path_ids(parts@) =~= before + path_pieces(s@, seg as int, i as int));
            }
        } else {
            proof {
                assert(path_ids(parts@) =~= path_ids(parts@) + path_pieces(s@, seg as int, i as int));
            }
        }
        let absolute = n >= 2 && s.get_char(0) == ':' && s.get_char(1) == ':';
        SymbolPath(parts, absolute)
    }
}

impl SymbolIndex {
    /// The first symbol of this index that exists in `tree` and has id `id`.
    pub fn get_by_id<'rst, DATA>(&self, tree: &'rst SymbolTree<DATA>, id: &String) -> (r: Option<SymbolRef<'rst, DATA>>)
        requires
            tree.wf(),
        ensures
            r matches Some(s) ==> s.tree_spec() == tree,
            opt_handle(r) == first_with_id(tree, self@, id@, 0),
    {
        let n = self.items.len();
        let mut k: usize = 0;
        while k < n
            invariant
                n == self@.len(),
                k <= n,
                tree.wf(),
                first_with_id(tree, self@, id@, k as int) == first_with_id(tree, self@, id@, 0),
            decreases n - k,
        {
            let h = self.items[k];
            if h.0 < tree.nodes.len() {
                if same_id(&tree.nodes[h.0].id, id) {
                    return Some(SymbolRef { tree, handle: h });
                }
            }
            k = k + 1;
        }
        None
    }

    /// References to the symbols of this index that exist in `tree`, in order.
    pub fn refs<'rst, DATA>(&self, tree: &'rst SymbolTree<DATA>) -> (r: Vec<SymbolRef<'rst, DATA>>)
        requires
            tree.wf(),
        ensures
            refs_at(r@, tree, existing_handles(tree, self@)),
    {
        let n = self.items.len();
        let mut out: Vec<SymbolRef<'rst, DATA>> = Vec::new();
        let mut k: usize = 0;
        proof {
            assert(handles_of(out@) =~= Seq::<int>::empty());
        }
        while k < n
            invariant
                n == self@.len(),
                k <= n,
                refs_in(out@, tree),
                handles_of(out@) == existing_handles(tree, self@.subrange(0, k as int)),
            decreases n - k,
        {
            let h = self.items[k];
            proof {
                assert(self@.subrange(0, k + 1).drop_last() =~= self@.subrange(0, k as int));
            }
            if h.0 < tree.nodes.len() {
                push_ref(tree, h, &mut out);
            }
            k = k + 1;
        }
        proof {
            assert(self@.subrange(0, n as int) =~= self@);
            lemma_refs_at(out@, tree, existing_handles(tree, self@));
        }
        out
    }
}

/// The first handle of `hs`, from position `k` on, of an existing symbol with id `id`.
pub open spec fn first_with_id<DATA>(tree: &SymbolTree<DATA>, hs: Seq<SymbolHandle>, id: Seq<char>, k: int) -> Option<int>
    decreases hs.len() - k,
{
    if k < 0 || k >= hs.len() {
        None
    } else if tree.has(hs[k]) && tree.id_of(hs[k].0 as int) == id {
        Some(hs[k].0 as int)
    } else {
        first_with_id(tree, hs, id, k + 1)
    }
}

/// The indices of the handles of `hs` that exist in `tree`, in order.
pub open spec fn existing_handles<DATA>(tree: &SymbolTree<DATA>, hs: Seq<SymbolHandle>) -> Seq<int>
    decreases hs.len(),
{
    if hs.len() == 0 {
        Seq::empty()
    } else {
        let rest = existing_handles(tree, hs.drop_last());
        if tree.has(hs.last()) {
            rest.push(hs.last().0 as int)
        } else {
            rest
        }
    }
}

/// Builds a symbol tree scope by scope.
#[derive(Debug)]
pub struct Builder<DATA> {
    tree: SymbolTree<DATA>,
    stack: Vec<SymbolHandle>,
}

impl<DATA> Builder<DATA> {
    /// The tree built so far.
    pub closed spec fn tree_spec(&self) -> &SymbolTree<DATA> {
        &self.tree
    }

    /// The open scopes, outermost first.
    pub closed spec fn scopes(&self) -> Seq<SymbolHandle> {
        self.stack@
    }

    /// Every open scope exists in the tree.
    pub open spec fn inv(&self) -> bool {
        &&& self.tree_spec().wf()
        &&& forall|i: int| 0 <= i < self.scopes().len() ==> self.tree_spec().has(#[trigger] self.scopes()[i])
    }

    /// A builder whose tree is `root` and whose current scope is its first symbol.
    pub fn new(root: SymbolTree<DATA>) -> (b: Builder<DATA>)
        requires
            root.wf(),
            root.size() > 0,
        ensures
            b.inv(),
            *b.tree_spec() == root,
            b.scopes() == seq![SymbolHandle(0)],
    {
        let mut stack: Vec<SymbolHandle> = Vec::new();
        stack.push(SymbolHandle(0));
        Builder { tree: root, stack }
    }

    /// Adds a sub-tree to the current scope.
    pub fn add(&mut self, tree: SymbolTree<DATA>) -> (r: &mut Self)
        requires
            old(self).inv(),
            tree.wf(),
            tree.size() > 0,
            old(self).tree_spec().size() + tree.size() <= usize::MAX,
        ensures
            r.inv(),
            r.scopes() == old(self).scopes(),
            r.tree_spec().size() == old(self).tree_spec().size() + tree.size(),
            r.tree_spec().parent_of(old(self).tree_spec().size()) == (if old(self).scopes().len() > 0 {
                Some(old(self).scopes().last())
            } else {
                None
            }),
            *final(self) == *final(r),
    {
        self.add_tree(tree);
        self
    }

    fn add_tree(&mut self, tree: SymbolTree<DATA>)
        requires
            old(self).inv(),
            tree.wf(),
            tree.size() > 0,
            old(self).tree_spec().size() + tree.size() <= usize::MAX,
        ensures
            final(self).inv(),
            final(self).scopes() == old(self).scopes(),
            final(self).tree_spec().size() == old(self).tree_spec().size() + tree.size(),
            final(self).tree_spec().parent_of(old(self).tree_spec().size()) == (if old(self).scopes().len() > 0 {
                Some(old(self).scopes().last())
            } else {
                None
            }),
    {
        let parent = if self.stack.len() > 0 {
            Some(self.stack[self.stack.len() - 1])
        } else {
            None
        };
        proof {
            assert(tree.id_of(0) == tree.id_of(0));
        }
        self.tree.insert(parent, tree);
    }

    /// Adds a sub-tree to the current scope and makes its first symbol the current scope.
    pub fn enter(&mut self, tree: SymbolTree<DATA>) -> (r: &mut Self)
        requires
            old(self).inv(),
            tree.wf(),
            tree.size() > 0,
            old(self).tree_spec().size() + tree.size() <= usize::MAX,
        ensures
            r.inv(),
            r.scopes() == old(self).scopes().push(SymbolHandle(old(self).tree_spec().size() as usize)),
            r.tree_spec().size() == old(self).tree_spec().size() + tree.size(),
            r.tree_spec().parent_of(old(self).tree_spec().size()) == (if old(self).scopes().len() > 0 {
                Some(old(self).scopes().last())
            } else {
                None
            }),
            *final(self) == *final(r),
    {
        let base = self.tree.nodes.len();
        self.add_tree(tree);
        self.stack.push(SymbolHandle(base));
        self
    }

    /// Leaves the current scope.
    pub fn exit(&mut self) -> (r: &mut Self)
        requires
            old(self).inv(),
        ensures
            r.inv(),
            r.scopes() == (if old(self).scopes().len() > 0 { old(self).scopes().drop_last() } else { old(self).scopes() }),
            r.tree_spec() == old(self).tree_spec(),
            *final(self) == *final(r),
    {
        self.stack.pop();
        self
    }

    /// The built tree.
    pub fn build(self) -> (t: SymbolTree<DATA>)
        ensures
            t == *self.tree_spec(),
    {
        self.tree
    }
}

/// Iterator over the children of a symbol, from both ends.
#[derive(Debug)]
pub struct Children<'rst, DATA> {
    symbol: SymbolRef<'rst, DATA>,
    head: usize,
    tail: usize,
}

impl<'rst, DATA> Children<'rst, DATA> {
    /// The symbol whose children are iterated.
    pub closed spec fn symbol_spec(&self) -> SymbolRef<'rst, DATA> {
        self.symbol
    }

    /// The child positions not yet returned: `head..tail`.
    pub closed spec fn bounds(&self) -> (int, int) {
        (self.head as int, self.tail as int)
    }

    /// The iterated symbol is valid and the bounds lie within its children.
    pub open spec fn inv(&self) -> bool {
        &&& self.symbol_spec().valid()
        &&& 0 <= self.bounds().0 <= self.bounds().1
        &&& self.bounds().1 <= self.symbol_spec().tree_spec().children_of(self.symbol_spec().handle_spec().0 as int).len()
    }

    /// The handle at child position `k`.
    pub open spec fn child_at(&self, k: int) -> SymbolHandle {
        self.symbol_spec().tree_spec().children_of(self.symbol_spec().handle_spec().0 as int)[k]
    }

    /// Iterator over all children of `symbol`.
    pub fn new(symbol: SymbolRef<'rst, DATA>) -> (c: Children<'rst, DATA>)
        requires
            symbol.valid(),
        ensures
            c.inv(),
            c.symbol_spec() == symbol,
            c.bounds() == (0int, symbol.tree_spec().children_of(symbol.handle_spec().0 as int).len() as int),
    {
        let len = symbol.tree.nodes[symbol.handle.0].children.items.len();
        Children { symbol, head: 0, tail: len }
    }

    /// The next child from the front.
    pub fn next(&mut self) -> (r: Option<SymbolRef<'rst, DATA>>)
        requires
            old(self).inv(),
        ensures
            final(self).inv(),
            final(self).symbol_spec() == old(self).symbol_spec(),
            old(self).bounds().0 < old(self).bounds().1 ==> {
                &&& final(self).bounds() == (old(self).bounds().0 + 1, old(self).bounds().1)
                &&& r matches Some(c) && c.tree_spec() == old(self).symbol_spec().tree_spec()
                    && c.handle_spec() == old(self).child_at(old(self).bounds().0)
            },
            old(self).bounds().0 >= old(self).bounds().1 ==> r is None && final(self).bounds() == old(self).bounds(),
    {
        if self.head < self.tail {
            let hash = self.symbol.tree.nodes[self.symbol.handle.0].children.items[self.head];
            self.head = self.head + 1;
            proof {
                let t = self.symbol.tree;
                assert(t.children_of(self.symbol.handle.0 as int)[old(self).head as int] == hash);
            }
            self.symbol.tree.get(hash)
        } else {
            None
        }
    }

    /// The next child from the back.
    pub fn next_back(&mut self) -> (r: Option<SymbolRef<'rst, DATA>>)
        requires
            old(self).inv(),
        ensures
            final(self).inv(),
            final(self).symbol_spec() == old(self).symbol_spec(),
            old(self).bounds().0 < old(self).bounds().1 ==> {
                &&& final(self).bounds() == (old(self).bounds().0, old(self).bounds().1 - 1)
                &&& r matches Some(c) && c.tree_spec() == old(self).symbol_spec().tree_spec()
                    && c.handle_spec() == old(self).child_at(old(self).bounds().1 - 1)
            },
            old(self).bounds().0 >= old(self).bounds().1 ==> r is None && final(self).bounds() == old(self).bounds(),
    {
        if self.head < self.tail {
            self.tail = self.tail - 1;
            let hash = self.symbol.tree.nodes[self.symbol.handle.0].children.items[self.tail];
            proof {
                let t = self.symbol.tree;
                assert(t.children_of(self.symbol.handle.0 as int)[self.tail as int] == hash);
            }
            self.symbol.tree.get(hash)
        } else {
            None
        }
    }
}

/// The pre-order traversals of the stacked symbols, from the top of the stack down.
pub open spec fn pending<DATA>(tree: &SymbolTree<DATA>, stack: Seq<int>) -> Seq<int>
    decreases stack.len(),
{
    if stack.len() == 0 {
        Seq::empty()
    } else {
        tree.preorder(stack.last()) + pending(tree, stack.drop_last())
    }
}

/// Iterator over a symbol and all symbols below it, in pre-order.
#[derive(Debug)]
pub struct Descendants<'rst, DATA> {
    tree: &'rst SymbolTree<DATA>,
    stack: Vec<SymbolRef<'rst, DATA>>,
}

impl<'rst, DATA> Descendants<'rst, DATA> {
    /// The tree iterated over.
    pub closed spec fn tree_spec(&self) -> &'rst SymbolTree<DATA> {
        self.tree
    }

    /// The symbols still to be returned, in order.
    pub closed spec fn remaining(&self) -> Seq<int> {
        pending(self.tree, handles_of(self.stack@))
    }

    /// The stacked references are valid symbols of a well-formed tree.
    pub closed spec fn inv(&self) -> bool {
        &&& self.tree.wf()
        &&& refs_in(self.stack@, self.tree)
        &&& forall|i: int| 0 <= i < self.stack@.len() ==> self.tree.has(#[trigger] self.stack@[i].handle_spec())
    }

    /// Iterator over `symbol` and everything below it.
    pub fn new(symbol: SymbolRef<'rst, DATA>) -> (d: Descendants<'rst, DATA>)
        requires
            symbol.valid(),
        ensures
            d.inv(),
            d.tree_spec() == symbol.tree_spec(),
            d.remaining() == symbol.tree_spec().preorder(symbol.handle_spec().0 as int),
    {
        let tree = symbol.tree;
        let mut stack: Vec<SymbolRef<'rst, DATA>> = Vec::new();
        stack.push(symbol);
        let d = Descendants { tree, stack };
        proof {
            assert(handles_of(d.stack@) =~= seq![symbol.handle.0 as int]);
            assert(handles_of(d.stack@).drop_last() =~= Seq::<int>::empty());
            assert(pending(tree, Seq::<int>::empty()) == Seq::<int>::empty());
            assert(tree.preorder(symbol.handle.0 as int) + Seq::<int>::empty() =~= tree.preorder(symbol.handle.0 as int));
            assert(pending(tree, handles_of(d.stack@)) =~= tree.preorder(symbol.handle.0 as int));
        }
        d
    }

    /// The next symbol in pre-order.
    pub fn next(&mut self) -> (r: Option<SymbolRef<'rst, DATA>>)
        requires
            old(self).inv(),
        ensures
            final(self).inv(),
            final(self).tree_spec() == old(self).tree_spec(),
            old(self).remaining().len() == 0 ==> r is None,
            old(self).remaining().len() > 0 ==> {
                &&& r matches Some(s) && s.tree_spec() == old(self).tree_spec()
                    && s.handle_spec().0 == old(self).remaining()[0]
                &&& final(self).remaining() == old(self).remaining().drop_first()
            },
    {
        let ghost old_handles = handles_of(self.stack@);
        match self.stack.pop() {
            Some(symbol) => {
                let ghost rest = handles_of(self.stack@);
                let tree = self.tree;
                let ghost h = symbol.handle.0 as int;
                proof {
                    assert(old_handles.drop_last() =~= rest);
                    assert(old(self).stack@[old(self).stack@.len() - 1] == symbol);
                    assert(tree.has(old(self).stack@[old(self).stack@.len() - 1].handle_spec()));
                    assert(tree.has(symbol.handle));
                }
                let kids = symbol.children();
                let n = kids.len();
                let mut j: usize = n;
                proof {
                    assert(handles_of(self.stack@) =~= rest);
                    lemma_preorder_children_end(tree, h);
                }
                while j > 0
                    invariant
                        tree == self.tree,
                        tree.wf(),
                        tree.has(symbol.handle),
                        symbol.tree_spec() == tree,
                        h == symbol.handle_spec().0,
                        n == kids@.len(),
                        j <= n,
                        refs_at(kids@, tree, tree.children_of(h).map_values(|c: SymbolHandle| c.0 as int)),
                        refs_in(self.stack@, tree),
                        forall|i: int| 0 <= i < self.stack@.len() ==> tree.has(#[trigger] self.stack@[i].handle_spec()),
                        pending(tree, handles_of(self.stack@)) == tree.preorder_children(h, j as int) + pending(tree, rest),
                    decreases j,
                {
                    let k = kids[j - 1];
                    let ghost before = handles_of(self.stack@);
                    proof {
                        assert(kids@[j - 1] == k);
                        assert(k.handle_spec() == tree.children_of(h)[j - 1]);
                        assert(h < k.handle_spec().0 < tree.size());
                    }
                    self.stack.push(k);
                    proof {
                        assert(handles_of(self.stack@).drop_last() =~= before);
                        assert(handles_of(self.stack@).last() == k.handle_spec().0);
                        assert(pending(tree, handles_of(self.stack@)) =~= tree.preorder(k.handle_spec().0 as int)
                            + pending(tree, before));
                        assert(tree.preorder_children(h, j - 1) =~= tree.preorder(k.handle_spec().0 as int)
                            + tree.preorder_children(h, j as int));
                    }
                    j = j - 1;
                }
                proof {
                    assert(old_handles.last() == h);
                    assert(pending(tree, old_handles) =~= seq![h] + tree.preorder_children(h, 0) + pending(tree, rest));
                }
                Some(symbol)
            },
            None => {
                proof {
                    assert(old_handles.len() == 0);
                }
                None
            },
        }
    }
}

proof fn lemma_preorder_children_end<DATA>(tree: &SymbolTree<DATA>, h: int)
    ensures
        tree.preorder_children(h, tree.children_of(h).len() as int) == Seq::<int>::empty(),
{
}

} // verus!
