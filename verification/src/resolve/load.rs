//! Loading source files into a library: where the symbols of a lowered source file go in
//! the symbol tree. Reading and lowering the files is the caller's part, one step at a
//! time; the decisions of each step are made here.

use vstd::prelude::*;

use crate::diag::{ResolveError, ResolveErrorKind};
use crate::ir::Source;
use crate::library::{Library, Meta, SourceFile, Symbol, SymbolDef, SymbolNodeId, Visibility};

verus! {

/// The root item of a lowered source file.
#[derive(Debug)]
pub enum IrRoot {
    /// A source file: the item's metadata and documentation, and its statements.
    Source {
        /// Item metadata.
        meta: Meta,
        /// Item documentation.
        doc: String,
        /// The statements of the file.
        source: Source,
    },
    /// Any other item, as the symbol it stands for.
    Item(Symbol),
}

/// A lowered item with the items below it: its symbols in order, each with the position of
/// its parent among them; the first has none, every other a parent before it.
#[derive(Debug)]
pub struct IrTree {
    /// The symbols, the item itself first.
    pub nodes: Vec<(Symbol, Option<usize>)>,
}

/// A child of the root item of a lowered source file.
#[derive(Debug)]
pub enum IrChild {
    /// A file module `mod name;`, whose symbols are in a file of its own.
    FileModule(String),
    /// Any other item, with the items below it.
    Item(IrTree),
}

/// A lowered source file: its root item and the children of that item, in order.
#[derive(Debug)]
pub struct SourceIr {
    /// The root item.
    pub root: IrRoot,
    /// The children of the root item.
    pub children: Vec<IrChild>,
}

/// Each symbol of the tree but the first has a parent before it; the first has none.
pub open spec fn ir_tree_wf(t: IrTree) -> bool {
    &&& t.nodes@.len() > 0
    &&& t.nodes@[0].1 is None
    &&& forall|j: int| 0 < j < t.nodes@.len() ==> ((#[trigger] t.nodes@[j]).1 matches Some(p) && p < j)
}

/// Every item tree among the children is well formed.
pub open spec fn source_ir_wf(ir: SourceIr) -> bool {
    forall|i: int| 0 <= i < ir.children@.len() ==> ((#[trigger] ir.children@[i]) matches IrChild::Item(t) ==> ir_tree_wf(t))
}

/// How many symbol nodes a child takes: one for a file module, one per symbol of an item.
pub open spec fn child_size(c: IrChild) -> int {
    match c {
        IrChild::FileModule(_) => 1,
        IrChild::Item(t) => t.nodes@.len() as int,
    }
}

/// Where the nodes of child `i` start, counted from the first new node.
pub open spec fn block_start(cs: Seq<IrChild>, i: int) -> int
    decreases i,
{
    if i <= 0 {
        0
    } else {
        block_start(cs, i - 1) + child_size(cs[i - 1])
    }
}

/// The node that the children of a lowered source file take, in all.
pub open spec fn ir_size(ir: SourceIr) -> int {
    block_start(ir.children@, ir.children@.len() as int)
}

/// The symbol that the root item of a source file loaded from `path` becomes: a source file
/// becomes a loaded source file symbol, any other item stays as it is.
pub open spec fn root_symbol(root: IrRoot, path: String) -> Symbol {
    match root {
        IrRoot::Source { meta, doc, source } => Symbol {
            meta,
            def: SymbolDef::SourceFile(SourceFile::Loaded { path, source }),
            doc,
        },
        IrRoot::Item(s) => s,
    }
}

/// Is `s` the symbol a file module has until its file is loaded: an empty root.
pub open spec fn is_placeholder(s: Symbol) -> bool {
    &&& s.meta.name is None
    &&& s.meta.vis == Visibility::Public
    &&& s.def == SymbolDef::Root(None)
    &&& s.doc@.len() == 0
}

/// The positions, among the first `m` symbols of a tree, of the children of symbol `j`.
pub open spec fn tree_children(nodes: Seq<(Symbol, Option<usize>)>, j: int, m: int) -> Seq<int>
    decreases m,
{
    if m <= 0 {
        Seq::empty()
    } else if nodes[m - 1].1 == Some(j as usize) {
        tree_children(nodes, j, m - 1).push(m - 1)
    } else {
        tree_children(nodes, j, m - 1)
    }
}

/// The nodes from `s` on: symbol `j` of the tree sits at `s + j`, below `node` for the
/// first symbol and below the node of its parent for the others, with the nodes of its
/// children in order.
pub open spec fn node_adopted(lib: Library, node: int, t: IrTree, s: int, j: int) -> bool {
    &&& lib.arena@[s + j].value == t.nodes@[j].0
    &&& lib.arena@[s + j].parent == if j == 0 {
        Some(node as usize)
    } else {
        Some((s + t.nodes@[j].1->0) as usize)
    }
    &&& lib.arena@[s + j].children@ == tree_children(t.nodes@, j, t.nodes@.len() as int).map_values(|k: int| (s + k) as usize)
}

/// The child `c` of the node `node` sits at `s`: a file module as an empty root without
/// children, an item with the items below it.
pub open spec fn child_placed(lib: Library, node: int, c: IrChild, s: int) -> bool {
    match c {
        IrChild::FileModule(_) => {
            &&& is_placeholder(lib.arena@[s].value)
            &&& lib.arena@[s].parent == Some(node as usize)
            &&& lib.arena@[s].children@.len() == 0
        },
        IrChild::Item(t) => forall|j: int| 0 <= j < t.nodes@.len() ==> #[trigger] node_adopted(lib, node, t, s, j),
    }
}

/// The nodes that the first `i` children take, from `base` on: the first node of each.
pub open spec fn child_starts(cs: Seq<IrChild>, base: int, i: int) -> Seq<usize> {
    Seq::new(i as nat, |k: int| (base + block_start(cs, k)) as usize)
}

/// The file modules among the first `i` children, each with the node that stands for it.
pub open spec fn placeholders(cs: Seq<IrChild>, base: int, i: int) -> Seq<(usize, Seq<char>)>
    decreases i,
{
    if i <= 0 {
        Seq::empty()
    } else {
        match cs[i - 1] {
            IrChild::FileModule(name) => placeholders(cs, base, i - 1).push(((base + block_start(cs, i - 1)) as usize, name@)),
            IrChild::Item(_) => placeholders(cs, base, i - 1),
        }
    }
}

/// The list of file modules a step hands back, as node and name.
pub open spec fn listed(r: Seq<(SymbolNodeId, String)>) -> Seq<(usize, Seq<char>)> {
    Seq::new(r.len(), |k: int| (r[k].0, r[k].1@))
}

/// `after` holds the source file `ir` loaded from `path` at `node`: the node has the root
/// symbol and, as its last children, one node per child of the root item in order, from
/// `base` on, each child placed there.
pub open spec fn source_placed(after: Library, node: int, path: String, ir: SourceIr, base: int) -> bool {
    let cs = ir.children@;
    let n = cs.len() as int;
    let kids = after.arena@[node].children@;
    &&& after.size() == base + ir_size(ir)
    &&& after.arena@[node].value == root_symbol(ir.root, path)
    &&& kids.len() >= n
    &&& kids.subrange(kids.len() - n, kids.len() as int) == child_starts(cs, base, n)
    &&& forall|i: int| 0 <= i < n ==> #[trigger] child_placed(after, node, cs[i], base + block_start(cs, i))
}

/// The nodes of the children before `i` lie before those of child `i`, and each takes one
/// node at least.
proof fn lemma_block_start(cs: Seq<IrChild>, k: int, i: int)
    requires
        0 <= k <= i <= cs.len(),
        forall|x: int| 0 <= x < cs.len() ==> ((#[trigger] cs[x]) matches IrChild::Item(t) ==> ir_tree_wf(t)),
    ensures
        block_start(cs, k) <= block_start(cs, i),
        k < i ==> block_start(cs, k) + child_size(cs[k]) <= block_start(cs, i),
        block_start(cs, i) >= i,
    decreases i,
{
    if i > 0 {
        lemma_block_start(cs, if k == i { i - 1 } else { k }, i - 1);
        assert(child_size(cs[i - 1]) >= 1) by {
            match cs[i - 1] {
                IrChild::Item(t) => assert(ir_tree_wf(t)),
                IrChild::FileModule(_) => {},
            }
        }
        if k < i - 1 {
            lemma_block_start(cs, k, i - 1);
        }
    }
}

/// Adds the symbols of `t` as new nodes: the first as the last child of `node`, each other
/// below the node of its parent.
fn adopt(lib: &mut Library, node: SymbolNodeId, t: IrTree)
    requires
        old(lib).wf(),
        node < old(lib).size(),
        ir_tree_wf(t),
        old(lib).size() + t.nodes@.len() < usize::MAX,
    ensures
        final(lib).wf(),
        final(lib).root == old(lib).root,
        final(lib).manifest == old(lib).manifest,
        final(lib).dependencies == old(lib).dependencies,
        final(lib).size() == old(lib).size() + t.nodes@.len(),
        forall|x: int| 0 <= x < old(lib).size() && x != node ==> #[trigger] final(lib).arena@[x] == old(lib).arena@[x],
        final(lib).arena@[node as int].value == old(lib).arena@[node as int].value,
        final(lib).arena@[node as int].parent == old(lib).arena@[node as int].parent,
        final(lib).arena@[node as int].children@ == old(lib).arena@[node as int].children@.push(old(lib).size() as usize),
        forall|j: int| 0 <= j < t.nodes@.len() ==> #[trigger] node_adopted(*final(lib), node as int, t, old(lib).size(), j),
{
    let base = lib.arena.len();
    let ghost t0 = t;
    let ghost nodes0 = t.nodes@;
    let IrTree { nodes } = t;
    let mut nodes = nodes;
    let n = nodes.len();
    let mut j: usize = 0;
    while j < n
        invariant
            n == nodes0.len(),
            nodes0 == t0.nodes@,
            ir_tree_wf(t0),
            j <= n,
            nodes@ == nodes0.subrange(j as int, n as int),
            base == old(lib).size(),
            base + n < usize::MAX,
            node < base,
            lib.wf(),
            lib.size() == base + j,
            lib.root == old(lib).root,
            lib.manifest == old(lib).manifest,
            lib.dependencies == old(lib).dependencies,
            forall|x: int| 0 <= x < base && x != node ==> #[trigger] lib.arena@[x] == old(lib).arena@[x],
            lib.arena@[node as int].value == old(lib).arena@[node as int].value,
            lib.arena@[node as int].parent == old(lib).arena@[node as int].parent,
            lib.arena@[node as int].children@ == if j == 0 {
                old(lib).arena@[node as int].children@
            } else {
                old(lib).arena@[node as int].children@.push(base as usize)
            },
            forall|k: int| 0 <= k < j ==> {
                &&& #[trigger] lib.arena@[base + k].value == nodes0[k].0
                &&& lib.arena@[base + k].parent == if k == 0 {
                    Some(node)
                } else {
                    Some((base + nodes0[k].1->0) as usize)
                }
                &&& lib.arena@[base + k].children@ == tree_children(nodes0, k, j as int).map_values(|x: int| (base + x) as usize)
            },
        decreases n - j,
    {
        let ghost before = lib.arena@;
        let (sym, par) = nodes.remove(0);
        assert(nodes0[j as int] == (sym, par));
        let parent = match par {
            None => node,
            Some(p) => base + p,
        };
        proof {
            if j > 0 {
                assert(nodes0[j as int].1 matches Some(p) && p < j);
            }
        }
        let id = lib.append_symbol_to(parent, sym);
        proof {
            assert(nodes@ =~= nodes0.subrange(j + 1, n as int));
            assert forall|k: int| 0 <= k < j + 1 implies {
                &&& #[trigger] lib.arena@[base + k].value == nodes0[k].0
                &&& lib.arena@[base + k].parent == if k == 0 {
                    Some(node)
                } else {
                    Some((base + nodes0[k].1->0) as usize)
                }
                &&& lib.arena@[base + k].children@ == tree_children(nodes0, k, j + 1).map_values(|x: int| (base + x) as usize)
            } by {
                if k < j {
                    if base + k == parent {
                        assert(tree_children(nodes0, k, j + 1) == tree_children(nodes0, k, j as int).push(j as int));
                        assert(tree_children(nodes0, k, j + 1).map_values(|x: int| (base + x) as usize)
                            =~= tree_children(nodes0, k, j as int).map_values(|x: int| (base + x) as usize).push(id));
                    } else {
                        assert(lib.arena@[base + k] == before[base + k]);
                        assert(tree_children(nodes0, k, j + 1) == tree_children(nodes0, k, j as int));
                    }
                } else {
                    assert(tree_children(nodes0, k, j as int) =~= Seq::<int>::empty()) by {
                        lemma_no_later_children(nodes0, k, j as int);
                    }
                    assert(tree_children(nodes0, k, j + 1) =~= Seq::<int>::empty()) by {
                        lemma_no_later_children(nodes0, k, j + 1);
                    }
                }
            }
        }
        j = j + 1;
    }
}

/// No symbol before position `j` has `j` as its parent, when parents come first.
proof fn lemma_no_later_children(nodes: Seq<(Symbol, Option<usize>)>, j: int, m: int)
    requires
        0 <= j < nodes.len(),
        nodes.len() <= usize::MAX,
        m <= j + 1,
        m <= nodes.len(),
        nodes.len() > 0,
        nodes[0].1 is None,
        forall|x: int| 0 < x < nodes.len() ==> ((#[trigger] nodes[x]).1 matches Some(p) && p < x),
    ensures
        tree_children(nodes, j, m) == Seq::<int>::empty(),
    decreases m,
{
    if m > 0 {
        lemma_no_later_children(nodes, j, m - 1);
        if m - 1 > 0 {
            assert(nodes[m - 1].1 matches Some(p) && p < m - 1);
        }
    }
}


/// Puts the source file `ir`, loaded from `path`, at `node`: the node gets the root symbol,
/// and each child of the root item in order becomes the node's next child, a file module as
/// an empty root to be loaded later, an item with the items below it. Hands back the nodes
/// of the file modules with their names.
pub fn fill_node(lib: &mut Library, node: SymbolNodeId, path: String, ir: SourceIr) -> (r: Vec<(SymbolNodeId, String)>)
    requires
        old(lib).wf(),
        node < old(lib).size(),
        source_ir_wf(ir),
        old(lib).size() + ir_size(ir) < usize::MAX,
    ensures
        final(lib).wf(),
        final(lib).root == old(lib).root,
        final(lib).manifest == old(lib).manifest,
        final(lib).dependencies == old(lib).dependencies,
        forall|x: int| 0 <= x < old(lib).size() && x != node ==> #[trigger] final(lib).arena@[x] == old(lib).arena@[x],
        final(lib).arena@[node as int].parent == old(lib).arena@[node as int].parent,
        final(lib).arena@[node as int].children@ == old(lib).arena@[node as int].children@
            + child_starts(ir.children@, old(lib).size(), ir.children@.len() as int),
        source_placed(*final(lib), node as int, path, ir, old(lib).size()),
        listed(r@) == placeholders(ir.children@, old(lib).size(), ir.children@.len() as int),
{
    let ghost ir0 = ir;
    let ghost cs = ir.children@;
    let ghost base = lib.size();
    let ghost kids0 = lib.arena@[node as int].children@;
    let SourceIr { root, children } = ir;
    let symbol = match root {
        IrRoot::Source { meta, doc, source } => Symbol {
            meta,
            def: SymbolDef::SourceFile(SourceFile::Loaded { path, source }),
            doc,
        },
        IrRoot::Item(s) => s,
    };
    lib.replace_symbol(node, symbol);
    let mut children = children;
    let n = children.len();
    let mut out: Vec<(SymbolNodeId, String)> = Vec::new();
    let mut i: usize = 0;
    proof {
        lemma_block_start(cs, 0, n as int);
    }
    while i < n
        invariant
            n == cs.len(),
            cs == ir0.children@,
            source_ir_wf(ir0),
            i <= n,
            children@ == cs.subrange(i as int, n as int),
            base == old(lib).size(),
            base + block_start(cs, n as int) < usize::MAX,
            node < base,
            lib.wf(),
            lib.size() == base + block_start(cs, i as int),
            lib.root == old(lib).root,
            lib.manifest == old(lib).manifest,
            lib.dependencies == old(lib).dependencies,
            forall|x: int| 0 <= x < base && x != node ==> #[trigger] lib.arena@[x] == old(lib).arena@[x],
            lib.arena@[node as int].value == root_symbol(ir0.root, path),
            lib.arena@[node as int].parent == old(lib).arena@[node as int].parent,
            lib.arena@[node as int].children@ == kids0 + child_starts(cs, base, i as int),
            kids0 == old(lib).arena@[node as int].children@,
            forall|k: int| 0 <= k < i ==> #[trigger] child_placed(*lib, node as int, cs[k], base + block_start(cs, k)),
            listed(out@) == placeholders(cs, base, i as int),
        decreases n - i,
    {
        let ghost before = *lib;
        let c = children.remove(0);
        assert(cs[i as int] == c);
        proof {
            lemma_block_start(cs, 0, i as int);
            lemma_block_start(cs, i as int, n as int);
            lemma_block_start(cs, i + 1, n as int);
        }
        match c {
            IrChild::FileModule(name) => {
                let id = lib.append_symbol_to(node, Symbol::root(None));
                let ghost prev = out@;
                out.push((id, name));
                proof {
                    assert(listed(out@) =~= listed(prev).push((id, name@)));
                }
            },
            IrChild::Item(t) => {
                adopt(lib, node, t);
            },
        }
        proof {
            assert(children@ =~= cs.subrange(i + 1, n as int));
            assert(child_starts(cs, base, i + 1) =~= child_starts(cs, base, i as int).push((base + block_start(cs, i as int)) as usize));
            assert forall|k: int| 0 <= k < i + 1 implies #[trigger] child_placed(*lib, node as int, cs[k], base + block_start(cs, k)) by {
                if k < i {
                    lemma_block_start(cs, 0, k);
                    lemma_block_start(cs, k, i as int);
                    lemma_placed_kept(before, *lib, node as int, cs[k], base + block_start(cs, k), base + block_start(cs, i as int));
                }
            }
        }
        i = i + 1;
    }
    proof {
        let kids = lib.arena@[node as int].children@;
        assert(kids.subrange(kids.len() - n, kids.len() as int) =~= child_starts(cs, base, n as int));
    }
    out
}

/// A placed child stays placed while only the node `node` and new nodes from `s` on change.
proof fn lemma_placed_kept(before: Library, after: Library, node: int, c: IrChild, start: int, s: int)
    requires
        child_placed(before, node, c, start),
        start + child_size(c) <= s,
        0 <= start,
        before.size() == s,
        after.size() >= s,
        node < start,
        forall|x: int| 0 <= x < s && x != node ==> #[trigger] after.arena@[x] == before.arena@[x],
    ensures
        child_placed(after, node, c, start),
{
    match c {
        IrChild::FileModule(_) => {
            assert(after.arena@[start] == before.arena@[start]);
        },
        IrChild::Item(t) => {
            assert forall|j: int| 0 <= j < t.nodes@.len() implies #[trigger] node_adopted(after, node, t, start, j) by {
                assert(node_adopted(before, node, t, start, j));
                assert(after.arena@[start + j] == before.arena@[start + j]);
            }
        },
    }
}


/// The error for a source file that did not lower: a compile error naming its path.
pub open spec fn lowering_failed(path: String) -> ResolveError {
    ResolveError(Box::new(ResolveErrorKind::CompileError { path }))
}

/// Adds the source file loaded from `path`, lowered to `ir`: without a parent it takes the
/// root of the library, with one it becomes that symbol's last child; its children follow as
/// [`fill_node`] places them. Hands back the node and the file modules to load next. A file
/// that did not lower (`None`) gives a compile error for `path` and leaves the library as it
/// was.
pub fn attach_source(lib: &mut Library, parent: Option<SymbolNodeId>, path: String, ir: Option<SourceIr>) -> (r: Result<
    (SymbolNodeId, Vec<(SymbolNodeId, String)>),
    ResolveError,
>)
    requires
        old(lib).wf(),
        parent matches Some(p) ==> p < old(lib).size(),
        ir matches Some(x) ==> source_ir_wf(x) && old(lib).size() + 1 + ir_size(x) < usize::MAX,
    ensures
        ir is None ==> r == Err::<(SymbolNodeId, Vec<(SymbolNodeId, String)>), ResolveError>(lowering_failed(path))
            && *final(lib) == *old(lib),
        ir matches Some(x) ==> (r matches Ok((id, list)) && {
            &&& final(lib).wf()
            &&& final(lib).root == old(lib).root
            &&& final(lib).manifest == old(lib).manifest
            &&& final(lib).dependencies == old(lib).dependencies
            &&& match parent {
                None => {
                    let base = old(lib).size();
                    &&& id == old(lib).root
                    &&& forall|y: int| 0 <= y < base && y != id ==> #[trigger] final(lib).arena@[y] == old(lib).arena@[y]
                    &&& final(lib).arena@[id as int].parent == old(lib).arena@[id as int].parent
                    &&& final(lib).arena@[id as int].children@ == old(lib).arena@[id as int].children@
                        + child_starts(x.children@, base, x.children@.len() as int)
                    &&& source_placed(*final(lib), id as int, path, x, base)
                    &&& listed(list@) == placeholders(x.children@, base, x.children@.len() as int)
                },
                Some(p) => {
                    let base = old(lib).size() + 1;
                    &&& id == old(lib).size()
                    &&& forall|y: int| 0 <= y < old(lib).size() && y != p ==> #[trigger] final(lib).arena@[y] == old(lib).arena@[y]
                    &&& final(lib).arena@[p as int].value == old(lib).arena@[p as int].value
                    &&& final(lib).arena@[p as int].parent == old(lib).arena@[p as int].parent
                    &&& final(lib).arena@[p as int].children@ == old(lib).arena@[p as int].children@.push(id)
                    &&& final(lib).arena@[id as int].parent == Some(p)
                    &&& final(lib).arena@[id as int].children@ == child_starts(x.children@, base, x.children@.len() as int)
                    &&& source_placed(*final(lib), id as int, path, x, base)
                    &&& listed(list@) == placeholders(x.children@, base, x.children@.len() as int)
                },
            }
        }),
{
    match ir {
        None => Err(ResolveError::new(ResolveErrorKind::CompileError { path })),
        Some(x) => {
            proof {
                lemma_block_start(x.children@, 0, x.children@.len() as int);
            }
            let id = match parent {
                None => lib.root,
                Some(p) => lib.append_symbol_to(p, Symbol::root(None)),
            };
            let list = fill_node(lib, id, path, x);
            proof {
                if parent is Some {
                    assert(seq![] + child_starts(x.children@, old(lib).size() + 1, x.children@.len() as int)
                        =~= child_starts(x.children@, old(lib).size() + 1, x.children@.len() as int));
                }
            }
            Ok((id, list))
        },
    }
}

/// What loading the file module at `placeholder` from `path` gave: the source file lowered
/// to `ir` is put at the placeholder as [`fill_node`] places it, and the file modules below
/// it come back; a file that could not be read keeps the placeholder and gives its error,
/// one that did not lower a compile error for `path`.
pub fn attach_module(lib: &mut Library, placeholder: SymbolNodeId, path: String, ir: Result<Option<SourceIr>, ResolveError>) -> (r: (
    Vec<(SymbolNodeId, String)>,
    Option<ResolveError>,
))
    requires
        old(lib).wf(),
        placeholder < old(lib).size(),
        ir matches Ok(Some(x)) ==> source_ir_wf(x) && old(lib).size() + ir_size(x) < usize::MAX,
    ensures
        ir matches Err(e) ==> r.0@.len() == 0 && r.1 == Some(e) && *final(lib) == *old(lib),
        ir matches Ok(None) ==> r.0@.len() == 0 && r.1 == Some(lowering_failed(path)) && *final(lib) == *old(lib),
        ir matches Ok(Some(x)) ==> {
            let base = old(lib).size();
            &&& r.1 is None
            &&& final(lib).wf()
            &&& final(lib).root == old(lib).root
            &&& forall|y: int| 0 <= y < base && y != placeholder ==> #[trigger] final(lib).arena@[y] == old(lib).arena@[y]
            &&& final(lib).arena@[placeholder as int].parent == old(lib).arena@[placeholder as int].parent
            &&& final(lib).arena@[placeholder as int].children@ == old(lib).arena@[placeholder as int].children@
                + child_starts(x.children@, base, x.children@.len() as int)
            &&& source_placed(*final(lib), placeholder as int, path, x, base)
            &&& listed(r.0@) == placeholders(x.children@, base, x.children@.len() as int)
        },
{
    match ir {
        Err(e) => (Vec::new(), Some(e)),
        Ok(None) => (Vec::new(), Some(ResolveError::new(ResolveErrorKind::CompileError { path }))),
        Ok(Some(x)) => {
            let list = fill_node(lib, placeholder, path, x);
            (list, None)
        },
    }
}

} // verus!

verus! {

/// A file module still to load: its placeholder, its name, the file that declares it, and
/// whether that file is the one the loading started from.
#[derive(Debug)]
pub struct PendingModule {
    /// The placeholder symbol of the module.
    pub placeholder: SymbolNodeId,
    /// The module's name.
    pub name: String,
    /// The path of the file that declares it.
    pub declared_in: String,
    /// Is the declaring file the first file loaded.
    pub top: bool,
}

/// What a file module that cannot be located leads to.
#[derive(Debug)]
pub enum LocateOutcome {
    /// The whole load fails with the error: the module was declared in the first file.
    Fail(ResolveError),
    /// The error is reported and loading goes on with the other files.
    Report(ResolveError),
}

/// How many of the pending modules, from the first on, are declared in the file `file`.
pub open spec fn leading_in(s: Seq<PendingModule>, file: Seq<char>) -> nat
    decreases s.len(),
{
    if s.len() > 0 && s[0].declared_in@ == file {
        1 + leading_in(s.drop_first(), file)
    } else {
        0
    }
}

/// The modules `found` in the file `declared_in`, as pending modules in their order.
pub open spec fn found_modules(found: Seq<(SymbolNodeId, String)>, declared_in: String, top: bool) -> Seq<(usize, Seq<char>, Seq<char>, bool)> {
    found.map_values(|f: (SymbolNodeId, String)| (f.0, f.1@, declared_in@, top))
}

/// A pending module as plain values.
pub open spec fn pending_view(m: PendingModule) -> (usize, Seq<char>, Seq<char>, bool) {
    (m.placeholder, m.name@, m.declared_in@, m.top)
}

/// The pending modules as plain values.
pub open spec fn pending_views(s: Seq<PendingModule>) -> Seq<(usize, Seq<char>, Seq<char>, bool)> {
    s.map_values(|m: PendingModule| pending_view(m))
}

/// Puts the file modules `found` in the file `declared_in` first among the pending ones, in
/// their order: the modules of a file are loaded before those of the files around it.
pub fn push_found(pending: &mut Vec<PendingModule>, found: Vec<(SymbolNodeId, String)>, declared_in: &String, top: bool)
    ensures
        pending_views(final(pending)@) == found_modules(found@, *declared_in, top) + pending_views(old(pending)@),
{
    let mut front: Vec<PendingModule> = Vec::new();
    let n = found.len();
    let mut k: usize = 0;
    while k < n
        invariant
            n == found@.len(),
            k <= n,
            pending_views(front@) == found_modules(found@, *declared_in, top).take(k as int),
        decreases n - k,
    {
        let (placeholder, name) = (found[k].0, found[k].1.clone());
        let ghost before = front@;
        front.push(PendingModule { placeholder, name, declared_in: declared_in.clone(), top });
        proof {
            assert(pending_views(front@) =~= pending_views(before).push(pending_view(front@.last())));
            assert(found_modules(found@, *declared_in, top).take(k + 1) =~= found_modules(found@, *declared_in, top).take(k as int).push(
                found_modules(found@, *declared_in, top)[k as int]));
        }
        k = k + 1;
    }
    let ghost old_views = pending_views(pending@);
    let ghost fr = front@;
    front.append(pending);
    proof {
        assert(front@ =~= fr + old(pending)@);
        assert(pending_views(front@) =~= pending_views(fr) + pending_views(old(pending)@));
        assert(found_modules(found@, *declared_in, top).take(n as int) =~= found_modules(found@, *declared_in, top));
    }
    *pending = front;
}

/// A file module that cannot be located stops the file that declares it: the modules that
/// file declares after it are dropped. If that file is the first one, the whole load fails;
/// otherwise the error is reported and the other files go on.
pub fn locate_failed(pending: &mut Vec<PendingModule>, failed: &PendingModule, err: ResolveError) -> (r: LocateOutcome)
    ensures
        final(pending)@ == old(pending)@.skip(leading_in(old(pending)@, failed.declared_in@) as int),
        r == (if failed.top { LocateOutcome::Fail(err) } else { LocateOutcome::Report(err) }),
{
    let ghost s0 = pending@;
    assert(s0.skip(0) =~= s0);
    let mut k: usize = 0;
    while k < pending.len() && string_eq(&pending[k].declared_in, &failed.declared_in)
        invariant
            pending@ == s0,
            k <= s0.len(),
            leading_in(s0, failed.declared_in@) == k + leading_in(s0.skip(k as int), failed.declared_in@),
        decreases s0.len() - k,
    {
        proof {
            assert(s0.skip(k as int).drop_first() =~= s0.skip(k + 1));
        }
        k = k + 1;
    }
    proof {
        assert(leading_in(s0.skip(k as int), failed.declared_in@) == 0);
    }
    let rest = pending.split_off(k);
    *pending = rest;
    if failed.top {
        LocateOutcome::Fail(err)
    } else {
        LocateOutcome::Report(err)
    }
}

/// Do two texts agree.
fn string_eq(a: &String, b: &String) -> (r: bool)
    ensures
        r == (a@ == b@),
{
    *a == *b
}

} // verus!
