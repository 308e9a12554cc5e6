use microcad_lang::rst::{Builder, Children, Descendants, SymbolHandle, SymbolIndex, SymbolPath, SymbolTree};

#[test]
fn symbol_index_insert_and_get() {
    let mut index = SymbolIndex::new();
    assert_eq!(index.len(), 0);
    assert_eq!(index.get_by_index(0), None);
    index.insert(SymbolHandle(7));
    index.insert(SymbolHandle(3));
    assert_eq!(index.len(), 2);
    assert_eq!(index.get_by_index(0), Some(&SymbolHandle(7)));
    assert_eq!(index.get_by_index(1), Some(&SymbolHandle(3)));
    assert_eq!(index.get_by_index(2), None);
}

#[test]
fn symbol_path_parse() {
    let p = SymbolPath::parse("foo::bar");
    assert_eq!(p.0, vec!["foo".to_string(), "bar".to_string()]);
    let p = SymbolPath::parse("::foo::::bar::");
    assert_eq!(p.0, vec!["foo".to_string(), "bar".to_string()]);
    assert!(SymbolPath::parse("").0.is_empty());
    assert!(SymbolPath::parse("::").0.is_empty());
    assert_eq!(SymbolPath::parse("a:b").0, vec!["a:b".to_string()]);
}

/// a
/// ├── b
/// │   └── d
/// └── c
fn sample() -> SymbolTree<u32> {
    let mut builder = Builder::new(SymbolTree::leaf("a".into(), 1));
    builder.enter(SymbolTree::leaf("b".into(), 2));
    builder.add(SymbolTree::leaf("d".into(), 4));
    builder.exit();
    builder.add(SymbolTree::leaf("c".into(), 3));
    builder.build()
}

#[test]
fn builder_and_tree() {
    let tree = sample();
    assert_eq!(tree.len(), 4);
    let root = tree.root().expect("root");
    assert_eq!(root.id(), "a");
    let ids: Vec<String> = root.children().iter().map(|c| c.id().clone()).collect();
    assert_eq!(ids, vec!["b".to_string(), "c".to_string()]);
    let all: Vec<u32> = root.descendants().iter().map(|c| *c.data()).collect();
    assert_eq!(all, vec![1, 2, 4, 3]);
    let d = tree.get(SymbolHandle(2)).expect("d");
    assert_eq!(d.id(), "d");
    assert_eq!(tree.parent(SymbolHandle(2)), Some(SymbolHandle(1)));
    assert_eq!(tree.parent(SymbolHandle(0)), None);
    assert!(tree.get(SymbolHandle(9)).is_none());
}

#[test]
fn search_and_resolve() {
    let tree = sample();
    let root = tree.root().unwrap();
    let found = root.search_down(&SymbolPath::parse("b::d"));
    assert_eq!(found.len(), 1);
    assert_eq!(found[0].id(), "d");
    let b = tree.get(SymbolHandle(1)).unwrap();
    // The first name is matched against the symbol itself and then its ancestors.
    let c = b.resolve(&SymbolPath::parse("a::c")).expect("found from the root");
    assert_eq!(c.id(), "c");
    let d = b.resolve(&SymbolPath::parse("b::d")).expect("found from b itself");
    assert_eq!(d.id(), "d");
    assert!(b.resolve(&SymbolPath::parse("c")).is_none());
    assert!(b.resolve(&SymbolPath::parse("")).is_none());
}

#[test]
fn iterators() {
    let tree = sample();
    let root = tree.root().unwrap();
    let mut children = Children::new(root);
    assert_eq!(children.next().unwrap().id(), "b");
    assert_eq!(children.next_back().unwrap().id(), "c");
    assert!(children.next().is_none());
    let mut all = Descendants::new(root);
    let mut ids = Vec::new();
    while let Some(s) = all.next() {
        ids.push(s.id().clone());
    }
    assert_eq!(ids, vec!["a", "b", "d", "c"]);
}

#[test]
fn insert_subtree() {
    let mut tree = sample();
    let mut sub = SymbolTree::leaf("e".into(), 5u32);
    sub.insert(Some(SymbolHandle(0)), SymbolTree::leaf("f".into(), 6));
    tree.insert(Some(SymbolHandle(3)), sub);
    assert_eq!(tree.len(), 6);
    assert_eq!(tree.id(SymbolHandle(4)), "e");
    assert_eq!(tree.parent(SymbolHandle(4)), Some(SymbolHandle(3)));
    assert_eq!(tree.parent(SymbolHandle(5)), Some(SymbolHandle(4)));
    assert_eq!(*tree.data(SymbolHandle(5)), 6);
}

#[test]
fn index_lookups_into_a_tree() {
    let tree = sample();
    assert_eq!(tree.last_handle(), Some(SymbolHandle(3)));
    assert_eq!(SymbolTree::<u32>::new().last_handle(), None);
    let children = tree.child_handles(SymbolHandle(0));
    assert_eq!(children.len(), 2);
    // handles past the tree are skipped; the first symbol with the id is found
    let index = SymbolIndex::from_handles(vec![SymbolHandle(9), SymbolHandle(3), SymbolHandle(1)]);
    let refs = index.refs(&tree);
    let ids: Vec<String> = refs.iter().map(|r| r.id().clone()).collect();
    assert_eq!(ids, vec!["c".to_string(), "b".to_string()]);
    assert_eq!(index.get_by_id(&tree, &"b".to_string()).map(|r| r.handle()), Some(SymbolHandle(1)));
    assert!(index.get_by_id(&tree, &"d".to_string()).is_none());
}

#[test]
fn absolute_path_resolves_from_the_top() {
    let tree = sample();
    let p = SymbolPath::parse("::a::b::d");
    assert!(p.1);
    assert!(!SymbolPath::parse("a::b").1);
    let d = tree.get(SymbolHandle(2)).unwrap();
    // `b::d` is found relative to `d` (through its parent `b`), but not from the top.
    assert!(d.resolve(&SymbolPath::parse("b::d")).is_some());
    assert!(d.resolve(&SymbolPath::parse("::b::d")).is_none());
    for h in 0..4 {
        let s = tree.get(SymbolHandle(h)).unwrap();
        let found = s.resolve(&p).expect("found from the top");
        assert_eq!(found.id(), "d");
    }
}
