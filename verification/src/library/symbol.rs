//! Symbols stored in a library tree.

use vstd::prelude::*;

use crate::ir::{Constant, Function, Source, Workbench};

verus! {

/// Visibility of a symbol.
#[derive(Debug, Clone, Copy, PartialEq, Eq, Structural)]
pub enum Visibility {
    /// Visible from anywhere.
    Public,
    /// Visible only inside the module that defines it.
    Private,
}

/// The characters of each name.
pub open spec fn names_of(parts: Seq<String>) -> Seq<Seq<char>> {
    Seq::new(parts.len(), |i: int| parts[i]@)
}

/// A symbol path that still has to be resolved: `foo::bar` or `::foo::bar`.
#[derive(Debug, Clone, PartialEq, Eq)]
pub struct UnresolvedPath {
    /// `true` if the path starts at the library root.
    pub is_absolute: bool,
    /// The names the path consists of.
    pub parts: Vec<String>,
}

impl UnresolvedPath {
    /// The names of the path as character sequences.
    pub open spec fn names(&self) -> Seq<Seq<char>> {
        names_of(self.parts@)
    }

    /// Creates a relative path from its parts.
    pub fn relative(parts: Vec<String>) -> (p: UnresolvedPath)
        ensures
            !p.is_absolute,
            p.parts@ == parts@,
    {
        UnresolvedPath { is_absolute: false, parts }
    }

    /// Creates an absolute path from its parts.
    pub fn absolute(parts: Vec<String>) -> (p: UnresolvedPath)
        ensures
            p.is_absolute,
            p.parts@ == parts@,
    {
        UnresolvedPath { is_absolute: true, parts }
    }
}

/// The identity of a resolved symbol.
#[derive(Debug, Clone, PartialEq, Eq)]
pub enum SymbolId {
    /// A local value of a function or workbench.
    Local(String),
    /// A symbol of the library being resolved.
    Item(usize),
    /// A symbol of an external library.
    External {
        /// The external library.
        lib_id: crate::manifest::LibraryId,
        /// The symbol inside that library.
        id: usize,
    },
}

/// A path inside a symbol definition.
#[derive(Debug, Clone, PartialEq, Eq)]
pub enum Path {
    /// Not resolved yet.
    Unresolved(UnresolvedPath),
    /// Resolved to a symbol.
    Resolved(SymbolId),
}

/// Loading state of a source file symbol.
#[derive(Debug, PartialEq, Eq)]
pub enum SourceFile {
    /// The file has not been loaded.
    NotLoaded,
    /// The file has been loaded from a path relative to the project root.
    Loaded {
        /// Relative path of the loaded file.
        path: String,
        /// The statements of the file.
        source: Source,
    },
}

/// The absolute path of a symbol: the names from the library root down to it.
#[derive(Debug, Clone, PartialEq, Eq)]
pub struct SymbolAbsPath {
    /// The names, root first.
    pub parts: Vec<String>,
}

impl SymbolAbsPath {
    /// An iterator over the names, root first.
    pub fn iter(&self) -> (it: std::slice::Iter<'_, String>)
        ensures
            vstd::std_specs::slice::into_iter_elts(it) == self.parts@,
    {
        self.parts.iter()
    }
}

/// A symbol definition.
#[derive(Debug, PartialEq, Eq)]
pub enum SymbolDef {
    /// The library root, optionally with its `lib.mu` source file.
    Root(Option<SourceFile>),
    /// Inline module: `mod foo {}`
    InlineModule,
    /// A source file module.
    SourceFile(SourceFile),
    /// A workbench.
    Workbench(Workbench),
    /// A function.
    Function(Function),
    /// A constant.
    Constant(Constant),
    /// Alias of a `pub use` statement.
    Alias(Path),
    /// Use all available symbols in the module with the given path.
    Wildcard(Path),
}

/// Symbol metadata.
#[derive(Debug, Clone, PartialEq, Eq)]
pub struct Meta {
    /// The symbol name (wildcards and roots may have none).
    pub name: Option<String>,
    /// The symbol visibility.
    pub vis: Visibility,
}

/// A symbol: metadata, definition and documentation.
#[derive(Debug, PartialEq, Eq)]
pub struct Symbol {
    /// Item metadata.
    pub meta: Meta,
    /// Item definition.
    pub def: SymbolDef,
    /// Item documentation.
    pub doc: String,
}

impl Symbol {
    /// The root symbol of a library.
    pub fn root(lib_mu: Option<SourceFile>) -> (s: Symbol)
        ensures
            s.meta.name is None,
            s.meta.vis == Visibility::Public,
            s.def == SymbolDef::Root(lib_mu),
            s.doc@ == Seq::<char>::empty(),
    {
        Symbol {
            meta: Meta { name: None, vis: Visibility::Public },
            def: SymbolDef::Root(lib_mu),
            doc: String::new(),
        }
    }

    /// A named symbol with the given visibility and definition.
    pub fn named(name: String, vis: Visibility, def: SymbolDef) -> (s: Symbol)
        ensures
            s.meta.name == Some(name),
            s.meta.vis == vis,
            s.def == def,
            s.doc@ == Seq::<char>::empty(),
    {
        Symbol { meta: Meta { name: Some(name), vis }, def, doc: String::new() }
    }

    /// A wildcard import `use path::*;`.
    pub fn wildcard(path: UnresolvedPath, vis: Visibility) -> (s: Symbol)
        ensures
            s.meta.name is None,
            s.meta.vis == vis,
            s.def == SymbolDef::Wildcard(Path::Unresolved(path)),
    {
        Symbol {
            meta: Meta { name: None, vis },
            def: SymbolDef::Wildcard(Path::Unresolved(path)),
            doc: String::new(),
        }
    }

    /// Returns true if this symbol is public.
    pub fn is_public(&self) -> (b: bool)
        ensures
            b == (self.meta.vis == Visibility::Public),
    {
        self.meta.vis == Visibility::Public
    }
}

impl SourceFile {
    /// `NotLoaded`, or `Loaded(path)`.
    pub fn to_string_one_line(&self) -> (s: String)
        ensures
            s@ == match self {
                SourceFile::NotLoaded => "NotLoaded"@,
                SourceFile::Loaded { path, .. } => "Loaded("@ + path@ + ")"@,
            },
    {
        match self {
            SourceFile::NotLoaded => String::from_str("NotLoaded"),
            SourceFile::Loaded { path, .. } => {
                let mut s = String::from_str("Loaded(");
                s.append(path.as_str());
                s.append(")");
                s
            },
        }
    }
}

impl SymbolDef {
    /// The name of the kind of definition.
    pub fn kind_name(&self) -> (s: &'static str)
        ensures
            s@ == match self {
                SymbolDef::Root(_) => "Root"@,
                SymbolDef::InlineModule => "InlineModule"@,
                SymbolDef::SourceFile(_) => "SourceFile"@,
                SymbolDef::Workbench(_) => "Workbench"@,
                SymbolDef::Function(_) => "Function"@,
                SymbolDef::Constant(_) => "Constant"@,
                SymbolDef::Alias(_) => "Alias"@,
                SymbolDef::Wildcard(_) => "Wildcard"@,
            },
    {
        match self {
            SymbolDef::Root(_) => "Root",
            SymbolDef::InlineModule => "InlineModule",
            SymbolDef::SourceFile(_) => "SourceFile",
            SymbolDef::Workbench(_) => "Workbench",
            SymbolDef::Function(_) => "Function",
            SymbolDef::Constant(_) => "Constant",
            SymbolDef::Alias(_) => "Alias",
            SymbolDef::Wildcard(_) => "Wildcard",
        }
    }
}

} // verus!
