//! Locating µcad source files: which file a path or a file module stands for.
//!
//! What exists on disk is read by the caller and handed over as [`PathFacts`]; the
//! decisions are made here.

use vstd::prelude::*;

verus! {

/// The path that `std::path::Path::with_extension` gives for a path and an extension.
pub uninterp spec fn with_extension(path: Seq<char>, ext: Seq<char>) -> Seq<char>;

/// The path that `std::path::Path::join` gives for a base and a name.
pub uninterp spec fn joined(base: Seq<char>, name: Seq<char>) -> Seq<char>;

/// The extension that `std::path::Path::extension` finds in a path.
pub uninterp spec fn extension_of(path: Seq<char>) -> Option<Seq<char>>;

/// Calls `std::path::Path::with_extension`; its result is named [`with_extension`]
/// (the path rules of the platform the crate is built for decide it). The extension holds
/// no path separator: on such an extension `PathBuf::set_extension` panics.
#[verifier::external_body]
fn path_with_extension(path: &str, ext: &str) -> (r: String)
    requires
        forall|i: int| 0 <= i < ext@.len() ==> ext@[i] != '/' && ext@[i] != '\\',
    ensures
        r@ == with_extension(path@, ext@),
{
    std::path::Path::new(path).with_extension(ext).to_string_lossy().into_owned()
}

/// Calls `std::path::Path::join`; its result is named [`joined`].
#[verifier::external_body]
fn path_join(base: &str, name: &str) -> (r: String)
    ensures
        r@ == joined(base@, name@),
{
    std::path::Path::new(base).join(name).to_string_lossy().into_owned()
}

/// Calls `std::path::Path::extension`; its result is named [`extension_of`].
#[verifier::external_body]
fn path_extension(path: &str) -> (r: Option<String>)
    ensures
        r.is_some() == extension_of(path@).is_some(),
        r.is_some() ==> r.unwrap()@ == extension_of(path@).unwrap(),
{
    std::path::Path::new(path).extension().map(|e| e.to_string_lossy().into_owned())
}

/// The extensions of µcad source files, in the order they are tried.
pub open spec fn microcad_extensions() -> Seq<Seq<char>> {
    seq![seq!['µ', 'c', 'a', 'd'], seq!['m', 'c', 'a', 'd'], seq!['u', 'c', 'a', 'd']]
}

/// The name that stands for the built-in library: `__builtin`.
pub open spec fn builtin_name() -> Seq<char> {
    seq!['_', '_', 'b', 'u', 'i', 'l', 't', 'i', 'n']
}

/// The URL of the built-in library: `builtin:///builtin`.
pub open spec fn builtin_url_text() -> Seq<char> {
    seq!['b', 'u', 'i', 'l', 't', 'i', 'n', ':', '/', '/', '/', 'b', 'u', 'i', 'l', 't', 'i', 'n']
}

/// The location the name `__builtin` stands for, the URL of the built-in library; none for
/// any other input, which names a URL or a path.
pub fn builtin_url(input: &str) -> (r: Option<String>)
    ensures
        r is Some == (input@ == builtin_name()),
        r matches Some(u) ==> u@ == builtin_url_text(),
{
    let name = "__builtin";
    proof {
        reveal_strlit("__builtin");
        reveal_strlit("builtin:///builtin");
        assert(name@ =~= builtin_name());
    }
    if !string_equals(input, name) {
        return None;
    }
    Some(String::from_str("builtin:///builtin"))
}

/// What the caller found on disk: the paths that are files and those that are directories.
#[derive(Debug)]
pub struct PathFacts {
    /// Paths that exist and are files.
    pub files: Vec<String>,
    /// Paths that exist and are directories.
    pub dirs: Vec<String>,
}

/// The paths of `v`, as text.
pub open spec fn texts(v: Seq<String>) -> Seq<Seq<char>> {
    v.map_values(|s: String| s@)
}

impl PathFacts {
    /// Is `p` a file.
    pub open spec fn is_file(&self, p: Seq<char>) -> bool {
        texts(self.files@).contains(p)
    }

    /// Is `p` a directory.
    pub open spec fn is_dir(&self, p: Seq<char>) -> bool {
        texts(self.dirs@).contains(p)
    }

    /// Does `p` exist.
    pub open spec fn is_present(&self, p: Seq<char>) -> bool {
        self.is_file(p) || self.is_dir(p)
    }
}

/// Does `v` hold `p`.
fn holds(v: &Vec<String>, p: &String) -> (b: bool)
    ensures
        b == texts(v@).contains(p@),
{
    let mut i: usize = 0;
    while i < v.len()
        invariant
            i <= v.len(),
            forall|j: int| 0 <= j < i ==> v@[j]@ != p@,
        decreases v.len() - i,
    {
        if v[i] == *p {
            assert(texts(v@)[i as int] == p@);
            return true;
        }
        i = i + 1;
    }
    assert(!texts(v@).contains(p@)) by {
        if texts(v@).contains(p@) {
            let j = choose|j: int| 0 <= j < texts(v@).len() && texts(v@)[j] == p@;
            assert(v@[j]@ == p@);
        }
    }
    false
}

/// Is `p` a µcad file: an existing file with a µcad extension.
pub open spec fn is_microcad_file(facts: &PathFacts, p: Seq<char>) -> bool {
    &&& facts.is_file(p)
    &&& extension_of(p) matches Some(e) && microcad_extensions().contains(e)
}

/// The first µcad extension `e`, from index `i` on, for which `p` with extension `e` exists.
pub open spec fn first_with_extension(facts: &PathFacts, p: Seq<char>, i: int) -> Option<
    Seq<char>,
>
    decreases 3 - i,
{
    if i < 0 || i >= 3 {
        None
    } else if facts.is_present(with_extension(p, microcad_extensions()[i])) {
        Some(with_extension(p, microcad_extensions()[i]))
    } else {
        first_with_extension(facts, p, i + 1)
    }
}

/// The name of the module file with extension `e`: `mod.e`.
pub open spec fn mod_file_name(e: Seq<char>) -> Seq<char> {
    seq!['m', 'o', 'd', '.'] + e
}

/// The first µcad extension `e`, from index `i` on, for which `p/mod.e` exists.
pub open spec fn first_mod_file(facts: &PathFacts, p: Seq<char>, i: int) -> Option<Seq<char>>
    decreases 3 - i,
{
    if i < 0 || i >= 3 {
        None
    } else if facts.is_present(joined(p, mod_file_name(microcad_extensions()[i]))) {
        Some(joined(p, mod_file_name(microcad_extensions()[i])))
    } else {
        first_mod_file(facts, p, i + 1)
    }
}

/// The file that a path stands for: itself if it is a µcad file, else the path with the
/// first µcad extension that exists, else, for a directory, its first existing `mod` file.
pub open spec fn resolved_path_spec(facts: &PathFacts, p: Seq<char>) -> Option<Seq<char>> {
    if is_microcad_file(facts, p) {
        Some(p)
    } else if first_with_extension(facts, p, 0) is Some {
        first_with_extension(facts, p, 0)
    } else if facts.is_dir(p) {
        first_mod_file(facts, p, 0)
    } else {
        None
    }
}

/// Errors of locating a source file.
#[derive(Debug, Clone, PartialEq, Eq)]
pub enum LocateError {
    /// No µcad file found at the path.
    FileNotFound {
        /// The path searched.
        path: String,
    },
    /// A file URL that names no path.
    InvalidFileUrl {
        /// The URL.
        url: String,
    },
    /// A path that makes no file URL.
    UrlConversionFailed {
        /// The path.
        path: String,
    },
    /// The absolute path of a file could not be found.
    CanonicalizeFailed {
        /// The path.
        path: String,
        /// What the system reported.
        source: String,
    },
}

/// The µcad extension with index `i`.
fn extension_at(i: usize) -> (e: &'static str)
    requires
        i < 3,
    ensures
        e@ == microcad_extensions()[i as int],
{
    proof {
        reveal_strlit("µcad");
        reveal_strlit("mcad");
        reveal_strlit("ucad");
    }
    if i == 0 {
        "µcad"
    } else if i == 1 {
        "mcad"
    } else {
        "ucad"
    }
}

/// `mod.e` for the µcad extension with index `i`.
fn mod_file_at(i: usize) -> (m: String)
    requires
        i < 3,
    ensures
        m@ == mod_file_name(microcad_extensions()[i as int]),
{
    let mut m = String::from_str("mod.");
    proof {
        reveal_strlit("mod.");
    }
    m.append(extension_at(i));
    m
}

/// Is `p` a µcad file: a file, by `facts`, with a µcad extension.
pub fn microcad_file(facts: &PathFacts, p: &String) -> (b: bool)
    ensures
        b == is_microcad_file(facts, p@),
{
    if !holds(&facts.files, p) {
        return false;
    }
    match path_extension(p.as_str()) {
        Some(e) => {
            let mut i: usize = 0;
            while i < 3
                invariant
                    i <= 3,
                    facts.is_file(p@),
                    extension_of(p@) == Some(e@),
                    forall|j: int| 0 <= j < i ==> microcad_extensions()[j] != e@,
                decreases 3 - i,
            {
                let x = extension_at(i);
                if e.as_str().unicode_len() == x.unicode_len() && string_equals(e.as_str(), x) {
                    assert(microcad_extensions()[i as int] == e@);
                    return true;
                }
                i = i + 1;
            }
            assert(!microcad_extensions().contains(e@));
            false
        },
        None => false,
    }
}

/// Are two texts equal.
fn string_equals(a: &str, b: &str) -> (r: bool)
    ensures
        r == (a@ == b@),
{
    let n = a.unicode_len();
    if n != b.unicode_len() {
        return false;
    }
    let mut i: usize = 0;
    while i < n
        invariant
            n == a@.len(),
            n == b@.len(),
            i <= n,
            forall|j: int| 0 <= j < i ==> a@[j] == b@[j],
        decreases n - i,
    {
        if a.get_char(i) != b.get_char(i) {
            return false;
        }
        i = i + 1;
    }
    assert(a@ =~= b@);
    true
}

/// The file that `path` stands for, given what exists on disk.
///
/// A µcad file stands for itself. Otherwise the path with each µcad extension is tried in
/// turn (`µcad`, `mcad`, `ucad`), and for a directory its `mod` file with each of them.
pub fn resolved_path(path: &str, facts: &PathFacts) -> (r: Result<String, LocateError>)
    ensures
        match resolved_path_spec(facts, path@) {
            Some(p) => r is Ok && r->Ok_0@ == p,
            None => r is Err && (r->Err_0 matches LocateError::FileNotFound { path: q } && q@
                == path@),
        },
{
    let p = path.to_owned();
    if microcad_file(facts, &p) {
        return Ok(p);
    }
    let mut i: usize = 0;
    while i < 3
        invariant
            i <= 3,
            p@ == path@,
            !is_microcad_file(facts, path@),
            first_with_extension(facts, path@, 0) == first_with_extension(facts, path@, i as int),
        decreases 3 - i,
    {
        let candidate = path_with_extension(path, extension_at(i));
        if holds(&facts.files, &candidate) || holds(&facts.dirs, &candidate) {
            return Ok(candidate);
        }
        i = i + 1;
    }
    if holds(&facts.dirs, &p) {
        let mut i: usize = 0;
        while i < 3
            invariant
                i <= 3,
                p@ == path@,
                first_with_extension(facts, path@, 0) is None,
                facts.is_dir(path@),
                !is_microcad_file(facts, path@),
                first_mod_file(facts, path@, 0) == first_mod_file(facts, path@, i as int),
            decreases 3 - i,
        {
            let name = mod_file_at(i);
            let candidate = path_join(path, name.as_str());
            if holds(&facts.files, &candidate) || holds(&facts.dirs, &candidate) {
                return Ok(candidate);
            }
            i = i + 1;
        }
    }
    Err(LocateError::FileNotFound { path: p })
}

/// The paths whose existence [`resolved_path`] asks about, for the caller to look up.
pub fn probe_paths(path: &str) -> (v: Vec<String>)
    ensures
        v@.len() == 7,
        v@[0]@ == path@,
        forall|i: int| 0 <= i < 3 ==> #[trigger] v@[1 + i]@ == with_extension(path@, microcad_extensions()[i]),
        forall|i: int| 0 <= i < 3 ==> #[trigger] v@[4 + i]@ == joined(path@, mod_file_name(microcad_extensions()[i])),
{
    let mut v: Vec<String> = Vec::new();
    v.push(path.to_owned());
    let mut i: usize = 0;
    while i < 3
        invariant
            i <= 3,
            v@.len() == 1 + i,
            v@[0]@ == path@,
            forall|j: int| 0 <= j < i ==> #[trigger] v@[1 + j]@ == with_extension(path@, microcad_extensions()[j]),
        decreases 3 - i,
    {
        v.push(path_with_extension(path, extension_at(i)));
        i = i + 1;
    }
    let mut i: usize = 0;
    while i < 3
        invariant
            i <= 3,
            v@.len() == 4 + i,
            v@[0]@ == path@,
            forall|j: int| 0 <= j < 3 ==> #[trigger] v@[1 + j]@ == with_extension(path@, microcad_extensions()[j]),
            forall|j: int| 0 <= j < i ==> #[trigger] v@[4 + j]@ == joined(path@, mod_file_name(microcad_extensions()[j])),
        decreases 3 - i,
    {
        let name = mod_file_at(i);
        v.push(path_join(path, name.as_str()));
        i = i + 1;
    }
    v
}

/// The path that a file module `module_name`, declared in the source file at `path`, is
/// looked up at: `path` without its extension, joined with the module name.
pub fn file_module_base(path: &str, module_name: &str) -> (r: String)
    ensures
        r@ == joined(with_extension(path@, Seq::empty()), module_name@),
{
    proof {
        reveal_strlit("");
        assert(""@ =~= Seq::<char>::empty());
    }
    let stem = path_with_extension(path, "");
    path_join(stem.as_str(), module_name)
}

/// The file of the file module `module_name` declared in the source file at `path`:
/// the file that [`file_module_base`] of both stands for.
pub fn file_module_path(path: &str, module_name: &str, facts: &PathFacts) -> (r: Result<
    String,
    LocateError,
>)
    ensures
        match resolved_path_spec(facts, joined(with_extension(path@, Seq::empty()), module_name@)) {
            Some(p) => r is Ok && r->Ok_0@ == p,
            None => r is Err && (r->Err_0 matches LocateError::FileNotFound { path: q } && q@
                == joined(with_extension(path@, Seq::empty()), module_name@)),
        },
{
    let base = file_module_base(path, module_name);
    resolved_path(base.as_str(), facts)
}

} // verus!
