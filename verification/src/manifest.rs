//! The package manifest, saved as `mu.toml`.

use vstd::prelude::*;

verus! {

/// A semantic version.
#[derive(Debug, Clone, PartialEq, Eq)]
pub struct Version {
    /// Major version.
    pub major: u64,
    /// Minor version.
    pub minor: u64,
    /// Patch version.
    pub patch: u64,
    /// Pre-release identifiers, such as `alpha.1`; empty for a release.
    pub pre: String,
    /// Build metadata, such as `build.5`; empty where there is none.
    pub build: String,
}

/// Do two versions agree in every part, the texts compared by their characters.
pub open spec fn same_version(a: Version, b: Version) -> bool {
    &&& a.major == b.major
    &&& a.minor == b.minor
    &&& a.patch == b.patch
    &&& a.pre@ == b.pre@
    &&& a.build@ == b.build@
}

impl Version {
    /// The release `major.minor.patch`, without pre-release or build metadata.
    pub fn new(major: u64, minor: u64, patch: u64) -> (v: Version)
        ensures
            v.major == major,
            v.minor == minor,
            v.patch == patch,
            v.pre@.len() == 0,
            v.build@.len() == 0,
    {
        Version { major, minor, patch, pre: String::new(), build: String::new() }
    }

    /// A copy of the version.
    pub fn copy(&self) -> (v: Version)
        ensures
            v == *self,
    {
        Version { major: self.major, minor: self.minor, patch: self.patch, pre: self.pre.clone(), build: self.build.clone() }
    }

    /// Do the two versions agree in every part.
    pub fn same(&self, other: &Version) -> (b: bool)
        ensures
            b == same_version(*self, *other),
    {
        self.major == other.major && self.minor == other.minor && self.patch == other.patch
            && self.pre == other.pre && self.build == other.build
    }
}

/// `library` section of the manifest.
#[derive(Debug, Clone, PartialEq, Eq)]
pub struct LibrarySection {
    /// Mandatory library name.
    pub name: String,
    /// A short description of the library.
    pub description: Option<String>,
    /// Mandatory library version.
    pub version: Version,
    /// Authors of the library.
    pub authors: Option<Vec<String>>,
    /// Documentation URL.
    pub documentation: Option<String>,
    /// License.
    pub license: Option<String>,
    /// Do not load the standard library by default.
    pub no_std: Option<bool>,
}

/// An external dependency of a library.
#[derive(Debug, Clone, PartialEq, Eq)]
pub struct Dependency {
    /// Path of the dependency.
    pub path: Option<String>,
}

/// The package manifest.
#[derive(Debug, Clone, PartialEq, Eq)]
pub struct Manifest {
    /// Library description.
    pub library: LibrarySection,
    /// Dependencies by name.
    pub dependencies: Option<Vec<(String, Dependency)>>,
}

/// Name and version of a library.
#[derive(Debug, Clone, PartialEq, Eq)]
pub struct LibraryInfo {
    /// Library name.
    pub name: String,
    /// Library version.
    pub version: Version,
}

/// Identity of a loaded library.
#[derive(Debug, Clone, PartialEq, Eq)]
pub enum LibraryId {
    /// The library being compiled, when it has no manifest.
    Root,
    /// A library with a name and version.
    Named(LibraryInfo),
}

impl Manifest {
    /// Returns true if the manifest asks not to load the standard library.
    pub fn no_std(&self) -> (b: bool)
        ensures
            b == (self.library.no_std == Some(true)),
    {
        match self.library.no_std {
            Some(b) => b,
            None => false,
        }
    }
}

/// The decimal digits of `n`.
pub open spec fn decimal_spec(n: nat) -> Seq<char>
    decreases n,
{
    if n < 10 {
        seq![digit_char(n)]
    } else {
        decimal_spec(n / 10) + seq![digit_char(n % 10)]
    }
}

/// The character of a decimal digit.
pub open spec fn digit_char(d: nat) -> char {
    if d == 0 { '0' } else if d == 1 { '1' } else if d == 2 { '2' } else if d == 3 { '3' }
    else if d == 4 { '4' } else if d == 5 { '5' } else if d == 6 { '6' } else if d == 7 { '7' }
    else if d == 8 { '8' } else { '9' }
}

/// The text of a decimal digit.
fn digit_text(d: u64) -> (s: &'static str)
    requires
        d < 10,
    ensures
        s@ == seq![digit_char(d as nat)],
{
    proof {
        reveal_strlit("0");
        reveal_strlit("1");
        reveal_strlit("2");
        reveal_strlit("3");
        reveal_strlit("4");
        reveal_strlit("5");
        reveal_strlit("6");
        reveal_strlit("7");
        reveal_strlit("8");
        reveal_strlit("9");
    }
    if d == 0 { "0" } else if d == 1 { "1" } else if d == 2 { "2" } else if d == 3 { "3" }
    else if d == 4 { "4" } else if d == 5 { "5" } else if d == 6 { "6" } else if d == 7 { "7" }
    else if d == 8 { "8" } else { "9" }
}

/// `n` in decimal digits.
pub fn decimal(n: u64) -> (s: String)
    ensures
        s@ == decimal_spec(n as nat),
    decreases n,
{
    if n < 10 {
        String::from_str(digit_text(n))
    } else {
        let mut s = decimal(n / 10);
        s.append(digit_text(n % 10));
        s
    }
}

/// `text` behind `sep`, or nothing where `text` is empty.
pub open spec fn optional_part(sep: char, text: Seq<char>) -> Seq<char> {
    if text.len() == 0 { Seq::empty() } else { seq![sep] + text }
}

/// `major.minor.patch`, then `-pre` and `+build` where those are not empty.
pub open spec fn version_text(v: Version) -> Seq<char> {
    decimal_spec(v.major as nat) + seq!['.'] + decimal_spec(v.minor as nat) + seq!['.'] + decimal_spec(v.patch as nat)
        + optional_part('-', v.pre@) + optional_part('+', v.build@)
}

impl Version {
    /// The version as `major.minor.patch`, then `-pre` and `+build` where those are not
    /// empty.
    pub fn to_text(&self) -> (s: String)
        ensures
            s@ == version_text(*self),
    {
        proof {
            reveal_strlit(".");
            reveal_strlit("-");
            reveal_strlit("+");
        }
        let mut s = decimal(self.major);
        s.append(".");
        let minor = decimal(self.minor);
        s.append(minor.as_str());
        s.append(".");
        let patch = decimal(self.patch);
        s.append(patch.as_str());
        if !self.pre.as_str().is_empty() {
            s.append("-");
            s.append(self.pre.as_str());
        }
        if !self.build.as_str().is_empty() {
            s.append("+");
            s.append(self.build.as_str());
        }
        s
    }
}

impl Manifest {
    /// The library name and version on one line: `name 1.2.3`.
    pub fn to_string_one_line(&self) -> (s: String)
        ensures
            s@ == self.library.name@ + seq![' '] + version_text(self.library.version),
    {
        proof {
            reveal_strlit(" ");
        }
        let mut s = self.library.name.clone();
        s.append(" ");
        let v = self.library.version.to_text();
        s.append(v.as_str());
        s
    }
}

} // verus!
