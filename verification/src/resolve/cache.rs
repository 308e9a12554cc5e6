//! The libraries loaded so far, each found again by its id.

use vstd::prelude::*;

use crate::diag::ResolveError;
use crate::library::Library;
use crate::manifest::LibraryId;
use crate::resolve::{library_ids_equal, loaded_from, same_library_id};

verus! {

/// The loaded libraries, at most one for each id.
#[derive(Debug)]
pub struct LibraryCache {
    libraries: Vec<Library>,
}

/// The libraries after inserting `library`: it replaces the first one with its id, or comes
/// last if there is none.
pub open spec fn inserted(libs: Seq<Library>, library: Library) -> Seq<Library> {
    match loaded_from(libs, library.id_spec(), 0) {
        Some(k) => libs.update(k, library),
        None => libs.push(library),
    }
}

/// The index `loaded_from` finds is the first, from `k` on, of a library with the id.
pub proof fn lemma_loaded_from_first(libs: Seq<Library>, id: LibraryId, k: int, i: int)
    requires
        0 <= k <= i < libs.len(),
        same_library_id(libs[i].id_spec(), id),
        forall|j: int| k <= j < i ==> !same_library_id(#[trigger] libs[j].id_spec(), id),
    ensures
        loaded_from(libs, id, k) == Some(i),
    decreases i - k,
{
    if k < i {
        lemma_loaded_from_first(libs, id, k + 1, i);
    }
}

/// What `loaded_from` finds: a library with the id, after none with it; or none at all.
pub proof fn lemma_loaded_from(libs: Seq<Library>, id: LibraryId, k: int)
    requires
        0 <= k,
    ensures
        loaded_from(libs, id, k) matches Some(i) ==> k <= i < libs.len() && same_library_id(libs[i].id_spec(), id),
        loaded_from(libs, id, k) matches Some(i) ==> forall|j: int| k <= j < i ==> !same_library_id(#[trigger] libs[j].id_spec(), id),
        loaded_from(libs, id, k) is None ==> forall|j: int| k <= j < libs.len() ==> !same_library_id(#[trigger] libs[j].id_spec(), id),
    decreases libs.len() - k,
{
    if k < libs.len() && !same_library_id(libs[k].id_spec(), id) {
        lemma_loaded_from(libs, id, k + 1);
    }
}

impl LibraryCache {
    /// The loaded libraries, in the order they were first inserted.
    pub closed spec fn libs(&self) -> Seq<Library> {
        self.libraries@
    }

    /// No two libraries have the same id.
    pub open spec fn wf(&self) -> bool {
        forall|i: int, j: int|
            0 <= i < j < self.libs().len() ==> !same_library_id(
                (#[trigger] self.libs()[i]).id_spec(),
                (#[trigger] self.libs()[j]).id_spec(),
            )
    }

    /// A cache without libraries.
    pub fn new() -> (c: LibraryCache)
        ensures
            c.wf(),
            c.libs() == Seq::<Library>::empty(),
    {
        LibraryCache { libraries: Vec::new() }
    }

    /// Inserts a library under its id; a library with that id is replaced. Returns the id.
    pub fn insert(&mut self, library: Library) -> (r: Result<LibraryId, ResolveError>)
        requires
            old(self).wf(),
        ensures
            final(self).wf(),
            r == Ok::<LibraryId, ResolveError>(library.id_spec()),
            final(self).libs() == inserted(old(self).libs(), library),
    {
        let id = library.id();
        let ghost lib = library;
        let mut k: usize = 0;
        while k < self.libraries.len()
            invariant
                old(self).wf(),
                self.libraries@ == old(self).libs(),
                k <= self.libraries@.len(),
                id == lib.id_spec(),
                lib == library,
                loaded_from(self.libraries@, id, 0) == loaded_from(self.libraries@, id, k as int),
            decreases self.libraries@.len() - k,
        {
            let other = self.libraries[k].id();
            if library_ids_equal(&other, &id) {
                proof {
                    lemma_loaded_from(old(self).libs(), id, 0);
                }
                self.libraries.set(k, library);
                proof {
                    let o = old(self).libs();
                    assert(same_library_id(o[k as int].id_spec(), id));
                    assert(self.libs()[k as int] == lib);
                    assert forall|i: int, j: int| 0 <= i < j < self.libs().len() implies !same_library_id(
                        (#[trigger] self.libs()[i]).id_spec(),
                        (#[trigger] self.libs()[j]).id_spec(),
                    ) by {
                        if i == k {
                            assert(!same_library_id(o[k as int].id_spec(), o[j].id_spec()));
                            assert(self.libs()[j] == o[j]);
                        } else if j == k {
                            assert(!same_library_id(o[i].id_spec(), o[k as int].id_spec()));
                            assert(self.libs()[i] == o[i]);
                        } else {
                            assert(self.libs()[i] == o[i]);
                            assert(self.libs()[j] == o[j]);
                        }
                    }
                }
                return Ok(id);
            }
            k = k + 1;
        }
        proof {
            lemma_loaded_from(old(self).libs(), id, 0);
        }
        self.libraries.push(library);
        proof {
            assert forall|i: int, j: int| 0 <= i < j < self.libs().len() implies !same_library_id(
                (#[trigger] self.libs()[i]).id_spec(),
                (#[trigger] self.libs()[j]).id_spec(),
            ) by {
                if j == old(self).libs().len() {
                    assert(!same_library_id(old(self).libs()[i].id_spec(), id));
                } else {
                    assert(self.libs()[i] == old(self).libs()[i]);
                    assert(self.libs()[j] == old(self).libs()[j]);
                }
            }
        }
        Ok(id)
    }

    /// The library with the id `id`, if one is loaded.
    pub fn get(&self, id: &LibraryId) -> (r: Option<&Library>)
        ensures
            match loaded_from(self.libs(), *id, 0) {
                Some(k) => r matches Some(l) && *l == self.libs()[k],
                None => r is None,
            },
    {
        let mut k: usize = 0;
        while k < self.libraries.len()
            invariant
                k <= self.libraries@.len(),
                loaded_from(self.libraries@, *id, 0) == loaded_from(self.libraries@, *id, k as int),
            decreases self.libraries@.len() - k,
        {
            let other = self.libraries[k].id();
            if library_ids_equal(&other, id) {
                return Some(&self.libraries[k]);
            }
            k = k + 1;
        }
        None
    }

    /// The loaded libraries, to resolve paths into them.
    pub fn libraries(&self) -> (r: &Vec<Library>)
        ensures
            r@ == self.libs(),
    {
        &self.libraries
    }
}

} // verus!
