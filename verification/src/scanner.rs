//! Directory scanning: applies the filename parser to every file entry of a
//! directory listing and tallies how many artifacts map to each logical
//! library name.

use vstd::prelude::*;

use crate::parser::{extract_library_name, spec_extract_library_name};

verus! {

/// One entry of a directory listing, as the caller read it from the
/// filesystem: the entry's file name and whether the entry is a regular file.
#[derive(Debug)]
pub struct DirEntry {
    pub name: String,
    pub is_file: bool,
}

/// The logical library name an entry counts for: entries that are not
/// regular files and names that are not library artifacts count for nothing.
pub open spec fn spec_entry_library(e: DirEntry) -> Option<Seq<char>> {
    if e.is_file {
        spec_extract_library_name(e.name@)
    } else {
        None
    }
}

/// How many entries of `entries` count for the logical library `library`.
pub open spec fn spec_count(entries: Seq<DirEntry>, library: Seq<char>) -> nat
    decreases entries.len(),
{
    if entries.len() == 0 {
        0
    } else {
        spec_count(entries.drop_last(), library) + (if spec_entry_library(entries.last())
            == Some(library) {
            1nat
        } else {
            0nat
        })
    }
}

/// No library counts for more entries than the listing holds.
pub proof fn lemma_count_le_len(entries: Seq<DirEntry>, library: Seq<char>)
    ensures
        spec_count(entries, library) <= entries.len(),
    decreases entries.len(),
{
    if entries.len() > 0 {
        lemma_count_le_len(entries.drop_last(), library);
    }
}

/// Replacing one entry's count, name kept, leaves every other count as it
/// was and keeps the tally well formed.
proof fn lemma_same_names_same_counts(
    a: LibraryTally,
    b: LibraryTally,
    lib: Seq<char>,
    newcount: int,
    i: int,
)
    requires
        a.wf(),
        0 <= i < a.entries@.len(),
        b.entries@.len() == a.entries@.len(),
        forall|t: int| 0 <= t < a.entries@.len() ==> b.entries@[t].0@ == a.entries@[t].0@,
        forall|t: int| 0 <= t < a.entries@.len() && t != i ==> b.entries@[t].1 == a.entries@[t].1,
        b.entries@[i].1 == newcount,
        newcount >= 1,
        a.entries@[i].0@ == lib,
    ensures
        b.wf(),
        b.spec_get(lib) == newcount,
        forall|other: Seq<char>| other != lib ==> b.spec_get(other) == a.spec_get(other),
{
    assert(b.wf());
    assert(b.entries@[i].0@ == lib);
    assert(b.has_name(lib));
    let w = b.index_of(lib);
    assert(b.entries@[w].0@ == lib);
    assert(w == i);
    assert forall|other: Seq<char>| other != lib implies b.spec_get(other) == a.spec_get(other) by {
        if a.has_name(other) {
            let w2 = a.index_of(other);
            assert(a.entries@[w2].0@ == other);
            assert(b.entries@[w2].0@ == other);
            assert(b.has_name(other));
            let w3 = b.index_of(other);
            assert(b.entries@[w3].0@ == other);
            assert(w3 == w2);
            assert(w2 != i);
        } else {
            if b.has_name(other) {
                let w4 = b.index_of(other);
                assert(a.entries@[w4].0@ == other);
                assert(false);
            }
        }
    }
}

/// A tally of library artifacts found in one directory scan: a mapping from
/// logical library name to occurrence count. Names are unique and every
/// recorded count is positive.
pub struct LibraryTally {
    pub entries: Vec<(String, usize)>,
}

impl LibraryTally {
    /// Names are unique and no recorded count is zero.
    pub open spec fn wf(self) -> bool {
        &&& forall|i: int, j: int|
            0 <= i < j < self.entries@.len() ==> self.entries@[i].0@ != self.entries@[j].0@
        &&& forall|i: int| 0 <= i < self.entries@.len() ==> self.entries@[i].1 >= 1
    }

    /// The tally holds a count for `library`.
    pub open spec fn has_name(self, library: Seq<char>) -> bool {
        exists|i: int| 0 <= i < self.entries@.len() && self.entries@[i].0@ == library
    }

    /// The position of `library` in the tally; meaningful only when
    /// `has_name`.
    pub open spec fn index_of(self, library: Seq<char>) -> int {
        choose|i: int| 0 <= i < self.entries@.len() && self.entries@[i].0@ == library
    }

    /// The occurrence count recorded for `library`: zero when the tally does
    /// not hold the name.
    pub open spec fn spec_get(self, library: Seq<char>) -> nat {
        if self.has_name(library) {
            self.entries@[self.index_of(library)].1 as nat
        } else {
            0
        }
    }

    /// The number of distinct library names tallied.
    pub fn len(&self) -> (n: usize)
        ensures
            n == self.entries@.len(),
    {
        self.entries.len()
    }

    /// The occurrence count recorded for `name`, zero when `name` was never
    /// tallied.
    #[verifier::loop_isolation(false)]
    pub fn get(&self, name: &String) -> (c: usize)
        requires
            self.wf(),
        ensures
            c == self.spec_get(name@),
    {
        let mut i: usize = 0;
        while i < self.entries.len()
            invariant
                0 <= i <= self.entries@.len(),
                forall|t: int| 0 <= t < i ==> self.entries@[t].0@ != name@,
            decreases self.entries@.len() - i,
        {
            if self.entries[i].0 == *name {
                proof {
                    assert(self.entries@[i as int].0@ == name@);
                    assert(self.has_name(name@));
                    let w = self.index_of(name@);
                    assert(self.entries@[w].0@ == name@);
                    assert(w == i);
                }
                return self.entries[i].1;
            }
            i += 1;
        }
        assert(!self.has_name(name@));
        0
    }

    /// Adds one occurrence of `library` to the tally.
    #[verifier::loop_isolation(false)]
    fn add_one(&mut self, library: String)
        requires
            old(self).wf(),
            old(self).spec_get(library@) < usize::MAX,
        ensures
            final(self).wf(),
            final(self).spec_get(library@) == old(self).spec_get(library@) + 1,
            forall|other: Seq<char>|
                other != library@ ==> final(self).spec_get(other) == old(self).spec_get(other),
    {
        let ghost prior = *self;
        let mut i: usize = 0;
        while i < self.entries.len()
            invariant
                *self == prior,
                0 <= i <= self.entries@.len(),
                forall|t: int| 0 <= t < i ==> self.entries@[t].0@ != library@,
            decreases self.entries@.len() - i,
        {
            if self.entries[i].0 == library {
                proof {
                    assert(prior.entries@[i as int].0@ == library@);
                    assert(prior.has_name(library@));
                    let w = prior.index_of(library@);
                    assert(prior.entries@[w].0@ == library@);
                    assert(w == i);
                }
                let count = self.entries[i].1;
                self.entries[i] = (library, count + 1);
                proof {
                    lemma_same_names_same_counts(prior, *self, library@, count + 1, i as int);
                }
                return ;
            }
            i += 1;
        }
        assert(!prior.has_name(library@));
        self.entries.push((library, 1));
        proof {
            let last = self.entries@.len() - 1;
            assert(self.entries@[last].0@ == library@);
            assert(self.has_name(library@));
            let w = self.index_of(library@);
            assert(w == last);
            assert(self.wf());
            assert forall|other: Seq<char>| other != library@ implies self.spec_get(other)
                == prior.spec_get(other) by {
                assert(forall|t: int|
                    0 <= t < prior.entries@.len() ==> self.entries@[t] == prior.entries@[t]);
                if prior.has_name(other) {
                    let w2 = prior.index_of(other);
                    assert(self.entries@[w2].0@ == other);
                    assert(self.has_name(other));
                    let w3 = self.index_of(other);
                    assert(self.entries@[w3].0@ == other);
                    assert(w3 == w2);
                } else {
                    if self.has_name(other) {
                        let w4 = self.index_of(other);
                        assert(self.entries@[w4].0@ == other);
                        assert(w4 < last);
                        assert(prior.entries@[w4].0@ == other);
                        assert(false);
                    }
                }
            }
        }
    }
}

/// Scans a directory listing: every regular file whose name encodes a
/// library artifact adds one occurrence of its logical library name to the
/// returned tally; every other entry is skipped silently.
pub fn find_libraries_in(entries: &Vec<DirEntry>) -> (tally: LibraryTally)
    ensures
        tally.wf(),
        forall|library: Seq<char>| tally.spec_get(library) == spec_count(entries@, library),
{
    let mut tally = LibraryTally { entries: Vec::new() };
    assert forall|library: Seq<char>| tally.spec_get(library) == spec_count(
        entries@.take(0),
        library,
    ) by {
        assert(!tally.has_name(library));
    }
    let mut i: usize = 0;
    while i < entries.len()
        invariant
            tally.wf(),
            0 <= i <= entries@.len(),
            forall|library: Seq<char>|
                tally.spec_get(library) == spec_count(entries@.take(i as int), library),
        decreases entries@.len() - i,
    {
        let ghost before = tally;
        let entry = &entries[i];
        let mut added: Option<String> = None;
        if entry.is_file {
            match extract_library_name(entry.name.as_str()) {
                Some(library) => {
                    proof {
                        lemma_count_le_len(entries@.take(i as int), library@);
                    }
                    tally.add_one(library.clone());
                    added = Some(library);
                },
                None => {},
            }
        }
        proof {
            let taken = entries@.take(i + 1);
            assert(taken.drop_last() =~= entries@.take(i as int));
            assert(taken.last() == entries@[i as int]);
            assert forall|library: Seq<char>| tally.spec_get(library) == spec_count(
                taken,
                library,
            ) by {
                match added {
                    Some(a) => {
                        assert(spec_entry_library(entries@[i as int]) == Some(a@));
                        if library == a@ {
                        } else {
                            assert(tally.spec_get(library) == before.spec_get(library));
                        }
                    },
                    None => {
                        assert(spec_entry_library(entries@[i as int]) is None);
                        assert(tally == before);
                    },
                }
            }
        }
        i += 1;
    }
    assert(entries@.take(entries@.len() as int) =~= entries@);
    tally
}

} // verus!
