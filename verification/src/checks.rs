//! The verification pass: for every registered target platform that is
//! installed under the sysroot, the libraries found in its library directory
//! must contain no duplicated logical name and must cover the set the target
//! requires. The caller reads the filesystem and hands each target's
//! directory listing in as a plain value.

use vstd::prelude::*;

use crate::registry::{
    spec_full_std, spec_linker_matches, spec_registry_len, spec_triple, supported_target,
    TargetSpec,
};
use crate::scanner::{find_libraries_in, spec_count, DirEntry};

verus! {

/// A typed failure of the verification pass.
#[derive(Debug)]
pub enum Error {
    /// More than one artifact resolves to the same logical library name
    /// within one target's library directory.
    DuplicateTargetLibrary { target: String, library: String },
    /// A library the target requires was not found.
    TargetLibraryMissing { target: String, library: String },
    /// The target's library directory could not be listed.
    TargetLibraryDiscoveryFailed { path: String, error: String },
}

/// The outcome of checking one target: not installed at all, or installed
/// and valid.
#[derive(Debug, PartialEq, Eq, Structural, Copy, Clone)]
pub enum CheckTargetOutcome {
    Missing,
    Found,
}

/// A target confirmed installed and valid, with the extra build flags it
/// should be used with (none by default).
#[derive(Debug)]
pub struct Target {
    pub target_spec: TargetSpec,
    pub rustflags: Vec<String>,
}

/// What the filesystem shows for one target's installation: the target
/// directory is absent, or its library directory could not be listed (the
/// value carries the description of the underlying failure), or the library
/// directory's entries.
#[derive(Debug)]
pub enum DirListing {
    Absent,
    Unreadable(String),
    Entries(Vec<DirEntry>),
}

/// Some logical library name resolves from two or more artifacts.
pub open spec fn has_duplicate(entries: Seq<DirEntry>) -> bool {
    exists|library: Seq<char>| spec_count(entries, library) >= 2
}

/// `names` holds `library`.
pub open spec fn contains_lib(names: Seq<Seq<char>>, library: Seq<char>) -> bool {
    exists|i: int| 0 <= i < names.len() && names[i] == library
}

/// The views of a sequence of owned strings.
pub open spec fn names_of(v: Seq<String>) -> Seq<Seq<char>> {
    v.map_values(|s: String| s@)
}

/// Every name of `names` resolves from at least one artifact of `entries`.
pub open spec fn all_present(entries: Seq<DirEntry>, names: Seq<Seq<char>>) -> bool {
    forall|i: int| 0 <= i < names.len() ==> spec_count(entries, names[i]) >= 1
}

/// The library names a target requires: {core, alloc} always, and
/// {std, test, proc_macro} as well when the target needs the full standard
/// library.
pub open spec fn spec_expected(full_std: bool) -> Seq<Seq<char>> {
    if full_std {
        seq!["core"@, "alloc"@, "std"@, "test"@, "proc_macro"@]
    } else {
        seq!["core"@, "alloc"@]
    }
}

/// A target's library directory is valid: no duplicated logical name, and
/// every required library present.
pub open spec fn libraries_ok(entries: Seq<DirEntry>, full_std: bool) -> bool {
    !has_duplicate(entries) && all_present(entries, spec_expected(full_std))
}

/// A checked target raises no error: it is either absent or valid.
pub open spec fn target_ok(full_std: bool, listing: DirListing) -> bool {
    match listing {
        DirListing::Absent => true,
        DirListing::Unreadable(_) => false,
        DirListing::Entries(entries) => libraries_ok(entries@, full_std),
    }
}

/// A checked target is confirmed: installed and valid.
pub open spec fn target_found(full_std: bool, listing: DirListing) -> bool {
    match listing {
        DirListing::Entries(entries) => libraries_ok(entries@, full_std),
        _ => false,
    }
}

/// The directory a target installs into: `<sysroot>/lib/rustlib/<triple>`.
pub open spec fn spec_target_dir(sysroot: Seq<char>, triple: Seq<char>) -> Seq<char> {
    sysroot + "/lib/rustlib/"@ + triple
}

/// The directory a target's libraries live in: `<target dir>/lib`.
pub open spec fn spec_lib_dir(sysroot: Seq<char>, triple: Seq<char>) -> Seq<char> {
    spec_target_dir(sysroot, triple) + "/lib"@
}

/// The success notification reported for a confirmed target.
pub open spec fn spec_success_message(triple: Seq<char>) -> Seq<char> {
    "target installed correctly: "@ + triple
}

/// The error an invalid or unreadable target installation raises: which
/// variant comes out is fixed by the listing, and the named library is pinned
/// as far as the tie-break of step order allows (any duplicated name; any
/// required name that is absent).
pub open spec fn spec_error_for(
    sysroot: Seq<char>,
    triple: Seq<char>,
    full_std: bool,
    listing: DirListing,
    e: Error,
) -> bool {
    match listing {
        DirListing::Absent => false,
        DirListing::Unreadable(message) => match e {
            Error::TargetLibraryDiscoveryFailed { path, error } => path@ == spec_lib_dir(
                sysroot,
                triple,
            ) && error@ == message@,
            _ => false,
        },
        DirListing::Entries(entries) => match e {
            Error::DuplicateTargetLibrary { target, library } => has_duplicate(entries@)
                && target@ == triple && spec_count(entries@, library@) >= 2,
            Error::TargetLibraryMissing { target, library } => !has_duplicate(entries@)
                && target@ == triple && contains_lib(spec_expected(full_std), library@)
                && spec_count(entries@, library@) == 0,
            Error::TargetLibraryDiscoveryFailed { .. } => false,
        },
    }
}

/// The target directory path, `<sysroot>/lib/rustlib/<triple>`.
pub fn target_dir_path(sysroot: &str, triple: &str) -> (p: String)
    ensures
        p@ == spec_target_dir(sysroot@, triple@),
{
    let mut p = sysroot.to_owned();
    p.append("/lib/rustlib/");
    p.append(triple);
    p
}

/// The library directory path, `<sysroot>/lib/rustlib/<triple>/lib`.
pub fn lib_dir_path(sysroot: &str, triple: &str) -> (p: String)
    ensures
        p@ == spec_lib_dir(sysroot@, triple@),
{
    let mut p = target_dir_path(sysroot, triple);
    p.append("/lib");
    p
}

/// The success notification for a confirmed target:
/// `target installed correctly: <triple>`.
pub fn success_message(triple: &str) -> (m: String)
    ensures
        m@ == spec_success_message(triple@),
{
    let mut m = "target installed correctly: ".to_owned();
    m.append(triple);
    m
}

/// The library names a target requires, in the order they are checked.
pub fn expected_libraries(full_std: bool) -> (v: Vec<String>)
    ensures
        names_of(v@) =~= spec_expected(full_std),
{
    let mut v: Vec<String> = Vec::new();
    v.push(String::from_str("core"));
    v.push(String::from_str("alloc"));
    if full_std {
        v.push(String::from_str("std"));
        v.push(String::from_str("test"));
        v.push(String::from_str("proc_macro"));
    }
    v
}

/// `v` holds a string whose characters are `library`.
pub open spec fn contains_name(v: Seq<String>, library: Seq<char>) -> bool {
    exists|i: int| 0 <= i < v.len() && v[i]@ == library
}

/// Removes every string equal to `name` from `v`.
#[verifier::loop_isolation(false)]
fn remove_name(v: &mut Vec<String>, name: &String)
    ensures
        forall|library: Seq<char>|
            contains_name(final(v)@, library) <==> (contains_name(old(v)@, library) && library
                != name@),
{
    let ghost orig = v@;
    let mut kept: Vec<String> = Vec::new();
    let mut i: usize = 0;
    while i < v.len()
        invariant
            i <= v@.len(),
            v@ == orig,
            forall|library: Seq<char>|
                contains_name(kept@, library) <==> (contains_name(v@.take(i as int), library)
                    && library != name@),
        decreases v@.len() - i,
    {
        let ghost kept_before = kept@;
        let same = v[i] == *name;
        if !same {
            kept.push(v[i].clone());
        }
        proof {
            let taken = v@.take(i + 1);
            assert(taken.drop_last() =~= v@.take(i as int));
            assert(taken.last() == v@[i as int]);
            assert forall|library: Seq<char>| contains_name(kept@, library) <==> (contains_name(
                taken,
                library,
            ) && library != name@) by {
                if contains_name(kept@, library) {
                    let w = choose|w: int| 0 <= w < kept@.len() && kept@[w]@ == library;
                    if w < kept_before.len() {
                        assert(contains_name(kept_before, library));
                        let u = choose|u: int|
                            0 <= u < v@.take(i as int).len() && v@.take(i as int)[u]@ == library;
                        assert(taken[u]@ == library);
                    } else {
                        assert(kept@[w]@ == v@[i as int]@);
                        assert(taken[i as int]@ == library);
                    }
                    assert(contains_name(taken, library));
                }
                if contains_name(taken, library) && library != name@ {
                    let u = choose|u: int| 0 <= u < taken.len() && taken[u]@ == library;
                    if u < i {
                        assert(v@.take(i as int)[u]@ == library);
                        assert(contains_name(v@.take(i as int), library));
                        assert(contains_name(kept_before, library));
                        let w = choose|w: int|
                            0 <= w < kept_before.len() && kept_before[w]@ == library;
                        assert(kept@[w]@ == library);
                    } else {
                        assert(v@[i as int]@ == library);
                        assert(!same);
                        assert(kept@.last()@ == library);
                    }
                    assert(contains_name(kept@, library));
                }
            }
        }
        i += 1;
    }
    assert(v@.take(v@.len() as int) =~= v@);
    *v = kept;
}

/// Validates one target's library directory listing against the libraries
/// the target requires (handed in as `expected`): any logical name resolving
/// from more than one artifact is a fatal duplicate, checked first; then
/// every expected name must have been found. Unexpected extra libraries are
/// tolerated.
#[verifier::loop_isolation(false)]
pub fn check_libraries(target: &TargetSpec, entries: &Vec<DirEntry>, expected: &Vec<String>) -> (r:
    Result<(), Error>)
    ensures
        r is Ok <==> (!has_duplicate(entries@) && all_present(entries@, names_of(expected@))),
        has_duplicate(entries@) ==> r matches Err(Error::DuplicateTargetLibrary { .. }),
        match r {
            Ok(()) => true,
            Err(e) => match e {
                Error::DuplicateTargetLibrary { target: t, library: l } => t@ == target.triple@
                    && spec_count(entries@, l@) >= 2,
                Error::TargetLibraryMissing { target: t, library: l } => !has_duplicate(entries@)
                    && t@ == target.triple@ && contains_name(expected@, l@) && spec_count(
                    entries@,
                    l@,
                ) == 0,
                Error::TargetLibraryDiscoveryFailed { .. } => false,
            },
        },
{
    let tally = find_libraries_in(entries);

    let mut remaining: Vec<String> = Vec::new();
    let mut i: usize = 0;
    while i < expected.len()
        invariant
            i <= expected@.len(),
            remaining@ =~= expected@.take(i as int),
        decreases expected@.len() - i,
    {
        remaining.push(expected[i].clone());
        assert(remaining@ =~= expected@.take(i + 1));
        i += 1;
    }
    assert(expected@.take(expected@.len() as int) =~= expected@);
    assert(remaining@ =~= expected@);

    let mut k: usize = 0;
    while k < tally.entries.len()
        invariant
            k <= tally.entries@.len(),
            tally.wf(),
            forall|library: Seq<char>| tally.spec_get(library) == spec_count(entries@, library),
            forall|t: int| 0 <= t < k ==> tally.entries@[t].1 <= 1,
            forall|library: Seq<char>|
                contains_name(remaining@, library) <==> (contains_name(expected@, library) && !(
                exists|t: int| 0 <= t < k && tally.entries@[t].0@ == library)),
        decreases tally.entries@.len() - k,
    {
        let count = tally.entries[k].1;
        let ghost lib = tally.entries@[k as int].0@;
        proof {
            assert(tally.has_name(lib));
            let w = tally.index_of(lib);
            assert(tally.entries@[w].0@ == lib);
            assert(w == k);
            assert(tally.spec_get(lib) == count);
        }
        if count > 1 {
            assert(spec_count(entries@, lib) >= 2);
            assert(has_duplicate(entries@));
            return Err(
                Error::DuplicateTargetLibrary {
                    target: target.triple.clone(),
                    library: tally.entries[k].0.clone(),
                },
            );
        }
        let ghost rem_before = remaining@;
        let name = tally.entries[k].0.clone();
        remove_name(&mut remaining, &name);
        proof {
            assert forall|library: Seq<char>| contains_name(remaining@, library) <==> (
            contains_name(expected@, library) && !(exists|t: int|
                0 <= t < k + 1 && tally.entries@[t].0@ == library)) by {
                if library == lib {
                    assert(tally.entries@[k as int].0@ == library);
                    assert(!contains_name(remaining@, library));
                } else {
                    assert(contains_name(remaining@, library) <==> (contains_name(
                        rem_before,
                        library,
                    ) && library != lib));
                    if exists|t: int| 0 <= t < k + 1 && tally.entries@[t].0@ == library {
                        let t = choose|t: int|
                            0 <= t < k + 1 && tally.entries@[t].0@ == library;
                        assert(t < k);
                        assert(exists|t2: int| 0 <= t2 < k && tally.entries@[t2].0@ == library);
                    }
                }
            }
        }
        k += 1;
    }

    // No duplicate anywhere: every tallied count is at most one.
    assert(!has_duplicate(entries@)) by {
        if has_duplicate(entries@) {
            let lib = choose|library: Seq<char>| spec_count(entries@, library) >= 2;
            assert(tally.spec_get(lib) >= 2);
            assert(tally.has_name(lib));
            let w = tally.index_of(lib);
            assert(tally.entries@[w].1 >= 2);
            assert(false);
        }
    }

    if remaining.len() > 0 {
        let ghost lib0 = remaining@[0]@;
        proof {
            assert(contains_name(remaining@, lib0));
            assert(contains_name(expected@, lib0));
            assert(!tally.has_name(lib0)) by {
                if tally.has_name(lib0) {
                    let w = tally.index_of(lib0);
                    assert(tally.entries@[w].0@ == lib0);
                }
            }
            assert(tally.spec_get(lib0) == 0);
            assert(spec_count(entries@, lib0) == 0);
            let wi = choose|wi: int| 0 <= wi < expected@.len() && expected@[wi]@ == lib0;
            assert(names_of(expected@)[wi] == lib0);
            assert(!all_present(entries@, names_of(expected@)));
        }
        let library = remaining[0].clone();
        return Err(Error::TargetLibraryMissing { target: target.triple.clone(), library });
    }

    // Nothing expected remains unmatched: every expected library was found.
    assert forall|j: int| 0 <= j < names_of(expected@).len() implies spec_count(
        entries@,
        names_of(expected@)[j],
    ) >= 1 by {
        let lib = expected@[j]@;
        assert(contains_name(expected@, lib));
        assert(!contains_name(remaining@, lib));
        let t = choose|t: int|
            0 <= t < tally.entries@.len() && tally.entries@[t].0@ == lib;
        assert(tally.has_name(lib));
        let w = tally.index_of(lib);
        assert(tally.entries@[w].1 >= 1);
        assert(tally.spec_get(lib) >= 1);
    }
    Ok(())
}

/// Checks one target platform against what the filesystem shows for it: an
/// absent target directory is silently not an error; an unreadable library
/// directory is a fatal discovery failure naming the attempted path; a
/// readable listing is validated against the libraries the target requires.
pub fn check_target(sysroot: &str, target: &TargetSpec, listing: &DirListing) -> (r: Result<
    CheckTargetOutcome,
    Error,
>)
    ensures
        r is Ok <==> target_ok(target.full_std, *listing),
        r matches Ok(outcome) ==> (outcome == CheckTargetOutcome::Found <==> target_found(
            target.full_std,
            *listing,
        )),
        r matches Err(e) ==> spec_error_for(
            sysroot@,
            target.triple@,
            target.full_std,
            *listing,
            e,
        ),
{
    match listing {
        DirListing::Absent => Ok(CheckTargetOutcome::Missing),
        DirListing::Unreadable(message) => Err(
            Error::TargetLibraryDiscoveryFailed {
                path: lib_dir_path(sysroot, target.triple.as_str()),
                error: message.clone(),
            },
        ),
        DirListing::Entries(entries) => {
            let expected = expected_libraries(target.full_std);
            proof {
                assert(names_of(expected@) =~= spec_expected(target.full_std));
                assert forall|library: Seq<char>|
                    contains_name(expected@, library) == contains_lib(
                        spec_expected(target.full_std),
                        library,
                    ) by {
                    if contains_name(expected@, library) {
                        let w = choose|w: int|
                            0 <= w < expected@.len() && expected@[w]@ == library;
                        assert(spec_expected(target.full_std)[w] == library);
                    }
                    if contains_lib(spec_expected(target.full_std), library) {
                        let w = choose|w: int|
                            0 <= w < spec_expected(target.full_std).len() && spec_expected(
                                target.full_std,
                            )[w] == library;
                        assert(expected@[w]@ == library);
                    }
                }
            }
            match check_libraries(target, entries, &expected) {
                Ok(()) => Ok(CheckTargetOutcome::Found),
                Err(e) => Err(e),
            }
        },
    }
}

/// Every registered target raises no error against its listing.
pub open spec fn all_targets_ok(listings: Seq<DirListing>) -> bool {
    forall|i: int| 0 <= i < listings.len() ==> target_ok(spec_full_std(i), listings[i])
}

/// The registry positions, in order, of the targets confirmed among the
/// first `n` registered ones.
pub open spec fn spec_found_upto(listings: Seq<DirListing>, n: int) -> Seq<int>
    decreases n,
{
    if n <= 0 {
        Seq::empty()
    } else {
        spec_found_upto(listings, n - 1) + (if target_found(
            spec_full_std(n - 1),
            listings[n - 1],
        ) {
            seq![n - 1]
        } else {
            Seq::empty()
        })
    }
}

/// The first registry position at or after `i` whose target raises an error,
/// or the registry length when none does.
pub open spec fn spec_first_bad_from(listings: Seq<DirListing>, i: int) -> int
    decreases spec_registry_len() - i,
{
    if i < 0 || i >= spec_registry_len() {
        spec_registry_len()
    } else if !target_ok(spec_full_std(i), listings[i]) {
        i
    } else {
        spec_first_bad_from(listings, i + 1)
    }
}

/// When everything before `b` is fine and `b` raises an error, `b` is the
/// first position that does.
proof fn lemma_first_bad_is(listings: Seq<DirListing>, k: int, b: int)
    requires
        0 <= k <= b < spec_registry_len(),
        forall|t: int| k <= t < b ==> target_ok(spec_full_std(t), listings[t]),
        !target_ok(spec_full_std(b), listings[b]),
    ensures
        spec_first_bad_from(listings, k) == b,
    decreases b - k,
{
    if k < b {
        lemma_first_bad_is(listings, k + 1, b);
    }
}

/// Checks every registered target, in registry order, against what the
/// filesystem shows for it (`listings[i]` belongs to registry entry `i`).
/// Absent targets are silently skipped; the first fatal error aborts the
/// whole pass; when none arises the confirmed targets come back in registry
/// order, each with empty extra build flags.
#[verifier::loop_isolation(false)]
pub fn check(sysroot: &str, listings: &Vec<DirListing>) -> (r: Result<Vec<Target>, Error>)
    requires
        listings@.len() == spec_registry_len(),
    ensures
        r is Ok <==> all_targets_ok(listings@),
        r matches Ok(found) ==> ({
            let positions = spec_found_upto(listings@, spec_registry_len());
            &&& found@.len() == positions.len()
            &&& forall|j: int|
                0 <= j < found@.len() ==> found@[j].target_spec.triple@ == spec_triple(positions[j])
                    && found@[j].target_spec.full_std == spec_full_std(positions[j])
                    && spec_linker_matches(positions[j], found@[j].target_spec.linker)
                    && found@[j].rustflags@.len() == 0
        }),
        r matches Err(e) ==> ({
            let i = spec_first_bad_from(listings@, 0);
            i < spec_registry_len() && spec_error_for(
                sysroot@,
                spec_triple(i),
                spec_full_std(i),
                listings@[i],
                e,
            )
        }),
{
    let mut found: Vec<Target> = Vec::new();
    let mut i: usize = 0;
    while i < 3
        invariant
            i <= 3,
            forall|t: int| 0 <= t < i ==> target_ok(spec_full_std(t), listings@[t]),
            found@.len() == spec_found_upto(listings@, i as int).len(),
            forall|j: int|
                0 <= j < found@.len() ==> found@[j].target_spec.triple@ == spec_triple(
                    spec_found_upto(listings@, i as int)[j],
                ) && found@[j].target_spec.full_std == spec_full_std(
                    spec_found_upto(listings@, i as int)[j],
                ) && spec_linker_matches(
                    spec_found_upto(listings@, i as int)[j],
                    found@[j].target_spec.linker,
                ) && found@[j].rustflags@.len() == 0,
        decreases 3 - i,
    {
        let ghost found_before = found@;
        let target = supported_target(i);
        match check_target(sysroot, &target, &listings[i]) {
            Ok(CheckTargetOutcome::Missing) => {
                proof {
                    assert(!target_found(spec_full_std(i as int), listings@[i as int]));
                    assert(spec_found_upto(listings@, i + 1) =~= spec_found_upto(
                        listings@,
                        i as int,
                    ));
                }
            },
            Ok(CheckTargetOutcome::Found) => {
                found.push(Target { target_spec: target, rustflags: Vec::new() });
                proof {
                    assert(target_found(spec_full_std(i as int), listings@[i as int]));
                    assert(spec_found_upto(listings@, i + 1) =~= spec_found_upto(
                        listings@,
                        i as int,
                    ).push(i as int));
                }
            },
            Err(e) => {
                proof {
                    lemma_first_bad_is(listings@, 0, i as int);
                }
                return Err(e);
            },
        }
        i += 1;
    }
    Ok(found)
}

/// For a target needing the full standard library, a directory holding every
/// required library exactly once, plus any unrelated artifacts so long as no
/// logical name repeats, is valid.
pub proof fn lemma_full_std_complete_dir_is_valid(entries: Seq<DirEntry>)
    requires
        forall|j: int|
            0 <= j < spec_expected(true).len() ==> spec_count(entries, spec_expected(true)[j])
                == 1,
        forall|library: Seq<char>| spec_count(entries, library) <= 1,
    ensures
        libraries_ok(entries, true),
{
}

/// For a target not needing the full standard library, {core, alloc} alone
/// suffice: the absence of std, test and proc_macro is not an error.
pub proof fn lemma_no_std_needs_only_core_alloc(entries: Seq<DirEntry>)
    requires
        spec_count(entries, "core"@) == 1,
        spec_count(entries, "alloc"@) == 1,
        spec_count(entries, "std"@) == 0,
        spec_count(entries, "test"@) == 0,
        spec_count(entries, "proc_macro"@) == 0,
        forall|library: Seq<char>| spec_count(entries, library) <= 1,
    ensures
        libraries_ok(entries, false),
{
    assert(spec_expected(false)[0] == "core"@);
    assert(spec_expected(false)[1] == "alloc"@);
}

/// When exactly one logical name is duplicated, the duplicate error names
/// exactly that name: any name a valid duplicate report may carry is it.
pub proof fn lemma_duplicate_names_the_duplicated(
    entries: Seq<DirEntry>,
    duplicated: Seq<char>,
    reported: Seq<char>,
)
    requires
        spec_count(entries, duplicated) >= 2,
        forall|other: Seq<char>| other != duplicated ==> spec_count(entries, other) <= 1,
        spec_count(entries, reported) >= 2,
    ensures
        reported == duplicated,
{
}

/// When exactly one required library is absent, the missing-library error
/// names exactly that library: any name a valid missing report may carry is
/// it.
pub proof fn lemma_missing_names_the_absent(
    entries: Seq<DirEntry>,
    full_std: bool,
    absent: Seq<char>,
    reported: Seq<char>,
)
    requires
        contains_lib(spec_expected(full_std), absent),
        spec_count(entries, absent) == 0,
        forall|j: int|
            0 <= j < spec_expected(full_std).len() && spec_expected(full_std)[j] != absent
                ==> spec_count(entries, spec_expected(full_std)[j]) >= 1,
        contains_lib(spec_expected(full_std), reported),
        spec_count(entries, reported) == 0,
    ensures
        reported == absent,
{
    let w = choose|w: int|
        0 <= w < spec_expected(full_std).len() && spec_expected(full_std)[w] == reported;
    assert(spec_expected(full_std)[w] == reported);
}

} // verus!
