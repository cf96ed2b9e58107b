//! Library filename parsing: decides whether a filesystem entry name encodes
//! a compiled library artifact (`lib<name>-<16 hex digits>.rlib`) and, if so,
//! extracts the logical library name.

use vstd::prelude::*;

verus! {

/// An ASCII hexadecimal digit: 0-9, a-f, A-F.
pub open spec fn spec_is_hex_digit(c: char) -> bool {
    ('0' <= c && c <= '9') || ('a' <= c && c <= 'f') || ('A' <= c && c <= 'F')
}

/// Every character of `s` is an ASCII hexadecimal digit.
pub open spec fn all_hex_digits(s: Seq<char>) -> bool {
    forall|i: int| 0 <= i < s.len() ==> spec_is_hex_digit(s[i])
}

/// `s` contains at least one `-`.
pub open spec fn has_dash(s: Seq<char>) -> bool {
    exists|i: int| 0 <= i < s.len() && s[i] == '-'
}

/// The index of the last `-` in `s`; meaningful only when `has_dash(s)`.
pub open spec fn last_dash_index(s: Seq<char>) -> int
    recommends
        has_dash(s),
    decreases s.len(),
{
    if s.len() == 0 {
        0
    } else if s[s.len() - 1] == '-' {
        s.len() - 1
    } else {
        last_dash_index(s.drop_last())
    }
}

/// The characters of the mandatory `lib` prefix.
pub open spec fn lib_prefix() -> Seq<char> {
    seq!['l', 'i', 'b']
}

/// The characters of the mandatory `.rlib` suffix.
pub open spec fn rlib_suffix() -> Seq<char> {
    seq!['.', 'r', 'l', 'i', 'b']
}

/// Splits the stem between the `lib` prefix and the `.rlib` suffix at its
/// last `-` into (library name, hash) and accepts it when the hash is exactly
/// 16 hexadecimal digits and the library name is non-empty.
pub open spec fn spec_split_stem(stem: Seq<char>) -> Option<Seq<char>> {
    if has_dash(stem) {
        let d = last_dash_index(stem);
        let library = stem.subrange(0, d);
        let hash = stem.subrange(d + 1, stem.len() as int);
        if hash.len() == 16 && all_hex_digits(hash) && library.len() > 0 {
            Some(library)
        } else {
            None
        }
    } else {
        None
    }
}

/// The logical library name encoded by a file name, if any: the name must be
/// `lib<library>-<hash>.rlib` with a 16-hex-digit hash and a non-empty
/// library name. Any other shape is not a library artifact.
pub open spec fn spec_extract_library_name(name: Seq<char>) -> Option<Seq<char>> {
    if name.len() >= 8 && name.subrange(0, 3) == lib_prefix() && name.subrange(
        name.len() - 5,
        name.len() as int,
    ) == rlib_suffix() {
        spec_split_stem(name.subrange(3, name.len() - 5))
    } else {
        None
    }
}

/// The last dash of a sequence is a dash, and nothing after it is one.
pub proof fn lemma_last_dash_properties(s: Seq<char>)
    requires
        has_dash(s),
    ensures
        0 <= last_dash_index(s) < s.len(),
        s[last_dash_index(s)] == '-',
        forall|j: int| last_dash_index(s) < j < s.len() ==> s[j] != '-',
    decreases s.len(),
{
    if s.len() == 0 {
        assert(false);
    } else if s[s.len() - 1] == '-' {
    } else {
        let w = choose|i: int| 0 <= i < s.len() && s[i] == '-';
        assert(s.drop_last()[w] == '-');
        lemma_last_dash_properties(s.drop_last());
        let l = last_dash_index(s.drop_last());
        assert(s[l] == '-');
        assert forall|j: int| l < j < s.len() implies s[j] != '-' by {
            if j < s.len() - 1 {
                assert(s.drop_last()[j] != '-');
            }
        }
    }
}

/// Any position that holds a dash with no dash after it is the last dash.
pub proof fn lemma_last_dash_unique(s: Seq<char>, d: int)
    requires
        0 <= d < s.len(),
        s[d] == '-',
        forall|j: int| d < j < s.len() ==> s[j] != '-',
    ensures
        last_dash_index(s) == d,
{
    assert(has_dash(s));
    lemma_last_dash_properties(s);
    let l = last_dash_index(s);
    if l < d {
        assert(s[d] != '-');
        assert(false);
    } else if l > d {
        assert(s[l] != '-');
        assert(false);
    }
}

/// Whether `c` is an ASCII hexadecimal digit.
pub fn is_hex_digit(c: char) -> (r: bool)
    ensures
        r == spec_is_hex_digit(c),
{
    ('0' <= c && c <= '9') || ('a' <= c && c <= 'f') || ('A' <= c && c <= 'F')
}

/// Extracts the logical library name from a file name when the name encodes
/// a compiled library artifact; returns `None` for any other file name, which
/// callers skip silently.
#[verifier::loop_isolation(false)]
pub fn extract_library_name(file_name: &str) -> (r: Option<String>)
    ensures
        match r {
            Some(library) => spec_extract_library_name(file_name@) == Some(library@),
            None => spec_extract_library_name(file_name@) is None,
        },
{
    let n = file_name.unicode_len();
    if n < 8 {
        return None;
    }
    if !(file_name.get_char(0) == 'l' && file_name.get_char(1) == 'i' && file_name.get_char(2)
        == 'b') {
        assert(file_name@.subrange(0, 3) != lib_prefix());
        return None;
    }
    if !(file_name.get_char(n - 5) == '.' && file_name.get_char(n - 4) == 'r' && file_name.get_char(
        n - 3,
    ) == 'l' && file_name.get_char(n - 2) == 'i' && file_name.get_char(n - 1) == 'b') {
        assert(file_name@.subrange(n - 5, n as int) != rlib_suffix());
        return None;
    }
    assert(file_name@.subrange(0, 3) =~= lib_prefix());
    assert(file_name@.subrange(n - 5, n as int) =~= rlib_suffix());
    let ghost stem = file_name@.subrange(3, n - 5);

    // Find the last `-` in the stem, scanning from its end.
    let mut j: usize = n - 5;
    let mut dash_at: usize = 0;
    let mut found: bool = false;
    while !found && j > 3
        invariant
            3 <= j <= n - 5,
            forall|t: int| j <= t < n - 5 ==> file_name@[t] != '-',
            found ==> j > 3 && dash_at == j - 1 && file_name@[dash_at as int] == '-',
        decreases (if found { 0int } else { j as int }),
    {
        if file_name.get_char(j - 1) == '-' {
            dash_at = j - 1;
            found = true;
        } else {
            j -= 1;
        }
    }
    assert(forall|i: int| 0 <= i < stem.len() ==> stem[i] == file_name@[i + 3]);
    if !found {
        assert forall|i: int| 0 <= i < stem.len() implies stem[i] != '-' by {
            assert(stem[i] == file_name@[i + 3]);
        }
        assert(!has_dash(stem));
        return None;
    }
    assert(3 <= dash_at < n - 5);
    assert(file_name@[dash_at as int] == '-');
    proof {
        assert(stem[dash_at - 3] == '-');
        assert(forall|i: int| dash_at - 3 < i < stem.len() ==> stem[i] != '-');
        lemma_last_dash_unique(stem, dash_at - 3);
        assert(has_dash(stem));
    }

    // The hash between the last `-` and `.rlib` must be exactly 16 hex digits.
    let ghost hash = stem.subrange(dash_at - 3 + 1, stem.len() as int);
    if n - 5 - dash_at - 1 != 16 {
        assert(hash.len() != 16);
        return None;
    }
    assert(hash.len() == 16);
    let mut k: usize = dash_at + 1;
    while k < n - 5
        invariant
            dash_at + 1 <= k <= n - 5,
            forall|t: int| dash_at + 1 <= t < k ==> spec_is_hex_digit(file_name@[t]),
        decreases n - 5 - k,
    {
        if !is_hex_digit(file_name.get_char(k)) {
            assert(hash[k - dash_at - 1] == file_name@[k as int]);
            assert(!all_hex_digits(hash));
            return None;
        }
        k += 1;
    }
    assert(forall|i: int| 0 <= i < hash.len() ==> hash[i] == file_name@[i + dash_at + 1]);
    assert(all_hex_digits(hash));

    // The library name before the last `-` must be non-empty.
    if dash_at == 3 {
        assert(stem.subrange(0, 0).len() == 0);
        return None;
    }
    let library = file_name.substring_char(3, dash_at);
    assert(library@ =~= stem.subrange(0, dash_at - 3));
    Some(library.to_owned())
}

} // verus!
