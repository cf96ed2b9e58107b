//! The fixed, ordered registry of supported target platforms: each entry
//! names the platform triple, says whether the platform needs the full
//! standard library, and carries the linker configuration the platform uses.
//! The registry's order is the order in which targets are checked.

use vstd::prelude::*;

verus! {

/// How a GNU toolchain linker is driven: opaque configuration carried along
/// for the linker checks, not read by the target verification itself.
#[derive(Debug, Clone, PartialEq, Eq, Structural, Copy)]
pub enum GccMode {
    Normal,
}

/// The linker configuration of a target platform; opaque to the library
/// verification, which only carries it along.
#[derive(Debug)]
pub enum Linker {
    GccUbuntu18 { target: String, mode: GccMode },
    BundledLld,
}

/// One supported target platform: its triple, whether it needs the full
/// standard library, and its linker configuration.
#[derive(Debug)]
pub struct TargetSpec {
    pub triple: String,
    pub full_std: bool,
    pub linker: Linker,
}

/// How many target platforms the registry holds.
pub open spec fn spec_registry_len() -> int {
    3
}

/// The triple of the registry entry at position `i`.
pub open spec fn spec_triple(i: int) -> Seq<char> {
    if i == 0 {
        "x86_64-unknown-linux-gnu"@
    } else if i == 1 {
        "aarch64-unknown-linux-gnu"@
    } else {
        "aarch64-unknown-none"@
    }
}

/// Whether the registry entry at position `i` needs the full standard
/// library.
pub open spec fn spec_full_std(i: int) -> bool {
    i == 0 || i == 1
}

/// Whether `linker` is the linker configuration of the registry entry at
/// position `i`.
pub open spec fn spec_linker_matches(i: int, linker: Linker) -> bool {
    if i == 0 {
        linker matches Linker::GccUbuntu18 { target, mode } && target@ == "x86_64-linux-gnu"@
            && mode == GccMode::Normal
    } else if i == 1 {
        linker matches Linker::GccUbuntu18 { target, mode } && target@ == "aarch64-linux-gnu"@
            && mode == GccMode::Normal
    } else {
        linker matches Linker::BundledLld
    }
}

/// The registry entry at position `i`, freshly constructed: the registry is
/// constant data, identical on every call.
pub fn supported_target(i: usize) -> (t: TargetSpec)
    requires
        i < spec_registry_len(),
    ensures
        t.triple@ == spec_triple(i as int),
        t.full_std == spec_full_std(i as int),
        spec_linker_matches(i as int, t.linker),
{
    if i == 0 {
        TargetSpec {
            triple: String::from_str("x86_64-unknown-linux-gnu"),
            full_std: true,
            linker: Linker::GccUbuntu18 {
                target: String::from_str("x86_64-linux-gnu"),
                mode: GccMode::Normal,
            },
        }
    } else if i == 1 {
        TargetSpec {
            triple: String::from_str("aarch64-unknown-linux-gnu"),
            full_std: true,
            linker: Linker::GccUbuntu18 {
                target: String::from_str("aarch64-linux-gnu"),
                mode: GccMode::Normal,
            },
        }
    } else {
        TargetSpec {
            triple: String::from_str("aarch64-unknown-none"),
            full_std: false,
            linker: Linker::BundledLld,
        }
    }
}

/// The whole registry, in checking order.
pub fn supported_targets() -> (ts: Vec<TargetSpec>)
    ensures
        ts@.len() == spec_registry_len(),
        forall|i: int|
            0 <= i < ts@.len() ==> ts@[i].triple@ == spec_triple(i) && ts@[i].full_std
                == spec_full_std(i) && spec_linker_matches(i, ts@[i].linker),
{
    let mut ts: Vec<TargetSpec> = Vec::new();
    ts.push(supported_target(0));
    ts.push(supported_target(1));
    ts.push(supported_target(2));
    ts
}

/// No two registry entries share a triple.
pub proof fn lemma_registry_triples_unique()
    ensures
        forall|i: int, j: int|
            0 <= i < spec_registry_len() && 0 <= j < spec_registry_len() && i != j ==> spec_triple(
                i,
            ) != spec_triple(j),
{
    reveal_strlit("x86_64-unknown-linux-gnu");
    reveal_strlit("aarch64-unknown-linux-gnu");
    reveal_strlit("aarch64-unknown-none");
    assert(spec_triple(0).len() == 24);
    assert(spec_triple(1).len() == 25);
    assert(spec_triple(2).len() == 20);
}

} // verus!
