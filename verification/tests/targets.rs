use sysroot_check::checks::{
    check, check_target, expected_libraries, lib_dir_path, success_message, target_dir_path,
    CheckTargetOutcome, DirListing, Error,
};
use sysroot_check::parser::extract_library_name;
use sysroot_check::registry::{supported_targets, Linker, TargetSpec};
use sysroot_check::scanner::{find_libraries_in, DirEntry};

fn lib_entry(name: &str, hash: &str) -> DirEntry {
    DirEntry { name: format!("lib{}-{}.rlib", name, hash), is_file: true }
}

#[test]
fn test_check_target_std() {
    let target = TargetSpec {
        triple: "x86_64-unknown-linux-gnu".to_string(),
        full_std: true,
        linker: Linker::BundledLld,
    };

    let listing = DirListing::Entries(vec![
        lib_entry("core", "0123456789abcdef"),
        lib_entry("alloc", "0123456789abcdef"),
        lib_entry("std", "0123456789abcdef"),
        lib_entry("test", "0123456789abcdef"),
        lib_entry("proc_macro", "0123456789abcdef"),
        lib_entry("other", "0123456789abcdef"), // Unknown libraries are ignored
    ]);

    assert_eq!(
        CheckTargetOutcome::Found,
        check_target("/sysroot", &target, &listing).unwrap()
    );
    assert_eq!(
        success_message(target.triple.as_str()),
        "target installed correctly: x86_64-unknown-linux-gnu"
    );
}

#[test]
fn test_check_target_no_std() {
    let target = TargetSpec {
        triple: "x86_64-unknown-none".to_string(),
        full_std: false,
        linker: Linker::BundledLld,
    };

    let listing = DirListing::Entries(vec![
        lib_entry("core", "0123456789abcdef"),
        lib_entry("alloc", "0123456789abcdef"),
        lib_entry("other", "0123456789abcdef"), // Unknown libraries are ignored
    ]);

    assert_eq!(
        CheckTargetOutcome::Found,
        check_target("/sysroot", &target, &listing).unwrap()
    );
    assert_eq!(
        success_message(target.triple.as_str()),
        "target installed correctly: x86_64-unknown-none"
    );
}

#[test]
fn test_check_target_missing_library() {
    let target = TargetSpec {
        triple: "x86_64-unknown-none".to_string(),
        full_std: false,
        linker: Linker::BundledLld,
    };

    let listing = DirListing::Entries(vec![lib_entry("core", "0123456789abcdef")]);

    match check_target("/sysroot", &target, &listing) {
        Err(Error::TargetLibraryMissing { target, library }) => {
            assert_eq!(target, "x86_64-unknown-none");
            assert_eq!(library, "alloc");
        }
        other => panic!("unexpected result: {other:?}"),
    }
}

#[test]
fn test_check_target_duplicate_required_library() {
    let target = TargetSpec {
        triple: "x86_64-unknown-none".to_string(),
        full_std: false,
        linker: Linker::BundledLld,
    };

    let listing = DirListing::Entries(vec![
        lib_entry("core", "0123456789abcdef"),
        lib_entry("core", "abcdef0123456789"),
        lib_entry("alloc", "0123456789abcdef"),
    ]);

    match check_target("/sysroot", &target, &listing) {
        Err(Error::DuplicateTargetLibrary { target, library }) => {
            assert_eq!(target, "x86_64-unknown-none");
            assert_eq!(library, "core");
        }
        other => panic!("unexpected result: {other:?}"),
    }
}

#[test]
fn test_check_target_duplicate_other_library() {
    let target = TargetSpec {
        triple: "x86_64-unknown-none".to_string(),
        full_std: false,
        linker: Linker::BundledLld,
    };

    let listing = DirListing::Entries(vec![
        lib_entry("core", "0123456789abcdef"),
        lib_entry("other", "0123456789abcdef"),
        lib_entry("other", "abcdef0123456789"),
        lib_entry("alloc", "0123456789abcdef"),
    ]);

    match check_target("/sysroot", &target, &listing) {
        Err(Error::DuplicateTargetLibrary { target, library }) => {
            assert_eq!(target, "x86_64-unknown-none");
            assert_eq!(library, "other");
        }
        other => panic!("unexpected result: {other:?}"),
    }
}

#[test]
fn test_find_libraries_in() {
    let entries = vec![
        lib_entry("core", "0123456789abcdef"),
        lib_entry("core", "abcdef0123456789"),
        lib_entry("alloc", "0123456789abcdef"),
        lib_entry("proc_macro", "0123456789abcdef"),
        // Invalid files are not counted.
        DirEntry { name: "foo-0123456789abcdef.so".to_string(), is_file: true },
    ];

    let output = find_libraries_in(&entries);
    assert_eq!(3, output.len());
    assert_eq!(2, output.get(&"core".to_string()));
    assert_eq!(1, output.get(&"alloc".to_string()));
    assert_eq!(1, output.get(&"proc_macro".to_string()));
    assert_eq!(0, output.get(&"foo".to_string()));
}

#[test]
fn test_extract_library_name() {
    assert_eq!(
        Some("core".to_string()),
        extract_library_name("libcore-0123456789abcdef.rlib")
    );
    assert_eq!(
        Some("proc_macro".to_string()),
        extract_library_name("libproc_macro-0123456789abcdef.rlib")
    );

    let assert_fail = |name: &str| {
        assert!(
            extract_library_name(name).is_none(),
            "{name} is treated as valid but should be wrong"
        )
    };
    assert_fail("libcore-0123456789abcde.rlib"); // Hash too short
    assert_fail("libcore-0123456789abcdef0.rlib"); // Hash too long
    assert_fail("libcore-0123456789abcdeg.rlib"); // Non-hexdigit in hash
    assert_fail("core-0123456789abcdef.rlib"); // No "lib" prefix
    assert_fail("lib-0123456789abcdef.rlib"); // No library name
    assert_fail("libcore-0123456789abcdef.so"); // Different extension
    assert_fail("libcore-0123456789abcdef"); // No extension
}

#[test]
fn test_extract_library_name_more_shapes() {
    // Upper-case hex digits are accepted.
    assert_eq!(
        Some("core".to_string()),
        extract_library_name("libcore-0123456789ABCDEF.rlib")
    );
    // The split happens at the last dash, so dashes in the name survive.
    assert_eq!(
        Some("foo-bar".to_string()),
        extract_library_name("libfoo-bar-0123456789abcdef.rlib")
    );
    // The shortest valid shape: a one-character library name.
    assert_eq!(
        Some("a".to_string()),
        extract_library_name("liba-0123456789abcdef.rlib")
    );
    assert_eq!(None, extract_library_name(""));
    assert_eq!(None, extract_library_name("lib.rlib"));
}

#[test]
fn test_non_file_entries_are_skipped() {
    let entries = vec![
        DirEntry { name: "libcore-0123456789abcdef.rlib".to_string(), is_file: false },
        lib_entry("alloc", "0123456789abcdef"),
    ];
    let output = find_libraries_in(&entries);
    assert_eq!(1, output.len());
    assert_eq!(0, output.get(&"core".to_string()));
    assert_eq!(1, output.get(&"alloc".to_string()));
}

#[test]
fn test_check_target_absent_directory_is_silently_missing() {
    let target = TargetSpec {
        triple: "x86_64-unknown-none".to_string(),
        full_std: false,
        linker: Linker::BundledLld,
    };

    assert_eq!(
        CheckTargetOutcome::Missing,
        check_target("/sysroot", &target, &DirListing::Absent).unwrap()
    );
}

#[test]
fn test_check_target_unreadable_lib_dir() {
    let target = TargetSpec {
        triple: "x86_64-unknown-none".to_string(),
        full_std: false,
        linker: Linker::BundledLld,
    };

    let listing = DirListing::Unreadable("permission denied".to_string());
    match check_target("/sysroot", &target, &listing) {
        Err(Error::TargetLibraryDiscoveryFailed { path, error }) => {
            assert_eq!(path, "/sysroot/lib/rustlib/x86_64-unknown-none/lib");
            assert_eq!(error, "permission denied");
        }
        other => panic!("unexpected result: {other:?}"),
    }
}

#[test]
fn test_paths() {
    assert_eq!(
        target_dir_path("/sysroot", "x86_64-unknown-linux-gnu"),
        "/sysroot/lib/rustlib/x86_64-unknown-linux-gnu"
    );
    assert_eq!(
        lib_dir_path("/sysroot", "x86_64-unknown-linux-gnu"),
        "/sysroot/lib/rustlib/x86_64-unknown-linux-gnu/lib"
    );
}

#[test]
fn test_expected_libraries() {
    let full: Vec<String> = expected_libraries(true);
    assert_eq!(full, vec!["core", "alloc", "std", "test", "proc_macro"]);
    let minimal: Vec<String> = expected_libraries(false);
    assert_eq!(minimal, vec!["core", "alloc"]);
}

#[test]
fn test_supported_targets_registry() {
    let targets = supported_targets();
    assert_eq!(3, targets.len());
    assert_eq!(targets[0].triple, "x86_64-unknown-linux-gnu");
    assert!(targets[0].full_std);
    assert_eq!(targets[1].triple, "aarch64-unknown-linux-gnu");
    assert!(targets[1].full_std);
    assert_eq!(targets[2].triple, "aarch64-unknown-none");
    assert!(!targets[2].full_std);
    match &targets[2].linker {
        Linker::BundledLld => {}
        other => panic!("unexpected result: {other:?}"),
    }
}

fn full_std_entries() -> Vec<DirEntry> {
    vec![
        lib_entry("core", "0123456789abcdef"),
        lib_entry("alloc", "0123456789abcdef"),
        lib_entry("std", "0123456789abcdef"),
        lib_entry("test", "0123456789abcdef"),
        lib_entry("proc_macro", "0123456789abcdef"),
    ]
}

#[test]
fn test_check_skips_absent_targets_silently() {
    let listings = vec![
        DirListing::Entries(full_std_entries()),
        DirListing::Absent,
        DirListing::Entries(vec![
            lib_entry("core", "0123456789abcdef"),
            lib_entry("alloc", "0123456789abcdef"),
        ]),
    ];

    let found = check("/sysroot", &listings).unwrap();
    assert_eq!(2, found.len());
    assert_eq!(found[0].target_spec.triple, "x86_64-unknown-linux-gnu");
    assert_eq!(found[1].target_spec.triple, "aarch64-unknown-none");
    assert!(found[0].rustflags.is_empty());
    assert!(found[1].rustflags.is_empty());
}

#[test]
fn test_check_stops_at_first_fatal_error() {
    let listings = vec![
        DirListing::Entries(full_std_entries()),
        DirListing::Entries(vec![
            lib_entry("core", "0123456789abcdef"),
            lib_entry("core", "abcdef0123456789"),
        ]),
        DirListing::Entries(vec![
            lib_entry("core", "0123456789abcdef"),
            lib_entry("alloc", "0123456789abcdef"),
        ]),
    ];

    match check("/sysroot", &listings) {
        Err(Error::DuplicateTargetLibrary { target, library }) => {
            assert_eq!(target, "aarch64-unknown-linux-gnu");
            assert_eq!(library, "core");
        }
        other => panic!("unexpected result: {other:?}"),
    }
}

#[test]
fn test_duplicate_wins_over_missing() {
    let target = TargetSpec {
        triple: "x86_64-unknown-none".to_string(),
        full_std: false,
        linker: Linker::BundledLld,
    };

    // "alloc" is missing too, but the duplicate is reported first.
    let listing = DirListing::Entries(vec![
        lib_entry("core", "0123456789abcdef"),
        lib_entry("core", "abcdef0123456789"),
    ]);

    match check_target("/sysroot", &target, &listing) {
        Err(Error::DuplicateTargetLibrary { target, library }) => {
            assert_eq!(target, "x86_64-unknown-none");
            assert_eq!(library, "core");
        }
        other => panic!("unexpected result: {other:?}"),
    }
}

#[test]
fn test_several_missing_names_one_of_them() {
    let target = TargetSpec {
        triple: "x86_64-unknown-none".to_string(),
        full_std: false,
        linker: Linker::BundledLld,
    };

    // Which missing library is named first is left open by design.
    let listing = DirListing::Entries(vec![lib_entry("other", "0123456789abcdef")]);
    match check_target("/sysroot", &target, &listing) {
        Err(Error::TargetLibraryMissing { target, library }) => {
            assert_eq!(target, "x86_64-unknown-none");
            assert!(library == "core" || library == "alloc");
        }
        other => panic!("unexpected result: {other:?}"),
    }
}

#[test]
fn test_check_with_nothing_installed() {
    let listings = vec![DirListing::Absent, DirListing::Absent, DirListing::Absent];
    let found = check("/sysroot", &listings).unwrap();
    assert!(found.is_empty());
}

#[test]
fn test_check_reports_discovery_failure_with_path() {
    let listings = vec![
        DirListing::Entries(full_std_entries()),
        DirListing::Absent,
        DirListing::Unreadable("not a directory".to_string()),
    ];

    match check("/sysroot", &listings) {
        Err(Error::TargetLibraryDiscoveryFailed { path, error }) => {
            assert_eq!(path, "/sysroot/lib/rustlib/aarch64-unknown-none/lib");
            assert_eq!(error, "not a directory");
        }
        other => panic!("unexpected result: {other:?}"),
    }
}
