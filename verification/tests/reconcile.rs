//! The reconciliation cycle end to end: pruning diffs, the resolution
//! decision, the download plan, and all-or-nothing persistence.

use dependencies::acquire::{collect_batch, packages_to_fetch, FetchOutcome, FetchStatus, Untar};
use dependencies::error::{Error, Stage};
use dependencies::manifest::{decide, Decision, LocalPackages, Manifest};
use dependencies::store::Store;
use dependencies::table::Table;
use dependencies::version::Version;

fn table_of(entries: &[(&str, &str)]) -> Table {
    let mut t = Table::new();
    for (n, v) in entries {
        assert!(t.insert(n.to_string(), v.to_string()));
    }
    t
}

fn manifest_of(reqs: &[(&str, &str)], pkgs: &[(&str, &str)]) -> Manifest {
    let mut m = Manifest::from_resolution(table_of(reqs), Table::new());
    for (n, v) in pkgs {
        let version = Version::parse(v).unwrap();
        assert!(m.insert_package(n.to_string(), version));
    }
    m
}

#[test]
fn extra_local_packages() {
    let mut extra = LocalPackages {
        packages: table_of(&[
            ("local1", "1.0.0"),
            ("local2", "2.0.0"),
            ("local3", "3.0.0"),
        ]),
    }
    .extra_local_packages(&manifest_of(
        &[],
        &[("local1", "1.0.0"), ("local2", "3.0.0")],
    ));
    extra.sort();
    assert_eq!(
        extra,
        vec![
            ("local2".to_string(), "2.0.0".to_string()),
            ("local3".to_string(), "3.0.0".to_string()),
        ]
    )
}

#[test]
fn extra_local_packages_empty_ledger() {
    let extra = LocalPackages { packages: Table::new() }
        .extra_local_packages(&manifest_of(&[], &[("a", "1.0.0")]));
    assert!(extra.is_empty());
}

#[test]
fn decide_without_stored_manifest_resolves() {
    let current = table_of(&[("gleam_stdlib", "~> 0.14")]);
    assert!(matches!(decide(&current, &None), Decision::Resolve));
}

#[test]
fn decide_reuses_unchanged_requirements() {
    let current = table_of(&[("gleam_stdlib", "~> 0.14"), ("gleeunit", "~> 0.6")]);
    let stored = manifest_of(
        &[("gleeunit", "~> 0.6"), ("gleam_stdlib", "~> 0.14")],
        &[("gleam_stdlib", "0.14.0"), ("gleeunit", "0.6.1")],
    );
    assert!(matches!(decide(&current, &Some(stored)), Decision::Reuse));
}

#[test]
fn decide_resolves_on_changed_constraint() {
    let current = table_of(&[("gleam_stdlib", "~> 0.15")]);
    let stored = manifest_of(&[("gleam_stdlib", "~> 0.14")], &[("gleam_stdlib", "0.14.0")]);
    assert!(matches!(decide(&current, &Some(stored)), Decision::Resolve));
}

#[test]
fn decide_resolves_on_added_requirement() {
    let current = table_of(&[("gleam_stdlib", "~> 0.14"), ("gleeunit", "~> 0.6")]);
    let stored = manifest_of(&[("gleam_stdlib", "~> 0.14")], &[("gleam_stdlib", "0.14.0")]);
    assert!(matches!(decide(&current, &Some(stored)), Decision::Resolve));
}

#[test]
fn reuse_rewrites_identical_bytes() {
    // A second run with unchanged requirements reuses the stored manifest
    // and writes back exactly the bytes of the first run.
    let m = manifest_of(&[("gleam_stdlib", "~> 0.14")], &[("gleam_stdlib", "0.14.0")]);
    let first = dependencies::codec::render_manifest(&m);
    let reread = dependencies::codec::parse_manifest(first.as_str()).unwrap();
    let current = table_of(&[("gleam_stdlib", "~> 0.14")]);
    assert!(matches!(decide(&current, &Some(reread)), Decision::Reuse));
    let reread_again = dependencies::codec::parse_manifest(first.as_str()).unwrap();
    let second = dependencies::codec::render_manifest(&reread_again);
    assert_eq!(first, second);
}

#[test]
fn plan_skips_fully_cached_manifest() {
    let m = manifest_of(&[], &[("a", "1.0.0"), ("b", "2.0.0")]);
    let cache = vec![
        ("a".to_string(), "1.0.0".to_string()),
        ("b".to_string(), "2.0.0".to_string()),
        ("c".to_string(), "9.9.9".to_string()),
    ];
    let plan = packages_to_fetch(&m, &cache);
    assert_eq!(plan.len(), 0);
}

#[test]
fn plan_fetches_missing_and_wrong_version() {
    let m = manifest_of(&[], &[("a", "1.0.0"), ("b", "2.0.0"), ("c", "3.0.0")]);
    let cache = vec![
        ("a".to_string(), "1.0.0".to_string()),
        ("b".to_string(), "1.9.0".to_string()),
    ];
    let mut plan = packages_to_fetch(&m, &cache);
    plan.sort();
    assert_eq!(
        plan,
        vec![
            ("b".to_string(), "2.0.0".to_string()),
            ("c".to_string(), "3.0.0".to_string()),
        ]
    );
}

#[test]
fn batch_counts_fetches() {
    let outcomes = vec![
        FetchOutcome {
            name: "a".to_string(),
            version: "1.0.0".to_string(),
            status: FetchStatus::Fetched,
        },
        FetchOutcome {
            name: "b".to_string(),
            version: "2.0.0".to_string(),
            status: FetchStatus::Fetched,
        },
    ];
    assert_eq!(collect_batch(&outcomes), Ok(2));
}

#[test]
fn batch_reports_first_failure() {
    let outcomes = vec![
        FetchOutcome {
            name: "a".to_string(),
            version: "1.0.0".to_string(),
            status: FetchStatus::Fetched,
        },
        FetchOutcome {
            name: "b".to_string(),
            version: "2.0.0".to_string(),
            status: FetchStatus::Failed(Stage::Signature),
        },
        FetchOutcome {
            name: "c".to_string(),
            version: "3.0.0".to_string(),
            status: FetchStatus::Failed(Stage::Network),
        },
    ];
    assert_eq!(
        collect_batch(&outcomes),
        Err(Error::PackageFailed {
            package: "b".to_string(),
            version: "2.0.0".to_string(),
            stage: Stage::Signature,
        })
    );
}

#[test]
fn batch_failure_stages() {
    for stage in [Stage::Network, Stage::Signature, Stage::Extraction] {
        let outcomes = vec![FetchOutcome {
            name: "a".to_string(),
            version: "1.0.0".to_string(),
            status: FetchStatus::Failed(stage),
        }];
        assert_eq!(
            collect_batch(&outcomes),
            Err(Error::PackageFailed {
                package: "a".to_string(),
                version: "1.0.0".to_string(),
                stage,
            })
        );
    }
}

#[test]
fn commit_writes_both_records_on_success() {
    let m = manifest_of(&[("a", "~> 1.0")], &[("a", "1.0.0")]);
    let mut store = Store::new();
    let outcomes = vec![FetchOutcome {
        name: "a".to_string(),
        version: "1.0.0".to_string(),
        status: FetchStatus::Fetched,
    }];
    assert_eq!(store.commit(&m, &outcomes), Ok(1));
    assert_eq!(
        store.manifest_file.as_deref(),
        Some(dependencies::codec::render_manifest(&m).as_str())
    );
    assert_eq!(
        store.ledger_file.as_deref(),
        Some("[packages]\na = \"1.0.0\"\n")
    );
}

#[test]
fn commit_leaves_store_untouched_on_failure() {
    // All-or-nothing persistence: a failed acquisition updates neither
    // record; the previously stored state stays readable and valid.
    let old_manifest = manifest_of(&[("a", "~> 1.0")], &[("a", "1.0.0")]);
    let mut store = Store::new();
    let ok = vec![FetchOutcome {
        name: "a".to_string(),
        version: "1.0.0".to_string(),
        status: FetchStatus::Fetched,
    }];
    store.commit(&old_manifest, &ok).unwrap();
    let manifest_before = store.manifest_file.clone();
    let ledger_before = store.ledger_file.clone();

    let new_manifest = manifest_of(&[("a", "~> 2.0")], &[("a", "2.0.0")]);
    let failing = vec![FetchOutcome {
        name: "a".to_string(),
        version: "2.0.0".to_string(),
        status: FetchStatus::Failed(Stage::Extraction),
    }];
    assert!(store.commit(&new_manifest, &failing).is_err());
    assert_eq!(store.manifest_file, manifest_before);
    assert_eq!(store.ledger_file, ledger_before);
    let reread = store.read_manifest().unwrap().unwrap();
    assert!(old_manifest.packages.same_mapping(&reread.packages));
}

#[test]
fn boxed_untar_is_the_unpacker() {
    let unpacker: Box<Untar> = Untar::boxed();
    let _ = unpacker;
}
