use sb::cache::{content_hash, dependency_fingerprint, diff_hashes, hash_strings, SourceHashes};
use sb::compile::{compiler_args, compiling_message};
use sb::incremental::{
    companion_prefix, initial_dirty, is_companion_class, may_start_round, merge_round, next_dirty, plan_build,
    ArtifactRecord, BuildError, BuildPlan, IncrementalState, SourceRecord,
};

fn s(x: &str) -> String {
    x.to_string()
}

fn hashes(items: &[(&str, u64)]) -> SourceHashes {
    let mut h = SourceHashes::new();
    for (p, v) in items {
        h.insert(s(p), *v);
    }
    h
}

fn record(path: &str, hash: u64, api: Option<u64>, deps: &[&str]) -> SourceRecord {
    let stem = path.trim_end_matches(".scala").rsplit('/').next().unwrap();
    SourceRecord {
        path: s(path),
        content_hash: hash,
        api_hash: api,
        artifacts: vec![ArtifactRecord { path: format!("{stem}.tasty"), deps_out: deps.iter().map(|d| s(d)).collect() }],
    }
}

/// Top -> Middle -> Base
fn three_files() -> IncrementalState {
    IncrementalState {
        dep_hash: 7,
        sources: vec![
            record("src/Base.scala", 1, Some(10), &[]),
            record("src/Middle.scala", 2, Some(20), &["src/Base.scala"]),
            record("src/Top.scala", 3, Some(30), &["src/Middle.scala"]),
        ],
    }
}

fn three_hashes() -> SourceHashes {
    hashes(&[("src/Base.scala", 1), ("src/Middle.scala", 2), ("src/Top.scala", 3)])
}

#[test]
fn diff_sorts_changed_added_deleted() {
    let old = hashes(&[("b", 1), ("a", 2), ("d", 4)]);
    let new = hashes(&[("c", 3), ("b", 9), ("a", 2), ("e", 5)]);
    let (changed, added, deleted) = diff_hashes(&old, &new);
    assert_eq!(changed, vec![s("b")]);
    assert_eq!(added, vec![s("c"), s("e")]);
    assert_eq!(deleted, vec![s("d")]);
}

#[test]
fn source_hashes_insert_replaces() {
    let mut h = hashes(&[("a", 1)]);
    h.insert(s("a"), 2);
    assert_eq!(h.len(), 1);
    assert_eq!(h.get("a"), Some(2));
    assert_eq!(h.get("b"), None);
}

#[test]
fn empty_source_set_is_fatal() {
    let h = SourceHashes::new();
    assert_eq!(plan_build(None, 7, true, &h).err(), Some(BuildError::NoSources));
    assert_eq!(BuildError::NoSources.message(), "no source files found");
}

#[test]
fn first_build_is_full() {
    let h = three_hashes();
    assert!(matches!(plan_build(None, 7, false, &h), Ok(BuildPlan::FullRebuild)));
}

#[test]
fn changed_dep_hash_or_missing_output_is_full() {
    let st = three_files();
    let h = three_hashes();
    assert!(matches!(plan_build(Some(&st), 8, true, &h), Ok(BuildPlan::FullRebuild)));
    assert!(matches!(plan_build(Some(&st), 7, false, &h), Ok(BuildPlan::FullRebuild)));
}

#[test]
fn rebuild_without_changes_is_noop() {
    let st = three_files();
    let h = three_hashes();
    assert!(matches!(plan_build(Some(&st), 7, true, &h), Ok(BuildPlan::NothingToCompile)));
}

#[test]
fn single_source_full_then_noop() {
    let h = hashes(&[("src/Main.scala", 5)]);
    assert!(matches!(plan_build(None, 1, false, &h), Ok(BuildPlan::FullRebuild)));
    let rescanned = IncrementalState { dep_hash: 1, sources: vec![record("src/Main.scala", 0, Some(50), &[])] };
    let empty = IncrementalState { dep_hash: 1, sources: vec![] };
    let dirty = vec![s("src/Main.scala")];
    let st = merge_round(&empty, &h, &dirty, &rescanned, 1);
    assert_eq!(st.sources.len(), 1);
    assert_eq!(st.sources[0].content_hash, 5);
    assert!(matches!(plan_build(Some(&st), 1, true, &h), Ok(BuildPlan::NothingToCompile)));
}

#[test]
fn body_change_compiles_one_file() {
    let st = three_files();
    let h = hashes(&[("src/Base.scala", 1), ("src/Middle.scala", 22), ("src/Top.scala", 3)]);
    match plan_build(Some(&st), 7, true, &h) {
        Ok(BuildPlan::Incremental { changed, added, deleted }) => {
            assert_eq!(changed, vec![s("src/Middle.scala")]);
            assert!(added.is_empty() && deleted.is_empty());
            let dirty = initial_dirty(&st, &changed, &added, &deleted);
            assert_eq!(dirty, vec![s("src/Middle.scala")]);
            // the interface did not change: nothing cascades
            let rescanned = IncrementalState {
                dep_hash: 7,
                sources: vec![record("src/Middle.scala", 0, Some(20), &["src/Base.scala"])],
            };
            let after = merge_round(&st, &h, &dirty, &rescanned, 7);
            assert!(next_dirty(&st, &st, &after, &dirty).is_empty());
        }
        _ => panic!("expected an incremental build"),
    }
}

#[test]
fn api_change_cascades_to_dependents() {
    let st = three_files();
    let h = hashes(&[("src/Base.scala", 11), ("src/Middle.scala", 2), ("src/Top.scala", 3)]);
    let dirty = vec![s("src/Base.scala")];
    let rescanned = IncrementalState { dep_hash: 7, sources: vec![record("src/Base.scala", 0, Some(99), &[])] };
    let after = merge_round(&st, &h, &dirty, &rescanned, 7);
    let next = next_dirty(&st, &st, &after, &dirty);
    assert_eq!(next, vec![s("src/Middle.scala")]);
    let rescanned2 = IncrementalState {
        dep_hash: 7,
        sources: vec![record("src/Middle.scala", 0, Some(21), &["src/Base.scala"])],
    };
    let after2 = merge_round(&after, &h, &next, &rescanned2, 7);
    assert_eq!(next_dirty(&st, &after, &after2, &next), vec![s("src/Top.scala")]);
}

#[test]
fn deleted_source_dirties_its_dependents() {
    let st = three_files();
    let none: Vec<String> = vec![];
    let dirty = initial_dirty(&st, &none, &none, &vec![s("src/Base.scala")]);
    assert_eq!(dirty, vec![s("src/Middle.scala")]);
    assert_eq!(st.dependents_of("src/Middle.scala"), vec![s("src/Top.scala")]);
    assert!(st.dependents_of("src/Top.scala").is_empty());
}

#[test]
fn added_standalone_file_compiles_alone() {
    let st = three_files();
    let h = hashes(&[("src/Base.scala", 1), ("src/Middle.scala", 2), ("src/Top.scala", 3), ("src/Extra.scala", 4)]);
    match plan_build(Some(&st), 7, true, &h) {
        Ok(BuildPlan::Incremental { changed, added, deleted }) => {
            assert_eq!(added, vec![s("src/Extra.scala")]);
            assert_eq!(initial_dirty(&st, &changed, &added, &deleted), vec![s("src/Extra.scala")]);
        }
        _ => panic!("expected an incremental build"),
    }
}

#[test]
fn merge_keeps_untouched_and_persists_hashes() {
    let st = three_files();
    let h = hashes(&[("src/Base.scala", 1), ("src/Middle.scala", 22), ("src/Top.scala", 3)]);
    let dirty = vec![s("src/Middle.scala")];
    let rescanned = IncrementalState {
        dep_hash: 7,
        sources: vec![record("src/Middle.scala", 0, Some(20), &["src/Base.scala"])],
    };
    let after = merge_round(&st, &h, &dirty, &rescanned, 7);
    assert_eq!(after.sources.len(), 3);
    let base = &after.sources[after.find("src/Base.scala").unwrap()];
    assert_eq!(base.api_hash, Some(10));
    assert_eq!(base.artifacts[0].path, "Base.tasty");
    let mid = &after.sources[after.find("src/Middle.scala").unwrap()];
    assert_eq!(mid.content_hash, 22);
    let persisted = after.content_hashes();
    let (c, a, d) = diff_hashes(&persisted, &h);
    assert!(c.is_empty() && a.is_empty() && d.is_empty());
}

#[test]
fn add_then_delete_restores_state() {
    let st = three_files();
    let h_add = hashes(&[("src/Base.scala", 1), ("src/Middle.scala", 2), ("src/Top.scala", 3), ("src/Temp.scala", 4)]);
    let dirty = vec![s("src/Temp.scala")];
    let rescanned = IncrementalState { dep_hash: 7, sources: vec![record("src/Temp.scala", 0, Some(40), &[])] };
    let with_temp = merge_round(&st, &h_add, &dirty, &rescanned, 7);
    assert_eq!(with_temp.sources.len(), 4);
    let h = three_hashes();
    let none: Vec<String> = vec![];
    let dirty2 = initial_dirty(&with_temp, &none, &none, &vec![s("src/Temp.scala")]);
    assert!(dirty2.is_empty());
    let empty = IncrementalState { dep_hash: 7, sources: vec![] };
    let back = merge_round(&with_temp, &h, &dirty2, &empty, 7);
    assert_eq!(back.sources.len(), 3);
    for (x, y) in back.sources.iter().zip(st.sources.iter()) {
        assert_eq!(x.path, y.path);
        assert_eq!(x.content_hash, y.content_hash);
        assert_eq!(x.api_hash, y.api_hash);
        assert_eq!(x.artifacts[0].path, y.artifacts[0].path);
        assert_eq!(x.artifacts[0].deps_out, y.artifacts[0].deps_out);
    }
}

#[test]
fn round_cap_stops_after_hundred() {
    let dirty = vec![s("a")];
    assert!(may_start_round(1, &dirty));
    assert!(may_start_round(100, &dirty));
    assert!(!may_start_round(101, &dirty));
    assert!(!may_start_round(1, &vec![]));
}

#[test]
fn stale_artifacts_and_companions() {
    let st = three_files();
    assert_eq!(st.stale_artifacts("src/Base.scala"), vec![s("Base.tasty"), s("Base.class"), s("Base$.class")]);
    assert!(st.stale_artifacts("src/None.scala").is_empty());
    assert_eq!(companion_prefix("pkg/Point.tasty"), "Point$");
    assert!(is_companion_class("Point$Inner.class", "Point$"));
    assert!(!is_companion_class("Point$Inner.tasty", "Point$"));
    assert!(!is_companion_class("Other$.class", "Point$"));
}

#[test]
fn api_hash_lookup() {
    let st = three_files();
    assert_eq!(st.api_hash_for_source("src/Middle.scala"), Some(20));
    assert_eq!(st.api_hash_for_source("src/Gone.scala"), None);
}

#[test]
fn compiling_lines() {
    assert_eq!(compiling_message(1, 1), "Compiling 1 source file...");
    assert_eq!(compiling_message(3, 1), "Compiling 3 source files...");
    assert_eq!(compiling_message(2, 2), "Compiling 2 source files (round 2)...");
}

#[test]
fn compiler_arguments() {
    let args = compiler_args("c.jar", "u.jar", Some("out"), "out", &vec![s("-deprecation")], &vec![s("A.scala")]);
    assert_eq!(args, vec![
        s("--sun-misc-unsafe-memory-access=allow"),
        s("-cp"),
        s("c.jar"),
        s("dotty.tools.dotc.Main"),
        s("-classpath"),
        s("out:u.jar"),
        s("-d"),
        s("out"),
        s("-deprecation"),
        s("A.scala"),
    ]);
    let plain = compiler_args("c.jar", "u.jar", None, "out", &vec![], &vec![]);
    assert_eq!(plain[5], "u.jar");
}

#[test]
fn hashing_is_deterministic_and_sensitive() {
    assert_eq!(content_hash(b"abc"), content_hash(b"abc"));
    assert_ne!(content_hash(b"abc"), content_hash(b"abd"));
    assert_eq!(content_hash(b"abc"), xxhash_rust::xxh3::xxh3_64(b"abc"));
    let items = vec![s("a"), s("b")];
    assert_eq!(hash_strings(&items), xxhash_rust::xxh3::xxh3_64(b"a\0b\0"));
}

#[test]
fn dependency_fingerprint_ignores_order() {
    let v = s("3.6.4");
    let a = dependency_fingerprint(&v, &vec![s("x:y:1"), s("a:b:2")]);
    let b = dependency_fingerprint(&v, &vec![s("a:b:2"), s("x:y:1")]);
    assert_eq!(a, b);
    assert_eq!(a, xxhash_rust::xxh3::xxh3_64(b"3.6.4\0a:b:2\0x:y:1\0"));
    assert_ne!(a, dependency_fingerprint(&s("3.6.5"), &vec![s("x:y:1"), s("a:b:2")]));
}

#[test]
fn clean_then_build_matches_first_build() {
    let h = three_hashes();
    let dirty: Vec<String> = vec![s("src/Base.scala"), s("src/Middle.scala"), s("src/Top.scala")];
    let rescanned = three_files();
    let nothing = IncrementalState { dep_hash: 7, sources: vec![] };
    let first = merge_round(&nothing, &h, &dirty, &rescanned, 7);
    let stale = IncrementalState { dep_hash: 3, sources: vec![record("src/Base.scala", 9, Some(1), &["x"])] };
    let again = merge_round(&stale, &h, &dirty, &rescanned, 7);
    assert_eq!(first.sources.len(), again.sources.len());
    for (a, b) in first.sources.iter().zip(again.sources.iter()) {
        assert_eq!(a.path, b.path);
        assert_eq!(a.content_hash, b.content_hash);
        assert_eq!(a.api_hash, b.api_hash);
        assert_eq!(a.artifacts.len(), b.artifacts.len());
        assert_eq!(a.artifacts[0].deps_out, b.artifacts[0].deps_out);
    }
    assert!(matches!(plan_build(None, 7, true, &h), Ok(BuildPlan::FullRebuild)));
}
