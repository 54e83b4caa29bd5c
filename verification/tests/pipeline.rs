use mcman::lockfile::{Lockfile, LockfileEntry};
use mcman::model::{ResolvedRef, SourceDescriptor, SourceKind};
use mcman::pipeline::{
    build_plan, declared_list, finalize_build, lockfile_of_plan, BuildContext, BuildError,
    DepAction, ResolutionItem, Resolutions, ServerConfig, StageConfig,
};
use mcman::resolver::{resolved_from_build, select_build, BuildInfo, ResolveError};

fn desc(id: &str, sel: &str) -> SourceDescriptor {
    SourceDescriptor {
        kind: SourceKind::PaperMC,
        identifier: id.to_string(),
        version_selector: sel.to_string(),
    }
}

fn rref(version: &str, build: &str) -> ResolvedRef {
    ResolvedRef {
        version_id: version.to_string(),
        build_id: build.to_string(),
        filename: format!("{}-{}.jar", version, build),
        checksum: Some(format!("sha-{}", build)),
        content_length: None,
    }
}

fn entry(stage: &str, d: &SourceDescriptor, r: &ResolvedRef) -> LockfileEntry {
    LockfileEntry { stage: stage.to_string(), descriptor: d.clone(), resolved: r.clone() }
}

fn bi(build: &str) -> BuildInfo {
    BuildInfo {
        build: build.to_string(),
        filename: format!("paper-{}.jar", build),
        sha256: format!("sha-{}", build),
    }
}

fn one_stage(name: &str, deps: Vec<SourceDescriptor>) -> ServerConfig {
    ServerConfig { stages: vec![StageConfig { name: name.to_string(), deps }] }
}

#[test]
fn latest_build_drift_is_refetched() {
    // Declared: plugin A@"latest"; old lockfile pinned build 10; the source
    // now lists builds [8, 9, 10, 11]. The pipeline must fetch and record 11.
    let a = desc("A", "latest");
    let builds = vec![bi("8"), bi("9"), bi("10"), bi("11")];
    let chosen = select_build("A", "1.20", "latest", &builds).unwrap();
    assert_eq!(chosen.build, "11");
    let fresh = resolved_from_build("1.20", &chosen);

    let old = Lockfile { entries: vec![entry("plugins", &a, &rref("1.20", "10"))] };
    let config = one_stage("plugins", vec![a.clone()]);
    let mut res = Resolutions::new();
    res.push(ResolutionItem { descriptor: a.clone(), outcome: Ok(fresh) });
    let skip: Vec<String> = vec![];

    let plan = build_plan(&config, &old, false, &skip, &res).unwrap();
    assert_eq!(plan.deps.len(), 1);
    assert_eq!(plan.deps[0].action, DepAction::Fetch);
    assert_eq!(plan.deps[0].entry.resolved.build_id, "11");

    let newlock = finalize_build(&old, &plan, false);
    assert_eq!(newlock.entries.len(), 1);
    assert_eq!(newlock.entries[0].resolved.build_id, "11");
}

#[test]
fn matching_resolution_is_reused_without_fetch() {
    // Declared config unchanged; the old lockfile already records build 11
    // and fresh resolution answers build 11: no fetch, entry carried over.
    let a = desc("A", "latest");
    let old = Lockfile { entries: vec![entry("plugins", &a, &rref("1.20", "11"))] };
    let config = one_stage("plugins", vec![a.clone()]);
    let mut res = Resolutions::new();
    res.push(ResolutionItem { descriptor: a.clone(), outcome: Ok(rref("1.20", "11")) });
    let skip: Vec<String> = vec![];

    let plan = build_plan(&config, &old, false, &skip, &res).unwrap();
    assert_eq!(plan.deps.len(), 1);
    assert_eq!(plan.deps[0].action, DepAction::Reuse);
    assert_eq!(plan.deps[0].entry.resolved.build_id, "11");

    let newlock = finalize_build(&old, &plan, false);
    assert_eq!(newlock.entries.len(), 1);
    assert_eq!(newlock.entries[0].resolved.build_id, "11");
}

#[test]
fn second_run_fetches_nothing_and_keeps_lockfile() {
    // Two runs with the same config and answers: the second run reuses
    // everything and reproduces the first run's lockfile.
    let a = desc("A", "latest");
    let b = desc("B", "1.0");
    let config = ServerConfig {
        stages: vec![
            StageConfig { name: "plugins".to_string(), deps: vec![a.clone()] },
            StageConfig { name: "mods".to_string(), deps: vec![b.clone()] },
        ],
    };
    let mut res = Resolutions::new();
    res.push(ResolutionItem { descriptor: a.clone(), outcome: Ok(rref("1.20", "11")) });
    res.push(ResolutionItem { descriptor: b.clone(), outcome: Ok(rref("1.0", "3")) });
    let skip: Vec<String> = vec![];

    let empty = Lockfile { entries: vec![] };
    let plan1 = build_plan(&config, &empty, false, &skip, &res).unwrap();
    assert!(plan1.deps.iter().all(|d| d.action == DepAction::Fetch));
    let lock1 = finalize_build(&empty, &plan1, false);

    let plan2 = build_plan(&config, &lock1, false, &skip, &res).unwrap();
    assert!(plan2.deps.iter().all(|d| d.action == DepAction::Reuse));
    let lock2 = finalize_build(&lock1, &plan2, false);

    assert_eq!(lock1.entries.len(), lock2.entries.len());
    for (e1, e2) in lock1.entries.iter().zip(lock2.entries.iter()) {
        assert_eq!(e1.stage, e2.stage);
        assert_eq!(e1.descriptor.identifier, e2.descriptor.identifier);
        assert_eq!(e1.resolved.version_id, e2.resolved.version_id);
        assert_eq!(e1.resolved.build_id, e2.resolved.build_id);
        assert_eq!(e1.resolved.checksum, e2.resolved.checksum);
    }
}

#[test]
fn force_refetches_even_when_old_matches() {
    let a = desc("A", "latest");
    let old = Lockfile { entries: vec![entry("plugins", &a, &rref("1.20", "11"))] };
    let config = one_stage("plugins", vec![a.clone()]);
    let mut res = Resolutions::new();
    res.push(ResolutionItem { descriptor: a.clone(), outcome: Ok(rref("1.20", "11")) });
    let skip: Vec<String> = vec![];

    let plan = build_plan(&config, &old, true, &skip, &res).unwrap();
    assert_eq!(plan.deps.len(), 1);
    assert_eq!(plan.deps[0].action, DepAction::Fetch);
}

#[test]
fn skipped_stage_contributes_no_entries() {
    let a = desc("A", "latest");
    let b = desc("B", "1.0");
    let config = ServerConfig {
        stages: vec![
            StageConfig { name: "plugins".to_string(), deps: vec![a.clone()] },
            StageConfig { name: "mods".to_string(), deps: vec![b.clone()] },
        ],
    };
    let mut res = Resolutions::new();
    res.push(ResolutionItem { descriptor: b.clone(), outcome: Ok(rref("1.0", "3")) });
    let skip: Vec<String> = vec!["plugins".to_string()];

    // The declared list already leaves the skipped stage out, so A needs no
    // resolver answer at all.
    let decl = declared_list(&config, &skip);
    assert_eq!(decl.len(), 1);
    assert_eq!(decl[0].stage, "mods");

    let empty = Lockfile { entries: vec![] };
    let plan = build_plan(&config, &empty, false, &skip, &res).unwrap();
    let newlock = lockfile_of_plan(&plan);
    assert_eq!(newlock.entries.len(), 1);
    assert!(newlock.entries.iter().all(|e| e.stage != "plugins"));
}

#[test]
fn removed_dependency_is_dropped_from_new_lockfile() {
    let a = desc("A", "latest");
    let gone = desc("Gone", "2.0");
    let old = Lockfile {
        entries: vec![
            entry("plugins", &a, &rref("1.20", "11")),
            entry("plugins", &gone, &rref("2.0", "7")),
        ],
    };
    let config = one_stage("plugins", vec![a.clone()]);
    let mut res = Resolutions::new();
    res.push(ResolutionItem { descriptor: a.clone(), outcome: Ok(rref("1.20", "11")) });
    let skip: Vec<String> = vec![];

    let plan = build_plan(&config, &old, false, &skip, &res).unwrap();
    let newlock = finalize_build(&old, &plan, false);
    assert_eq!(newlock.entries.len(), 1);
    assert!(newlock.entries.iter().all(|e| e.descriptor.identifier != "Gone"));
}

#[test]
fn failed_fetch_leaves_old_lockfile_in_force() {
    // The fetch of the last declared dependency fails: the persisted
    // lockfile stays the old one, entry for entry.
    let a = desc("A", "latest");
    let old = Lockfile { entries: vec![entry("plugins", &a, &rref("1.20", "10"))] };
    let config = one_stage("plugins", vec![a.clone()]);
    let mut res = Resolutions::new();
    res.push(ResolutionItem { descriptor: a.clone(), outcome: Ok(rref("1.20", "11")) });
    let skip: Vec<String> = vec![];

    let plan = build_plan(&config, &old, false, &skip, &res).unwrap();
    assert_eq!(plan.deps[0].action, DepAction::Fetch);
    let persisted = finalize_build(&old, &plan, true);
    assert_eq!(persisted.entries.len(), 1);
    assert_eq!(persisted.entries[0].resolved.build_id, "10");
}

#[test]
fn resolution_failure_aborts_with_the_failing_identifiers() {
    let a = desc("A", "latest");
    let config = one_stage("plugins", vec![a.clone()]);
    let mut res = Resolutions::new();
    res.push(ResolutionItem {
        descriptor: a.clone(),
        outcome: Err(ResolveError::VersionNotFound {
            identifier: "A".to_string(),
            version: "latest".to_string(),
        }),
    });
    let skip: Vec<String> = vec![];
    let empty = Lockfile { entries: vec![] };

    let err = build_plan(&config, &empty, false, &skip, &res).unwrap_err();
    assert_eq!(err.message(), "stage plugins: version not found: A/latest");
    match err {
        BuildError::Resolve { stage, descriptor, error } => {
            assert_eq!(stage, "plugins");
            assert_eq!(descriptor.identifier, "A");
            match error {
                ResolveError::VersionNotFound { identifier, version } => {
                    assert_eq!(identifier, "A");
                    assert_eq!(version, "latest");
                },
                other => panic!("wrong error: {:?}", resolve_error_name(&other)),
            }
        },
    }
}

#[test]
fn unanswered_descriptor_counts_as_source_not_found() {
    let a = desc("A", "latest");
    let config = one_stage("plugins", vec![a.clone()]);
    let res = Resolutions::new();
    let skip: Vec<String> = vec![];
    let empty = Lockfile { entries: vec![] };

    let err = build_plan(&config, &empty, false, &skip, &res).unwrap_err();
    match err {
        BuildError::Resolve { stage, error, .. } => {
            assert_eq!(stage, "plugins");
            assert!(matches!(error, ResolveError::SourceNotFound { .. }));
        },
    }
}

#[test]
fn empty_config_builds_an_empty_lockfile() {
    let config = ServerConfig { stages: vec![] };
    let res = Resolutions::new();
    let skip: Vec<String> = vec![];
    let old = Lockfile { entries: vec![entry("plugins", &desc("A", "latest"), &rref("1.20", "1"))] };
    let plan = build_plan(&config, &old, false, &skip, &res).unwrap();
    assert!(plan.deps.is_empty());
    assert!(finalize_build(&old, &plan, false).entries.is_empty());
}

#[test]
fn same_dependency_in_two_stages_keeps_both_slots() {
    // The lockfile key is stage plus dependency identity, so one dependency
    // declared in two stages holds one slot per stage.
    let a = desc("A", "latest");
    let config = ServerConfig {
        stages: vec![
            StageConfig { name: "plugins".to_string(), deps: vec![a.clone()] },
            StageConfig { name: "mods".to_string(), deps: vec![a.clone()] },
        ],
    };
    let mut res = Resolutions::new();
    res.push(ResolutionItem { descriptor: a.clone(), outcome: Ok(rref("1.20", "11")) });
    let skip: Vec<String> = vec![];
    let empty = Lockfile { entries: vec![] };
    let plan = build_plan(&config, &empty, false, &skip, &res).unwrap();
    let newlock = lockfile_of_plan(&plan);
    assert_eq!(newlock.entries.len(), 2);
    assert_eq!(newlock.entries[0].stage, "plugins");
    assert_eq!(newlock.entries[1].stage, "mods");
    assert!(newlock.get("plugins", &a).is_some());
    assert!(newlock.get("mods", &a).is_some());
}

#[test]
fn build_context_plans_like_build_plan() {
    let a = desc("A", "latest");
    let ctx = BuildContext {
        config: one_stage("plugins", vec![a.clone()]),
        old_lockfile: Lockfile { entries: vec![entry("plugins", &a, &rref("1.20", "11"))] },
        force: false,
        skip_stages: vec![],
        output_dir: "server".to_string(),
    };
    let mut res = Resolutions::new();
    res.push(ResolutionItem { descriptor: a.clone(), outcome: Ok(rref("1.20", "11")) });
    let plan = ctx.plan(&res).unwrap();
    assert_eq!(plan.deps.len(), 1);
    assert_eq!(plan.deps[0].action, DepAction::Reuse);
}

fn resolve_error_name(e: &mcman::resolver::ResolveError) -> &'static str {
    match e {
        mcman::resolver::ResolveError::SourceNotFound { .. } => "SourceNotFound",
        mcman::resolver::ResolveError::VersionNotFound { .. } => "VersionNotFound",
        mcman::resolver::ResolveError::BuildNotFound { .. } => "BuildNotFound",
    }
}
