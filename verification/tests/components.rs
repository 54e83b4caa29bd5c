use mcman::actions::{ActionError, AddonType, App, Server, World, WorldEntry};
use mcman::cache::Cache;
use mcman::launcher::{PresetFlags, ServerLauncher, StartupMethod, SystemProperty};
use mcman::lockfile::{Lockfile, LockfileEntry};
use mcman::model::{ResolvedRef, SoftwareType, SourceDescriptor, SourceKind};
use mcman::resolver::{resolve_version, resolved_from_build, select_build, BuildInfo, ResolveError};

fn desc(kind: SourceKind, id: &str, sel: &str) -> SourceDescriptor {
    SourceDescriptor {
        kind,
        identifier: id.to_string(),
        version_selector: sel.to_string(),
    }
}

fn bi(build: &str) -> BuildInfo {
    BuildInfo {
        build: build.to_string(),
        filename: format!("paper-{}.jar", build),
        sha256: format!("sha-{}", build),
    }
}

fn fresh_app(jar: SourceDescriptor) -> App {
    App {
        server: Server {
            jar,
            plugins: vec![],
            mods: vec![],
            worlds: vec![],
            launcher: ServerLauncher::default(),
        },
    }
}

#[test]
fn latest_version_takes_the_last_listed() {
    let versions = vec!["1.19".to_string(), "1.20".to_string(), "1.20.1".to_string()];
    assert_eq!(resolve_version("paper", "latest", &versions).unwrap(), "1.20.1");
}

#[test]
fn explicit_version_is_taken_as_given() {
    let versions: Vec<String> = vec![];
    assert_eq!(resolve_version("paper", "1.19.2", &versions).unwrap(), "1.19.2");
}

#[test]
fn latest_version_of_empty_listing_is_not_found() {
    let versions: Vec<String> = vec![];
    match resolve_version("paper", "latest", &versions) {
        Err(ResolveError::VersionNotFound { identifier, version }) => {
            assert_eq!(identifier, "paper");
            assert_eq!(version, "latest");
        },
        other => panic!("expected VersionNotFound, got {:?}", other.is_ok()),
    }
}

#[test]
fn latest_build_takes_the_last_listed() {
    let builds = vec![bi("391"), bi("392"), bi("393")];
    let b = select_build("paper", "1.20", "latest", &builds).unwrap();
    assert_eq!(b.build, "393");
    let r = resolved_from_build("1.20", &b);
    assert_eq!(r.version_id, "1.20");
    assert_eq!(r.build_id, "393");
    assert_eq!(r.filename, "paper-393.jar");
    assert_eq!(r.checksum.as_deref(), Some("sha-393"));
}

#[test]
fn named_build_is_found_in_the_listing() {
    let builds = vec![bi("391"), bi("392"), bi("393")];
    let b = select_build("paper", "1.20", "392", &builds).unwrap();
    assert_eq!(b.build, "392");
}

#[test]
fn missing_build_reports_all_identifiers() {
    let builds = vec![bi("391")];
    match select_build("paper", "1.20", "999", &builds) {
        Err(ResolveError::BuildNotFound { identifier, version, build }) => {
            assert_eq!(identifier, "paper");
            assert_eq!(version, "1.20");
            assert_eq!(build, "999");
        },
        other => panic!("expected BuildNotFound, got {:?}", other.is_ok()),
    }
}

#[test]
fn equivalence_ignores_filename_but_not_checksum() {
    let a = ResolvedRef {
        version_id: "1.20".to_string(),
        build_id: "11".to_string(),
        filename: "one.jar".to_string(),
        checksum: Some("abc".to_string()),
        content_length: Some(10),
    };
    let mut b = ResolvedRef {
        version_id: "1.20".to_string(),
        build_id: "11".to_string(),
        filename: "other.jar".to_string(),
        checksum: Some("abc".to_string()),
        content_length: None,
    };
    assert!(a.is_equivalent(&b));
    b.checksum = Some("def".to_string());
    assert!(!a.is_equivalent(&b));
}

#[test]
fn cache_misses_then_hits_then_overwrites() {
    let mut c = Cache::new();
    assert!(!c.contains("papermc/paper/versions.json"));
    assert!(c.get("papermc/paper/versions.json").is_none());
    c.put("papermc/paper/versions.json", "[\"1.20\"]");
    assert!(c.contains("papermc/paper/versions.json"));
    assert_eq!(c.get("papermc/paper/versions.json").unwrap(), "[\"1.20\"]");
    c.put("papermc/paper/versions.json", "[\"1.20\",\"1.21\"]");
    assert_eq!(c.get("papermc/paper/versions.json").unwrap(), "[\"1.20\",\"1.21\"]");
    assert!(!c.contains("papermc/velocity/versions.json"));
}

#[test]
fn lockfile_get_finds_by_stage_and_identity() {
    let a = desc(SourceKind::PaperMC, "A", "latest");
    let r = ResolvedRef {
        version_id: "1.20".to_string(),
        build_id: "11".to_string(),
        filename: "a.jar".to_string(),
        checksum: None,
        content_length: None,
    };
    let mut lock = Lockfile::new();
    lock.put(LockfileEntry { stage: "plugins".to_string(), descriptor: a.clone(), resolved: r });
    assert_eq!(lock.len(), 1);
    assert!(lock.get("plugins", &a).is_some());
    assert!(lock.get("mods", &a).is_none());
    let other = desc(SourceKind::PaperMC, "B", "latest");
    assert!(lock.get("plugins", &other).is_none());
    // Identity ignores the version selector.
    let same = desc(SourceKind::PaperMC, "A", "1.20");
    assert!(lock.get("plugins", &same).is_some());
}

#[test]
fn aikars_preset_expands_to_its_flags() {
    let f = PresetFlags::Aikars.get_flags();
    assert_eq!(f.len(), 20);
    assert_eq!(f[0], "-XX:+UseG1GC");
    assert_eq!(f[19], "-Daikars.new.flags=true");
    assert_eq!(PresetFlags::Proxy.get_flags().len(), 6);
    assert!(PresetFlags::Off.get_flags().is_empty());
}

#[test]
fn arguments_follow_the_documented_order() {
    let mut l = ServerLauncher::default();
    l.jvm_args = vec!["-Xss4M".to_string()];
    l.memory = "2G".to_string();
    l.properties = vec![SystemProperty {
        key: "motd".to_string(),
        value: "hello world".to_string(),
    }];
    l.game_args = vec!["--port".to_string(), "25565".to_string()];
    let args = l.get_arguments(&StartupMethod::Jar("server.jar".to_string()), "linux", &None);
    assert_eq!(
        args,
        vec![
            "-Xss4M",
            "-Xms2G",
            "-Xmx2G",
            "-Dcom.mojang.eula.agree=true",
            "-Dmotd=\"hello world\"",
            "-jar",
            "server.jar",
            "--nogui",
            "--port",
            "25565",
        ]
    );
}

#[test]
fn memory_override_wins_over_configured_memory() {
    let mut l = ServerLauncher::default();
    l.memory = "2G".to_string();
    let args = l.get_arguments(
        &StartupMethod::Jar("server.jar".to_string()),
        "linux",
        &Some("8G".to_string()),
    );
    assert!(args.contains(&"-Xms8G".to_string()));
    assert!(args.contains(&"-Xmx8G".to_string()));
    assert!(!args.contains(&"-Xms2G".to_string()));
}

#[test]
fn proxy_preset_suppresses_nogui() {
    let mut l = ServerLauncher::default();
    l.preset_flags = PresetFlags::Proxy;
    let args = l.get_arguments(&StartupMethod::Jar("velocity.jar".to_string()), "linux", &None);
    assert!(!args.contains(&"--nogui".to_string()));
}

#[test]
fn custom_startup_picks_the_platform_command() {
    let l = ServerLauncher::default();
    let startup = StartupMethod::Custom {
        windows: vec!["win.exe".to_string()],
        linux: vec!["./run.sh".to_string()],
    };
    let linux_args = l.get_arguments(&startup, "linux", &None);
    assert!(linux_args.contains(&"./run.sh".to_string()));
    assert!(!linux_args.contains(&"win.exe".to_string()));
    let win_args = l.get_arguments(&startup, "windows", &None);
    assert!(win_args.contains(&"win.exe".to_string()));
}

#[test]
fn linux_script_renders_exactly() {
    let mut l = ServerLauncher::default();
    l.jvm_args = vec!["-Xss4M".to_string()];
    l.memory = "2G".to_string();
    let s = l.generate_script_linux(
        "myserver",
        &StartupMethod::Jar("server.jar".to_string()),
        "java",
        &None,
    );
    assert_eq!(
        s,
        "#!/bin/sh\n# generated by mcman\njava -Xss4M -Xms2G -Xmx2G -Dcom.mojang.eula.agree=true -jar server.jar --nogui \"$@\"\n"
    );
}

#[test]
fn windows_script_renders_exactly() {
    let l = ServerLauncher::default();
    let s = l.generate_script_win(
        "myserver",
        &StartupMethod::Jar("server.jar".to_string()),
        "java",
        &None,
    );
    assert_eq!(
        s,
        "@echo off\r\n:: generated by mcman\r\ntitle myserver\r\njava -Dcom.mojang.eula.agree=true -jar server.jar --nogui %*\r\n"
    );
}

#[test]
fn add_addon_skips_when_match_kept() {
    let jar = desc(SourceKind::PaperMC, "paper", "latest");
    let mut app = fresh_app(jar);
    let a = desc(SourceKind::PaperMC, "essentials", "latest");
    assert!(app.add_addon(AddonType::Plugin, &a, true));
    assert_eq!(app.server.plugins.len(), 1);
    // Same source again, caller keeps the existing entry: nothing changes.
    let again = desc(SourceKind::PaperMC, "essentials", "2.0");
    assert!(!app.add_addon(AddonType::Plugin, &again, true));
    assert_eq!(app.server.plugins.len(), 1);
    // Caller declines to keep it: the duplicate is appended anyway.
    assert!(app.add_addon(AddonType::Plugin, &again, false));
    assert_eq!(app.server.plugins.len(), 2);
    assert!(app.server.mods.is_empty());
}

#[test]
fn add_addon_inferred_follows_the_jar() {
    let a = desc(SourceKind::PaperMC, "essentials", "latest");

    let mut plugin_app = fresh_app(desc(SourceKind::PaperMC, "paper", "latest"));
    plugin_app.add_addon_inferred(&a, AddonType::Mod, true);
    assert_eq!(plugin_app.server.plugins.len(), 1);
    assert_eq!(plugin_app.server.mods.len(), 0);

    let mut mod_app = fresh_app(desc(SourceKind::Fabric, "fabric", "latest"));
    mod_app.add_addon_inferred(&a, AddonType::Plugin, true);
    assert_eq!(mod_app.server.plugins.len(), 0);
    assert_eq!(mod_app.server.mods.len(), 1);

    // Unknown jar family: the caller's fallback decides.
    let mut unknown_app = fresh_app(desc(SourceKind::Url, "https://example.invalid/x.jar", ""));
    unknown_app.add_addon_inferred(&a, AddonType::Mod, true);
    assert_eq!(unknown_app.server.mods.len(), 1);
}

#[test]
fn add_datapack_to_missing_world_fails() {
    let mut app = fresh_app(desc(SourceKind::PaperMC, "paper", "latest"));
    let dp = desc(SourceKind::Url, "https://example.invalid/pack.zip", "");
    assert_eq!(app.add_datapack_to("world", &dp), Err(ActionError::WorldNotFound));
    assert!(app.server.worlds.is_empty());
}

#[test]
fn add_datapack_creates_the_world_when_needed() {
    let mut app = fresh_app(desc(SourceKind::PaperMC, "paper", "latest"));
    let dp = desc(SourceKind::Url, "https://example.invalid/pack.zip", "");
    app.add_datapack(&dp, "world");
    assert_eq!(app.server.worlds.len(), 1);
    assert_eq!(app.server.worlds[0].name, "world");
    assert_eq!(app.server.worlds[0].world.datapacks.len(), 1);

    let dp2 = desc(SourceKind::Url, "https://example.invalid/pack2.zip", "");
    app.add_datapack(&dp2, "world");
    assert_eq!(app.server.worlds.len(), 1);
    assert_eq!(app.server.worlds[0].world.datapacks.len(), 2);

    app.server.worlds.push(WorldEntry {
        name: "nether".to_string(),
        world: World { datapacks: vec![] },
    });
    assert!(app.add_datapack_to("nether", &dp).is_ok());
    assert_eq!(app.server.worlds[1].world.datapacks.len(), 1);
}

#[test]
fn software_type_follows_the_source() {
    assert_eq!(
        desc(SourceKind::PaperMC, "paper", "latest").get_software_type(),
        SoftwareType::Normal
    );
    assert_eq!(
        desc(SourceKind::PaperMC, "velocity", "latest").get_software_type(),
        SoftwareType::Proxy
    );
    assert_eq!(
        desc(SourceKind::Fabric, "fabric", "latest").get_software_type(),
        SoftwareType::Modded
    );
    assert_eq!(
        desc(SourceKind::Url, "https://example.invalid/a.jar", "").get_software_type(),
        SoftwareType::Unknown
    );
}

#[test]
fn error_messages_name_the_identifiers() {
    let s = ResolveError::SourceNotFound { identifier: "x".to_string() };
    assert_eq!(s.message(), "source not found: x");
    let v = ResolveError::VersionNotFound {
        identifier: "paper".to_string(),
        version: "latest".to_string(),
    };
    assert_eq!(v.message(), "version not found: paper/latest");
    let b = ResolveError::BuildNotFound {
        identifier: "paper".to_string(),
        version: "1.20".to_string(),
        build: "999".to_string(),
    };
    assert_eq!(b.message(), "build not found: paper/1.20/999");
}

#[test]
fn is_same_as_ignores_the_selector() {
    let a = desc(SourceKind::PaperMC, "essentials", "latest");
    let b = desc(SourceKind::PaperMC, "essentials", "1.2.3");
    let c = desc(SourceKind::Fabric, "essentials", "latest");
    assert!(a.is_same_as(&b));
    assert!(!a.is_same_as(&c));
}

#[test]
fn whitespace_tokenization_matches_the_configured_strings() {
    assert_eq!(
        mcman::text::split_whitespace_tokens(" -Xss4M\t-Dx=1\n--two "),
        vec!["-Xss4M", "-Dx=1", "--two"]
    );
    assert_eq!(mcman::text::split_whitespace_tokens("one"), vec!["one"]);
    assert!(mcman::text::split_whitespace_tokens("").is_empty());
    assert!(mcman::text::split_whitespace_tokens(" \t\r\n").is_empty());
}

#[test]
fn java_choice_prefers_the_version_binding() {
    let mut l = ServerLauncher::default();
    assert_eq!(l.get_java(&None, &None), "java");
    assert_eq!(l.get_java(&None, &Some("/opt/java/bin/java".to_string())), "/opt/java/bin/java");
    // Without a configured java version the per-version binding is ignored.
    assert_eq!(l.get_java(&Some("/opt/java17".to_string()), &None), "java");
    l.java_version = Some("17".to_string());
    assert_eq!(
        l.get_java(&Some("/opt/java17".to_string()), &Some("/opt/java/bin/java".to_string())),
        "/opt/java17"
    );
}
