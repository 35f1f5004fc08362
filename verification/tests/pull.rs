use rozed_core::events::{IncomingScript, PullFile};
use rozed_core::mapping::resolve_path;
use rozed_core::mappings::Mappings;
use rozed_core::pull::{backup_path, check_conflict, needs_backup, resolve_to_local_path, write_target, PullError};

fn mappings() -> Mappings {
    let mut m = Mappings::new();
    m.insert("src/shared".into(), "ReplicatedStorage/Shared".into());
    m
}

fn combat(source: &str) -> IncomingScript {
    IncomingScript {
        roblox_path: "ReplicatedStorage/Shared/combat".into(),
        name: "combat".into(),
        kind: "ModuleScript".into(),
        source: source.into(),
    }
}

#[test]
fn test_new_file_no_conflict() {
    // No local file exists yet.
    let script = combat("return {}");
    let result = check_conflict(&script, None);
    assert!(!result.conflict);
}

#[test]
fn test_identical_content_no_conflict() {
    let script = combat("return {}");
    let result = check_conflict(&script, Some("return {}"));
    assert!(!result.conflict);
}

#[test]
fn test_different_content_is_conflict() {
    let script = combat("return {new=true}");
    let result = check_conflict(&script, Some("return {old=true}"));
    assert!(result.conflict);
}

#[test]
fn surrounding_white_space_is_no_conflict() {
    let script = combat("return {}\n");
    let result = check_conflict(&script, Some("  \treturn {}\r\n\n"));
    assert!(!result.conflict);
    let inner = check_conflict(&script, Some("return  {}"));
    assert!(inner.conflict);
}

#[test]
fn checked_file_keeps_the_script() {
    let script = combat("return 1");
    let result = check_conflict(&script, Some("return 2"));
    assert_eq!(result.roblox_path, "ReplicatedStorage/Shared/combat");
    assert_eq!(result.name, "combat");
    assert_eq!(result.kind, "ModuleScript");
    assert_eq!(result.source, "return 1");
}

#[test]
fn pulled_script_goes_to_mapped_folder() {
    let target = resolve_to_local_path(&combat(""), &mappings()).unwrap();
    assert_eq!(target.folder, "src/shared");
    assert_eq!(target.file_name, "combat.module.luau");
}

#[test]
fn pulled_script_in_subfolder_keeps_subfolder() {
    let script = IncomingScript {
        roblox_path: "ReplicatedStorage/Shared/core/util".into(),
        name: "util".into(),
        kind: "LocalScript".into(),
        source: String::new(),
    };
    let target = resolve_to_local_path(&script, &mappings()).unwrap();
    assert_eq!(target.folder, "src/shared");
    assert_eq!(target.file_name, "core/util.client.luau");
}

#[test]
fn server_script_gets_server_suffix() {
    let mut script = combat("");
    script.kind = "Script".into();
    let target = resolve_to_local_path(&script, &mappings()).unwrap();
    assert_eq!(target.file_name, "combat.server.luau");
}

#[test]
fn unknown_class_is_not_pulled() {
    let mut script = combat("");
    script.kind = "Folder".into();
    assert!(resolve_to_local_path(&script, &mappings()).is_none());
}

#[test]
fn unmapped_roblox_path_is_not_pulled() {
    let mut script = combat("");
    script.roblox_path = "ServerStorage/combat".into();
    assert!(resolve_to_local_path(&script, &mappings()).is_none());
    script.roblox_path = "ReplicatedStorage/SharedX/combat".into();
    assert!(resolve_to_local_path(&script, &mappings()).is_none());
}

#[test]
fn write_target_names_the_unresolvable_path() {
    let file = PullFile {
        roblox_path: "Lighting/x".into(),
        name: "x".into(),
        kind: "ModuleScript".into(),
        source: String::new(),
        conflict: false,
    };
    match write_target(&file, &mappings()) {
        Err(PullError::Unresolvable { roblox_path }) => assert_eq!(roblox_path, "Lighting/x"),
        Ok(_) => panic!("expected an error"),
    }
    let good = PullFile { roblox_path: "ReplicatedStorage/Shared/x".into(), ..file };
    let target = write_target(&good, &mappings()).unwrap();
    assert_eq!(target.file_name, "x.module.luau");
}

#[test]
fn backup_path_appends_suffix() {
    assert_eq!(backup_path("/tmp/p/src/shared/combat.module.luau"), "/tmp/p/src/shared/combat.module.luau.backup");
}

#[test]
fn push_then_pull_round_trip() {
    let m = mappings();
    let pushed = resolve_path("src/shared/core/util.module.luau", &m).unwrap();
    let incoming = IncomingScript {
        roblox_path: pushed.roblox_path.clone(),
        name: pushed.name.clone(),
        kind: pushed.kind.as_str().to_string(),
        source: String::new(),
    };
    let target = resolve_to_local_path(&incoming, &m).unwrap();
    assert_eq!(format!("{}/{}", target.folder, target.file_name), "src/shared/core/util.module.luau");
}

#[test]
fn backup_only_for_differing_files() {
    assert!(!needs_backup(false, None, "return 1"));
    assert!(!needs_backup(true, Some("return 1"), "return 1"));
    assert!(needs_backup(true, Some("return 1\n"), "return 1"));
    assert!(needs_backup(true, Some("return {old=true}"), "return {new=true}"));
    assert!(needs_backup(true, None, "return 1"));
}

#[test]
fn push_then_pull_round_trip_through_parent_folder() {
    let m = mappings();
    let pushed = resolve_path("src/shared/core/../util.server.luau", &m).unwrap();
    assert_eq!(pushed.roblox_path, "ReplicatedStorage/Shared/core/../util");
    let incoming = IncomingScript {
        roblox_path: pushed.roblox_path.clone(),
        name: pushed.name.clone(),
        kind: pushed.kind.as_str().to_string(),
        source: String::new(),
    };
    let target = resolve_to_local_path(&incoming, &m).unwrap();
    assert_eq!(format!("{}/{}", target.folder, target.file_name), "src/shared/core/../util.server.luau");
}
