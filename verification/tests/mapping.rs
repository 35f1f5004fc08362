use rozed_core::mapping::{parse_script_name, resolve_path, roblox_path_for, ScriptKind};
use rozed_core::mappings::Mappings;

fn mappings() -> Mappings {
    let mut m = Mappings::new();
    m.insert("src/shared".into(), "ReplicatedStorage/Shared".into());
    m.insert("src/server".into(), "ServerScriptService".into());
    m
}

#[test]
fn test_module_script() {
    let path = "src/shared/combat.module.luau";
    let result = resolve_path(path, &mappings()).unwrap();
    assert_eq!(result.name, "combat");
    assert!(matches!(result.kind, ScriptKind::ModuleScript));
    assert_eq!(result.roblox_path, "ReplicatedStorage/Shared/combat");
}

#[test]
fn test_server_script() {
    let path = "src/server/init.server.luau";
    let result = resolve_path(path, &mappings()).unwrap();
    assert_eq!(result.name, "init");
    assert!(matches!(result.kind, ScriptKind::Script));
    assert_eq!(result.roblox_path, "ServerScriptService/init");
}

#[test]
fn test_client_script() {
    let path = "src/shared/loader.client.luau";
    let result = resolve_path(path, &mappings()).unwrap();
    assert_eq!(result.name, "loader");
    assert!(matches!(result.kind, ScriptKind::LocalScript));
}

#[test]
fn test_unmapped_path_returns_none() {
    let path = "src/other/foo.module.luau";
    assert!(resolve_path(path, &mappings()).is_none());
}

#[test]
fn test_non_luau_suffix_returns_none() {
    let path = "src/shared/readme.txt";
    assert!(resolve_path(path, &mappings()).is_none());
}

#[test]
fn nested_folder_becomes_roblox_folder() {
    let result = resolve_path("src/shared/core/util.module.luau", &mappings()).unwrap();
    assert_eq!(result.name, "util");
    assert_eq!(result.roblox_path, "ReplicatedStorage/Shared/core/util");
    assert_eq!(result.local_path, "src/shared/core/util.module.luau");
}

#[test]
fn deeply_nested_folder_keeps_every_level() {
    let result = resolve_path("src/server/a/b/c/main.server.luau", &mappings()).unwrap();
    assert_eq!(result.roblox_path, "ServerScriptService/a/b/c/main");
    assert!(matches!(result.kind, ScriptKind::Script));
}

#[test]
fn backslashes_become_slashes_in_the_folder_part() {
    // `Path` on this platform does not split at `\`, so the file name is the
    // whole string, while the folder part is read with forward slashes.
    let result = resolve_path("src\\shared\\core\\util.module.luau", &mappings()).unwrap();
    assert_eq!(result.name, "src\\shared\\core\\util");
    assert_eq!(result.roblox_path, "ReplicatedStorage/Shared/core/src\\shared\\core\\util");
}

#[test]
fn trailing_slash_in_mapping_is_ignored() {
    let mut m = Mappings::new();
    m.insert("src/shared/".into(), "ReplicatedStorage/Shared".into());
    let result = resolve_path("src/shared/combat.module.luau", &m).unwrap();
    assert_eq!(result.roblox_path, "ReplicatedStorage/Shared/combat");
}

#[test]
fn folder_prefix_must_end_at_a_separator() {
    let m = mappings();
    assert!(resolve_path("src/sharedstuff/combat.module.luau", &m).is_none());
}

#[test]
fn first_matching_mapping_wins() {
    let mut m = Mappings::new();
    m.insert("src".into(), "Workspace".into());
    m.insert("src/shared".into(), "ReplicatedStorage/Shared".into());
    let result = resolve_path("src/shared/combat.module.luau", &m).unwrap();
    assert_eq!(result.roblox_path, "Workspace/shared/combat");
}

#[test]
fn plain_luau_file_is_no_script() {
    assert!(resolve_path("src/shared/plain.luau", &mappings()).is_none());
}

#[test]
fn parse_script_name_reads_each_suffix() {
    assert_eq!(parse_script_name("a.module.luau"), Some(("a".to_string(), ScriptKind::ModuleScript)));
    assert_eq!(parse_script_name("b.server.luau"), Some(("b".to_string(), ScriptKind::Script)));
    assert_eq!(parse_script_name("c.client.luau"), Some(("c".to_string(), ScriptKind::LocalScript)));
    assert_eq!(parse_script_name("x.module.server.luau"), Some(("x.module".to_string(), ScriptKind::Script)));
    assert_eq!(parse_script_name("d.luau"), None);
    assert_eq!(parse_script_name("e.module.lua"), None);
    assert_eq!(parse_script_name(".module.luau"), Some((String::new(), ScriptKind::ModuleScript)));
}

#[test]
fn script_kind_names() {
    assert_eq!(ScriptKind::ModuleScript.as_str(), "ModuleScript");
    assert_eq!(ScriptKind::Script.as_str(), "Script");
    assert_eq!(ScriptKind::LocalScript.as_str(), "LocalScript");
}

#[test]
fn roblox_path_with_and_without_folder() {
    assert_eq!(roblox_path_for("ServerScriptService", "", "init"), "ServerScriptService/init");
    assert_eq!(roblox_path_for("ReplicatedStorage/Shared", "core/net", "util"), "ReplicatedStorage/Shared/core/net/util");
}
