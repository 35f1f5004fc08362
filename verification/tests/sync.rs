use rozed_core::events::Event;
use rozed_core::mappings::Mappings;
use rozed_core::sync::{changed_file_target, script_pushed_event};

fn mappings() -> Mappings {
    let mut m = Mappings::new();
    m.insert("src/shared".into(), "ReplicatedStorage/Shared".into());
    m
}

const ROOT: &str = "/tmp/project";

#[test]
fn changed_script_is_pushed() {
    let script = changed_file_target("src/shared/combat.module.luau", &mappings(), ROOT, "", false).unwrap();
    let event = script_pushed_event(script, "return {}".into());
    match event {
        Event::ScriptPushed { name, kind, roblox_path, source } => {
            assert_eq!(name, "combat");
            assert_eq!(kind, "ModuleScript");
            assert_eq!(roblox_path, "ReplicatedStorage/Shared/combat");
            assert_eq!(source, "return {}");
        },
        _ => panic!("unexpected event type"),
    }
}

#[test]
fn ignored_file_is_not_pushed() {
    let patterns = "src/shared/ignored.module.luau";
    assert!(changed_file_target("src/shared/ignored.module.luau", &mappings(), ROOT, patterns, false).is_none());
    assert!(changed_file_target("src/shared/kept.module.luau", &mappings(), ROOT, patterns, false).is_some());
}

#[test]
fn ignore_patterns_follow_gitignore_rules() {
    let patterns = "\u{feff}# comment\r\n*.module.luau\n!keep.module.luau\n";
    let m = mappings();
    assert!(changed_file_target("src/shared/a.module.luau", &m, ROOT, patterns, false).is_none());
    assert!(changed_file_target("src/shared/keep.module.luau", &m, ROOT, patterns, false).is_some());
    assert!(changed_file_target("src/shared/b.server.luau", &m, ROOT, patterns, false).is_some());
    assert!(changed_file_target("src/shared/c.server.luau", &m, ROOT, "*.server.luau", false).is_none());
}

#[test]
fn unchanged_file_is_not_pushed() {
    assert!(changed_file_target("src/shared/combat.module.luau", &mappings(), ROOT, "", true).is_none());
}

#[test]
fn non_script_file_is_not_pushed() {
    assert!(changed_file_target("src/shared/notes.md", &mappings(), ROOT, "", false).is_none());
}

#[test]
fn a_line_naming_the_file_ignores_it() {
    let rel = "src/shared/legacy.module.luau";
    assert!(changed_file_target(rel, &mappings(), "/srv/game", rel, false).is_none());
    let nested = "src/shared/a/../b.client.luau";
    assert!(changed_file_target(nested, &mappings(), "/srv/game", nested, false).is_none());
    assert!(changed_file_target(nested, &mappings(), "/srv/game", "", false).is_some());
}
