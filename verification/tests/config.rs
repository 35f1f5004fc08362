use rozed_core::config::Config;
use rozed_core::mappings::Mappings;

#[test]
fn configured_values_are_used() {
    let mut m = Mappings::new();
    m.insert("src/shared".into(), "ReplicatedStorage/Shared".into());
    m.insert("src/server".into(), "ServerScriptService".into());
    let config = Config::new(Some(6000), Some(250), Some(false), m);
    assert_eq!(config.port(), 6000);
    assert_eq!(config.sync_interval_ms(), 250);
    assert!(!config.push_on_save());
    assert_eq!(config.mappings().get("src/shared").unwrap(), "ReplicatedStorage/Shared");
}

#[test]
fn defaults_apply_where_unset() {
    let config = Config::new(None, None, None, Mappings::new());
    assert_eq!(config.port(), 5500);
    assert_eq!(config.sync_interval_ms(), 500);
    assert!(config.push_on_save());
    assert_eq!(config.mappings.len(), 0);
}
