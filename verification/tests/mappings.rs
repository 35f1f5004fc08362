use rozed_core::mappings::Mappings;

#[test]
fn insert_then_get() {
    let mut m = Mappings::new();
    assert_eq!(m.insert("src/a".into(), "A".into()), None);
    assert_eq!(m.insert("src/b".into(), "B".into()), None);
    assert_eq!(m.get("src/a").map(|s| s.as_str()), Some("A"));
    assert_eq!(m.get("src/b").map(|s| s.as_str()), Some("B"));
    assert_eq!(m.get("src/c"), None);
    assert_eq!(m.len(), 2);
}

#[test]
fn insert_replaces_in_place() {
    let mut m = Mappings::new();
    m.insert("src/a".into(), "A".into());
    m.insert("src/b".into(), "B".into());
    assert_eq!(m.insert("src/a".into(), "A2".into()), Some("A".to_string()));
    assert_eq!(m.len(), 2);
    let (k0, v0) = m.entry(0);
    assert_eq!((k0.as_str(), v0.as_str()), ("src/a", "A2"));
    let (k1, v1) = m.entry(1);
    assert_eq!((k1.as_str(), v1.as_str()), ("src/b", "B"));
    assert_eq!(m.position("src/b"), Some(1));
}

#[test]
fn copies_are_equal() {
    let mut m = Mappings::new();
    m.insert("x".into(), "X".into());
    let c = m.clone();
    assert_eq!(c.len(), 1);
    assert_eq!(c.get("x").unwrap(), "X");
}
