use aseprite_packer::geometry::Placement;
use aseprite_packer::registry::{AseTextureData, FrameEntry, FrameRegistry};

fn entry(identifier: &str, basename: &str, frame: u32, x: u32) -> FrameEntry {
    FrameEntry {
        identifier: identifier.to_string(),
        data: AseTextureData { width: 8, height: 4, basename: basename.to_string(), frame, x, y: 2 },
    }
}

#[test]
fn a_new_registry_is_empty() {
    let registry = FrameRegistry::new();
    assert_eq!(registry.len(), 0);
    assert_eq!(registry.get("anything"), None);
    assert!(!registry.contains(&"anything".to_string()));
    assert_eq!(registry.find(&"".to_string()), None);
}

#[test]
fn an_inserted_entry_is_found() {
    let mut registry = FrameRegistry::new();
    assert!(registry.insert(entry("walk_0", "walk", 0, 0)));
    assert_eq!(registry.len(), 1);
    assert!(registry.contains(&"walk_0".to_string()));
    assert_eq!(registry.get("walk_0"), Some(&entry("walk_0", "walk", 0, 0).data));
    assert_eq!(registry.get("walk_1"), None);
    assert_eq!(registry.get("walk"), None);
}

#[test]
fn a_taken_identifier_is_not_inserted_again() {
    let mut registry = FrameRegistry::new();
    assert!(registry.insert(entry("idle", "idle", 0, 0)));
    assert!(!registry.insert(entry("idle", "other", 3, 50)));
    assert_eq!(registry.len(), 1);
    assert_eq!(registry.get("idle"), Some(&entry("idle", "idle", 0, 0).data));
}

#[test]
fn entries_stay_in_the_order_they_came() {
    let mut registry = FrameRegistry::new();
    for (i, name) in ["c", "a", "b"].iter().enumerate() {
        assert!(registry.insert(entry(name, name, 0, i as u32 * 8)));
    }
    assert_eq!(registry.entry(0).identifier, "c");
    assert_eq!(registry.entry(1).identifier, "a");
    assert_eq!(registry.entry(2).identifier, "b");
    assert_eq!(registry.find(&"a".to_string()), Some(1));
    assert_eq!(registry.find(&"b".to_string()), Some(2));
    assert_eq!(registry.find(&"d".to_string()), None);
}

#[test]
fn identifiers_are_compared_in_full() {
    let mut registry = FrameRegistry::new();
    assert!(registry.insert(entry("walk_1", "walk", 1, 0)));
    assert!(registry.insert(entry("walk_10", "walk", 10, 8)));
    assert!(registry.insert(entry("Walk_1", "Walk", 1, 16)));
    assert_eq!(registry.get("walk_10").map(|data| data.frame), Some(10));
    assert_eq!(registry.get("walk_").map(|data| data.frame), None);
}

#[test]
fn an_entry_knows_its_rectangle() {
    let data = entry("a", "a", 0, 5).data;
    assert_eq!(data.rectangle(), Placement { x: 5, y: 2, width: 8, height: 4 });
}
