//! Behavior of the manifest model and its editing operations.

use modpack_manifest::FileRef;
use modpack_manifest::Loader;
use modpack_manifest::Manifest;

#[test]
fn new_initializes_document() {
    let m = Manifest::new(
        "Pack".to_string(),
        "2.0".to_string(),
        "Bob".to_string(),
        "1.19.2".to_string(),
    );
    assert!(m.mod_loaders.is_empty());
    assert!(m.files.is_empty());
    assert_eq!(m.name, "Pack");
    assert_eq!(m.version, "2.0");
    assert_eq!(m.author, "Bob");
    assert_eq!(m.mc_version, "1.19.2");
}

#[test]
fn new_sets_format_constants() {
    let m = Manifest::new(
        "Pack".to_string(),
        "2.0".to_string(),
        "Bob".to_string(),
        "1.19.2".to_string(),
    );
    assert_eq!(m.manifest_type, "minecraftModpack");
    assert_eq!(m.manifest_version, 1);
    assert_eq!(m.overrides, "overrides");
}

#[test]
fn add_mod_loader_appends_entry() {
    let mut m = Manifest::new(
        "Pack".to_string(),
        "2.0".to_string(),
        "Bob".to_string(),
        "1.19.2".to_string(),
    );
    m.add_mod_loader("forge-47.1.0".to_string(), true);
    assert_eq!(
        m.mod_loaders,
        vec![Loader { id: "forge-47.1.0".to_string(), primary: true }]
    );
    assert!(m.files.is_empty());
}

#[test]
fn add_file_appends_required_entry() {
    let mut m = Manifest::new(
        "Pack".to_string(),
        "2.0".to_string(),
        "Bob".to_string(),
        "1.19.2".to_string(),
    );
    m.add_mod_loader("forge-47.1.0".to_string(), true);
    m.add_file(123456, 789);
    assert_eq!(
        m.files,
        vec![FileRef { project_id: 123456, file_id: 789, required: true }]
    );
    assert_eq!(
        m.mod_loaders,
        vec![Loader { id: "forge-47.1.0".to_string(), primary: true }]
    );
}

#[test]
fn operations_are_append_only() {
    let mut m = Manifest::new(
        "Pack".to_string(),
        "1.0".to_string(),
        "Ann".to_string(),
        "1.20.1".to_string(),
    );
    m.add_mod_loader("fabric-0.15.0".to_string(), true);
    m.add_file(1, 2);
    m.add_mod_loader("quilt-1.0".to_string(), true);
    m.add_file(3, 4);
    assert_eq!(m.mod_loaders.len(), 2);
    assert_eq!(m.mod_loaders[0].id, "fabric-0.15.0");
    assert_eq!(m.mod_loaders[1].id, "quilt-1.0");
    assert!(m.mod_loaders[0].primary && m.mod_loaders[1].primary);
    assert_eq!(m.files.len(), 2);
    assert_eq!((m.files[0].project_id, m.files[0].file_id), (1, 2));
    assert_eq!((m.files[1].project_id, m.files[1].file_id), (3, 4));
}

#[test]
fn constants_survive_all_operations() {
    let mut m = Manifest::new(
        "Pack".to_string(),
        "1.0".to_string(),
        "Ann".to_string(),
        "1.20.1".to_string(),
    );
    m.add_mod_loader("forge-47.1.0".to_string(), false);
    m.add_file(10, 20);
    m.add_mod_loader("neo-1.2".to_string(), true);
    assert_eq!(m.manifest_type, "minecraftModpack");
    assert_eq!(m.manifest_version, 1);
    assert_eq!(m.overrides, "overrides");
}

#[test]
fn duplicate_entries_are_kept() {
    let mut m = Manifest::new(
        "Pack".to_string(),
        "1.0".to_string(),
        "Ann".to_string(),
        "1.20.1".to_string(),
    );
    m.add_file(5, 6);
    m.add_file(5, 6);
    assert_eq!(m.files.len(), 2);
    assert_eq!(m.files[0], m.files[1]);
}
