use asha_services::ids::{
    is_blank, is_hash, is_kebab_segment, is_namespace, is_stable_id, is_version, namespace_owns,
    valid_project_relative_path, validate_source_path,
};

#[test]
fn kebab_segments_and_namespaces() {
    assert!(is_kebab_segment("damage-applied"));
    assert!(is_kebab_segment("v2"));
    assert!(!is_kebab_segment(""));
    assert!(!is_kebab_segment("-lead"));
    assert!(!is_kebab_segment("trail-"));
    assert!(!is_kebab_segment("double--dash"));
    assert!(!is_kebab_segment("Upper"));
    assert!(is_namespace("game.combat"));
    assert!(!is_namespace("game..combat"));
    assert!(!is_namespace(""));
    assert!(!is_namespace("game.combat."));
    assert!(is_stable_id("combat.provider"));
}

#[test]
fn namespace_ownership_needs_a_dot_boundary() {
    assert!(namespace_owns("game.combat", "game.combat"));
    assert!(namespace_owns("game.combat", "game.combat.fx"));
    assert!(!namespace_owns("game.combat", "game.combatant"));
    assert!(!namespace_owns("game.combat.fx", "game.combat"));
}

#[test]
fn hash_labels() {
    assert!(is_hash("fnv1a64:0123456789abcdef"));
    assert!(!is_hash("fnv1a64:0123456789ABCDEF"));
    assert!(!is_hash("fnv1a64:0123"));
    assert!(is_hash(&format!("sha256:{}", "a".repeat(64))));
    assert!(!is_hash("sha256:name-v1"));
    assert!(!is_hash("md5:0123456789abcdef"));
    assert!(!is_hash("0123456789abcdef"));
}

#[test]
fn versions_and_blank_text() {
    assert!(is_version("1.0.0"));
    assert!(!is_version(""));
    assert!(!is_version("1.0 beta"));
    assert!(!is_version("1.0\u{a0}"));
    assert!(is_blank(""));
    assert!(is_blank(" \t\n\u{3000}"));
    assert!(!is_blank(" x "));
}

#[test]
fn project_relative_paths() {
    assert!(valid_project_relative_path("assets/levels/tunnel.json"));
    assert!(valid_project_relative_path("./assets/x"));
    assert!(!valid_project_relative_path(""));
    assert!(!valid_project_relative_path("/abs/path"));
    assert!(!valid_project_relative_path("assets\\x"));
    assert!(!valid_project_relative_path("assets//x"));
    assert!(!valid_project_relative_path("assets/../x"));
    assert!(!valid_project_relative_path(" assets/x"));
    assert!(!valid_project_relative_path("assets/x/"));
}

#[test]
fn manifest_source_paths() {
    assert_eq!(validate_source_path("content/scenes/main.json"), Ok(()));
    let message =
        Err("project-content sourcePath must be a normalized project-relative path".to_owned());
    assert_eq!(validate_source_path("./content/main.json"), message);
    assert_eq!(validate_source_path("content/../main.json"), message);
    assert_eq!(validate_source_path("/content/main.json"), message);
    assert_eq!(validate_source_path("content\\main.json"), message);
    assert_eq!(validate_source_path(""), message);
}

use asha_services::ids::{is_authored_id, valid_authored_source_module, valid_authored_source_path};

#[test]
fn authored_behavior_identifiers() {
    assert!(is_authored_id("door.open_v2-alt"));
    assert!(!is_authored_id(""));
    assert!(!is_authored_id("door open"));
    assert!(!is_authored_id(&"a".repeat(97)));
    assert!(is_authored_id(&"a".repeat(96)));
    assert!(valid_authored_source_module("@game/behaviors.door"));
    assert!(!valid_authored_source_module("game:door"));
    assert!(valid_authored_source_path("src/behaviors/door.ts"));
    assert!(!valid_authored_source_path("src/./door.ts"));
    assert!(!valid_authored_source_path("src/door ts"));
    assert!(!valid_authored_source_path("/src/door.ts"));
    assert!(!valid_authored_source_path(&"a".repeat(513)));
}
