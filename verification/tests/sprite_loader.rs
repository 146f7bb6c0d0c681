use vale_village::domains::sprite_loader::{
    parse_djinn_manifest, parse_enemy_manifest, parse_string_value, trimmed, DjinnManifestEntry,
    EnemyManifestEntry,
};

#[test]
fn enemy_manifest_entries_in_order() {
    let content = "\n[entities.mercury-slime]\nsprite_idle = \"assets/slime.png\"\nsprite_attack=\"assets/slime_atk.png\"\n\n  [entities.earth-scout]  \r\nname = \"Scout\"\nsprite_idle = \"assets/scout.png\"\n";
    let entries = parse_enemy_manifest(content);
    assert_eq!(
        entries,
        vec![
            EnemyManifestEntry {
                id: "mercury-slime".to_string(),
                sprite_idle: Some("assets/slime.png".to_string()),
                sprite_attack: Some("assets/slime_atk.png".to_string()),
            },
            EnemyManifestEntry {
                id: "earth-scout".to_string(),
                sprite_idle: Some("assets/scout.png".to_string()),
                sprite_attack: None,
            },
        ]
    );
}

#[test]
fn enemy_keys_before_any_header_are_ignored() {
    let entries = parse_enemy_manifest("sprite_idle = \"x\"\nnot a key line\n[entities.a]]\n");
    assert_eq!(
        entries,
        vec![EnemyManifestEntry { id: "a".to_string(), sprite_idle: None, sprite_attack: None }]
    );
}

#[test]
fn empty_manifest_has_no_entries() {
    assert!(parse_enemy_manifest("").is_empty());
    assert!(parse_djinn_manifest("   \n\n").is_empty());
}

#[test]
fn djinn_manifest_entries_in_order() {
    let content = "[[djinn]]\nid = \"flint\"\nsprite = \"assets/flint.png\"\n[[djinn]]\nid=\"forge\"\n";
    assert_eq!(
        parse_djinn_manifest(content),
        vec![
            DjinnManifestEntry { id: "flint".to_string(), sprite: Some("assets/flint.png".to_string()) },
            DjinnManifestEntry { id: "forge".to_string(), sprite: None },
        ]
    );
}

#[test]
fn string_values_lose_blanks_and_quotes() {
    assert_eq!(parse_string_value("  \"\"abc\"  "), "abc");
    assert_eq!(parse_string_value("plain"), "plain");
    assert_eq!(parse_string_value(" \"a = b\" "), "a = b");
}

#[test]
fn trimming_matches_std() {
    for s in ["  a b  ", "\t\r\nx\u{3000}", "", "   ", "\u{a0}y"] {
        assert_eq!(trimmed(s), s.trim());
    }
}
