use tidycraft::godot::{
    extract_autoloads, extract_input_actions, get_godot_resource_type, godot_project_info,
    infer_godot_version, parse_godot_array, parse_godot_config, unquote, GodotConfig, GodotEntry,
    GodotResourceType, GodotSection,
};
use tidycraft::unity::{
    extract_components, extract_file_id, extract_references, extract_type, extract_unity_class_id,
    unity_class_name, unity_file_info, UnityFileType,
};

fn section(name: &str, entries: &[(&str, &str)]) -> GodotSection {
    GodotSection {
        name: name.to_string(),
        entries: entries
            .iter()
            .map(|(k, v)| GodotEntry { key: k.to_string(), value: v.to_string() })
            .collect(),
    }
}

#[test]
fn test_parse_godot_config() {
    let content = r#"
; This is a comment
[application]
config/name="My Game"
config/description="A test game"
run/main_scene="res://main.tscn"

[autoload]
GameManager="*res://scripts/game_manager.gd"
Utils="res://scripts/utils.gd"

[input]
move_left=null
move_right=null
"#;
    let config = parse_godot_config(content);

    assert!(config.contains_key("application"));
    assert!(config.contains_key("autoload"));
    assert!(config.contains_key("input"));

    let app = config.get("application").unwrap();
    assert_eq!(app.get("config/name"), Some(&"\"My Game\"".to_string()));
    assert_eq!(
        app.get("run/main_scene"),
        Some(&"\"res://main.tscn\"".to_string())
    );
}

#[test]
fn test_parse_project_godot() {
    let content = r#"
; Engine configuration file.

config_version=5

[application]

config/name="Test Project"
config/features=PackedStringArray("4.2", "Forward Plus")
run/main_scene="res://scenes/main.tscn"
config/icon="res://icon.svg"

[autoload]

GameState="*res://autoload/game_state.gd"

[input]

jump=null
attack=null

[rendering]

renderer/rendering_method="forward_plus"
"#;
    let info = godot_project_info("project.godot", content);

    assert_eq!(info.project_name, "Test Project");
    assert_eq!(info.godot_version, Some("4.2".to_string()));
    assert_eq!(info.main_scene, Some("res://scenes/main.tscn".to_string()));
    assert_eq!(info.icon, Some("res://icon.svg".to_string()));
    assert!(info.features.contains(&"4.2".to_string()));
    assert!(info.features.contains(&"Forward Plus".to_string()));

    assert_eq!(info.autoloads.len(), 1);
    assert_eq!(info.autoloads[0].name, "GameState");
    assert!(info.autoloads[0].singleton);

    assert!(info.input_actions.contains(&"jump".to_string()));
    assert!(info.input_actions.contains(&"attack".to_string()));

    assert_eq!(info.renderer, Some("forward_plus".to_string()));
}

#[test]
fn test_parse_project_godot_minimal() {
    let content = "\nconfig_version=5\n\n[application]\nconfig/name=\"Minimal\"\n";
    let info = godot_project_info("project.godot", content);

    assert_eq!(info.project_name, "Minimal");
    assert!(info.main_scene.is_none());
    assert!(info.autoloads.is_empty());
    assert!(info.input_actions.is_empty());
    assert_eq!(info.godot_version, Some("4.x".to_string()));
}

#[test]
fn test_parse_godot_array() {
    let packed = r#"PackedStringArray("4.2", "Forward Plus", "GL Compatibility")"#;
    let result = parse_godot_array(packed);
    assert_eq!(result, vec!["4.2", "Forward Plus", "GL Compatibility"]);

    let bracket = r#"["a", "b", "c"]"#;
    let result = parse_godot_array(bracket);
    assert_eq!(result, vec!["a", "b", "c"]);

    let empty = r#"PackedStringArray()"#;
    let result = parse_godot_array(empty);
    assert!(result.is_empty());
}

#[test]
fn test_unquote() {
    assert_eq!(unquote("\"hello\""), "hello");
    assert_eq!(unquote("'world'"), "world");
    assert_eq!(unquote("no quotes"), "no quotes");
    assert_eq!(unquote("  \"spaced\"  "), "spaced");
    assert_eq!(unquote("\""), "\"");
}

#[test]
fn test_extract_autoloads() {
    let config = GodotConfig {
        sections: vec![section(
            "autoload",
            &[
                ("Singleton", "\"*res://singleton.gd\""),
                ("Helper", "\"res://helper.gd\""),
            ],
        )],
    };

    let result = extract_autoloads(&config);

    assert_eq!(result.len(), 2);

    let singleton = result.iter().find(|a| a.name == "Singleton").unwrap();
    assert!(singleton.singleton);
    assert_eq!(singleton.path, "res://singleton.gd");

    let helper = result.iter().find(|a| a.name == "Helper").unwrap();
    assert!(!helper.singleton);
    assert_eq!(helper.path, "res://helper.gd");
}

#[test]
fn test_infer_godot_version_from_features() {
    let config = GodotConfig { sections: vec![] };
    let features = vec!["4.3".to_string(), "Forward Plus".to_string()];

    let version = infer_godot_version(&config, &features);
    assert_eq!(version, Some("4.3".to_string()));
}

#[test]
fn test_infer_godot_version_from_config() {
    let config = GodotConfig { sections: vec![section("", &[("config_version", "5")])] };

    let version = infer_godot_version(&config, &vec![]);
    assert_eq!(version, Some("4.x".to_string()));
}

#[test]
fn input_actions_are_sorted_and_skip_slashes() {
    let config = GodotConfig {
        sections: vec![section(
            "input",
            &[("zoom", "null"), ("jump", "null"), ("ui/accept", "null"), ("attack", "null")],
        )],
    };
    assert_eq!(extract_input_actions(&config), vec!["attack", "jump", "zoom"]);
}

#[test]
fn later_values_replace_earlier_ones() {
    let config = parse_godot_config("a=1\n[s]\nk=1\nk=2\n[s]\nj=3\n");
    assert_eq!(config.sections.len(), 2);
    assert_eq!(config.get("").unwrap().get("a"), Some(&"1".to_string()));
    let s = config.get("s").unwrap();
    assert_eq!(s.get("k"), Some(&"2".to_string()));
    assert_eq!(s.get("j"), Some(&"3".to_string()));
    assert_eq!(s.entries.len(), 2);
}

#[test]
fn test_get_godot_resource_type() {
    assert_eq!(get_godot_resource_type("main.tscn"), Some(GodotResourceType::Scene));
    assert_eq!(get_godot_resource_type("player.gd"), Some(GodotResourceType::Script));
    assert_eq!(get_godot_resource_type("logo.png"), Some(GodotResourceType::Texture));
    assert_eq!(get_godot_resource_type("bgm.ogg"), Some(GodotResourceType::AudioStream));
    assert_eq!(get_godot_resource_type("FONT.TTF"), Some(GodotResourceType::Font));
    assert_eq!(get_godot_resource_type("README"), None);
}

#[test]
fn test_extract_guid() {
    let content = r#"
        m_Texture: {fileID: 2800000, guid: abc123def456789012345678901234ab, type: 3}
        "#;
    let refs = extract_references(content);
    assert_eq!(refs.len(), 1);
    assert_eq!(refs[0].guid, "abc123def456789012345678901234ab");
    assert_eq!(refs[0].file_id, Some(2800000));
    assert_eq!(refs[0].ref_type, Some(3));
}

#[test]
fn test_file_type() {
    assert_eq!(UnityFileType::from_extension("prefab"), UnityFileType::Prefab);
    assert_eq!(UnityFileType::from_extension("unity"), UnityFileType::Scene);
    assert_eq!(UnityFileType::from_extension("mat"), UnityFileType::Material);
    assert_eq!(UnityFileType::from_extension("TXT"), UnityFileType::Unknown);
}

#[test]
fn references_are_distinct_and_skip_comments() {
    let content = "%YAML 1.1\n# guid: abc123def456789012345678901234ab\nx: {fileID: -7, guid: abc123def456789012345678901234ab, type: 2}\ny: {fileID: -7, guid: abc123def456789012345678901234ab, type: 2}\nz: {guid: short}\n";
    let refs = extract_references(content);
    assert_eq!(refs.len(), 1);
    assert_eq!(refs[0].file_id, Some(-7));
}

#[test]
fn unity_line_fields() {
    assert_eq!(extract_file_id("{fileID: 11500000, guid: x}"), Some(11500000));
    assert_eq!(extract_file_id("no id here"), None);
    assert_eq!(extract_type("type: 3}"), Some(3));
    assert_eq!(extract_unity_class_id("--- !u!114 &1234"), Some(114));
    assert_eq!(unity_class_name(114), Some("MonoBehaviour"));
    assert_eq!(unity_class_name(999), None);
}

#[test]
fn components_of_a_prefab() {
    let content = "--- !u!1 &100\nGameObject:\n--- !u!4 &200\n--- !u!114 &300\n  m_Script: {fileID: 1, guid: abc123def456789012345678901234ab, type: 3}\n--- !u!4 &400\n";
    let comps = extract_components(content);
    assert_eq!(comps, vec!["GameObject", "Transform", "MonoBehaviour"]);
    let info = unity_file_info("/p/a.prefab", content).unwrap();
    assert_eq!(info.file_type, UnityFileType::Prefab);
    assert_eq!(info.components.len(), 3);
    assert!(unity_file_info("/p/a.txt", content).is_none());
    let mat = unity_file_info("/p/a.mat", content).unwrap();
    assert!(mat.components.is_empty());
    assert_eq!(mat.references.len(), 1);
}

#[test]
fn config_versions_parse_with_signs_and_spaces() {
    let cfg = |v: &str| GodotConfig { sections: vec![section("", &[("config_version", v)])] };
    assert_eq!(infer_godot_version(&cfg("+4"), &vec![]), Some("3.x".to_string()));
    assert_eq!(infer_godot_version(&cfg("x"), &vec![]), None);
    assert_eq!(infer_godot_version(&cfg("99999999999"), &vec![]), None);
    let parsed = parse_godot_config("\u{3000}[s]\r\n k =  v \r\nlast=\r");
    assert_eq!(parsed.get("s").unwrap().get("k"), Some(&"v".to_string()));
    assert_eq!(parsed.get("s").unwrap().get("last"), Some(&"".to_string()));
}
