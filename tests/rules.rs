use tidycraft::rules::texture::{next_power_of_two, TextureRule};
use tidycraft::unreal::{get_unreal_asset_type, is_content_path};

#[test]
fn power_of_two_checks() {
    assert!(TextureRule::is_power_of_two(256));
    assert!(!TextureRule::is_power_of_two(0));
    assert!(!TextureRule::is_power_of_two(300));
    assert_eq!(next_power_of_two(300), 512);
    assert_eq!(next_power_of_two(0), 1);
    assert_eq!(next_power_of_two(1), 1);
    assert_eq!(next_power_of_two(4100), 8192);
    assert_eq!(next_power_of_two(0x8000_0001), 0);
}

#[test]
fn test_is_content_path() {
    let project_root = "/game/MyProject";
    let content_file = "/game/MyProject/Content/Textures/logo.png";
    let source_file = "/game/MyProject/Source/MyModule/main.cpp";

    assert!(is_content_path(content_file, project_root));
    assert!(!is_content_path(source_file, project_root));
}

#[test]
fn test_get_unreal_asset_type() {
    assert_eq!(get_unreal_asset_type("texture.uasset"), Some("Asset".to_string()));
    assert_eq!(get_unreal_asset_type("level.umap"), Some("Map".to_string()));
    assert_eq!(get_unreal_asset_type("script.cpp"), None);
    assert_eq!(get_unreal_asset_type("LEVEL.UMAP"), Some("Map".to_string()));
}
