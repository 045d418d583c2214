use tidycraft::analysis::Severity;
use tidycraft::asset::{
    get_asset_type, metadata_source, should_scan, AssetInfo, AssetMetadata, AssetType,
    MetadataSource,
};
use tidycraft::cache::{accept_loaded, ScanCache, CACHE_VERSION};
use tidycraft::duplicate::{find_duplicates, hash_candidates};
use tidycraft::rules::audio::AudioRule;
use tidycraft::rules::model::{ModelConfig, ModelRule};
use tidycraft::rules::naming::{is_camel_case, is_pascal_case, is_snake_case, NamingConfig, NamingRule};
use tidycraft::rules::texture::{TextureConfig, TextureRule};
use tidycraft::rules::audio::AudioConfig;
use tidycraft::rules::{Analyzer, RuleConfig};
use tidycraft::scan::{
    build_directory_node, build_result, check_root, next_phase, plan_incremental,
    project_type_from_markers, publishes_file_name, DirectoryNode, DiscoveredFile, ProjectType,
    ScanError, ScanPhase,
};

fn asset(path: &str, asset_type: AssetType, size: u64, metadata: Option<AssetMetadata>) -> AssetInfo {
    let name = path.rsplit('/').next().unwrap().to_string();
    let extension = name.rsplit('.').next().unwrap().to_string();
    AssetInfo {
        path: path.to_string(),
        name,
        extension,
        asset_type,
        size,
        metadata,
        unity_guid: None,
    }
}

fn leaf(name: &str) -> DirectoryNode {
    DirectoryNode {
        name: name.to_string(),
        path: format!("/root/{}", name),
        children: vec![],
        file_count: 0,
        total_size: 0,
    }
}

#[test]
fn classification_ignores_case_and_falls_back_to_other() {
    assert_eq!(get_asset_type("PNG"), AssetType::Texture);
    assert_eq!(get_asset_type("fbx"), AssetType::Model);
    assert_eq!(get_asset_type("Wav"), AssetType::Audio);
    assert_eq!(get_asset_type("unity"), AssetType::Scene);
    assert_eq!(get_asset_type("controller"), AssetType::Animation);
    assert_eq!(get_asset_type("csv"), AssetType::Data);
    assert_eq!(get_asset_type("xyz"), AssetType::Other);
    assert_eq!(metadata_source(AssetType::Texture, "JPG"), MetadataSource::Image);
    assert_eq!(metadata_source(AssetType::Texture, "psd"), MetadataSource::Unsupported);
    assert_eq!(metadata_source(AssetType::Model, "glb"), MetadataSource::Gltf);
    assert_eq!(metadata_source(AssetType::Model, "obj"), MetadataSource::Obj);
    assert_eq!(metadata_source(AssetType::Audio, "flac"), MetadataSource::Unsupported);
}

#[test]
fn discovery_skips_hidden_sidecar_and_extensionless_files() {
    assert!(should_scan("a.png", "png"));
    assert!(!should_scan(".hidden.png", "png"));
    assert!(!should_scan("a.png.meta", "meta"));
    assert!(!should_scan("Makefile", ""));
}

#[test]
fn root_checks_report_each_error() {
    assert_eq!(check_root("/x", false, false), Err(ScanError::PathNotFound("/x".to_string())));
    assert_eq!(
        check_root("/x", true, false),
        Err(ScanError::InvalidPath("/x is not a directory".to_string()))
    );
    assert_eq!(check_root("/x", true, true), Ok(()));
    assert!(publishes_file_name(100));
    assert!(!publishes_file_name(101));
}

#[test]
fn rescan_is_needed_only_after_a_change() {
    let mut cache = ScanCache::new("/test", 0);
    assert!(cache.needs_rescan("/test/file.png", 12345, 1000));
    cache.update_entry(asset("/test/file.png", AssetType::Texture, 1000, None), 12345);
    assert!(!cache.needs_rescan("/test/file.png", 12345, 1000));
    assert!(cache.needs_rescan("/test/file.png", 12346, 1000));
    assert!(cache.needs_rescan("/test/file.png", 12345, 1001));
    cache.update_entry(asset("/test/file.png", AssetType::Texture, 1001, None), 12346);
    assert_eq!(cache.entries.len(), 1);
    assert!(!cache.needs_rescan("/test/file.png", 12346, 1001));
}

#[test]
fn test_needs_rescan() {
    let cache = ScanCache::new("/test", 0);
    assert!(cache.needs_rescan("/test/file.png", 12345, 1000));
}

#[test]
fn test_cache_path_generation() {
    let name = ScanCache::cache_file_name("/test/project");
    assert_eq!(name.len(), 21);
    assert!(name.ends_with(".json"));
    assert!(name[..16].chars().all(|c| c.is_ascii_hexdigit()));
    assert_ne!(name, ScanCache::cache_file_name("/test/other"));
    // first 8 bytes of SHA-256("abc")
    assert_eq!(ScanCache::cache_file_name("abc"), "ba7816bf8f01cfea.json");
}

#[test]
fn loaded_caches_are_trusted_only_for_their_project() {
    let good = ScanCache::new("/p", 1);
    assert!(accept_loaded(Some(good), "/p").is_some());
    let other = ScanCache::new("/q", 1);
    assert!(accept_loaded(Some(other), "/p").is_none());
    let mut old = ScanCache::new("/p", 1);
    old.version = CACHE_VERSION + 1;
    assert!(accept_loaded(Some(old), "/p").is_none());
    assert!(accept_loaded(None, "/p").is_none());
}

#[test]
fn incremental_plan_prunes_and_counts() {
    let mut cache = ScanCache::new("/p", 0);
    cache.update_entry(asset("/p/a.png", AssetType::Texture, 10, None), 1);
    cache.update_entry(asset("/p/b.png", AssetType::Texture, 20, None), 2);
    cache.update_entry(asset("/p/gone.png", AssetType::Texture, 30, None), 3);
    let files = vec![
        DiscoveredFile { path: "/p/a.png".to_string(), modified: 1, size: 10 },
        DiscoveredFile { path: "/p/b.png".to_string(), modified: 5, size: 20 },
        DiscoveredFile { path: "/p/c.png".to_string(), modified: 1, size: 1 },
    ];
    let plan = plan_incremental(&mut cache, &files);
    assert_eq!(plan.to_parse, vec![1, 2]);
    assert_eq!(plan.stats.total_files, 3);
    assert_eq!(plan.stats.cached_files, 1);
    assert_eq!(plan.stats.rescanned_files, 2);
    assert_eq!(
        plan.stats.total_files,
        plan.stats.cached_files + plan.stats.rescanned_files
    );
    assert_eq!(cache.entries.len(), 2);
    assert_eq!(cache.get_assets().len(), 2);
    assert!(cache.is_well_formed());
}

#[test]
fn cache_entries_stay_ordered_by_path() {
    let mut cache = ScanCache::new("/p", 0);
    for p in ["/p/m.png", "/p/b.png", "/p/z.png", "/p/a.png", "/p/b.png"] {
        cache.update_entry(asset(p, AssetType::Texture, 1, None), 1);
    }
    let paths: Vec<&str> = cache.entries.iter().map(|e| e.path.as_str()).collect();
    assert_eq!(paths, vec!["/p/a.png", "/p/b.png", "/p/m.png", "/p/z.png"]);
    assert!(cache.is_well_formed());
    cache.entries.swap(0, 1);
    assert!(!cache.is_well_formed());
}

#[test]
fn identical_files_yield_one_issue_fewer_than_copies() {
    let assets = vec![
        asset("/p/a.wav", AssetType::Audio, 100, None),
        asset("/p/b.wav", AssetType::Audio, 100, None),
        asset("/p/unique.wav", AssetType::Audio, 7, None),
        asset("/p/c.wav", AssetType::Audio, 100, None),
    ];
    let candidates = hash_candidates(&assets);
    assert_eq!(candidates, vec![true, true, false, true]);
    let digests = vec![
        Some("h".to_string()),
        Some("h".to_string()),
        None,
        Some("h".to_string()),
    ];
    let result = find_duplicates(&assets, &digests);
    assert_eq!(result.issue_count, 2);
    assert_eq!(result.issues[0].asset_path, "/p/b.wav");
    assert_eq!(result.issues[1].asset_path, "/p/c.wav");
    assert_eq!(result.issues[0].message, "File is a duplicate of 'a.wav'");
    assert_eq!(
        result.issues[0].suggestion.as_deref(),
        Some("Consider removing this file or consolidating with '/p/a.wav'")
    );
    assert_eq!(result.warning_count, 2);
}

#[test]
fn unreadable_or_different_files_are_not_duplicates() {
    let assets = vec![
        asset("/p/a.wav", AssetType::Audio, 100, None),
        asset("/p/b.wav", AssetType::Audio, 100, None),
        asset("/p/c.wav", AssetType::Audio, 100, None),
    ];
    let digests = vec![Some("x".to_string()), None, Some("y".to_string())];
    assert_eq!(find_duplicates(&assets, &digests).issue_count, 0);
}

#[test]
fn texture_rule_reports_the_first_failing_check() {
    let rule = TextureRule::new(TextureConfig::default());
    let big = asset("/p/T_big.png", AssetType::Texture, 10, Some(AssetMetadata::image(4100, 4100, false)));
    let issue = rule.check(&big).unwrap();
    assert_eq!(issue.rule_id, "texture.max_size");
    assert_eq!(issue.severity, Severity::Warning);
    assert_eq!(issue.message, "Texture 4100x4100 exceeds maximum size 4096");
    assert_eq!(issue.suggestion.as_deref(), Some("Resize to 4096x4096 or smaller"));

    let odd = asset("/p/T_odd.png", AssetType::Texture, 10, Some(AssetMetadata::image(300, 256, false)));
    let issue = rule.check(&odd).unwrap();
    assert_eq!(issue.rule_id, "texture.pot");
    assert_eq!(issue.message, "Texture dimensions 300x256 are not power of two");
    assert_eq!(issue.suggestion.as_deref(), Some("Resize to 512x256"));

    let mut cfg = TextureConfig::default();
    cfg.require_pot = false;
    assert!(TextureRule::new(cfg).check(&odd).is_none());

    let tiny = asset("/p/t.png", AssetType::Texture, 10, Some(AssetMetadata::image(2, 2, true)));
    assert_eq!(TextureRule::new(TextureConfig::default()).check(&tiny).unwrap().rule_id, "texture.min_size");
    let heavy = asset("/p/h.png", AssetType::Texture, 11 * 1024 * 1024, Some(AssetMetadata::image(64, 64, true)));
    let issue = TextureRule::new(TextureConfig::default()).check(&heavy).unwrap();
    assert_eq!(issue.message, "Texture file size 11.00 MB exceeds maximum 10.00 MB");
    let fine = asset("/p/f.png", AssetType::Texture, 10, Some(AssetMetadata::image(64, 64, true)));
    assert!(TextureRule::new(TextureConfig::default()).check(&fine).is_none());
    let unknown = asset("/p/u.png", AssetType::Texture, 10, None);
    assert!(TextureRule::new(TextureConfig::default()).check(&unknown).is_none());
}

#[test]
fn naming_rule_checks_in_fixed_order() {
    let rule = NamingRule::new(NamingConfig::default());
    let long = asset(&format!("/p/T_{}.png", "a".repeat(70)), AssetType::Texture, 1, None);
    assert_eq!(rule.check(&long).unwrap().rule_id, "naming.length");
    let spaced = asset("/p/T_my file!.png", AssetType::Texture, 1, None);
    let issue = rule.check(&spaced).unwrap();
    assert_eq!(issue.rule_id, "naming.forbidden_char");
    assert_eq!(issue.message, "File name contains forbidden character: ' '");
    let cjk = asset("/p/T_\u{4e2d}.png", AssetType::Texture, 1, None);
    assert_eq!(rule.check(&cjk).unwrap().rule_id, "naming.chinese");
    let unprefixed = asset("/p/rock.png", AssetType::Texture, 1, None);
    let issue = rule.check(&unprefixed).unwrap();
    assert_eq!(issue.rule_id, "naming.prefix");
    assert_eq!(issue.suggestion.as_deref(), Some("Rename to T_rock.png"));
    assert!(rule.check(&asset("/p/T_rock.png", AssetType::Texture, 1, None)).is_none());

    let mut cfg = NamingConfig::default();
    cfg.case_style = "snake_case".to_string();
    let rule = NamingRule::new(cfg);
    let issue = rule.check(&asset("/p/BadName.wav", AssetType::Audio, 1, None)).unwrap();
    assert_eq!(issue.rule_id, "naming.case");
    assert_eq!(issue.severity, Severity::Info);
    assert!(rule.check(&asset("/p/good_name2.wav", AssetType::Audio, 1, None)).is_none());
}

#[test]
fn case_styles() {
    assert!(is_pascal_case("PlayerModel"));
    assert!(!is_pascal_case("PLAYER"));
    assert!(!is_pascal_case("Player_Model"));
    assert!(is_pascal_case(""));
    assert!(is_snake_case("player_model_2"));
    assert!(!is_snake_case("playerModel"));
    assert!(is_camel_case("playerModel"));
    assert!(!is_camel_case("PlayerModel"));
}

#[test]
fn model_rule_limits() {
    let rule = ModelRule::new(ModelConfig::default());
    let heavy = asset("/p/m.obj", AssetType::Model, 1, Some(AssetMetadata::mesh(200_000, 10, 1)));
    let issue = rule.check(&heavy).unwrap();
    assert_eq!(issue.rule_id, "model.vertices");
    assert_eq!(issue.message, "Model has 200000 vertices, maximum recommended is 100000");
    let mats = asset("/p/m.obj", AssetType::Model, 1, Some(AssetMetadata::mesh(10, 10, 11)));
    assert_eq!(rule.check(&mats).unwrap().rule_id, "model.materials");
    let ok = asset("/p/m.obj", AssetType::Model, 1, Some(AssetMetadata::mesh(10, 10, 1)));
    assert!(rule.check(&ok).is_none());
}

#[test]
fn audio_rule_checks() {
    let rule = AudioRule::new(AudioConfig::default());
    let odd = asset(
        "/p/music.wav",
        AssetType::Audio,
        1,
        Some(AssetMetadata::audio(Some(22050), Some(22050), Some(2), Some(16))),
    );
    let issue = rule.check(&odd).unwrap();
    assert_eq!(issue.rule_id, "audio.sample_rate");
    assert_eq!(issue.message, "Audio sample rate 22050 Hz is not standard (expected [44100, 48000])");
    assert_eq!(issue.suggestion.as_deref(), Some("Consider resampling to 44100 Hz"));
    let long_sfx = asset(
        "/p/sfx_boom.wav",
        AssetType::Audio,
        1,
        Some(AssetMetadata::audio(Some(44100 * 31), Some(44100), Some(1), Some(16))),
    );
    let issue = rule.check(&long_sfx).unwrap();
    assert_eq!(issue.rule_id, "audio.sfx_duration");
    assert_eq!(issue.message, "Sound effect is 31.0s long, maximum recommended is 30s");
    let long_music = asset(
        "/p/theme.wav",
        AssetType::Audio,
        1,
        Some(AssetMetadata::audio(Some(44100 * 300), Some(44100), Some(2), Some(16))),
    );
    assert!(rule.check(&long_music).is_none());
    let mut cfg = AudioConfig::default();
    cfg.prefer_mono_for_sfx = true;
    let stereo = asset(
        "/p/click.wav",
        AssetType::Audio,
        1,
        Some(AssetMetadata::audio(Some(100), Some(48000), Some(2), Some(16))),
    );
    assert_eq!(AudioRule::new(cfg).check(&stereo).unwrap().rule_id, "audio.stereo_sfx");
}

#[test]
fn scan_result_is_sorted_and_counted() {
    let assets = vec![
        asset("/root/b.png", AssetType::Texture, 5, None),
        asset("/root/A.wav", AssetType::Audio, 7, None),
        asset("/root/sub/c.png", AssetType::Texture, 11, None),
    ];
    let sub = build_directory_node("sub".to_string(), "/root/sub".to_string(), vec![], &assets);
    assert_eq!(sub.file_count, 1);
    assert_eq!(sub.total_size, 11);
    let root = build_directory_node(
        "root".to_string(),
        "/root".to_string(),
        vec![leaf("zeta"), sub, leaf("Alpha")],
        &assets,
    );
    assert_eq!(root.file_count, 3);
    assert_eq!(root.total_size, 23);
    let names: Vec<&str> = root.children.iter().map(|c| c.name.as_str()).collect();
    assert_eq!(names, vec!["Alpha", "sub", "zeta"]);
    let result = build_result("/root", root, assets, None);
    let paths: Vec<&str> = result.assets.iter().map(|a| a.path.as_str()).collect();
    assert_eq!(paths, vec!["/root/A.wav", "/root/b.png", "/root/sub/c.png"]);
    assert_eq!(result.total_count, 3);
    assert_eq!(result.total_size, 23);
    assert_eq!(result.type_counts.len(), 2);
    assert_eq!(result.type_counts[0].asset_type, AssetType::Texture);
    assert_eq!(result.type_counts[0].count, 2);
    assert_eq!(result.type_counts[1].count, 1);
}

#[test]
fn end_to_end_analysis_of_textures_and_duplicate_audio() {
    let assets = vec![
        asset("/p/T_small.png", AssetType::Texture, 100, Some(AssetMetadata::image(64, 64, false))),
        asset("/p/T_large.png", AssetType::Texture, 200, Some(AssetMetadata::image(4100, 4100, false))),
        asset("/p/loop_a.wav", AssetType::Audio, 300, None),
        asset("/p/loop_b.wav", AssetType::Audio, 300, None),
    ];
    let root = build_directory_node("p".to_string(), "/p".to_string(), vec![], &assets);
    let scan = build_result("/p", root, assets, None);
    let analyzer = Analyzer::with_config(&RuleConfig::default());
    assert_eq!(analyzer.rules.len(), 4);
    let mut result = analyzer.analyze(&scan);
    let large: Vec<&str> = result
        .issues
        .iter()
        .filter(|i| i.asset_path == "/p/T_large.png")
        .map(|i| i.rule_id.as_str())
        .collect();
    assert_eq!(large, vec!["texture.max_size"]);
    assert!(result.issues.iter().all(|i| i.rule_id != "texture.pot"));
    assert!(result.issues.iter().all(|i| i.asset_path != "/p/T_small.png"));

    let candidates = hash_candidates(&scan.assets);
    let digests: Vec<Option<String>> = scan
        .assets
        .iter()
        .zip(candidates.iter())
        .map(|(a, c)| if *c { Some(format!("digest-{}", a.size)) } else { None })
        .collect();
    let duplicates = analyzer.find_duplicates(&scan, &digests);
    assert_eq!(duplicates.issue_count, 1);
    assert_eq!(duplicates.issues[0].asset_path, "/p/loop_b.wav");
    assert_eq!(duplicates.issues[0].severity, Severity::Warning);
    result.merge(duplicates);
    assert_eq!(result.rule_count("duplicate"), 1);
    assert_eq!(result.issue_count, result.issues.len());

}

#[test]
fn test_analyzer_new() {
    let analyzer = Analyzer::new();
    assert!(analyzer.rules.is_empty());
}

#[test]
fn test_analyzer_with_default_config() {
    let config = RuleConfig::default();
    let analyzer = Analyzer::with_config(&config);
    assert!(!analyzer.rules.is_empty());
}

#[test]
fn directory_files_are_matched_by_path_components() {
    let assets = vec![asset("/root/a.png", AssetType::Texture, 3, None)];
    let node = build_directory_node("root".to_string(), "/root/".to_string(), vec![], &assets);
    assert_eq!(node.file_count, 1);
    assert_eq!(node.total_size, 3);
    assert!(tidycraft::scan::is_listed_directory("Textures"));
    assert!(!tidycraft::scan::is_listed_directory(".git"));
}

#[test]
fn cancellation_ends_an_unfinished_scan() {
    assert_eq!(next_phase(ScanPhase::Discovering, false), ScanPhase::Parsing);
    assert_eq!(next_phase(ScanPhase::Parsing, false), ScanPhase::Building);
    assert_eq!(next_phase(ScanPhase::Building, false), ScanPhase::Completed);
    assert_eq!(next_phase(ScanPhase::Parsing, true), ScanPhase::Cancelled);
    assert_eq!(next_phase(ScanPhase::Cancelled, false), ScanPhase::Cancelled);
    assert_eq!(next_phase(ScanPhase::Completed, true), ScanPhase::Completed);
}

#[test]
fn project_type_markers() {
    assert_eq!(project_type_from_markers(true, false, true, true), ProjectType::Unity);
    assert_eq!(project_type_from_markers(false, true, false, false), ProjectType::Unity);
    assert_eq!(project_type_from_markers(false, false, true, true), ProjectType::Unreal);
    assert_eq!(project_type_from_markers(false, false, false, true), ProjectType::Godot);
    assert_eq!(project_type_from_markers(false, false, false, false), ProjectType::Generic);
}

#[test]
fn meta_files_declare_a_guid() {
    let meta = "fileFormatVersion: 2\nguid: 0123456789abcdef0123456789abcdef\nTextureImporter:\n";
    assert_eq!(
        tidycraft::unity::guid_from_meta(meta),
        Some("0123456789abcdef0123456789abcdef".to_string())
    );
    assert_eq!(tidycraft::unity::guid_from_meta("nothing"), None);
}
