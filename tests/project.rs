use tidycraft::asset::{AssetInfo, AssetType};
use tidycraft::project::{
    dependency_graph, find_unused_assets, get_project_stats, largest_files, size_bucket,
    wants_references,
};
use tidycraft::scan::{build_directory_node, build_result};
use tidycraft::unity::{unity_file_info, UnityFileInfo};

fn guid_asset(path: &str, asset_type: AssetType, size: u64, guid: Option<&str>) -> AssetInfo {
    let name = path.rsplit('/').next().unwrap().to_string();
    let extension = name.rsplit('.').next().unwrap().to_string();
    AssetInfo {
        path: path.to_string(),
        name,
        extension,
        asset_type,
        size,
        metadata: None,
        unity_guid: guid.map(|g| g.to_string()),
    }
}

const TEX: &str = "aaaaaaaaaaaaaaaaaaaaaaaaaaaaaaaa";
const MAT: &str = "bbbbbbbbbbbbbbbbbbbbbbbbbbbbbbbb";
const LONE: &str = "cccccccccccccccccccccccccccccccc";
const GONE: &str = "dddddddddddddddddddddddddddddddd";

fn project() -> (Vec<AssetInfo>, Vec<Option<UnityFileInfo>>) {
    let assets = vec![
        guid_asset("/p/Assets/wall.png", AssetType::Texture, 2048, Some(TEX)),
        guid_asset("/p/Assets/wall.mat", AssetType::Material, 10, Some(MAT)),
        guid_asset("/p/Assets/lone.png", AssetType::Texture, 20 * 1024 * 1024, Some(LONE)),
        guid_asset("/p/Assets/readme.txt", AssetType::Other, 5, None),
    ];
    let mat_text = format!(
        "m_Texture: {{fileID: 2800000, guid: {}, type: 3}}\nm_Other: {{fileID: 1, guid: {}, type: 3}}\n",
        TEX, GONE
    );
    let infos = vec![None, unity_file_info("/p/Assets/wall.mat", &mat_text), None, None];
    (assets, infos)
}

#[test]
fn dependency_graph_links_known_guids() {
    let (assets, infos) = project();
    let graph = dependency_graph(&assets, &infos);
    assert_eq!(graph.nodes.len(), 3);
    assert_eq!(graph.nodes[0].file_type, "texture");
    assert_eq!(graph.edges.len(), 1);
    assert_eq!(graph.edges[0].from_guid, MAT);
    assert_eq!(graph.edges[0].to_guid, TEX);
}

#[test]
fn unreferenced_assets_are_reported() {
    let (assets, infos) = project();
    let unused = find_unused_assets(&assets, &infos);
    assert_eq!(unused, vec!["/p/Assets/wall.mat", "/p/Assets/lone.png"]);
    assert!(wants_references("MAT", false));
    assert!(!wants_references("controller", false));
    assert!(wants_references("controller", true));
}

#[test]
fn project_statistics() {
    let (assets, _) = project();
    let parents: Vec<Option<String>> = assets.iter().map(|_| Some("/p/Assets".to_string())).collect();
    let root = build_directory_node("p".to_string(), "/p".to_string(), vec![], &assets);
    let scan = build_result("/p", root, assets, None);
    let stats = get_project_stats(&scan, &parents);
    assert_eq!(stats.total_assets, 4);
    assert_eq!(stats.largest_files[0].name, "lone.png");
    assert_eq!(stats.largest_files.len(), 4);
    let textures = stats.type_distribution.iter().find(|c| c.key == "texture").unwrap();
    assert_eq!(textures.count, 2);
    let big = stats.size_distribution.iter().find(|c| c.key == "> 10 MB").unwrap();
    assert_eq!(big.count, 1);
    assert_eq!(stats.directory_sizes.len(), 1);
    assert_eq!(stats.directory_sizes[0].size, 2048 + 10 + 20 * 1024 * 1024 + 5);
    assert_eq!(size_bucket(1023), "< 1 KB");
    assert_eq!(size_bucket(1024), "1-10 KB");
    assert_eq!(size_bucket(1024 * 1024), "1-10 MB");
}

#[test]
fn largest_files_keep_the_top_sizes() {
    let assets: Vec<AssetInfo> = (0..15u64)
        .map(|i| guid_asset(&format!("/p/f{}.bin", i), AssetType::Other, (i * 7) % 11, None))
        .collect();
    let top = largest_files(&assets, 10);
    assert_eq!(top.len(), 10);
    let sizes: Vec<u64> = top.iter().map(|f| f.size).collect();
    let mut expected: Vec<u64> = assets.iter().map(|a| a.size).collect();
    expected.sort_by(|a, b| b.cmp(a));
    expected.truncate(10);
    assert_eq!(sizes, expected);
}
