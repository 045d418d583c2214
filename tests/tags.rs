use tidycraft::tags::TagsData;

#[test]
fn test_create_tag() {
    let mut data = TagsData::default();
    let tag = data.create_tag("Important".to_string(), "#ff0000".to_string());

    assert_eq!(tag.name, "Important");
    assert_eq!(tag.color, "#ff0000");
    assert_eq!(tag.id.len(), 36);
    assert_eq!(data.tags.len(), 1);
}

#[test]
fn test_add_remove_tag_from_asset() {
    let mut data = TagsData::default();
    let tag = data.create_tag("Test".to_string(), "#00ff00".to_string());

    data.add_tag_to_asset("/path/to/asset.png", &tag.id);
    assert_eq!(data.get_asset_tags("/path/to/asset.png").len(), 1);

    data.remove_tag_from_asset("/path/to/asset.png", &tag.id);
    assert_eq!(data.get_asset_tags("/path/to/asset.png").len(), 0);
}

#[test]
fn tags_are_assigned_once_and_deleted_everywhere() {
    let mut data = TagsData::default();
    let a = data.create_tag("A".to_string(), "#111111".to_string());
    let b = data.create_tag("B".to_string(), "#222222".to_string());
    assert_ne!(a.id, b.id);
    data.add_tag_to_asset("/x.png", &a.id);
    data.add_tag_to_asset("/x.png", &a.id);
    data.add_tag_to_asset("/x.png", &b.id);
    data.add_tag_to_asset("/y.png", &a.id);
    data.add_tag_to_asset("/z.png", "no-such-tag");
    assert_eq!(data.get_asset_tags("/x.png").len(), 2);
    assert_eq!(data.get_assets_with_tag(&a.id), vec!["/x.png", "/y.png"]);
    assert!(data.get_asset_tags("/z.png").is_empty());

    let renamed = data.update_tag(&a.id, Some("Alpha".to_string()), None).unwrap();
    assert_eq!(renamed.name, "Alpha");
    assert_eq!(renamed.color, "#111111");
    assert!(data.update_tag("missing", None, None).is_none());

    data.delete_tag(&a.id);
    assert_eq!(data.tags.len(), 1);
    assert!(data.get_assets_with_tag(&a.id).is_empty());
    assert_eq!(data.get_asset_tags("/x.png")[0].name, "B");
}
