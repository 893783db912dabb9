use missioncenter::icons::{CachedIcon, Icon, IconStep, LightCachedIcon};

#[test]
fn light_icon_default_is_empty() {
    assert_eq!(LightCachedIcon::default(), LightCachedIcon::Empty);
}

#[test]
fn conversions_from_reported_icons() {
    let e: CachedIcon<u8> = CachedIcon::from_icon(Icon::Empty);
    assert!(matches!(e, CachedIcon::Empty));
    let id: CachedIcon<u8> = CachedIcon::from_icon(Icon::Id("firefox".to_string()));
    assert_eq!(id.icon_name(), Some("firefox"));
    let data: CachedIcon<u8> = CachedIcon::from_icon(Icon::Data(vec![1, 2, 3]));
    assert_eq!(data.image_bytes(), Some(&vec![1, 2, 3]));
    assert_eq!(data.next_step(32), IconStep::Decode);
    let bytes: CachedIcon<u8> = CachedIcon::from_bytes(vec![9]);
    assert_eq!(bytes.image_bytes(), Some(&vec![9]));
}

#[test]
fn steps_to_show_an_icon() {
    let e: CachedIcon<u8> = CachedIcon::Empty;
    assert_eq!(e.next_step(16), IconStep::Blank);
    let id: CachedIcon<u8> = CachedIcon::Id("x".to_string());
    assert_eq!(id.next_step(16), IconStep::ByName);
    assert!(id.image_bytes().is_none());
}

#[test]
fn decoded_images_are_cached_per_width() {
    let mut icon: CachedIcon<String> = CachedIcon::from_bytes(vec![0x89, 0x50]);
    assert_eq!(icon.next_step(24), IconStep::Decode);
    icon.store_image(24, Some("image@24".to_string()));
    assert_eq!(icon.next_step(24), IconStep::FromCache);
    assert_eq!(icon.cached_image(24), Some(&"image@24".to_string()));
    // Another width still needs decoding; a failed decoding is remembered.
    assert_eq!(icon.next_step(48), IconStep::Decode);
    icon.store_image(48, None);
    assert_eq!(icon.next_step(48), IconStep::Blank);
    assert_eq!(icon.cached_image(48), None);
    assert_eq!(icon.cached_image(24), Some(&"image@24".to_string()));
    // Storing into an icon without image data changes nothing.
    let mut id: CachedIcon<String> = CachedIcon::Id("y".to_string());
    id.store_image(24, Some("z".to_string()));
    assert_eq!(id.next_step(24), IconStep::ByName);
    assert_eq!(id.cached_image(24), None);
}

#[test]
fn light_icons() {
    let e: CachedIcon<u8> = CachedIcon::Empty;
    assert_eq!(e.get_light_icon(Some(("k".to_string(), 3))), LightCachedIcon::Empty);
    let id: CachedIcon<u8> = CachedIcon::Id("org.gnome.Terminal".to_string());
    assert_eq!(id.get_light_icon(None), LightCachedIcon::StringPayload("org.gnome.Terminal".to_string()));
    let data: CachedIcon<u8> = CachedIcon::from_bytes(vec![1]);
    assert_eq!(data.get_light_icon(Some(("app".to_string(), 32))), LightCachedIcon::AppCachedKey("app".to_string(), 32));
    assert_eq!(data.get_light_icon(None), LightCachedIcon::Empty);
}

#[test]
fn convert_keyed_icons() {
    let entries = vec![
        ("a".to_string(), Icon::Id("ia".to_string())),
        ("b".to_string(), Icon::Empty),
        ("c".to_string(), Icon::Data(vec![7])),
    ];
    let converted: Vec<(String, CachedIcon<u8>)> = CachedIcon::convert_hash_map(entries);
    assert_eq!(converted.len(), 3);
    assert_eq!(converted[0].0, "a");
    assert_eq!(converted[0].1.icon_name(), Some("ia"));
    assert!(matches!(converted[1].1, CachedIcon::Empty));
    assert_eq!(converted[2].0, "c");
    assert_eq!(converted[2].1.image_bytes(), Some(&vec![7]));
}
