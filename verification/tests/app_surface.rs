use lark::clipboard::{
    get_history_all, get_history_id, get_history_part, ClipboardCommand, ClipboardOperator,
    ClipboardWatcher, CycleInput, SamplerState,
};
use lark::config::{BaseConfig, Config, ConfigData, ConfigUpdate};
use lark::database::{FileIndex, IndexSQL, Record, RecordSQL};
use lark::dirs::{app_data_dir, app_home_dir, config_path, get_app_dir};
use lark::img_factory::{base64_to_rgba8, rgba8_to_base64, rgba8_to_jpeg_base64, ImageContent};

#[test]
fn default_config_limits() {
    let config = Config::new(ConfigData::default());
    assert_eq!(config.get_clipboard_record_limit(), 100);
    let mut config = config;
    config.update_local_config(ConfigUpdate::ClipboardRecordCount(None));
    assert_eq!(config.get_clipboard_record_limit(), -1);
    config.update_local_config(ConfigUpdate::ClipboardRecordCount(Some(7)));
    assert_eq!(config.get_clipboard_record_limit(), 7);
}

#[test]
fn exclude_paths_expand_home() {
    let config = Config::new(ConfigData::default());
    let paths = config.get_file_search_exclude_paths("/home/user");
    assert!(paths.contains(&"/Library".to_string()));
    assert!(paths.contains(&"/home/user/Library".to_string()));
    assert!(!paths.iter().any(|p| p.starts_with("~/")));
    // Wildcard excludes are not home-anchored and stay as they are.
    assert!(paths.contains(&"*/node_modules".to_string()));
}

#[test]
fn plugin_registry_replaces_by_name() {
    let mut config = Config::new(ConfigData::default());
    config.register_plugin_config("calc", "{\"a\":1}".to_string());
    config.register_plugin_config("calc", "{\"a\":2}".to_string());
    config.register_plugin_config("clock", "{}".to_string());
    assert_eq!(config.config.plugins.len(), 2);
    let calc = config
        .config
        .plugins
        .iter()
        .find(|p| p.0 == "calc")
        .expect("calc is registered");
    assert_eq!(calc.1, "{\"a\":2}");
}

#[test]
fn directory_layout() {
    assert_eq!(app_home_dir("/home/u"), "/home/u/.config/lark");
    assert_eq!(config_path("/home/u"), "/home/u/.config/lark/config.json");
    assert_eq!(app_data_dir("/home/u"), "/home/u/.config/lark/data");
    let dirs = get_app_dir("/home/u");
    assert_eq!(dirs.len(), 4);
    assert_eq!(dirs[0].0, "log");
    assert_eq!(dirs[3].1, "/home/u/.config/lark/data/clipboardImg");
}

#[test]
fn image_round_trip_through_png_base64() {
    // One red pixel and one translucent green pixel: the storage encoding
    // must decode back to exactly the same buffer, so the encoder really
    // encodes.
    let img = ImageContent {
        width: 2,
        height: 1,
        bytes: vec![255, 0, 0, 255, 0, 255, 0, 128],
    };
    let b64 = rgba8_to_base64(&img);
    assert!(!b64.is_empty());
    let back = base64_to_rgba8(&b64).expect("the stored payload decodes");
    assert_eq!(back.width, 2);
    assert_eq!(back.height, 1);
    assert_eq!(back.bytes, img.bytes);
}

#[test]
fn image_preview_is_distinct_lossy_encoding() {
    let img = ImageContent {
        width: 2,
        height: 2,
        bytes: vec![
            255, 0, 0, 255, 0, 255, 0, 255, 0, 0, 255, 255, 255, 255, 255, 255,
        ],
    };
    let png = rgba8_to_base64(&img);
    let jpeg = rgba8_to_jpeg_base64(&img, 70);
    assert!(!jpeg.is_empty());
    assert_ne!(png, jpeg);
}

#[test]
fn malformed_image_payloads_are_rejected() {
    assert!(base64_to_rgba8("@@not base64@@").is_none());
    // Valid base64 that is not a PNG stream.
    let b64 = lark::string_factory::base64_encode(b"plainly not an image");
    assert!(base64_to_rgba8(&b64).is_none());
}

#[test]
fn image_observation_cycle() {
    let mut db = RecordSQL::new();
    let mut state = SamplerState::new();
    let input = CycleInput {
        files: vec![],
        text: None,
        image: Some(ImageContent {
            width: 1,
            height: 1,
            bytes: vec![9, 8, 7, 255],
        }),
        source: "Paint".to_string(),
    };
    assert!(ClipboardWatcher::run_cycle(&mut db, &mut state, &input, 100, 1000));
    assert_eq!(db.count(), 1);
    let row = db.find_by_id(1).expect("the image was stored");
    assert_eq!(row.data_type, "image");
    assert!(row.content.contains("\"width\":1"));
    assert!(row.content.contains("\"height\":1"));
    assert!(row.content.contains("Image:1\u{00D7}1(0.00kb)"));
    // The same pixels next cycle: the loop-local fingerprint short-circuits.
    let again = CycleInput {
        files: vec![],
        text: None,
        image: Some(ImageContent {
            width: 1,
            height: 1,
            bytes: vec![9, 8, 7, 255],
        }),
        source: "Paint".to_string(),
    };
    assert!(!ClipboardWatcher::run_cycle(&mut db, &mut state, &again, 100, 2000));
    assert_eq!(db.count(), 1);
}

#[test]
fn history_listing_carries_app_icons() {
    let mut db = RecordSQL::new();
    let mut apps = IndexSQL::new();
    let mut editor = FileIndex {
        title: "Editor".to_string(),
        path: "/Applications/Editor.app".to_string(),
        ..Default::default()
    };
    editor.icon = "editor-icon".to_string();
    apps.insert_app_index(&editor, 5);
    let rec = Record {
        content: "copied from the editor".to_string(),
        source: "Editor".to_string(),
        ..Default::default()
    };
    db.insert_if_not_exist(&rec, 10);
    let other = Record {
        content: "copied elsewhere".to_string(),
        source: "Unknown".to_string(),
        ..Default::default()
    };
    db.insert_if_not_exist(&other, 20);

    let page = get_history_part(&db, &apps, 10, 0);
    assert_eq!(page.len(), 2);
    assert_eq!(page[0].source, "Unknown");
    assert_eq!(page[0].app_icon, "");
    assert_eq!(page[1].source, "Editor");
    assert_eq!(page[1].app_icon, "editor-icon");

    let all = get_history_all(&db);
    assert_eq!(all.len(), 2);
    assert!(get_history_id(&db, 1).is_some());
    assert!(get_history_id(&db, 99).is_none());
}

#[test]
fn clipboard_control_dispatch() {
    assert!(matches!(
        ClipboardOperator::plan_control("write", "file", false),
        ClipboardCommand::WriteFile
    ));
    assert!(matches!(
        ClipboardOperator::plan_control("write", "image", true),
        ClipboardCommand::WriteImage
    ));
    assert!(matches!(
        ClipboardOperator::plan_control("write", "text", true),
        ClipboardCommand::WriteText(true)
    ));
    assert!(matches!(
        ClipboardOperator::plan_control("read", "text", false),
        ClipboardCommand::ReadText
    ));
}
