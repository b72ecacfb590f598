use lark::database::{FileIndex, IndexSQL, IndexTable};
use lark::explorer::{
    is_hidden, search_app_index, search_file_index, search_keyword, should_skip_dir,
    should_skip_file, to_pinyin, SearchResult,
};

fn entry(title: &str, path: &str) -> FileIndex {
    FileIndex {
        title: title.to_string(),
        path: path.to_string(),
        ..Default::default()
    }
}

#[test]
fn file_index_dedupes_by_path() {
    let mut db = IndexSQL::new();
    let id = db.insert_file_index(&entry("notes.txt", "/home/u/notes.txt"), 10);
    assert_eq!(id, 1);
    let again = db.insert_file_index(&entry("notes.txt", "/home/u/notes.txt"), 20);
    assert_eq!(again, 0);
    let hits = db.find_by_keyword(IndexTable::File, "notes", 0);
    assert_eq!(hits.len(), 1);
}

#[test]
fn title_search_is_case_insensitive_and_paged() {
    let mut db = IndexSQL::new();
    for i in 0..40u64 {
        let e = entry(&format!("Report {}", i), &format!("/docs/report-{}", i));
        db.insert_file_index(&e, 100 + i);
    }
    let first_page = db.find_by_keyword(IndexTable::File, "report", 0);
    assert_eq!(first_page.len(), 30);
    // Newest first: the last inserted has the newest timestamp.
    assert_eq!(first_page[0].title, "Report 39");
    let second_page = db.find_by_keyword(IndexTable::File, "REPORT", 30);
    assert_eq!(second_page.len(), 10);
    assert_eq!(second_page[9].title, "Report 0");
}

#[test]
fn app_search_matches_title_pinyin_abb_and_path() {
    let mut db = IndexSQL::new();
    let mut ed = entry("Editor", "/Applications/Editor.app");
    ed.pinyin = "bianjiqi".to_string();
    ed.abb = "bjq".to_string();
    db.insert_app_index(&ed, 10);
    let mut term = entry("Terminal", "/Applications/Terminal.app");
    term.pinyin = "zhongduan".to_string();
    term.abb = "zd".to_string();
    db.insert_app_index(&term, 20);

    assert_eq!(db.find_app("edit", 0).len(), 1);
    assert_eq!(db.find_app("bjq", 0).len(), 1);
    assert_eq!(db.find_app("zhongd", 0).len(), 1);
    // The Applications-path pattern: anything under /Applications/ whose
    // path starts the keyword and ends in .app.
    assert_eq!(db.find_app("Termin", 0).len(), 1);
    assert_eq!(db.find_app("nosuch", 0).len(), 0);
}

#[test]
fn app_icon_lookup_is_exact_title_match() {
    let mut db = IndexSQL::new();
    let mut e = entry("Editor", "/Applications/Editor.app");
    e.icon = "iconbytes".to_string();
    db.insert_app_index(&e, 10);
    let hit = db.find_app_icon("Editor");
    assert_eq!(hit.icon, "iconbytes");
    assert_eq!(hit.title, "Editor");
    let miss = db.find_app_icon("editor");
    assert_eq!(miss.icon, "");
    assert_eq!(miss.id, 0);
}

#[test]
fn index_touch_refreshes_recency() {
    let mut db = IndexSQL::new();
    db.insert_file_index(&entry("old", "/f/old"), 10);
    db.insert_file_index(&entry("new", "/f/new"), 20);
    // A repeat sighting of the old path makes it the most recent.
    db.insert_if_not_exist(IndexTable::File, &entry("old", "/f/old"), 30);
    let hits = db.find_by_keyword(IndexTable::File, "", 0);
    assert_eq!(hits.len(), 2);
    assert_eq!(hits[0].title, "old");
}

#[test]
fn index_delete_and_clear() {
    let mut db = IndexSQL::new();
    db.insert_file_index(&entry("a", "/f/a"), 10);
    db.insert_file_index(&entry("b", "/f/b"), 20);
    db.delete_by_id(IndexTable::File, 1);
    assert!(db.find_by_id(IndexTable::File, 1).is_none());
    assert!(db.find_by_id(IndexTable::File, 2).is_some());
    assert!(db.md5_is_exist(IndexTable::File, &lark::string_factory::md5("/f/b")));
    db.clear_data(IndexTable::File);
    assert!(db.find_by_id(IndexTable::File, 2).is_none());
}

#[test]
fn bulk_insert_skips_duplicates() {
    let mut db = IndexSQL::new();
    let batch = vec![
        entry("a", "/f/a"),
        entry("a again", "/f/a"),
        entry("b", "/f/b"),
    ];
    db.insert_file_indexes(batch, 10);
    let hits = db.find_by_keyword(IndexTable::File, "", 0);
    assert_eq!(hits.len(), 2);
}

#[test]
fn search_wrappers_reach_both_tables() {
    let mut db = IndexSQL::new();
    db.insert_app_index(&entry("Editor", "/Applications/Editor.app"), 10);
    db.insert_file_index(&entry("notes.txt", "/home/u/notes.txt"), 10);
    assert_eq!(search_app_index(&db, "Edit", 0).len(), 1);
    assert_eq!(search_file_index(&db, "notes", 0).len(), 1);
    assert_eq!(search_file_index(&db, "Editor", 0).len(), 0);
}

#[test]
fn keyword_dispatch_routes_components() {
    let mut db = IndexSQL::new();
    db.insert_app_index(&entry("Editor", "/Applications/Editor.app"), 10);
    db.insert_file_index(&entry("notes.txt", "/home/u/notes.txt"), 10);
    let app_hits = search_keyword(&db, "", "Edit", 0);
    assert_eq!(app_hits.len(), 1);
    assert!(matches!(&app_hits[0], SearchResult::File(f) if f.title == "Editor"));
    let file_hits = search_keyword(&db, "\u{6587}\u{4EF6}\u{641C}\u{7D22}", "notes", 0);
    assert_eq!(file_hits.len(), 1);
    assert!(matches!(&file_hits[0], SearchResult::File(f) if f.title == "notes.txt"));
    let nothing = search_keyword(&db, "calculator", "1+1", 0);
    assert!(nothing.is_empty());
}

#[test]
fn scan_filters() {
    assert!(is_hidden(".git"));
    assert!(!is_hidden("src"));
    let types = vec!["dylib".to_string(), "app".to_string()];
    assert!(should_skip_file("DYLIB", &types));
    assert!(should_skip_file("app", &types));
    assert!(!should_skip_file("txt", &types));
    let dirs = vec!["/Library".to_string(), "*/node_modules".to_string()];
    assert!(should_skip_dir("/Library/Caches", "Caches", &dirs));
    assert!(should_skip_dir("/home/u/p/node_modules", "node_modules", &dirs));
    assert!(should_skip_dir("/home/u/$RECYCLE.BIN", "$RECYCLE.BIN", &dirs));
    assert!(!should_skip_dir("/home/u/src", "src", &dirs));
}

#[test]
fn pinyin_syllables() {
    let s = to_pinyin("\u{4E2D}\u{56FD}");
    assert_eq!(s, vec!["zhong".to_string(), "guo".to_string()]);
    // Characters without a romanisation contribute nothing here.
    let s = to_pinyin("ab\u{4E2D}");
    assert_eq!(s, vec!["zhong".to_string()]);
}
