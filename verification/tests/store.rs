use lark::clipboard::{ClipboardWatcher, CycleInput, SamplerState};
use lark::database::{Record, RecordSQL};

fn text_record(text: &str) -> Record {
    Record {
        content: text.to_string(),
        content_preview: Some(text.to_string()),
        ..Default::default()
    }
}

fn text_input(text: &str) -> CycleInput {
    CycleInput {
        files: vec![],
        text: Some(text.to_string()),
        image: None,
        source: "TestApp".to_string(),
    }
}

#[test]
fn idempotent_observation() {
    let mut db = RecordSQL::new();
    let rec = text_record("same content");
    let inserted = db.insert_if_not_exist(&rec, 1000);
    assert!(inserted);
    assert_eq!(db.count(), 1);
    let inserted_again = db.insert_if_not_exist(&rec, 2000);
    assert!(!inserted_again);
    assert_eq!(db.count(), 1);
    let row = db.find_by_id(1).expect("the touched row keeps its id");
    assert_eq!(row.create_time, 2000);
    assert!(row.create_time >= 1000);
    assert_eq!(row.content, "same content");
}

#[test]
fn type_scoped_uniqueness() {
    // The same content hashes to the same fingerprint, but the data type is
    // part of the uniqueness key, so two types give two rows.
    let mut db = RecordSQL::new();
    let as_text = Record {
        content: "shared payload".to_string(),
        data_type: "text".to_string(),
        ..Default::default()
    };
    let as_file = Record {
        content: "shared payload".to_string(),
        data_type: "file".to_string(),
        ..Default::default()
    };
    assert!(db.insert_if_not_exist(&as_text, 10));
    assert!(db.insert_if_not_exist(&as_file, 20));
    assert_eq!(db.count(), 2);
    let all = db.find_all();
    assert_eq!(all.len(), 2);
    assert_eq!(all[0].md5, all[1].md5);
    assert_ne!(all[0].data_type, all[1].data_type);
}

#[test]
fn retention_boundary() {
    // With limit 5 and a hysteresis of 10, fourteen rows survive untouched;
    // a fifteenth triggers one batch eviction down to exactly five.
    let mut db = RecordSQL::new();
    for i in 0..14u64 {
        let rec = text_record(&format!("content number {}", i));
        assert!(db.insert_if_not_exist(&rec, 1000 + i));
    }
    assert_eq!(db.count(), 14);
    assert!(!db.delete_over_limit(5));
    assert_eq!(db.count(), 14);
    let rec = text_record("content number 14");
    assert!(db.insert_if_not_exist(&rec, 1014));
    assert_eq!(db.count(), 15);
    assert!(db.delete_over_limit(5));
    assert_eq!(db.count(), 5);
}

#[test]
fn eviction_selects_oldest() {
    let mut db = RecordSQL::new();
    for i in 0..15u64 {
        let rec = text_record(&format!("content number {}", i));
        assert!(db.insert_if_not_exist(&rec, 1000 + i));
    }
    assert!(db.delete_over_limit(5));
    let remaining = db.find_all();
    assert_eq!(remaining.len(), 5);
    // The five most recently created of the original fifteen survive,
    // newest first.
    let times: Vec<u64> = remaining.iter().map(|r| r.create_time).collect();
    assert_eq!(times, vec![1014, 1013, 1012, 1011, 1010]);
}

#[test]
fn eviction_follows_touch_order() {
    // Recency is by created_at, not insertion order: a touched old row
    // survives an eviction that removes rows inserted after it.
    let mut db = RecordSQL::new();
    for i in 0..15u64 {
        let rec = text_record(&format!("content number {}", i));
        assert!(db.insert_if_not_exist(&rec, 1000 + i));
    }
    // Touch the very first row so it becomes the most recent.
    let first = text_record("content number 0");
    assert!(!db.insert_if_not_exist(&first, 5000));
    assert!(db.delete_over_limit(5));
    let remaining = db.find_all();
    assert_eq!(remaining.len(), 5);
    assert_eq!(remaining[0].create_time, 5000);
    assert_eq!(remaining[0].id, 1);
}

#[test]
fn whitespace_only_text_never_stored() {
    let mut db = RecordSQL::new();
    let mut state = SamplerState::new();
    let notify = ClipboardWatcher::run_cycle(&mut db, &mut state, &text_input("   "), 100, 1000);
    assert!(!notify);
    assert_eq!(db.count(), 0);
    assert_eq!(state.last_content_md5, "");
}

#[test]
fn preview_truncation() {
    let mut db = RecordSQL::new();
    let mut state = SamplerState::new();
    let long_text: String = std::iter::repeat('x').take(5000).collect();
    let notify =
        ClipboardWatcher::run_cycle(&mut db, &mut state, &text_input(&long_text), 100, 1000);
    assert!(notify);
    // The point lookup carries the full five thousand characters.
    let full = db.find_by_id(1).expect("the row was stored");
    assert_eq!(full.content.chars().count(), 5000);
    // The listing carries the stored preview: exactly one thousand.
    let listing = db.find_all();
    assert_eq!(listing.len(), 1);
    assert_eq!(listing[0].content.chars().count(), 1000);
}

#[test]
fn end_to_end_scenario() {
    let mut db = RecordSQL::new();
    let mut state = SamplerState::new();

    // First observation of "hello": one record, typed text, stored in full
    // with itself as preview.
    let notify = ClipboardWatcher::run_cycle(&mut db, &mut state, &text_input("hello"), 100, 1000);
    assert!(notify);
    assert_eq!(db.count(), 1);
    let row = db.find_by_id(1).expect("hello was stored");
    assert_eq!(row.data_type, "text");
    assert_eq!(row.content, "hello");
    let listing = db.find_all();
    assert_eq!(listing[0].content, "hello");

    // "hello" observed again by a fresh sampler (the loop-local shortcut
    // reset, as after a restart): still one record, created_at refreshed.
    let mut state2 = SamplerState::new();
    ClipboardWatcher::run_cycle(&mut db, &mut state2, &text_input("hello"), 100, 2000);
    assert_eq!(db.count(), 1);
    let row = db.find_by_id(1).expect("hello still has its row");
    assert_eq!(row.create_time, 2000);

    // "world": two records, most recent first.
    let notify = ClipboardWatcher::run_cycle(&mut db, &mut state, &text_input("world"), 100, 3000);
    assert!(notify);
    assert_eq!(db.count(), 2);
    let listing = db.find_all();
    assert_eq!(listing[0].content, "world");
    assert_eq!(listing[1].content, "hello");
}

#[test]
fn repeat_in_consecutive_cycles_short_circuits() {
    // Within one sampler, the loop-local fingerprint suppresses the store
    // round-trip for a value seen in the previous cycle.
    let mut db = RecordSQL::new();
    let mut state = SamplerState::new();
    assert!(ClipboardWatcher::run_cycle(&mut db, &mut state, &text_input("hello"), 100, 1000));
    let notify = ClipboardWatcher::run_cycle(&mut db, &mut state, &text_input("hello"), 100, 2000);
    assert!(!notify);
    assert_eq!(db.count(), 1);
    let row = db.find_by_id(1).expect("hello keeps its row");
    assert_eq!(row.create_time, 1000);
}

#[test]
fn file_drop_takes_priority_over_text() {
    let mut db = RecordSQL::new();
    let mut state = SamplerState::new();
    let input = CycleInput {
        files: vec![("/tmp/a.txt".to_string(), "txt".to_string())],
        text: Some("ignored this cycle".to_string()),
        image: None,
        source: "Files".to_string(),
    };
    assert!(ClipboardWatcher::run_cycle(&mut db, &mut state, &input, 100, 1000));
    assert_eq!(db.count(), 1);
    let row = db.find_by_id(1).expect("the file drop was stored");
    assert_eq!(row.data_type, "file");
    assert!(row.content.contains("\"file_count\":1"));
    assert!(row.content.contains("a.txt"));
    assert!(row.content.contains("1 File: a.txt"));
}

#[test]
fn find_by_id_miss_is_none() {
    let db = RecordSQL::new();
    assert!(db.find_by_id(7).is_none());
}

#[test]
fn find_part_paginates_newest_first() {
    let mut db = RecordSQL::new();
    for i in 0..6u64 {
        let rec = text_record(&format!("entry {}", i));
        db.insert_if_not_exist(&rec, 100 + i);
    }
    let page = db.find_part(2, 1);
    assert_eq!(page.len(), 2);
    assert_eq!(page[0].content, "entry 4");
    assert_eq!(page[1].content, "entry 3");
    let past_end = db.find_part(10, 100);
    assert!(past_end.is_empty());
}

#[test]
fn keyword_search_filters_content() {
    let mut db = RecordSQL::new();
    db.insert_if_not_exist(&text_record("Alpha Report"), 10);
    db.insert_if_not_exist(&text_record("beta notes"), 20);
    db.insert_if_not_exist(&text_record("alphabet soup"), 30);
    let hits = lark::clipboard::get_history_search(&db, "ALPHA", 0);
    assert_eq!(hits.len(), 2);
    assert_eq!(hits[0].content, "alphabet soup");
    assert_eq!(hits[1].content, "Alpha Report");
    let none = lark::clipboard::get_history_search(&db, "gamma", 0);
    assert!(none.is_empty());
}

#[test]
fn keyword_search_also_matches_preview() {
    // The search covers the stored preview too; the two differ for image
    // rows, whose preview is a separate lossy encoding.
    let mut db = RecordSQL::new();
    let rec = Record {
        content: "opaque payload".to_string(),
        content_preview: Some("thumbnail label".to_string()),
        data_type: "image".to_string(),
        ..Default::default()
    };
    db.insert_if_not_exist(&rec, 10);
    let by_preview = lark::clipboard::get_history_search(&db, "THUMBNAIL", 0);
    assert_eq!(by_preview.len(), 1);
    let by_content = lark::clipboard::get_history_search(&db, "opaque", 0);
    assert_eq!(by_content.len(), 1);
    assert!(lark::clipboard::get_history_search(&db, "absent", 0).is_empty());
}

#[test]
fn md5_is_exist_sees_stored_fingerprints() {
    let mut db = RecordSQL::new();
    db.insert_if_not_exist(&text_record("hello"), 10);
    assert!(db.md5_is_exist("5d41402abc4b2a76b9719d911017c592"));
    assert!(!db.md5_is_exist("0000000000000000000000000000000"));
}

#[test]
fn clear_data_empties_the_table() {
    let mut db = RecordSQL::new();
    db.insert_if_not_exist(&text_record("a"), 1);
    db.insert_if_not_exist(&text_record("b"), 2);
    db.clear_data();
    assert_eq!(db.count(), 0);
    assert!(db.find_all().is_empty());
}

#[test]
fn file_drop_does_not_disturb_text_novelty() {
    // The last-seen fingerprints are per content type: a file drop between
    // two identical text readings must not make the text look new again.
    let mut db = RecordSQL::new();
    let mut state = SamplerState::new();
    assert!(ClipboardWatcher::run_cycle(&mut db, &mut state, &text_input("hello"), 100, 1000));
    let files = CycleInput {
        files: vec![("/tmp/a.txt".to_string(), "txt".to_string())],
        text: Some("hello".to_string()),
        image: None,
        source: "Files".to_string(),
    };
    assert!(ClipboardWatcher::run_cycle(&mut db, &mut state, &files, 100, 2000));
    assert_eq!(db.count(), 2);
    // The same text again: still gated by the text fingerprint, untouched.
    let notify = ClipboardWatcher::run_cycle(&mut db, &mut state, &text_input("hello"), 100, 3000);
    assert!(!notify);
    assert_eq!(db.count(), 2);
    let hello = db.find_by_id(1).expect("hello keeps its row");
    assert_eq!(hello.create_time, 1000);
}

#[test]
fn text_does_not_disturb_file_novelty() {
    // And the other way round: text readings leave the file gate alone.
    let mut db = RecordSQL::new();
    let mut state = SamplerState::new();
    let files = CycleInput {
        files: vec![("/tmp/a.txt".to_string(), "txt".to_string())],
        text: None,
        image: None,
        source: "Files".to_string(),
    };
    assert!(ClipboardWatcher::run_cycle(&mut db, &mut state, &files, 100, 1000));
    assert!(ClipboardWatcher::run_cycle(&mut db, &mut state, &text_input("aside"), 100, 2000));
    assert_eq!(db.count(), 2);
    let files_again = CycleInput {
        files: vec![("/tmp/a.txt".to_string(), "txt".to_string())],
        text: None,
        image: None,
        source: "Files".to_string(),
    };
    let notify = ClipboardWatcher::run_cycle(&mut db, &mut state, &files_again, 100, 3000);
    assert!(!notify);
    assert_eq!(db.count(), 2);
    let drop_row = db.find_by_id(1).expect("the file drop keeps its row");
    assert_eq!(drop_row.create_time, 1000);
}
