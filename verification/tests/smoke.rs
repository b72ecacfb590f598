use lark::database::{IndexSQL, QueryReq, Record, RecordSQL};
use lark::dirs::{
    app_clipboard_img_dir, app_data_dir, app_home_dir, app_logs_dir, app_plugins_dir, config_path,
};
use lark::explorer::should_skip_dir;
use lark::proxy_pool::{ReadOutcome, Transfer};

#[test]
#[allow(unused)]
fn test_sqlite_insert() {
    let _db = RecordSQL::new();
    println!("{:?}", IndexSQL::new().find_app("wec", 0));
    let r = Record {
        content: "1234567".to_string(),
        md5: "e10adc3949ba59abbe56e057f20f8823e".to_string(),
        create_time: 12345689,
        ..Default::default()
    };
    let q = QueryReq {
        key: Option::from("123456".to_string()),
        ..Default::default()
    };
}

#[test]
fn te() {
    println!(
        "{:?}",
        should_skip_dir(
            "/Users/starsxu/Develop/Project/jade-smoke/node_modules",
            "node_modules",
            &vec!["*/node_modules".to_string()]
        )
    );
    assert!(should_skip_dir(
        "/Users/starsxu/Develop/Project/jade-smoke/node_modules",
        "node_modules",
        &vec!["*/node_modules".to_string()]
    ));
}

#[test]
fn dirs_test() {
    let home = "/home/user";
    println!("app_home_dir: {:?}", app_home_dir(home));
    println!("app_logs_dir: {:?}", app_logs_dir(home));
    println!("config_path: {:?}", config_path(home));
    println!("app_data_dir: {:?}", app_data_dir(home));
    println!("app_plugins_dir: {:?}", app_plugins_dir(home));
    println!("app_clipboard_img_dir: {:?}", app_clipboard_img_dir(home));
}

#[test]
#[allow(unused)]
fn run() {
    // One proxied exchange: the client's request is gathered until its
    // stream stops yielding, the upstream response until the orderly close.
    let mut request = Transfer::new();
    request.feed_client(ReadOutcome::Chunk(b"GET / HTTP/1.1\r\n".to_vec()));
    request.feed_client(ReadOutcome::Chunk(b"Host: example\r\n\r\n".to_vec()));
    request.feed_client(ReadOutcome::Failed);
    assert!(request.finished);
    assert!(!request.failed);
    assert_eq!(request.buffer, b"GET / HTTP/1.1\r\nHost: example\r\n\r\n".to_vec());

    let mut response = Transfer::new();
    response.feed_upstream(ReadOutcome::Chunk(b"HTTP/1.1 200 OK\r\n\r\n".to_vec()));
    response.feed_upstream(ReadOutcome::Chunk(b"body".to_vec()));
    response.feed_upstream(ReadOutcome::Chunk(vec![]));
    assert!(response.finished);
    assert!(!response.failed);
    assert_eq!(response.buffer, b"HTTP/1.1 200 OK\r\n\r\nbody".to_vec());

    let mut broken = Transfer::new();
    broken.feed_upstream(ReadOutcome::Chunk(b"partial".to_vec()));
    broken.feed_upstream(ReadOutcome::Failed);
    assert!(broken.failed);
}
