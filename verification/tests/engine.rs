use ghostbay::engine::{
    content_etag, create_storage_engine, length_etag, path_join_exec, resolve_range, EngineError,
    StorageConfig,
};

fn engine() -> ghostbay::engine::LocalStorageEngine {
    create_storage_engine(StorageConfig::default())
}

#[test]
fn default_config_uses_data_and_tmp() {
    let c = StorageConfig::default();
    assert_eq!(c.data_dir, "./data");
    assert_eq!(c.temp_dir, "./tmp");
}

#[test]
fn object_paths_join_bucket_and_key() {
    let e = engine();
    assert_eq!(e.object_path("photos", "2024/cat.jpg"), "./data/photos/2024/cat.jpg");
    assert_eq!(e.bucket_dir("photos"), "./data/photos");
}

#[test]
fn path_join_follows_pathbuf() {
    assert_eq!(path_join_exec("a", "b"), "a/b");
    assert_eq!(path_join_exec("a/", "b"), "a/b");
    assert_eq!(path_join_exec("", "b"), "b");
    assert_eq!(path_join_exec("a", "/etc/passwd"), "/etc/passwd");
    for (base, p) in [("a", "b"), ("a/", "b"), ("", "b"), ("a", "/x"), ("/r", "")] {
        let expected = std::path::Path::new(base).join(p);
        assert_eq!(path_join_exec(base, p), expected.to_str().unwrap());
    }
}

#[test]
fn content_type_follows_the_extension() {
    let e = engine();
    let cases = [
        ("a.txt", "text/plain"),
        ("dir/page.html", "text/html"),
        ("page.htm", "text/html"),
        ("s.css", "text/css"),
        ("app.js", "application/javascript"),
        ("d.json", "application/json"),
        ("d.xml", "application/xml"),
        ("p.jpg", "image/jpeg"),
        ("p.jpeg", "image/jpeg"),
        ("p.png", "image/png"),
        ("p.gif", "image/gif"),
        ("p.svg", "image/svg+xml"),
        ("d.pdf", "application/pdf"),
        ("a.zip", "application/zip"),
        ("a.tar.gz", "binary/octet-stream"),
        ("noext", "binary/octet-stream"),
        (".txt", "binary/octet-stream"),
        ("a.TXT", "binary/octet-stream"),
        ("dir.txt/", "text/plain"),
        ("dir.txt/..", "binary/octet-stream"),
        ("x.txt/.", "text/plain"),
    ];
    for (key, t) in cases {
        assert_eq!(e.guess_content_type(key), t, "{}", key);
    }
}

#[test]
fn extension_agrees_with_std() {
    for key in ["a.txt", "a.tar.gz", ".bashrc", "a.", "..x", "a/b.c/", "a/..", "./", ".", "/", "x/./", "..", "a/b/."] {
        let ours = ghostbay::engine::path_extension_exec(key).map(|v| v.into_iter().collect::<String>());
        let std_ext = std::path::Path::new(key).extension().map(|e| e.to_str().unwrap().to_string());
        assert_eq!(ours, std_ext, "{}", key);
    }
}

#[test]
fn ranges_are_clamped_and_checked() {
    assert_eq!(resolve_range(0, Some(99), 10), Ok((0, 9)));
    assert_eq!(resolve_range(2, None, 10), Ok((2, 9)));
    assert_eq!(resolve_range(3, Some(5), 10), Ok((3, 5)));
    assert_eq!(resolve_range(6, Some(5), 10), Err(EngineError::InvalidRange(6, 5)));
    assert_eq!(resolve_range(10, None, 10), Err(EngineError::InvalidRange(10, 9)));
    assert_eq!(resolve_range(0, None, 1), Ok((0, 0)));
    // an empty file holds no range
    assert_eq!(resolve_range(0, None, 0), Err(EngineError::InvalidRange(0, u64::MAX)));
    assert_eq!(resolve_range(0, Some(5), 0), Err(EngineError::InvalidRange(0, 5)));
}

#[test]
fn etags() {
    assert_eq!(length_etag(0), "\"0\"");
    assert_eq!(length_etag(1234), "\"1234\"");
    assert_eq!(content_etag(b""), "d41d8cd98f00b204e9800998ecf8427e");
    assert_eq!(content_etag(b"hello"), "5d41402abc4b2a76b9719d911017c592");
}

#[test]
fn temporary_files_are_fresh_and_under_the_temp_dir() {
    let e = engine();
    let a = e.temp_path();
    let b = e.temp_path();
    assert!(a.starts_with("./tmp/tmp_"), "{}", a);
    assert_eq!(a.len(), "./tmp/tmp_".len() + 36);
    assert!(uuid::Uuid::parse_str(&a["./tmp/tmp_".len()..]).is_ok());
    assert_ne!(a, b);
}

#[test]
fn reads_are_planned_from_the_file() {
    let e = engine();
    let t = ghostbay::clock::UtcTime { secs: 1000, nanos: 5 };
    let req = |range| ghostbay::engine::GetObjectRequest { bucket: "b".to_string(), key: "k.json".to_string(), range };
    assert!(e.plan_read(&req(None), None).unwrap().is_none());
    let (m, span) = e.plan_read(&req(None), Some((10, t))).unwrap().unwrap();
    assert_eq!(m.content_type, "application/json");
    assert_eq!(m.content_length, 10);
    assert_eq!(m.etag, "\"10\"");
    assert_eq!(m.last_modified, t);
    assert_eq!(span, None);
    let (_, span) = e.plan_read(&req(Some((2, Some(100)))), Some((10, t))).unwrap().unwrap();
    assert_eq!(span, Some((2, 9)));
    let r = e.plan_read(&req(Some((0, Some(3)))), Some((0, t)));
    assert_eq!(r.unwrap_err(), EngineError::InvalidRange(0, 3));
    let r = e.plan_read(&req(Some((12, None))), Some((10, t)));
    assert_eq!(r.unwrap_err(), EngineError::InvalidRange(12, 9));
    let m = e.file_metadata("a.png", 3, t);
    assert_eq!(m.content_type, "image/png");
    assert_eq!(m.etag, "\"3\"");
}
