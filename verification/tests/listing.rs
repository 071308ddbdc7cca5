use fsspec_browser::args::SessionDetails;
use fsspec_browser::backend::{BrowserBackend, FsspecBackend, PythonBackend};
use fsspec_browser::entry::{FileInfo, FileType};
use fsspec_browser::options::StorageOptions;
use fsspec_browser::python_backend::{json_array_page, jsonl_page, PreviewSource};
use fsspec_browser::sizes::format_size;

fn names(entries: &[FileInfo]) -> Vec<String> {
    entries.iter().map(|e| e.name.clone()).collect()
}

fn python(database: bool) -> PythonBackend {
    PythonBackend {
        name: "db+duckdb-py".to_string(),
        root_marker: String::new(),
        url: "db+duckdb://".to_string(),
        database,
    }
}

fn reference_size(size: u64) -> String {
    if size == 0 {
        return String::new();
    }
    let units = ["B", "KiB", "MiB", "GiB", "TiB"];
    let mut value = size as f64;
    for unit in units {
        if value < 1024.0 || unit == "TiB" {
            return if unit == "B" {
                format!("{size} B")
            } else {
                format!("{value:.1} {unit}")
            };
        }
        value /= 1024.0;
    }
    format!("{size} B")
}

#[test]
fn listing_puts_directories_first_then_names() {
    let entries = vec![
        FileInfo::file("/r/b", 1),
        FileInfo::directory("/r/z"),
        FileInfo::file("/r/a", 1),
        FileInfo::directory("/r/c"),
        FileInfo::file("/r/B", 1),
    ];
    let page = FsspecBackend::local().list_page(&entries, 0, 10);
    assert_eq!(names(&page.entries), vec!["/r/c", "/r/z", "/r/B", "/r/a", "/r/b"]);
    assert!(!page.has_more);
}

#[test]
fn listing_pages() {
    let entries: Vec<FileInfo> = (0..5).map(|i| FileInfo::file(&format!("/r/{i}"), 1)).collect();
    let b = FsspecBackend::local();
    let first = b.list_page(&entries, 0, 2);
    assert_eq!(names(&first.entries), vec!["/r/0", "/r/1"]);
    assert!(first.has_more);
    let last = b.list_page(&entries, 4, 2);
    assert_eq!(names(&last.entries), vec!["/r/4"]);
    assert!(!last.has_more);
    let beyond = b.list_page(&entries, 9, 2);
    assert!(beyond.entries.is_empty() && !beyond.has_more);
    let exact = b.list_page(&entries, 3, 2);
    assert_eq!(names(&exact.entries), vec!["/r/3", "/r/4"]);
    assert!(!exact.has_more);
}

#[test]
fn python_listing_drops_repeats() {
    let entries = vec![
        FileInfo::file("/r/a", 1),
        FileInfo::directory("/r/a"),
        FileInfo::file("/r/a", 2),
        FileInfo::directory("/r/a"),
    ];
    let page = python(false).list_page(&entries, 0, 10);
    assert_eq!(names(&page.entries), vec!["/r/a", "/r/a"]);
    assert!(page.entries[0].file_type == FileType::Directory);
    assert_eq!(page.entries[1].size, 1);
}

#[test]
fn preview_pages() {
    let p = FsspecBackend::local().preview(vec![1, 2, 3], 10, 3);
    assert!(p.has_more);
    assert_eq!(p.next_offset, 13);
    let q = FsspecBackend::local().preview(vec![1], 10, 3);
    assert!(!q.has_more);
    assert_eq!(q.next_offset, 11);
}

#[test]
fn jsonl_pages_keep_a_hundred_rows() {
    let mut text = String::from("{\"a\":1}\n  \n{\"a\":2}\r\n");
    let p = jsonl_page(text.clone().into_bytes(), 7).unwrap();
    assert_eq!(String::from_utf8(p.bytes).unwrap(), "[\n{\"a\":1},\n{\"a\":2}\n]");
    assert!(!p.has_more);
    assert_eq!(p.next_offset, 9);
    for i in 0..101 {
        text.push_str(&format!("{{\"i\":{i}}}\n"));
    }
    let p = jsonl_page(text.into_bytes(), 0).unwrap();
    assert!(p.has_more);
    assert_eq!(p.next_offset, 100);
    let body = String::from_utf8(p.bytes).unwrap();
    assert!(body.ends_with("{\"i\":97}\n]"));
    let err = jsonl_page(vec![0xff], 0).err().unwrap();
    assert!(err.message().contains("invalid utf-8"));
    let empty = jsonl_page(Vec::new(), 3).unwrap();
    assert_eq!(String::from_utf8(empty.bytes).unwrap(), "[\n\n]");
}

#[test]
fn json_array_pages_keep_a_hundred_values() {
    let p = json_array_page(b"[1, \"x\", {\"b\": 2, \"a\": null}]".to_vec(), 4).unwrap();
    assert_eq!(String::from_utf8(p.bytes).unwrap(), "[1,\"x\",{\"a\":null,\"b\":2}]");
    assert!(!p.has_more);
    assert_eq!(p.next_offset, 7);
    let many: Vec<String> = (0..150).map(|i| i.to_string()).collect();
    let p = json_array_page(format!("[{}]", many.join(",")).into_bytes(), 0).unwrap();
    assert!(p.has_more);
    assert_eq!(p.next_offset, 100);
    assert!(json_array_page(b"{}".to_vec(), 0).is_err());
}

#[test]
fn python_preview_sources() {
    let db = python(true);
    match db.preview_source("main/orders/", 200, &Some("table".to_string())) {
        PreviewSource::Rows(p) => assert_eq!(p, "main/orders.jsonl?limit=101&offset=200"),
        _ => panic!("expected rows"),
    }
    match db.preview_source("main/orders/id", 0, &Some("column".to_string())) {
        PreviewSource::Column(p) => assert_eq!(p, "main/orders/id?limit=101&offset=0"),
        _ => panic!("expected a column"),
    }
    assert!(matches!(db.preview_source("x", 0, &None), PreviewSource::Bytes));
    assert!(matches!(
        python(false).preview_source("x", 0, &Some("view".to_string())),
        PreviewSource::Bytes
    ));
}

#[test]
fn python_backend_from_session() {
    let session = SessionDetails { url: "db+duckdb://".to_string(), storage_options: StorageOptions::new() };
    let (b, start) = PythonBackend::new(&session, "db+duckdb", "", "ignored");
    assert_eq!(b.name, "db+duckdb-py");
    assert!(b.database);
    assert_eq!(start, "");
    assert_eq!(b.display_path(""), "db+duckdb://");
    assert_eq!(b.display_path("main/t"), "db+duckdb://::main/t");
    let mut table = FileInfo::directory("main/t");
    table.extra.push(("kind".to_string(), "table".to_string()));
    assert!(b.can_preview(&table));
    assert!(!b.can_preview(&FileInfo::directory("main")));
    let (g, start) = PythonBackend::new(&session, "gcs", "", "bucket/x");
    assert!(!g.database && start == "bucket/x" && g.name == "gcs-py");
    assert!(!g.auto_preview());
}

#[test]
fn sizes_match_float_formatting() {
    let mut samples: Vec<u64> = vec![
        0, 1, 1023, 1024, 1025, 1536, 1587, 10239, 10240, 1048575, 1048576, 1073741823,
        1099511627775, 1099511627776, 1125899906842624, u64::MAX, u64::MAX - 1,
        9007199254740993, 1126, 1177, 2047,
    ];
    let mut x: u64 = 0x9e3779b97f4a7c15;
    for _ in 0..2000 {
        x ^= x << 13;
        x ^= x >> 7;
        x ^= x << 17;
        samples.push(x >> (x % 64));
    }
    for s in samples {
        assert_eq!(format_size(s), reference_size(s), "size {s}");
    }
}

#[test]
fn sizes_exact_values() {
    assert_eq!(format_size(0), "");
    assert_eq!(format_size(512), "512 B");
    assert_eq!(format_size(1536), "1.5 KiB");
    assert_eq!(format_size(5 * 1024 * 1024 * 1024), "5.0 GiB");
    assert_eq!(format_size(u64::MAX), "16777216.0 TiB");
}
