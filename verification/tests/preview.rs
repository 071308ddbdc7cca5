use fsspec_browser::entry::{FileInfo, FileType, Timestamp};
use fsspec_browser::render::{
    basename, bytes_to_preview_lines, json_table_lines, metadata_lines, text_lines, truncate_cell,
    JsonCell, JsonRow,
};
use fsspec_browser::urls::download_target;

#[test]
fn bytes_preview_marks_binary() {
    assert_eq!(
        bytes_to_preview_lines(b"abc\0def", false),
        vec!["binary file, 7 preview bytes"]
    );
}

#[test]
fn json_preview_is_pretty_printed() {
    assert_eq!(
        bytes_to_preview_lines(br#"{"b":1,"a":[true]}"#, false),
        vec![
            "{".to_string(),
            "  \"a\": [".to_string(),
            "    true".to_string(),
            "  ],".to_string(),
            "  \"b\": 1".to_string(),
            "}".to_string(),
        ]
    );
}

#[test]
fn json_record_preview_is_rendered_as_table() {
    assert_eq!(
        bytes_to_preview_lines(
            br#"[{"name":"ada","score":2},{"name":"grace","score":3}]"#,
            false
        ),
        vec![
            "name  | score".to_string(),
            "------+------".to_string(),
            "ada   | 2    ".to_string(),
            "grace | 3    ".to_string(),
        ]
    );
}

#[test]
fn metadata_lines_include_times_and_extras() {
    let info = FileInfo {
        name: "/root/file.txt".to_string(),
        size: 1,
        file_type: FileType::File,
        created: Some(Timestamp { secs: 0, nanos: 0 }),
        modified: Some(Timestamp { secs: 1, nanos: 0 }),
        extra: vec![("etag".to_string(), "abc".to_string())],
    };

    assert_eq!(
        metadata_lines(&info),
        vec![
            "created: 1970-01-01T00:00:00Z".to_string(),
            "modified: 1970-01-01T00:00:01Z".to_string(),
            "etag: abc".to_string(),
        ]
    );
}

#[test]
fn download_target_strips_protocol() {
    assert_eq!(
        download_target("s3-rs://bucket/some/path/file.json"),
        Some("bucket/some/path/file.json".to_string())
    );
}

#[test]
fn metadata_sorts_extras_and_drops_empty_values() {
    let info = FileInfo {
        name: "/x".to_string(),
        size: 0,
        file_type: FileType::File,
        created: None,
        modified: None,
        extra: vec![
            ("zeta".to_string(), "1".to_string()),
            ("empty".to_string(), String::new()),
            ("alpha".to_string(), "2".to_string()),
        ],
    };
    assert_eq!(metadata_lines(&info), vec!["alpha: 2".to_string(), "zeta: 1".to_string()]);
}

#[test]
fn metadata_shows_subsecond_times() {
    let info = FileInfo {
        name: "/x".to_string(),
        size: 0,
        file_type: FileType::File,
        created: Some(Timestamp { secs: 86400, nanos: 500_000_000 }),
        modified: None,
        extra: Vec::new(),
    };
    assert_eq!(metadata_lines(&info), vec!["created: 1970-01-02T00:00:00.500000000Z".to_string()]);
}

#[test]
fn plain_text_preview_keeps_lines() {
    assert_eq!(
        bytes_to_preview_lines(b"one\r\ntwo\nthree", false),
        vec!["one".to_string(), "two".to_string(), "three".to_string()]
    );
}

#[test]
fn empty_preview_is_one_empty_line() {
    assert_eq!(bytes_to_preview_lines(b"", false), vec![String::new()]);
}

#[test]
fn truncated_preview_ends_with_ellipsis_line() {
    assert_eq!(
        bytes_to_preview_lines(b"{\"a\":1}", true),
        vec!["{\"a\":1}".to_string(), "...".to_string()]
    );
}

#[test]
fn invalid_utf8_is_replaced() {
    assert_eq!(bytes_to_preview_lines(b"a\xffb", false), vec!["a\u{fffd}b".to_string()]);
}

#[test]
fn empty_json_array_has_no_rows() {
    assert_eq!(bytes_to_preview_lines(b"[]", false), vec!["(no rows)".to_string()]);
}

#[test]
fn scalar_json_array_uses_value_column() {
    assert_eq!(
        bytes_to_preview_lines(b"[1,\"two\",null]", false),
        vec![
            "value".to_string(),
            "-----".to_string(),
            "1    ".to_string(),
            "two  ".to_string(),
            "null ".to_string(),
        ]
    );
}

#[test]
fn missing_fields_show_null_and_wide_cells_are_cut() {
    let long = "x".repeat(30);
    let bytes = format!("[{{\"a\":\"{long}\"}},{{\"b\":1}}]");
    let lines = bytes_to_preview_lines(bytes.as_bytes(), false);
    assert_eq!(lines.len(), 4);
    assert_eq!(lines[0], format!("a{}", " ".repeat(23)));
    assert_eq!(lines[2], format!("{}…", "x".repeat(23)));
    assert_eq!(lines[3], format!("null{}", " ".repeat(20)));
}

#[test]
fn table_lines_from_rows() {
    let cell = |s: &str, string: bool| JsonCell {
        string: if string { Some(s.to_string()) } else { None },
        compact: if string { format!("\"{s}\"") } else { s.to_string() },
    };
    let rows = vec![JsonRow {
        fields: Some(vec![("k".to_string(), cell("v", true))]),
        whole: cell("{\"k\":\"v\"}", false),
    }];
    assert_eq!(
        json_table_lines(&rows),
        vec!["k".to_string(), "-".to_string(), "v".to_string()]
    );
}

#[test]
fn truncate_cell_cuts_with_ellipsis() {
    assert_eq!(truncate_cell("abcdef", 4), "abc…");
    assert_eq!(truncate_cell("abc", 3), "abc");
    assert_eq!(truncate_cell("abc", 0), "…");
    assert_eq!(truncate_cell("", 0), "");
}

#[test]
fn basename_takes_last_component() {
    assert_eq!(basename("/a/b/c.txt"), "c.txt");
    assert_eq!(basename("/a/b/"), "b");
    assert_eq!(basename("C:\\dir\\file"), "file");
    assert_eq!(basename("/"), "/");
    assert_eq!(basename("plain"), "plain");
}

#[test]
fn text_lines_follow_str_lines() {
    assert_eq!(text_lines("a\n\nb\n"), vec!["a".to_string(), String::new(), "b".to_string()]);
    assert_eq!(text_lines(""), Vec::<String>::new());
}

#[test]
fn download_target_of_plain_paths() {
    assert_eq!(download_target("/root/./x/../file.txt"), Some("root/x/file.txt".to_string()));
    assert_eq!(download_target("/"), None);
    assert_eq!(download_target("local-rs:///tmp/a.txt"), Some("tmp/a.txt".to_string()));
    assert_eq!(download_target("s3-rs://bucket"), Some("bucket".to_string()));
    assert_eq!(download_target("s3-rs://../f"), Some("f".to_string()));
    assert_eq!(download_target("s3-rs://./f/.."), None);
}
