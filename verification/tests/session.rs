use fsspec_browser::args::{parse_key_value, Args, SessionDetails};
use fsspec_browser::backend::{
    build_backend, fs_parent, join_path, parent_path, shellexpand_tilde, strip_local_url,
    unsupported_backend, BackendPlan, BrowserBackend, FsspecBackend,
};
use fsspec_browser::launch::{plan_session, prompt_option, prompt_url, run_browser, trim, Launch};
use fsspec_browser::options::{option_value, StorageOptions};
use fsspec_browser::urls::validate_endpoint_url;

fn args(values: &[&str]) -> Vec<String> {
    values.iter().map(|v| v.to_string()).collect()
}

fn session(url: &str, options: &[(&str, &str)]) -> SessionDetails {
    let mut storage_options = StorageOptions::new();
    for (k, v) in options {
        storage_options.insert(k.to_string(), v.to_string());
    }
    SessionDetails { url: url.to_string(), storage_options }
}

#[test]
fn args_without_url_have_no_session() {
    let args = Args::parse(Vec::<String>::new()).unwrap().unwrap();

    assert!(args.session().is_none());
    assert_eq!(args.preview_bytes, 100 * 1024 * 1024);
}

#[test]
fn args_with_url_have_session() {
    let args = Args::parse(vec!["s3-rs://bucket".to_string()]).unwrap().unwrap();
    let session = args.session().unwrap();

    assert_eq!(session.url, "s3-rs://bucket");
}

#[test]
fn endpoint_url_rejects_placeholder_ellipsis() {
    let err = validate_endpoint_url("https://...").unwrap_err();

    assert!(err.message().contains("placeholder ellipsis"));
}

#[test]
fn endpoint_url_requires_http_scheme() {
    let err = validate_endpoint_url("ftp://example.com").unwrap_err();

    assert!(err.message().contains("http or https"));
}

#[test]
fn endpoint_url_needs_a_host_and_parses() {
    assert!(validate_endpoint_url("http://localhost:9000").is_ok());
    assert!(validate_endpoint_url("not a url").is_err());
    assert!(validate_endpoint_url("https://a...b").unwrap_err().message().contains("placeholder"));
}

#[test]
fn args_parse_every_option_form() {
    let a = Args::parse(args(&[
        "s3://b",
        "-o",
        "region=eu",
        "-okey=k",
        "--storage-option=secret=s",
        "--page-size",
        "10",
        "--preview-bytes=0",
    ]))
    .unwrap()
    .unwrap();
    assert_eq!(a.url.as_deref(), Some("s3://b"));
    assert_eq!(a.page_size, 10);
    assert_eq!(a.preview_bytes, 1);
    assert_eq!(a.storage_options.get("region"), Some("eu".to_string()));
    assert_eq!(a.storage_options.get("key"), Some("k".to_string()));
    assert_eq!(a.storage_options.get("secret"), Some("s".to_string()));
}

#[test]
fn args_later_options_override() {
    let a = Args::parse(args(&["-o", "k=1", "-o", "k=2", "--page-size=0"])).unwrap().unwrap();
    assert_eq!(a.storage_options.get("k"), Some("2".to_string()));
    assert_eq!(a.page_size, 1);
    assert!(a.session().is_none());
}

#[test]
fn args_errors() {
    assert_eq!(Args::parse(args(&["-o"])).err(), Some("-o requires KEY=VALUE".to_string()));
    assert_eq!(
        Args::parse(args(&["--page-size"])).err(),
        Some("--page-size requires a value".to_string())
    );
    assert_eq!(
        Args::parse(args(&["--page-size", "x"])).err(),
        Some("invalid --page-size: x".to_string())
    );
    assert_eq!(
        Args::parse(args(&["--preview-bytes=-1"])).err(),
        Some("invalid --preview-bytes: -1".to_string())
    );
    assert_eq!(
        Args::parse(args(&["a", "b"])).err(),
        Some("unexpected argument: b".to_string())
    );
    assert_eq!(
        Args::parse(args(&["-o", "novalue"])).err(),
        Some("storage option must be KEY=VALUE: novalue".to_string())
    );
    assert!(Args::parse(args(&["x", "-h", "y", "z"])).unwrap().is_none());
}

#[test]
fn key_value_splits_at_first_equals() {
    assert_eq!(
        parse_key_value("a=b=c"),
        Ok(("a".to_string(), "b=c".to_string()))
    );
    assert_eq!(parse_key_value("a="), Ok(("a".to_string(), String::new())));
    assert_eq!(
        parse_key_value("=v"),
        Err("storage option key is empty: =v".to_string())
    );
}

#[test]
fn option_value_takes_first_nonempty_key() {
    let mut o = StorageOptions::new();
    o.insert("endpoint_url".to_string(), String::new());
    o.insert("endpoint".to_string(), "http://e".to_string());
    assert_eq!(option_value(&o, &["endpoint_url", "endpoint"]), Some("http://e".to_string()));
    assert_eq!(option_value(&o, &["region"]), None);
}

#[test]
fn run_browser_plans_launch() {
    let home = Some("/home/u".to_string());
    assert!(matches!(run_browser(args(&["-h"]), &home), Ok(Launch::Help)));
    match run_browser(args(&["/tmp", "--page-size", "5"]), &home) {
        Ok(Launch::Browse { session: Some((s, plan)), page_size, preview_bytes }) => {
            assert_eq!(s.url, "/tmp");
            assert!(matches!(plan, BackendPlan::Local { relative: false, .. }));
            assert_eq!(page_size, 5);
            assert_eq!(preview_bytes, 100 * 1024 * 1024);
        }
        _ => panic!("expected a session"),
    }
    assert!(matches!(
        run_browser(Vec::new(), &home),
        Ok(Launch::Browse { session: None, page_size: 256, .. })
    ));
    let err = run_browser(args(&["--bogus=", "x", "y"]), &home).err().unwrap();
    assert_eq!(err.message(), "invalid argument: unexpected argument: x");
}

#[test]
fn run_browser_refuses_protocols_without_backend() {
    let err = run_browser(args(&["gs://bucket/key"]), &None).err().unwrap();
    assert!(err
        .message()
        .contains("Rust browser does not yet have a native backend for protocol: gs"));
    let err = run_browser(args(&["s3://b", "-o", "endpoint=ftp://e"]), &None).err().unwrap();
    assert!(err.message().contains("http or https"));
    assert!(plan_session(&session("gs://b", &[]), &None).is_err());
    assert!(matches!(
        plan_session(&session("s3-rs://b/k", &[]), &None),
        Ok(BackendPlan::S3 { .. })
    ));
}

#[test]
fn option_forms_agree_and_later_values_win() {
    for form in [
        vec!["u", "-o", "k=v"],
        vec!["u", "-ok=v"],
        vec!["u", "--storage-option", "k=v"],
        vec!["u", "--storage-option=k=v"],
    ] {
        let a = Args::parse(args(&form)).unwrap().unwrap();
        assert_eq!(a.url.as_deref(), Some("u"));
        assert_eq!(a.storage_options.get("k"), Some("v".to_string()));
    }
    let a = Args::parse(args(&["u", "-o", "a=1", "-o", "b=2", "-oa=3"])).unwrap().unwrap();
    assert_eq!(a.storage_options.get("a"), Some("3".to_string()));
    assert_eq!(a.storage_options.get("b"), Some("2".to_string()));
}

#[test]
fn prompt_answers() {
    assert_eq!(prompt_url("  \n", &None), ".");
    assert_eq!(prompt_url("", &Some("s3-rs://b".to_string())), "s3-rs://b");
    assert_eq!(prompt_url(" /tmp \n", &None), "/tmp");
    assert!(matches!(prompt_option("\t\n"), Ok(None)));
    assert_eq!(
        prompt_option(" region=eu \n").unwrap(),
        Some(("region".to_string(), "eu".to_string()))
    );
    assert_eq!(
        prompt_option("bad").err().unwrap().message(),
        "invalid argument: storage option must be KEY=VALUE: bad"
    );
    assert_eq!(trim("\u{3000} a b \u{2029}"), "a b");
}

#[test]
fn local_urls_and_paths() {
    assert_eq!(strip_local_url("file:///x"), Some("/x".to_string()));
    assert_eq!(strip_local_url("local-rs://y"), Some("y".to_string()));
    assert_eq!(strip_local_url("s3://y"), None);
    let home = Some("/home/u".to_string());
    assert_eq!(shellexpand_tilde("~", &home), "/home/u");
    assert_eq!(shellexpand_tilde("~/d", &home), "/home/u/d");
    assert_eq!(shellexpand_tilde("~x", &home), "~x");
    assert_eq!(shellexpand_tilde("~/d", &None), "~/d");
    assert_eq!(join_path("/cwd", "rel"), "/cwd/rel");
}

#[test]
fn build_backend_plans() {
    let home = Some("/home/u".to_string());
    match build_backend(&session("~/data", &[]), &home) {
        Ok(BackendPlan::Local { start, relative }) => {
            assert_eq!(start, "/home/u/data");
            assert!(!relative);
        }
        _ => panic!("expected local"),
    }
    match build_backend(&session("data", &[]), &home) {
        Ok(BackendPlan::Local { start, relative }) => {
            assert_eq!(start, "data");
            assert!(relative);
        }
        _ => panic!("expected local"),
    }
    match build_backend(&session("file-rs:///srv", &[]), &home) {
        Ok(BackendPlan::Local { start, relative }) => {
            assert_eq!(start, "/srv");
            assert!(!relative);
        }
        _ => panic!("expected local"),
    }
    match build_backend(
        &session("s3-rs://bucket/a/b", &[("anon", "true"), ("region", "us")]),
        &home,
    ) {
        Ok(BackendPlan::S3 { bucket, start, options }) => {
            assert_eq!(bucket, "bucket");
            assert_eq!(start, "bucket/a/b");
            assert!(options.anon);
            assert_eq!(options.region.as_deref(), Some("us"));
        }
        _ => panic!("expected s3"),
    }
    match build_backend(&session("s3://bucket", &[]), &home) {
        Ok(BackendPlan::S3 { start, .. }) => assert_eq!(start, "bucket"),
        _ => panic!("expected s3"),
    }
    match build_backend(&session("gcs://bucket", &[]), &home) {
        Ok(BackendPlan::Other { protocol }) => assert_eq!(protocol, "gcs"),
        _ => panic!("expected another protocol"),
    }
    let err = build_backend(
        &session("s3://bucket", &[("endpoint", "https://...")]),
        &home,
    )
    .err()
    .unwrap();
    assert!(err.message().contains("placeholder ellipsis"));
    assert_eq!(
        unsupported_backend("gcs").message(),
        "not supported: Rust browser does not yet have a native backend for protocol: gcs"
    );
}

#[test]
fn fsspec_backend_paths() {
    let local = FsspecBackend::local();
    assert_eq!(local.display_path("/tmp/a"), "local-rs:///tmp/a");
    assert_eq!(local.parent("/tmp/a/"), "/tmp");
    assert_eq!(local.parent("/tmp"), "/");
    assert_eq!(local.parent("/"), "/");
    let s3 = FsspecBackend::s3("bucket");
    assert_eq!(s3.display_path("bucket"), "s3-rs://bucket");
    assert_eq!(s3.display_path("bucket/key/x"), "s3-rs://bucket/key/x");
    assert_eq!(s3.display_path("other"), "s3-rs://bucket/other");
    assert_eq!(s3.parent("bucket"), "bucket");
    assert_eq!(s3.parent("bucket/key/x"), "bucket/key");
    assert_eq!(s3.parent("bucket/key"), "bucket");
    assert_eq!(s3.parent("key"), "bucket");
    assert!(s3.name() == "s3-rs" && !s3.auto_preview());
    assert!(local.auto_preview());
}

#[test]
fn parents_by_root_marker() {
    assert_eq!(fs_parent("/a/b", "/"), "/a");
    assert_eq!(fs_parent("/a", "/"), "/");
    assert_eq!(fs_parent("a", ""), "");
    assert_eq!(parent_path("", "root"), "root");
    assert_eq!(parent_path("root", "root"), "root");
    assert_eq!(parent_path("db/table/", "root"), "db");
    assert_eq!(parent_path("plain", "root"), "root");
    assert_eq!(parent_path("/x", "root"), "root");
}
