use std::collections::HashMap;

use fsspec_browser::app::{BrowserApp, Job, JobResult};
use fsspec_browser::app_spec::{Key, PaneFocus};
use fsspec_browser::backend::BrowserBackend;
use fsspec_browser::entry::{FileInfo, FileType, InfoView, ListPage, PreviewPage};
use fsspec_browser::render::basename;
use fsspec_browser::tree::{RowKind, VisibleRow};

struct MockBackend {
    auto_preview: bool,
}

impl BrowserBackend for MockBackend {
    fn spec_name(&self) -> vstd::seq::Seq<char> {
        vstd::seq::Seq::empty()
    }

    fn spec_auto_preview(&self) -> bool {
        self.auto_preview
    }

    fn spec_can_preview(&self, _info: InfoView) -> bool {
        false
    }

    fn spec_parent(&self, _path: vstd::seq::Seq<char>) -> vstd::seq::Seq<char> {
        vstd::seq::Seq::empty()
    }

    fn spec_display_path(&self, _path: vstd::seq::Seq<char>) -> vstd::seq::Seq<char> {
        vstd::seq::Seq::empty()
    }

    fn name(&self) -> String {
        "mock".to_string()
    }

    fn auto_preview(&self) -> bool {
        self.auto_preview
    }

    fn can_preview(&self, info: &FileInfo) -> bool {
        info.is_file()
    }

    fn parent(&self, path: &str) -> String {
        parent_path(path)
    }

    fn display_path(&self, path: &str) -> String {
        path.to_string()
    }
}

fn parent_path(path: &str) -> String {
    path.rsplit_once('/')
        .map(|(parent, _)| {
            if parent.is_empty() {
                "/".to_string()
            } else {
                parent.to_string()
            }
        })
        .unwrap_or_else(|| path.to_string())
}

/// The listings the mock serves, and the reads it was asked for.
struct Store {
    pages: HashMap<(String, usize), (Vec<FileInfo>, bool)>,
    calls: Vec<(String, usize)>,
    preview_calls: Vec<String>,
    downloads: Vec<(String, String)>,
}

impl Store {
    fn run(&mut self, job: Job) -> JobResult {
        match job {
            Job::ListPage { dir, offset, .. } => {
                self.calls.push((dir.clone(), offset));
                JobResult::ListPage(match self.pages.get(&(dir.clone(), offset)) {
                    Some((entries, has_more)) => Ok(ListPage {
                        entries: entries.iter().map(|e| e.copy()).collect(),
                        has_more: *has_more,
                    }),
                    None => Err(format!("{dir}@{offset}")),
                })
            }
            Job::Preview { path, offset, .. } => {
                self.preview_calls.push(path);
                JobResult::Preview(Ok(PreviewPage {
                    bytes: Vec::new(),
                    has_more: false,
                    next_offset: offset,
                }))
            }
            Job::Download { path, local } => {
                self.downloads.push((path, local));
                JobResult::Download(Ok(()))
            }
        }
    }
}

fn page(entries: Vec<FileInfo>, has_more: bool) -> (Vec<FileInfo>, bool) {
    (entries, has_more)
}

fn mock_app(
    pages: HashMap<(String, usize), (Vec<FileInfo>, bool)>,
) -> (BrowserApp<MockBackend>, Store) {
    let mut store = Store {
        pages,
        calls: Vec::new(),
        preview_calls: Vec::new(),
        downloads: Vec::new(),
    };
    let mut app = BrowserApp::new(MockBackend { auto_preview: false }, "/root", 2, 16);
    settle(&mut app, &mut store);
    (app, store)
}

fn settle(app: &mut BrowserApp<MockBackend>, store: &mut Store) {
    for _ in 0..100 {
        match app.take_started_job() {
            Some(job) => {
                let result = store.run(job);
                app.apply_job_result(result);
            }
            None => {
                assert!(app.pending.is_none());
                return;
            }
        }
    }
    panic!("background operation did not finish");
}

#[test]
fn n_requests_new_session() {
    let mut pages = HashMap::new();
    pages.insert(("/root".to_string(), 0), page(Vec::new(), false));
    let (mut app, _store) = mock_app(pages);

    assert!(!app.handle_key(Key::Char('n'), false));
    assert!(app.take_new_session_request());
}

#[test]
fn expand_is_lazy() {
    let mut pages = HashMap::new();
    pages.insert(
        ("/root".to_string(), 0),
        page(vec![FileInfo::directory("/root/dir")], false),
    );
    pages.insert(
        ("/root/dir".to_string(), 0),
        page(vec![FileInfo::file("/root/dir/file.txt", 4)], false),
    );
    let (mut app, mut store) = mock_app(pages);

    assert_eq!(store.calls.as_slice(), &[("/root".to_string(), 0)]);
    app.toggle_expand_selected();
    settle(&mut app, &mut store);

    assert_eq!(
        store.calls.as_slice(),
        &[("/root".to_string(), 0), ("/root/dir".to_string(), 0)]
    );
    assert_eq!(app.rows.len(), 2);
}

#[test]
fn enter_replaces_current_folder() {
    let mut pages = HashMap::new();
    pages.insert(
        ("/root".to_string(), 0),
        page(vec![FileInfo::directory("/root/dir")], false),
    );
    pages.insert(
        ("/root/dir".to_string(), 0),
        page(vec![FileInfo::file("/root/dir/file.txt", 4)], false),
    );
    let (mut app, mut store) = mock_app(pages);

    app.enter_selected();
    settle(&mut app, &mut store);

    assert_eq!(app.root_name(), "/root/dir");
    assert_eq!(app.rows.len(), 1);
    assert_eq!(basename(&app.node_ref(&vec![0]).unwrap().info.name), "file.txt");
}

#[test]
fn scrolling_near_load_more_fetches_next_page() {
    let mut pages = HashMap::new();
    pages.insert(
        ("/root".to_string(), 0),
        page(
            vec![FileInfo::file("/root/a", 1), FileInfo::file("/root/b", 1)],
            true,
        ),
    );
    pages.insert(
        ("/root".to_string(), 2),
        page(vec![FileInfo::file("/root/c", 1)], false),
    );
    let (mut app, mut store) = mock_app(pages);

    app.move_selection(1);
    settle(&mut app, &mut store);

    assert_eq!(
        store.calls.as_slice(),
        &[("/root".to_string(), 0), ("/root".to_string(), 2)]
    );
    assert_eq!(app.rows.len(), 3);
}

#[test]
fn refresh_file_refreshes_parent_level() {
    let mut pages = HashMap::new();
    pages.insert(
        ("/root".to_string(), 0),
        page(vec![FileInfo::directory("/root/dir")], false),
    );
    pages.insert(
        ("/root/dir".to_string(), 0),
        page(vec![FileInfo::file("/root/dir/old.txt", 1)], false),
    );
    pages.insert(
        ("/root/dir".to_string(), 1),
        page(vec![FileInfo::file("/root/dir/new.txt", 1)], false),
    );
    let (mut app, mut store) = mock_app(pages);

    app.toggle_expand_selected();
    settle(&mut app, &mut store);
    app.selected = 1;
    app.refresh_selected_level();
    settle(&mut app, &mut store);

    assert_eq!(
        store.calls.as_slice(),
        &[
            ("/root".to_string(), 0),
            ("/root/dir".to_string(), 0),
            ("/root/dir".to_string(), 0),
        ]
    );
    assert_eq!(app.root_name(), "/root");
    assert!(app.node_ref(&vec![0]).unwrap().expanded);
}

#[test]
fn special_entries_do_not_open_preview() {
    let mut pages = HashMap::new();
    pages.insert(
        ("/root".to_string(), 0),
        page(
            vec![FileInfo {
                name: "/root/socket".to_string(),
                size: 0,
                file_type: FileType::Other,
                created: None,
                modified: None,
                extra: Vec::new(),
            }],
            false,
        ),
    );
    let (mut app, store) = mock_app(pages);

    let lines = app.preview_lines();

    assert_eq!(store.preview_calls.as_slice(), &[] as &[String]);
    assert_eq!(
        lines,
        vec![
            "name: socket".to_string(),
            "path: /root/socket".to_string(),
            "type: other".to_string(),
            "preview unavailable for special filesystem entries".to_string(),
        ]
    );
}

#[test]
fn remote_preview_requires_request() {
    let mut pages = HashMap::new();
    pages.insert(
        ("/root".to_string(), 0),
        page(vec![FileInfo::file("/root/file.txt", 4)], false),
    );
    let (mut app, mut store) = mock_app(pages);

    let lines = app.preview_lines();

    assert_eq!(store.preview_calls.as_slice(), &[] as &[String]);
    assert!(lines
        .iter()
        .any(|line| line == "preview disabled to avoid remote reads"));

    app.request_preview_selected();
    settle(&mut app, &mut store);
    let _ = app.preview_lines();

    assert_eq!(
        store.preview_calls.as_slice(),
        &["/root/file.txt".to_string()]
    );
}

#[test]
fn download_selected_file_reports_local_target() {
    let mut pages = HashMap::new();
    pages.insert(
        ("/root".to_string(), 0),
        page(vec![FileInfo::file("/root/file.txt", 4)], false),
    );
    let (mut app, mut store) = mock_app(pages);

    app.download_selected();
    settle(&mut app, &mut store);

    assert_eq!(
        app.message,
        "downloaded /root/file.txt to root/file.txt".to_string()
    );
}

#[test]
fn ctrl_c_quits() {
    let mut pages = HashMap::new();
    pages.insert(("/root".to_string(), 0), page(Vec::new(), false));
    let (mut app, _store) = mock_app(pages);

    assert!(app.handle_key(Key::Char('c'), true));
}

#[test]
fn ctrl_a_arrows_switch_pane_focus() {
    let mut pages = HashMap::new();
    pages.insert(("/root".to_string(), 0), page(Vec::new(), false));
    let (mut app, _store) = mock_app(pages);

    assert!(!app.handle_key(Key::Char('a'), true));
    assert!(app.command_prefix);
    assert!(!app.handle_key(Key::Right, false));
    assert!(app.focus == PaneFocus::Preview);
    assert!(!app.command_prefix);

    app.handle_key(Key::Char('a'), true);
    app.handle_key(Key::Left, false);
    assert!(app.focus == PaneFocus::Browser);
}

#[test]
fn plain_c_does_not_quit() {
    let mut pages = HashMap::new();
    pages.insert(("/root".to_string(), 0), page(Vec::new(), false));
    let (mut app, _store) = mock_app(pages);

    assert!(!app.handle_key(Key::Char('c'), false));
}

#[test]
fn unresolved_rows_are_labeled_loading() {
    let mut pages = HashMap::new();
    pages.insert(("/root".to_string(), 0), page(Vec::new(), false));
    let (app, _store) = mock_app(pages);
    let row = VisibleRow {
        path: vec![0],
        depth: 1,
        kind: RowKind::Entry,
    };

    let (label, _) = app.row_label(&row);
    assert_eq!(label, "  ? loading");
}
