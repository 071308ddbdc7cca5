use fsspec_browser::app::{BrowserApp, Job, JobResult};
use fsspec_browser::app_spec::{Key, PaneFocus};
use fsspec_browser::backend::FsspecBackend;
use fsspec_browser::entry::{FileInfo, ListPage, PreviewPage};
use fsspec_browser::tree::{RowKind, VisibleRow};

fn list_result(entries: Vec<FileInfo>, has_more: bool) -> JobResult {
    JobResult::ListPage(Ok(ListPage { entries, has_more }))
}

/// A local browser at `/r` whose first page holds the given entries.
fn browser(entries: Vec<FileInfo>, has_more: bool) -> BrowserApp<FsspecBackend> {
    let mut app = BrowserApp::new(FsspecBackend::local(), "/r", 2, 4);
    match app.take_started_job() {
        Some(Job::ListPage { dir, offset, limit }) => {
            assert_eq!((dir.as_str(), offset, limit), ("/r", 0, 2));
        }
        _ => panic!("expected a listing"),
    }
    app.apply_job_result(list_result(entries, has_more));
    app
}

fn preview_result(bytes: &[u8], has_more: bool, next_offset: usize) -> JobResult {
    JobResult::Preview(Ok(PreviewPage { bytes: bytes.to_vec(), has_more, next_offset }))
}

#[test]
fn title_and_footer() {
    let mut app = browser(Vec::new(), false);
    assert_eq!(app.title_text(), "local-rs | local-rs:///r");
    assert!(app.footer_text().ends_with("| q quit | loaded 0 entries from local-rs:///r"));
    app.handle_key(Key::Char('a'), true);
    assert!(app
        .footer_text()
        .ends_with("| prefix: ctrl-a | ctrl-a: press left or right to focus a pane"));
    app.handle_key(Key::Char('x'), false);
    assert_eq!(app.message, "unknown ctrl-a command");
    assert!(app.focus == PaneFocus::Browser);
}

#[test]
fn row_labels_show_markers_and_sizes() {
    let app = browser(vec![FileInfo::directory("/r/d"), FileInfo::file("/r/f", 2048)], true);
    assert_eq!(app.rows.len(), 3);
    assert_eq!(app.row_label(&app.rows[0]), ("[+] d".to_string(), true));
    assert_eq!(app.row_label(&app.rows[1]), ("    f  2.0 KiB".to_string(), false));
    assert_eq!(app.row_label(&app.rows[2]).0, "... load more");
    let deep = VisibleRow { path: vec![0, 3], depth: 2, kind: RowKind::LoadMore };
    assert_eq!(app.row_label(&deep).0, "    ... load more");
}

#[test]
fn auto_preview_reads_and_scrolls() {
    let mut app = browser(vec![FileInfo::file("/r/f", 100)], false);
    let lines = app.preview_lines();
    assert_eq!(lines, vec!["reading preview for local-rs:///r/f".to_string()]);
    match app.take_started_job() {
        Some(Job::Preview { path, offset, limit }) => {
            assert_eq!((path.as_str(), offset, limit), ("/r/f", 0, 4));
        }
        _ => panic!("expected a preview read"),
    }
    assert_eq!(app.preview_lines(), vec!["reading preview for local-rs:///r/f".to_string()]);
    app.apply_job_result(preview_result(b"a\nb\nc\n", true, 6));
    assert_eq!(app.message, "preview loaded for local-rs:///r/f");
    assert_eq!(app.preview_lines(), vec!["a".to_string(), "b".to_string(), "c".to_string()]);

    app.handle_key(Key::Char('d'), true);
    assert_eq!(app.preview_scroll, 2);
    match app.take_started_job() {
        Some(Job::Preview { offset, .. }) => assert_eq!(offset, 6),
        _ => panic!("expected the next preview read"),
    }
    app.apply_job_result(preview_result(b"d", false, 7));
    assert_eq!(app.preview_lines().len(), 4);
    app.handle_key(Key::Char('u'), true);
    assert_eq!(app.preview_scroll, 0);

    app.focus = PaneFocus::Preview;
    app.handle_key(Key::End, false);
    assert_eq!(app.preview_scroll, 3);
    app.handle_key(Key::Home, false);
    assert_eq!(app.preview_scroll, 0);
    app.handle_key(Key::Right, false);
    app.handle_key(Key::Char('L'), false);
    assert_eq!(app.preview_horizontal, 14);
    app.handle_key(Key::Char('H'), false);
    app.handle_key(Key::Left, false);
    app.handle_key(Key::Left, false);
    assert_eq!(app.preview_horizontal, 0);
}

#[test]
fn truncated_first_page_is_marked() {
    let mut app = browser(vec![FileInfo::file("/r/f", 100)], false);
    app.preview_lines();
    app.take_started_job();
    app.apply_job_result(preview_result(b"ab", false, 2));
    assert_eq!(app.preview_lines(), vec!["ab".to_string(), "...".to_string()]);
}

#[test]
fn preview_errors_are_shown() {
    let mut app = browser(vec![FileInfo::file("/r/f", 1)], false);
    app.preview_lines();
    app.take_started_job();
    app.apply_job_result(JobResult::Preview(Err("denied".to_string())));
    assert_eq!(app.message, "preview error: denied");
    assert_eq!(app.preview_lines(), vec!["preview error: denied".to_string()]);
}

#[test]
fn busy_browser_refuses_and_lost_jobs_are_reported() {
    let mut app = browser(vec![FileInfo::directory("/r/d")], false);
    app.handle_key(Key::Char(' '), false);
    assert!(app.pending.is_some());
    app.handle_key(Key::Enter, false);
    assert_eq!(app.message, "busy; press q or ctrl-c to quit");
    app.take_started_job();
    app.job_lost();
    assert_eq!(app.message, "background operation failed");
    assert!(app.pending.is_none());
}

#[test]
fn listing_errors_stop_the_folder() {
    let mut app = browser(vec![FileInfo::directory("/r/d")], false);
    app.toggle_expand_selected();
    app.take_started_job();
    app.apply_job_result(JobResult::ListPage(Err("gone".to_string())));
    assert_eq!(app.message, "error: gone");
    assert!(app.node_ref(&vec![0]).unwrap().exhausted);
    let lines = app.preview_lines();
    assert_eq!(lines.last().unwrap(), "error: gone");
    assert!(lines.contains(&"loaded children: 0".to_string()));
}

#[test]
fn mismatched_results_are_reported() {
    let mut app = browser(vec![FileInfo::directory("/r/d")], false);
    app.toggle_expand_selected();
    app.take_started_job();
    app.apply_job_result(JobResult::Download(Ok(())));
    assert_eq!(app.message, "background operation returned unexpected result");
}

#[test]
fn folding_and_parent() {
    let mut app = browser(vec![FileInfo::directory("/r/d")], false);
    app.toggle_expand_selected();
    app.take_started_job();
    app.apply_job_result(list_result(vec![FileInfo::file("/r/d/x", 1)], false));
    assert_eq!(app.rows.len(), 2);
    app.toggle_expand_selected();
    assert_eq!(app.rows.len(), 1);
    assert!(app.take_started_job().is_none());
    app.toggle_expand_selected();
    assert_eq!(app.rows.len(), 2);
    assert!(app.take_started_job().is_none());

    app.handle_key(Key::Backspace, false);
    assert_eq!(app.root_name(), "/");
    assert_eq!(app.message, "loading local-rs:///");
    app.take_started_job();
    app.apply_job_result(list_result(Vec::new(), false));
    app.handle_key(Key::Char('h'), false);
    assert!(app.take_started_job().is_none());
}

#[test]
fn downloads_only_files() {
    let mut app = browser(vec![FileInfo::directory("/r/d"), FileInfo::file("/r/f", 1)], false);
    app.download_selected();
    assert_eq!(app.message, "download unavailable for this entry");
    app.handle_key(Key::Down, false);
    app.handle_key(Key::Char('d'), false);
    match app.take_started_job() {
        Some(Job::Download { path, local }) => {
            assert_eq!(path, "/r/f");
            assert_eq!(local, "r/f");
        }
        _ => panic!("expected a download"),
    }
    assert_eq!(app.message, "downloading local-rs:///r/f");
    app.apply_job_result(JobResult::Download(Err("disk full".to_string())));
    assert_eq!(app.message, "download error: disk full");
}

#[test]
fn selection_moves_within_rows() {
    let mut app = browser(vec![FileInfo::file("/r/a", 1), FileInfo::file("/r/b", 1)], false);
    app.handle_key(Key::PageDown, false);
    assert_eq!(app.selected, 1);
    app.handle_key(Key::Char('k'), false);
    app.handle_key(Key::Up, false);
    assert_eq!(app.selected, 0);
    app.handle_key(Key::Char('G'), false);
    assert_eq!(app.selected, 1);
    app.handle_key(Key::Char('g'), false);
    assert_eq!(app.selected, 0);
    assert!(app.handle_key(Key::Esc, false));
    assert!(app.handle_key(Key::Char('q'), false));
    assert!(!app.handle_key(Key::Other, false));
}

#[test]
fn end_loads_more_and_refresh_restores_selection() {
    let mut app = browser(vec![FileInfo::file("/r/a", 1), FileInfo::file("/r/b", 1)], true);
    app.end();
    match app.take_started_job() {
        Some(Job::ListPage { offset, .. }) => assert_eq!(offset, 2),
        _ => panic!("expected the next page"),
    }
    app.apply_job_result(list_result(vec![FileInfo::file("/r/c", 1)], false));
    assert_eq!(app.rows.len(), 3);
    app.selected = 2;
    app.refresh_selected_level();
    match app.take_started_job() {
        Some(Job::ListPage { dir, offset, .. }) => assert_eq!((dir.as_str(), offset), ("/r", 0)),
        _ => panic!("expected a fresh listing"),
    }
    app.apply_job_result(list_result(vec![FileInfo::file("/r/b", 1), FileInfo::file("/r/c", 1)], true));
    assert_eq!(app.selected, 1);
}

#[test]
fn ctrl_c_after_prefix_does_not_quit() {
    let mut app = browser(Vec::new(), false);
    assert!(!app.handle_key(Key::Char('a'), true));
    assert!(!app.handle_key(Key::Char('c'), true));
    assert_eq!(app.message, "unknown ctrl-a command");
    assert!(app.handle_key(Key::Char('c'), true));
}

#[test]
fn built_rows_never_show_unloaded_entries() {
    let mut app = browser(vec![FileInfo::directory("/r/d"), FileInfo::file("/r/f", 1)], true);
    app.toggle_expand_selected();
    app.take_started_job();
    app.apply_job_result(list_result(vec![FileInfo::file("/r/d/x", 1)], true));
    assert_eq!(app.rows.len(), 5);
    for row in &app.rows {
        let (label, _) = app.row_label(row);
        assert!(!label.contains("? loading"), "{label}");
    }
    assert_eq!(app.row_label(&app.rows[0]).0, "[-] d");
    assert_eq!(app.row_label(&app.rows[1]).0, "      x  1 B");
    assert_eq!(app.row_label(&app.rows[2]).0, "  ... load more");
}
