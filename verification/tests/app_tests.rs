use hakai_core::risk::RiskLevel;
use hakai_core::scanner::ScanEvent;
use hakai_core::tui::app::{
    format_age_at, list_event_from_scan, quote, App, AppMode, FolderStatus, Key, KeyPress, ListEvent, ListJob,
    MouseAction, SortMode, QUOTE_COUNT,
};

fn app_with(paths: &[(&str, u64)]) -> App {
    let mut app = App::new_at(SortMode::Path, false, None, 0);
    for (p, size) in paths {
        app.add_result(p.to_string());
        app.update_size(p, *size, 1000);
    }
    app.rebuild_filter_if_dirty();
    app
}

fn shown(app: &App) -> Vec<String> {
    app.filtered_indices.iter().map(|&i| app.results[i].path.clone()).collect()
}

fn key(c: char) -> KeyPress {
    KeyPress { key: Key::Char(c), ctrl: false }
}

#[test]
fn a_new_list_is_empty() {
    let app = App::new(SortMode::Size, true, Some(10));
    assert_eq!(app.found_count(), 0);
    assert_eq!(app.visible_count(), 0);
    assert_eq!(app.max_result_size(), 1);
    assert_eq!(app.mode, AppMode::Normal);
    assert_eq!(app.list_height, 10);
    assert!(app.get_selected_result().is_none());
    let app = App::new_at(SortMode::Path, false, None, 7);
    assert_eq!(app.current_quote, quote(7 % QUOTE_COUNT));
}

#[test]
fn sizes_add_up_and_sorts_follow_the_mode() {
    let mut app = app_with(&[("/b", 5), ("/a", 9), ("/c", 5)]);
    assert_eq!(app.total_size, 19);
    assert_eq!(app.max_result_size(), 9);
    assert_eq!(shown(&app), vec!["/a", "/b", "/c"]);
    app.cycle_sort();
    assert_eq!(app.sort_mode, SortMode::Size);
    app.rebuild_filter_if_dirty();
    assert_eq!(shown(&app), vec!["/a", "/b", "/c"]);
    app.update_size("/c", 50, 1);
    assert_eq!(app.total_size, 64);
    app.rebuild_filter_if_dirty();
    assert_eq!(shown(&app), vec!["/c", "/a", "/b"]);
    app.cycle_sort();
    app.cycle_sort();
    assert_eq!(app.sort_mode, SortMode::Path);
}

#[test]
fn search_filters_without_case() {
    let mut app = app_with(&[("/Work/node_modules", 1), ("/play/target", 1)]);
    app.enter_search();
    assert_eq!(app.mode, AppMode::Search);
    for c in "WORK".chars() {
        app.search_push_char(c);
    }
    app.rebuild_filter_if_dirty();
    assert_eq!(shown(&app), vec!["/Work/node_modules"]);
    app.search_pop_char();
    assert_eq!(app.search_query, "WOR");
    app.exit_search();
    app.rebuild_filter_if_dirty();
    assert_eq!(app.visible_count(), 2);
    assert_eq!(app.search_query, "");
}

#[test]
fn the_minimum_size_hides_small_known_sizes_only() {
    let mut app = App::new_at(SortMode::Path, false, Some(10), 0);
    app.add_result("/small".to_string());
    app.add_result("/big".to_string());
    app.add_result("/unknown".to_string());
    app.update_size("/small", 3, 1);
    app.update_size("/big", 30, 1);
    app.rebuild_filter_if_dirty();
    assert_eq!(shown(&app), vec!["/big", "/unknown"]);
}

#[test]
fn the_cursor_stays_in_the_list() {
    let mut app = app_with(&[("/a", 1), ("/b", 1), ("/c", 1)]);
    app.move_selection(-5);
    assert_eq!(app.selected_index, 0);
    app.move_selection(10);
    assert_eq!(app.selected_index, 2);
    app.go_home();
    assert_eq!(app.selected_index, 0);
    app.go_end();
    assert_eq!(app.selected_index, 2);
    app.list_height = 2;
    app.go_home();
    app.move_selection(2);
    assert_eq!(app.scroll_offset, 1);
}

#[test]
fn a_single_delete_asks_first() {
    let mut app = app_with(&[("/a", 4), ("/b", 6)]);
    assert!(app.handle_space_or_delete().is_none());
    assert_eq!(app.pending_delete, Some("/a".to_string()));
    let job = app.confirm_pending_delete();
    assert_eq!(job, Some(("/a".to_string(), 4)));
    assert_eq!(app.results[0].status, FolderStatus::Deleting);
    assert!(app.pending_delete.is_none());
    assert!(app.confirm_pending_delete().is_none());
    app.mark_deleted("/a", 4);
    assert_eq!(app.freed_space, 4);
    assert_eq!(app.results[0].status, FolderStatus::Deleted);
    app.restore_from_undo("/a", 10);
    assert_eq!(app.freed_space, 0);
    assert_eq!(app.results[0].status, FolderStatus::Found);
    app.mark_error("/b", "busy".to_string());
    assert_eq!(app.results[1].status, FolderStatus::Error);
    assert_eq!(app.results[1].error_message, Some("busy".to_string()));
}

#[test]
fn multi_select_deletes_what_was_picked() {
    let mut app = app_with(&[("/a", 1), ("/b", 2), ("/c", 3)]);
    app.toggle_multi_select();
    assert_eq!(app.mode, AppMode::MultiSelect);
    app.handle_space_or_delete();
    app.move_selection(2);
    app.handle_space_or_delete();
    let mut items = app.handle_enter();
    items.sort();
    assert_eq!(items, vec![("/a".to_string(), 1), ("/c".to_string(), 3)]);
    assert_eq!(app.mode, AppMode::Deleting);
    assert!(app.selected_paths.is_empty());
}

#[test]
fn select_all_toggles() {
    let mut app = app_with(&[("/a", 1), ("/b", 2)]);
    app.select_all();
    assert!(app.selected_paths.is_empty());
    app.toggle_multi_select();
    app.select_all();
    assert_eq!(app.selected_paths.len(), 2);
    app.select_all();
    assert!(app.selected_paths.is_empty());
    app.handle_escape();
    assert_eq!(app.mode, AppMode::Normal);
}

#[test]
fn range_select_covers_the_rows_between() {
    let mut app = app_with(&[("/a", 1), ("/b", 2), ("/c", 3), ("/d", 4)]);
    app.move_selection(1);
    app.toggle_range_select();
    assert_eq!(app.mode, AppMode::RangeSelect);
    assert_eq!(app.range_start, Some(1));
    app.move_selection(2);
    let mut sel = app.selected_paths.clone();
    sel.sort();
    assert_eq!(sel, vec!["/b", "/c", "/d"]);
    app.toggle_range_select();
    assert_eq!(app.mode, AppMode::MultiSelect);
    assert_eq!(app.range_start, None);
}

#[test]
fn undo_entries_expire_after_thirty_seconds() {
    let mut app = app_with(&[("/a", 1)]);
    app.push_undo_at("/a".to_string(), "/t1".to_string(), 1, 1_000);
    app.push_undo_at("/b".to_string(), "/t2".to_string(), 1, 20_000);
    assert_eq!(app.undo_count(), 2);
    assert!(app.cleanup_expired_undo_at(30_999).is_empty());
    assert_eq!(app.cleanup_expired_undo_at(31_000), vec!["/t1".to_string()]);
    assert_eq!(app.undo_count(), 1);
    app.flash_freed_at(5_000);
    assert!(app.is_freed_flashing_at(6_999));
    assert!(!app.is_freed_flashing_at(7_000));
}

#[test]
fn ages_read_in_the_largest_whole_unit() {
    let now = 100_000_000_000u64;
    assert_eq!(format_age_at(0, now), "...");
    assert_eq!(format_age_at(now + 5, now), "just now");
    assert_eq!(format_age_at(now - 59_000, now), "just now");
    assert_eq!(format_age_at(now - 120_000, now), "2m ago");
    assert_eq!(format_age_at(now - 7_200_000, now), "2h ago");
    assert_eq!(format_age_at(now - 86_400_000, now), "1d ago");
    assert_eq!(format_age_at(now - 2 * 86_400_000, now), "2d ago");
    assert_eq!(format_age_at(now - 2_592_000_000, now), "1mo ago");
    assert_eq!(format_age_at(now - 8 * 2_592_000_000, now), "8mo ago");
    assert_eq!(format_age_at(now - 31_536_000_000, now), "1y ago");
    assert_eq!(format_age_at(now - 2 * 31_536_000_000, now), "2y ago");
}

#[test]
fn keys_drive_the_list() {
    let mut app = app_with(&[("/x/a/node_modules", 1), ("/x/b/node_modules", 2)]);
    let out = app.handle_key(KeyPress { key: Key::Down, ctrl: false });
    assert!(out.deletes.is_empty());
    assert_eq!(app.selected_index, 1);
    let out = app.handle_key(key('o'));
    assert_eq!(out.open_dir, Some("/x/b".to_string()));
    app.handle_key(key(' '));
    assert_eq!(app.pending_delete, Some("/x/b/node_modules".to_string()));
    let out = app.handle_key(key('y'));
    assert_eq!(out.deletes, vec![("/x/b/node_modules".to_string(), 2)]);
    app.handle_key(key('?'));
    assert_eq!(app.mode, AppMode::Help);
    app.handle_key(key('q'));
    assert_eq!(app.mode, AppMode::Normal);
    assert!(!app.should_quit);
    app.handle_key(key('e'));
    assert!(app.show_errors);
    app.handle_key(key('x'));
    assert!(app.show_errors);
    app.handle_key(KeyPress { key: Key::Esc, ctrl: false });
    assert!(!app.show_errors);
    app.handle_key(key('/'));
    app.handle_key(key('q'));
    assert_eq!(app.search_query, "q");
    app.handle_key(KeyPress { key: Key::Enter, ctrl: false });
    assert_eq!(app.mode, AppMode::Normal);
    app.handle_key(KeyPress { key: Key::Char('c'), ctrl: true });
    assert!(app.should_quit);
}

#[test]
fn the_mouse_scrolls_and_picks_rows() {
    let mut app = app_with(&[("/a", 1), ("/b", 1), ("/c", 1), ("/d", 1)]);
    app.handle_mouse(MouseAction::ScrollDown);
    assert_eq!(app.selected_index, 3);
    app.handle_mouse(MouseAction::LeftClick { row: 6 });
    assert_eq!(app.selected_index, 1);
    app.handle_mouse(MouseAction::LeftClick { row: 2 });
    assert_eq!(app.selected_index, 1);
    app.handle_mouse(MouseAction::ScrollUp);
    assert_eq!(app.selected_index, 0);
}

#[test]
fn list_events_update_the_list_and_start_work() {
    let mut app = App::new_at(SortMode::Path, false, None, 0);
    let jobs = app.handle_list_event(ListEvent::ScanFound("/p/node_modules".to_string()));
    assert!(matches!(jobs.as_slice(), [ListJob::Size(p)] if p == "/p/node_modules"));
    app.handle_list_event(ListEvent::SizeCalculated { path: "/p/node_modules".to_string(), size: 9, newest_ms: 3 });
    assert_eq!(app.total_size, 9);
    let jobs = app.handle_list_event(ListEvent::ScanComplete(77));
    assert!(app.scan_complete);
    assert_eq!(app.scan_duration_ms, 77);
    assert!(matches!(jobs.as_slice(), [ListJob::Risk { target, .. }] if target == "node_modules"));
    app.handle_list_event(ListEvent::RiskAnalyzed {
        path: "/p/node_modules".to_string(),
        is_dead: true,
        risk_level: RiskLevel::High,
    });
    assert!(app.results[0].is_dead);
    app.handle_list_event(ListEvent::PermissionDenied);
    assert_eq!(app.permission_denied_count, 1);
    app.handle_list_event(ListEvent::ScanError("boom".to_string()));
    assert_eq!(app.errors, vec!["boom".to_string()]);
}

#[test]
fn denied_access_is_counted_not_shown() {
    let (e, done) = list_event_from_scan(ScanEvent::Error { message: "Permission denied (os error 13)".to_string() });
    assert!(matches!(e, ListEvent::PermissionDenied) && !done);
    let (e, _) = list_event_from_scan(ScanEvent::Error { message: "Access is denied.".to_string() });
    assert!(matches!(e, ListEvent::PermissionDenied));
    let (e, _) = list_event_from_scan(ScanEvent::Error { message: "loop".to_string() });
    assert!(matches!(e, ListEvent::ScanError(m) if m == "loop"));
    let (e, done) = list_event_from_scan(ScanEvent::Complete { total_found: 3, duration_ms: 12 });
    assert!(matches!(e, ListEvent::ScanComplete(12)) && done);
}

#[test]
fn overflowing_inputs_are_detected_before_they_are_handled() {
    let mut app = app_with(&[("/a", 1)]);
    assert!(app.can_move(i32::MAX));
    assert!(app.can_move(i32::MIN));
    assert!(app.can_handle_key(KeyPress { key: Key::PageDown, ctrl: false }));
    app.list_height = 1usize << 31;
    assert!(!app.can_handle_key(KeyPress { key: Key::PageUp, ctrl: false }));
    app.list_height = 10;
    app.scroll_offset = usize::MAX - 10;
    assert!(app.can_handle_mouse(MouseAction::LeftClick { row: 15 }));
    assert!(!app.can_handle_mouse(MouseAction::LeftClick { row: 16 }));
    assert!(app.can_handle_mouse(MouseAction::LeftClick { row: 2 }));
    app.scroll_offset = 0;
    app.permission_denied_count = u64::MAX;
    assert!(!app.can_handle_event(&ListEvent::PermissionDenied));
    assert!(app.can_handle_event(&ListEvent::SizeCalculated { path: "/a".to_string(), size: u64::MAX - 1, newest_ms: 0 }));
    assert!(app.can_handle_event(&ListEvent::SizeCalculated { path: "/zz".to_string(), size: u64::MAX, newest_ms: 0 }));
    app.freed_space = 5;
    assert!(!app.can_handle_event(&ListEvent::DeleteFinished {
        path: "/a".to_string(),
        freed_bytes: u64::MAX,
        error: None
    }));
    assert!(app.can_handle_event(&ListEvent::DeleteFinished {
        path: "/a".to_string(),
        freed_bytes: u64::MAX,
        error: Some("x".to_string())
    }));
}

#[test]
fn select_all_deselects_once_every_found_row_is_selected() {
    let mut app = app_with(&[("/a", 1), ("/b", 2)]);
    app.handle_list_event(ListEvent::DeleteFinished { path: "/b".to_string(), freed_bytes: 2, error: None });
    app.rebuild_filter_if_dirty();
    app.toggle_multi_select();
    app.select_all();
    assert_eq!(app.selected_paths, vec!["/a".to_string()]);
    app.select_all();
    assert!(app.selected_paths.is_empty());
    app.handle_space_or_delete();
    assert_eq!(app.selected_paths, vec!["/a".to_string()]);
    app.select_all();
    assert!(app.selected_paths.is_empty());
}
