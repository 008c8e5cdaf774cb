use std::cell::RefCell;

use hakai_core::deleter::{fast_path, fast_path_windows, freed_total_fits, trash_path_at, DeleteResult};
use hakai_core::tui::ui::{age_tone, spinner_char, AgeTone};
use hakai_core::headless::{headless_result, sort_results};
use hakai_core::paths::{file_name, parent_path};
use hakai_core::risk::{RiskLevel, RiskResult};
use hakai_core::tui::app::{App, AppMode, SortMode};

fn listed(paths: &[(&str, u64)]) -> App {
    let mut app = App::new_at(SortMode::Path, false, None, 0);
    for (p, size) in paths {
        app.add_result(p.to_string());
        app.update_size(p, *size, 7);
    }
    app.rebuild_filter_if_dirty();
    app
}

#[test]
fn trash_paths_share_the_parent() {
    for p in ["/a/b/node_modules", "/node_modules", "rel/target", "target", "./x", "/a/b/c/", "a/./b"] {
        let trash = trash_path_at(p, 0xdead_beef).unwrap();
        assert_eq!(parent_path(&trash), parent_path(p), "{p}");
        assert_eq!(file_name(&trash), Some(".hakai_trash_deadbeef".to_string()), "{p}");
        assert_eq!(
            std::path::Path::new(&trash).parent(),
            std::path::Path::new(p).parent(),
            "{p}"
        );
    }
}

#[test]
fn resizing_back_restores_the_total() {
    let mut app = listed(&[("/a", 10), ("/b", 20)]);
    app.update_size("/a", 99, 1);
    assert_eq!(app.total_size, 119);
    app.update_size("/a", 10, 7);
    assert_eq!(app.total_size, 30);
    assert_eq!(app.results[0].size_bytes, 10);
    assert_eq!(app.results[0].newest_ms, 7);
}

#[test]
fn multi_select_on_and_off_clears_the_selection() {
    let mut app = listed(&[("/a", 1), ("/b", 1)]);
    app.toggle_multi_select();
    app.handle_space_or_delete();
    assert_eq!(app.selected_paths.len(), 1);
    assert!(app.is_selected("/a"));
    assert!(app.is_selected("/a/"));
    assert!(!app.is_selected("/b"));
    app.toggle_multi_select();
    assert_eq!(app.mode, AppMode::Normal);
    assert!(app.selected_paths.is_empty());
    assert_eq!(app.range_start, None);
}

#[test]
fn escape_leaves_search_with_no_query() {
    let mut app = listed(&[("/a", 1)]);
    app.enter_search();
    app.search_push_char('z');
    app.handle_escape();
    assert_eq!(app.mode, AppMode::Normal);
    assert_eq!(app.search_query, "");
}

#[test]
fn cleaning_up_twice_drops_nothing_more() {
    let mut app = listed(&[]);
    app.push_undo_at("/a".to_string(), "/ta".to_string(), 1, 0);
    app.push_undo_at("/b".to_string(), "/tb".to_string(), 1, 100_000);
    app.push_undo_at("/c".to_string(), "/tc".to_string(), 1, 10);
    let first = app.cleanup_expired_undo_at(50_000);
    assert_eq!(first, vec!["/ta".to_string(), "/tc".to_string()]);
    assert_eq!(app.undo_count(), 1);
    assert!(app.cleanup_expired_undo_at(50_000).is_empty());
    assert_eq!(app.undo_count(), 1);
}

#[test]
fn sorting_keeps_every_record() {
    let r = |p: &str, s: u64| headless_result(p.to_string(), s, 0, RiskResult { is_dead: false, risk_level: RiskLevel::Low });
    let input = vec![r("/c", 1), r("/a", 3), r("/b", 3), r("/a", 2)];
    let mut before: Vec<(String, u64)> = input.iter().map(|x| (x.path.clone(), x.size)).collect();
    let sorted = sort_results(input, Some("size"));
    let mut after: Vec<(String, u64)> = sorted.iter().map(|x| (x.path.clone(), x.size)).collect();
    assert_eq!(after[0], ("/a".to_string(), 3));
    assert_eq!(after[1], ("/b".to_string(), 3));
    before.sort();
    after.sort();
    assert_eq!(before, after);
}

#[test]
fn freed_totals_are_checked_for_overflow() {
    let big = vec![
        DeleteResult::Success { path: "a".to_string(), freed_bytes: u64::MAX },
        DeleteResult::Success { path: "b".to_string(), freed_bytes: 1 },
    ];
    assert!(!freed_total_fits(&big));
    let failed = vec![
        DeleteResult::Success { path: "a".to_string(), freed_bytes: u64::MAX },
        DeleteResult::Error { path: "b".to_string(), message: "x".to_string(), freed_bytes: 9 },
    ];
    assert!(freed_total_fits(&failed));
}

#[test]
fn deletion_paths_get_the_long_path_prefix_on_windows() {
    assert_eq!(fast_path("/a/b"), "/a/b");
    assert_eq!(fast_path_windows("C:\\work\\node_modules"), "\\\\?\\C:\\work\\node_modules");
    assert_eq!(fast_path_windows("\\\\?\\C:\\x"), "\\\\?\\C:\\x");
}

#[test]
fn clock_driven_marks_stay_in_range() {
    let c = spinner_char();
    assert!(('\u{2800}'..='\u{28ff}').contains(&c));
    assert_eq!(age_tone(0), AgeTone::Unknown);
    assert_eq!(age_tone(1), AgeTone::Old);
}

#[test]
fn every_path_finds_its_result_after_a_resort() {
    let mut app = listed(&[("/c", 1), ("/a", 5), ("/b", 3)]);
    app.cycle_sort();
    app.rebuild_filter_if_dirty();
    for (i, r) in app.results.iter().enumerate() {
        assert_eq!(app.index_of(&r.path), Some(i));
    }
    assert_eq!(app.index_of("/a/"), Some(0));
    assert_eq!(app.index_of("/zz"), None);
}

#[test]
fn batch_items_with_a_known_size_go_through_the_trash() {

    let renamed = RefCell::new(false);
    let r = hakai_core::deleter::delete_batch_item(
        "/a/node_modules".to_string(),
        5,
        false,
        |_f: &String, _t: &String| {
            *renamed.borrow_mut() = true;
            true
        },
        |_p: &String| 0,
        |_p: &String| Ok(5),
    );
    assert!(*renamed.borrow());
    assert!(matches!(r, DeleteResult::Success { freed_bytes: 5, .. }));
    let r = hakai_core::deleter::delete_batch_item(
        "/a/node_modules".to_string(),
        0,
        false,
        |_f: &String, _t: &String| panic!("an unmeasured directory is deleted in place"),
        |_p: &String| 0,
        |p: &String| if p == "/a/node_modules" { Ok(9) } else { Err((0, "wrong path".to_string())) },
    );
    assert!(matches!(r, DeleteResult::Success { freed_bytes: 9, .. }));
    let r = hakai_core::deleter::delete_batch_item(
        "/a/node_modules".to_string(),
        0,
        true,
        |_f: &String, _t: &String| panic!("a dry run does not rename"),
        |_p: &String| 7,
        |_p: &String| panic!("a dry run does not remove"),
    );
    assert!(matches!(r, DeleteResult::Success { freed_bytes: 7, .. }));
}

#[test]
fn the_list_height_can_be_set() {
    let mut app = listed(&[("/a", 1)]);
    app.set_list_height(3);
    assert_eq!(app.list_height, 3);
}
