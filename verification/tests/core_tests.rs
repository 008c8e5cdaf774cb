use std::cell::RefCell;

use hakai_core::deleter::{delete_dir, delete_dir_instant, removal_result, total_freed, trash_path_at, DeleteResult};
use hakai_core::headless::{deletion_items, headless_report, headless_result, sort_results, HeadlessRun};
use hakai_core::ipc::{
    command_text, delete_event, delete_events, deleting_event, invalid_command_event, risk_event,
    size_event, IpcEvent, IpcSession,
};
use hakai_core::risk::{analyze_risk, determine_risk_level, determine_risk_level_windows, package_json_path, RiskLevel, RiskResult};
use hakai_core::scanner::{classify_entry, is_windows_system_path, progress_due, root_is_target, EntryDecision, ScanEvent, ScanOptions};
use hakai_core::sizer::{calculate_size, calculate_size_and_mtime, EntryStat};

fn names(v: &[&str]) -> Vec<String> {
    v.iter().map(|s| s.to_string()).collect()
}

#[test]
fn non_orphaned_node_modules() {
    let r = analyze_risk("/home/u/proj/node_modules", "node_modules", true);
    assert!(!r.is_dead);
    assert_eq!(r.risk_level, RiskLevel::Low);
}

#[test]
fn orphaned_node_modules() {
    let r = analyze_risk("/home/u/proj/node_modules", "node_modules", false);
    assert!(r.is_dead);
}

#[test]
fn non_node_modules_target_not_dead() {
    let r = analyze_risk("/home/u/proj/target", "target", false);
    assert!(!r.is_dead);
}

#[test]
fn package_json_is_looked_for_beside_the_directory() {
    assert_eq!(
        package_json_path("/home/u/proj/node_modules"),
        Some("/home/u/proj/package.json".to_string())
    );
    assert_eq!(package_json_path("/"), None);
}

#[test]
fn risk_levels_follow_the_path() {
    assert_eq!(determine_risk_level("/usr/lib/node_modules"), RiskLevel::High);
    assert_eq!(determine_risk_level("/USR/LIB/x"), RiskLevel::High);
    assert_eq!(determine_risk_level("/opt/app/node_modules"), RiskLevel::High);
    assert_eq!(determine_risk_level("/opt"), RiskLevel::Low);
    assert_eq!(determine_risk_level("/usr/local/share/x"), RiskLevel::Medium);
    assert_eq!(determine_risk_level("/usr/local/lib/x"), RiskLevel::High);
    assert_eq!(determine_risk_level("/home/u/.NVM/versions"), RiskLevel::Medium);
    assert_eq!(determine_risk_level("/home/u/.pnpm-store/v3"), RiskLevel::Medium);
    assert_eq!(determine_risk_level("/home/u/code/node_modules"), RiskLevel::Low);
    assert_eq!(determine_risk_level_windows("C:\\Program Files\\x"), RiskLevel::High);
    assert_eq!(determine_risk_level_windows("D:\\x\\AppData\\Roaming\\npm\\y"), RiskLevel::High);
    assert_eq!(determine_risk_level_windows("D:\\work\\.volta\\x"), RiskLevel::Medium);
    assert_eq!(determine_risk_level_windows("D:\\work\\app"), RiskLevel::Low);
}

#[test]
fn entries_are_classified_as_the_walk_needs() {
    let targets = names(&["node_modules"]);
    let exclude = names(&["skip_me"]);
    let c = |is_dir, depth, name: Option<&str>, sys| classify_entry(is_dir, depth, name, sys, &targets, &exclude);
    assert_eq!(c(true, 0, Some("node_modules"), false), EntryDecision::Ignore);
    assert_eq!(c(false, 2, Some("node_modules"), false), EntryDecision::Ignore);
    assert_eq!(c(true, 2, None, false), EntryDecision::Ignore);
    assert_eq!(c(true, 1, Some("skip_me"), false), EntryDecision::Prune);
    assert_eq!(c(true, 1, Some("keep"), true), EntryDecision::Prune);
    assert_eq!(c(true, 2, Some("node_modules"), false), EntryDecision::Target);
    assert_eq!(c(true, 1, Some("src"), false), EntryDecision::Descend);
}

#[test]
fn progress_is_reported_every_five_hundred_directories() {
    assert!(progress_due(500));
    assert!(progress_due(1000));
    assert!(!progress_due(499));
    assert!(!progress_due(1));
}

#[test]
fn a_root_that_is_a_target_is_found_alone() {
    let opts = ScanOptions {
        root: "/home/u/proj/node_modules".to_string(),
        targets: names(&["node_modules"]),
        exclude: vec![],
        exclude_hidden: false,
        max_depth: None,
    };
    assert!(root_is_target(&opts));
    let opts = ScanOptions { root: "/home/u/proj".to_string(), ..opts };
    assert!(!root_is_target(&opts));
}

#[test]
fn windows_system_paths_are_skipped() {
    assert!(is_windows_system_path("C:\\Windows\\System32"));
    assert!(is_windows_system_path("c:\\program files (x86)\\app"));
    assert!(!is_windows_system_path("D:\\Windows"));
    assert!(!is_windows_system_path("C:\\Users\\me"));
}

#[test]
fn trash_paths_sit_beside_the_directory() {
    assert_eq!(
        trash_path_at("/a/b/node_modules", 255),
        Some("/a/b/.hakai_trash_ff".to_string())
    );
    assert_eq!(trash_path_at("/", 1), None);
}

#[test]
fn dry_run_does_not_delete() {
    let r = delete_dir(
        "/x/node_modules".to_string(),
        true,
        |_p: &String| 4,
        |_p: &String| -> Result<u64, (u64, String)> { panic!("a dry run must not remove") },
    );
    assert!(matches!(r, DeleteResult::Success { freed_bytes: 4, .. }));
}

#[test]
fn removal_failures_are_reported_with_the_bytes_freed() {
    let r = delete_dir(
        "/x/gone".to_string(),
        false,
        |_p: &String| 0,
        |_p: &String| Err((7, "denied".to_string())),
    );
    match r {
        DeleteResult::Error { path, message, freed_bytes } => {
            assert_eq!(path, "/x/gone");
            assert_eq!(message, "denied");
            assert_eq!(freed_bytes, 7);
        }
        _ => panic!("the removal failed"),
    }
    assert!(matches!(
        removal_result("/p".to_string(), Ok(3)),
        DeleteResult::Success { freed_bytes: 3, .. }
    ));
}

#[test]
fn instant_delete_moves_to_trash_first() {
    let removed = RefCell::new(String::new());
    let r = delete_dir_instant(
        "/a/node_modules".to_string(),
        10,
        false,
        |_from: &String, _to: &String| true,
        |_p: &String| 0,
        |p: &String| {
            *removed.borrow_mut() = p.clone();
            Ok(12)
        },
    );
    assert!(removed.borrow().starts_with("/a/.hakai_trash_"));
    match r {
        DeleteResult::Success { path, freed_bytes } => {
            assert_eq!(path, "/a/node_modules");
            assert_eq!(freed_bytes, 12);
        }
        _ => panic!("the removal succeeded"),
    }
    let r = delete_dir_instant(
        "/a/node_modules".to_string(),
        10,
        true,
        |_f: &String, _t: &String| panic!("a dry run must not rename"),
        |_p: &String| 0,
        |_p: &String| panic!("a dry run must not remove"),
    );
    assert!(matches!(r, DeleteResult::Success { freed_bytes: 10, .. }));
    let removed = RefCell::new(String::new());
    let _ = delete_dir_instant(
        "/a/node_modules".to_string(),
        10,
        false,
        |_f: &String, _t: &String| false,
        |_p: &String| 0,
        |p: &String| {
            *removed.borrow_mut() = p.clone();
            Ok(1)
        },
    );
    assert_eq!(removed.borrow().as_str(), "/a/node_modules");
}

#[test]
fn only_successful_deletions_count_as_freed() {
    let rs = vec![
        DeleteResult::Success { path: "a".to_string(), freed_bytes: 10 },
        DeleteResult::Error { path: "b".to_string(), message: "x".to_string(), freed_bytes: 99 },
        DeleteResult::Success { path: "c".to_string(), freed_bytes: 5 },
    ];
    assert_eq!(total_freed(&rs), 15);
    assert_eq!(total_freed(&vec![]), 0);
}

#[test]
fn sizes_sum_the_files_and_take_the_newest_time() {
    let entries = vec![
        EntryStat { is_file: true, len: 5, modified_ms: Some(100) },
        EntryStat { is_file: false, len: 4096, modified_ms: Some(900) },
        EntryStat { is_file: true, len: 6, modified_ms: None },
        EntryStat { is_file: true, len: 4, modified_ms: Some(300) },
    ];
    assert_eq!(calculate_size_and_mtime(&entries), (15, 300));
    assert_eq!(calculate_size(&entries), 15);
    assert_eq!(calculate_size_and_mtime(&vec![]), (0, 0));
    let big = vec![
        EntryStat { is_file: true, len: u64::MAX, modified_ms: None },
        EntryStat { is_file: true, len: 2, modified_ms: None },
    ];
    assert_eq!(calculate_size(&big), 1);
}

fn record(path: &str, size: u64, mtime: u64) -> hakai_core::headless::HeadlessResult {
    headless_result(
        path.to_string(),
        size,
        mtime,
        RiskResult { is_dead: false, risk_level: RiskLevel::Medium },
    )
}

#[test]
fn headless_records_name_the_risk_in_lower_case() {
    let r = headless_result(
        "/p".to_string(),
        1,
        2,
        RiskResult { is_dead: true, risk_level: RiskLevel::High },
    );
    assert_eq!(r.risk_level, "high");
    assert!(r.is_dead);
    assert_eq!(record("/q", 0, 0).risk_level, "medium");
}

#[test]
fn headless_sorts_are_stable() {
    let rs = vec![record("/b", 5, 1), record("/a", 9, 3), record("/c", 5, 2)];
    let by_size: Vec<String> = sort_results(rs, Some("size")).into_iter().map(|r| r.path).collect();
    assert_eq!(by_size, vec!["/a", "/b", "/c"]);
    let rs = vec![record("/b", 5, 1), record("/a", 9, 3), record("/c", 5, 2)];
    let by_time: Vec<String> = sort_results(rs, Some("last-mod")).into_iter().map(|r| r.path).collect();
    assert_eq!(by_time, vec!["/a", "/c", "/b"]);
    let rs = vec![record("/b", 5, 1), record("/a-b", 9, 3), record("/a/b", 5, 2)];
    let by_path: Vec<String> = sort_results(rs, None).into_iter().map(|r| r.path).collect();
    assert_eq!(by_path, vec!["/a-b", "/a/b", "/b"]);
}

#[test]
fn headless_report_counts_and_totals() {
    let mut run = HeadlessRun::new();
    run.record(record("/b", 5, 1));
    run.record(record("/a", 7, 1));
    run.complete(42);
    let rep = headless_report(run, "/root".to_string(), names(&["node_modules"]), Some("path"));
    assert_eq!(rep.version, "1.0.0");
    assert_eq!(rep.total_found, 2);
    assert_eq!(rep.dirs_scanned, 2);
    assert_eq!(rep.total_size_bytes, 12);
    assert_eq!(rep.duration_ms, 42);
    assert_eq!(rep.results[0].path, "/a");
    let items = deletion_items(&rep.results);
    assert_eq!(items, vec![("/a".to_string(), 7), ("/b".to_string(), 5)]);
}

#[test]
fn ipc_lines_are_trimmed_and_blank_ones_skipped() {
    assert_eq!(command_text("  {\"cmd\":\"StopScan\"} \n"), Some("{\"cmd\":\"StopScan\"}".to_string()));
    assert_eq!(command_text(" \t\n"), None);
    match invalid_command_event("bad json") {
        IpcEvent::Error { message } => assert_eq!(message, "Invalid command: bad json"),
        _ => panic!("an error event was expected"),
    }
}

#[test]
fn ipc_session_remembers_what_the_scan_found() {
    let mut s = IpcSession::new();
    s.stop_scan();
    assert!(s.cancelled);
    let opts = s.start_scan("/r".to_string(), names(&["node_modules"]), vec![], true, Some(3));
    assert!(!s.cancelled);
    assert_eq!(opts.max_depth, Some(3));
    let (e, done, job) = s.forward_scan_event(ScanEvent::Found { path: "/r/node_modules".to_string() });
    assert!(matches!(e, IpcEvent::ScanFound { .. }));
    assert!(!done);
    assert_eq!(job, Some("/r/node_modules".to_string()));
    let (e, done, job) = s.forward_scan_event(ScanEvent::Progress { dirs_scanned: 500, dirs_found: 1 });
    assert!(matches!(e, IpcEvent::ScanProgress { scanned: 500, found: 1 }));
    assert!(!done && job.is_none());
    let (e, done, _) = s.forward_scan_event(ScanEvent::Complete { total_found: 1, duration_ms: 9 });
    assert!(matches!(e, IpcEvent::ScanComplete { total_found: 1, duration_ms: 9 }));
    assert!(done);
    assert_eq!(s.delete_all_paths(), names(&["/r/node_modules"]));
    s.start_scan("/r".to_string(), vec![], vec![], false, None);
    assert!(s.delete_all_paths().is_empty());
}

#[test]
fn ipc_events_describe_deletions() {
    match deleting_event("/p".to_string()) {
        IpcEvent::DeleteProgress { path, status, freed_bytes } => {
            assert_eq!((path.as_str(), status.as_str(), freed_bytes), ("/p", "deleting", 0));
        }
        _ => panic!(),
    }
    let ok = DeleteResult::Success { path: "/p".to_string(), freed_bytes: 8 };
    match delete_event(&ok) {
        IpcEvent::DeleteProgress { status, freed_bytes, .. } => {
            assert_eq!((status.as_str(), freed_bytes), ("deleted", 8));
        }
        _ => panic!(),
    }
    let bad = DeleteResult::Error { path: "/q".to_string(), message: "busy".to_string(), freed_bytes: 3 };
    match delete_event(&bad) {
        IpcEvent::DeleteProgress { status, freed_bytes, .. } => {
            assert_eq!((status.as_str(), freed_bytes), ("error: busy", 0));
        }
        _ => panic!(),
    }
    let es = delete_events(&vec![ok, bad]);
    assert_eq!(es.len(), 3);
    assert!(matches!(es[2], IpcEvent::DeleteComplete { total_freed: 8 }));
    match risk_event("/p".to_string(), RiskResult { is_dead: true, risk_level: RiskLevel::Low }) {
        IpcEvent::ScanRisk { risk, is_dead, .. } => {
            assert_eq!(risk, "low");
            assert!(is_dead);
        }
        _ => panic!(),
    }
    assert!(matches!(size_event("/p".to_string(), 1, 2), IpcEvent::ScanSize { size_bytes: 1, newest_ms: 2, .. }));
}

#[test]
fn calculates_size_and_mtime_of_files() {
    let entries = vec![
        EntryStat { is_file: true, len: 5, modified_ms: Some(1_700_000_000_000) },
        EntryStat { is_file: true, len: 6, modified_ms: Some(1_700_000_000_500) },
        EntryStat { is_file: false, len: 4096, modified_ms: Some(1_700_000_000_900) },
        EntryStat { is_file: true, len: 4, modified_ms: Some(1_700_000_000_100) },
    ];
    let (size, mtime) = calculate_size_and_mtime(&entries);
    assert_eq!(size, 15);
    assert!(mtime > 0);
    assert_eq!(mtime, 1_700_000_000_500);
}

#[test]
fn size_only_wrapper_works() {
    let entries = vec![EntryStat { is_file: true, len: 5, modified_ms: None }];
    assert_eq!(calculate_size(&entries), 5);
}

#[test]
fn empty_dir_returns_zero() {
    let (size, mtime) = calculate_size_and_mtime(&vec![]);
    assert_eq!(size, 0);
    assert_eq!(mtime, 0);
}
