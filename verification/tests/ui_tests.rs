use hakai_core::risk::RiskLevel;
use hakai_core::tui::app::{AppMode, FolderStatus};
use hakai_core::tui::ui::{
    age_tone_at, centered_popup, first_shown_error, fit_error_line, meta_text, mode_badge, page_indicator,
    path_room, path_tone, prefix_width, progress_bar, risk_mark, row_prefix, search_popup, spinner_char_at,
    status_mark, truncate_path, truncation_cuts, visible_rows, AgeTone, PathTone, RiskMark, RowPrefix,
    StatusMark,
};

#[test]
fn the_spinner_turns_every_eighty_ms() {
    assert_eq!(spinner_char_at(0), '\u{280b}');
    assert_eq!(spinner_char_at(79), '\u{280b}');
    assert_eq!(spinner_char_at(80), '\u{2819}');
    assert_eq!(spinner_char_at(800), '\u{280b}');
    assert_eq!(spinner_char_at(9 * 80), '\u{280f}');
}

#[test]
fn ages_shade_paths() {
    let day = 86_400_000u64;
    assert_eq!(age_tone_at(0, 5), AgeTone::Unknown);
    assert_eq!(age_tone_at(1, 400 * day), AgeTone::Old);
    assert_eq!(age_tone_at(1, 200 * day), AgeTone::Aging);
    assert_eq!(age_tone_at(1, 181 * day), AgeTone::Fresh);
    assert_eq!(age_tone_at(10 * day, day), AgeTone::Fresh);
}

#[test]
fn rows_carry_their_marks() {
    assert_eq!(row_prefix(AppMode::MultiSelect, true, false), RowPrefix::Checked);
    assert_eq!(row_prefix(AppMode::RangeSelect, false, true), RowPrefix::Unchecked);
    assert_eq!(row_prefix(AppMode::Normal, true, true), RowPrefix::Cursor);
    assert_eq!(row_prefix(AppMode::Search, false, false), RowPrefix::Blank);
    assert_eq!(prefix_width(AppMode::MultiSelect), 6);
    assert_eq!(prefix_width(AppMode::Normal), 4);
    assert_eq!(status_mark(true, FolderStatus::Deleted), (StatusMark::PendingDelete, 18));
    assert_eq!(status_mark(false, FolderStatus::Deleted), (StatusMark::Deleted, 10));
    assert_eq!(status_mark(false, FolderStatus::Deleting), (StatusMark::Deleting, 14));
    assert_eq!(status_mark(false, FolderStatus::Error), (StatusMark::Failed, 15));
    assert_eq!(status_mark(false, FolderStatus::Found), (StatusMark::Nothing, 0));
    assert_eq!(risk_mark(true, RiskLevel::Low), (RiskMark::Dead, 2));
    assert_eq!(risk_mark(false, RiskLevel::High), (RiskMark::High, 2));
    assert_eq!(risk_mark(false, RiskLevel::Medium), (RiskMark::Medium, 2));
    assert_eq!(risk_mark(false, RiskLevel::Low), (RiskMark::Nothing, 0));
    assert_eq!(path_tone(FolderStatus::Deleted, true), PathTone::Dimmed);
    assert_eq!(path_tone(FolderStatus::Error, false), PathTone::Failed);
    assert_eq!(path_tone(FolderStatus::Found, true), PathTone::Highlighted);
    assert_eq!(path_tone(FolderStatus::Deleting, false), PathTone::ByAge);
}

#[test]
fn the_path_gets_what_the_row_leaves() {
    assert_eq!(path_room(80, 4, 26, 10, 2), 38);
    assert_eq!(path_room(20, 4, 26, 10, 2), 0);
    assert_eq!(meta_text("2m ago", "1.5 MB"), "      2m ago      1.5 MB");
    assert_eq!(meta_text("a very long age", "x"), "  a very long age           x");
}

#[test]
fn long_paths_are_cut_in_the_middle() {
    assert_eq!(truncation_cuts(20, 30), None);
    assert_eq!(truncation_cuts(20, 9), None);
    assert_eq!(truncation_cuts(30, 13), Some((5, 25)));
    assert_eq!(truncate_path("/home/user/projects/node_modules", 13), "/home...dules");
    assert_eq!(truncate_path("/short", 40), "/short");
    assert_eq!(truncate_path("/home/user/projects/node_modules", 5), "/home/user/projects/node_modules");
    assert_eq!(fit_error_line("permission denied here", 10), "permiss...");
    assert_eq!(fit_error_line("short", 10), "short");
}

#[test]
fn the_scan_bar_sweeps() {
    assert_eq!(progress_bar(30, 0), "");
    assert_eq!(progress_bar(36, 0), "\u{2591}".repeat(6));
    assert_eq!(progress_bar(36, 400), "\u{2588}\u{2588}\u{2593}\u{2593}\u{2591}\u{2591}");
    assert_eq!(progress_bar(36, 600), "\u{2591}".repeat(6));
    assert_eq!(progress_bar(31, 12345), "\u{2591}");
}

#[test]
fn popups_are_centred() {
    assert_eq!(centered_popup(100, 40, 70, 15), (15, 12, 70, 15));
    assert_eq!(centered_popup(50, 10, 70, 15), (2, 2, 46, 6));
    assert_eq!(centered_popup(2, 2, 56, 20), (1, 1, 0, 0));
    assert_eq!(search_popup(100, 40), (20, 36, 60, 3));
    assert_eq!(search_popup(30, 3), (2, 0, 26, 3));
    assert_eq!(first_shown_error(20, 15), 8);
    assert_eq!(first_shown_error(5, 15), 0);
    assert_eq!(visible_rows(3, 10, 8), (3, 8));
    assert_eq!(visible_rows(0, 5, 8), (0, 5));
}

#[test]
fn header_and_counter_texts() {
    assert_eq!(mode_badge(AppMode::MultiSelect), " [MULTI-SELECT] ");
    assert_eq!(mode_badge(AppMode::Deleting), " [DELETING...] ");
    assert_eq!(mode_badge(AppMode::Normal), "");
    assert_eq!(page_indicator(0, 12), "[1/12]");
    assert_eq!(page_indicator(41, 42), "[42/42]");
}
