use hakai_core::cli::{is_confirmation, parse_u64_chars, pool_threads, sort_mode_from_name, split_lowered, split_size, SizeSpec};
use hakai_core::paths::{compare_paths, compare_strings, file_name, join_path, parent_path, paths_equal};
use hakai_core::tui::app::SortMode;

#[test]
fn sort_names_choose_the_order() {
    assert_eq!(sort_mode_from_name("size"), SortMode::Size);
    assert_eq!(sort_mode_from_name("last-mod"), SortMode::LastMod);
    assert_eq!(sort_mode_from_name("path"), SortMode::Path);
    assert_eq!(sort_mode_from_name("Size"), SortMode::Path);
    assert_eq!(sort_mode_from_name(""), SortMode::Path);
}

#[test]
fn unsigned_numbers_parse_as_u64_from_str_does() {
    let p = |s: &str| parse_u64_chars(&s.chars().collect());
    assert_eq!(p("0"), Some(0));
    assert_eq!(p("+42"), Some(42));
    assert_eq!(p("18446744073709551615"), Some(u64::MAX));
    assert_eq!(p("18446744073709551616"), None);
    assert_eq!(p(""), None);
    assert_eq!(p("+"), None);
    assert_eq!(p("-1"), None);
    assert_eq!(p("12a"), None);
    for s in ["7", "+7", "123456789", "99999999999999999999", " 1", "1 "] {
        assert_eq!(p(s), s.parse::<u64>().ok(), "{s}");
    }
}

#[test]
fn sizes_split_into_number_and_unit() {
    match split_size("  10MB ") {
        SizeSpec::Scaled { number, unit_bytes } => {
            assert_eq!(number, "10");
            assert_eq!(unit_bytes, 1_048_576);
        }
        SizeSpec::Plain(_) => panic!("a unit was given"),
    }
    match split_size("1.5 gb") {
        SizeSpec::Scaled { number, unit_bytes } => {
            assert_eq!(number, "1.5");
            assert_eq!(unit_bytes, 1_073_741_824);
        }
        SizeSpec::Plain(_) => panic!("a unit was given"),
    }
    match split_size("2kb") {
        SizeSpec::Scaled { number, unit_bytes } => {
            assert_eq!(number, "2");
            assert_eq!(unit_bytes, 1024);
        }
        SizeSpec::Plain(_) => panic!("a unit was given"),
    }
    assert!(matches!(split_size("4096"), SizeSpec::Plain(Some(4096))));
    assert!(matches!(split_size("lots"), SizeSpec::Plain(None)));
}

#[test]
fn only_a_y_confirms() {
    assert!(is_confirmation("y\n"));
    assert!(is_confirmation("  Y "));
    assert!(!is_confirmation("yes"));
    assert!(!is_confirmation(""));
    assert!(!is_confirmation("n"));
}

#[test]
fn paths_compare_by_component() {
    assert_eq!(compare_paths("/a/b", "/a/b"), 0);
    assert_eq!(compare_paths("/a/b/", "/a//b"), 0);
    assert_eq!(compare_paths("/a/b", "/a/c"), -1);
    assert_eq!(compare_paths("/a/b/c", "/a/b"), 1);
    // Component order differs from string order here: '-' sorts before '/'.
    assert_eq!(compare_paths("/a/b", "/a-b"), -1);
    assert_eq!(compare_strings("/a/b", "/a-b"), 1);
    assert!(paths_equal("./x/y", "./x/y/"));
    assert!(!paths_equal("x", "./x"));
}

#[test]
fn strings_compare_as_string_ord_does() {
    let words = ["", "a", "ab", "b", "B", "é", "a/b", "a-b", "z"];
    for x in words {
        for y in words {
            let expected = match x.cmp(y) {
                std::cmp::Ordering::Less => -1,
                std::cmp::Ordering::Equal => 0,
                std::cmp::Ordering::Greater => 1,
            };
            assert_eq!(compare_strings(x, y), expected, "{x} {y}");
        }
    }
}

#[test]
fn parents_and_names_follow_path_semantics() {
    assert_eq!(parent_path("/a/b/node_modules"), Some("/a/b".to_string()));
    assert_eq!(parent_path("/a/b/"), Some("/a".to_string()));
    assert_eq!(parent_path("node_modules"), Some("".to_string()));
    assert_eq!(parent_path("/"), None);
    assert_eq!(parent_path(""), None);
    assert_eq!(file_name("/a/b/node_modules"), Some("node_modules".to_string()));
    assert_eq!(file_name("/a/b/.."), None);
    assert_eq!(file_name("/"), None);
    assert_eq!(join_path("/a/b", "package.json"), "/a/b/package.json");
    assert_eq!(join_path("/a/b/", "c"), "/a/b/c");
    assert_eq!(join_path("", "c"), "c");
    for p in ["/a/b/c", "a/b", "/", "a", "a/.", "./a", "/a/b/..", "a//b//", ""] {
        let std_parent = std::path::Path::new(p).parent().map(|q| q.to_string_lossy().to_string());
        assert_eq!(parent_path(p), std_parent, "{p}");
        let std_name = std::path::Path::new(p).file_name().map(|q| q.to_string_lossy().to_string());
        assert_eq!(file_name(p), std_name, "{p}");
    }
}

#[test]
fn lower_case_sizes_split_without_further_change() {
    let t: Vec<char> = "10 mb".chars().collect();
    match split_lowered(&t) {
        SizeSpec::Scaled { number, unit_bytes } => {
            assert_eq!(number, "10");
            assert_eq!(unit_bytes, 1_048_576);
        }
        SizeSpec::Plain(_) => panic!("a unit was given"),
    }
    let t: Vec<char> = "10MB".chars().collect();
    assert!(matches!(split_lowered(&t), SizeSpec::Plain(None)));
    let t: Vec<char> = "512".chars().collect();
    assert!(matches!(split_lowered(&t), SizeSpec::Plain(Some(512))));
}

#[test]
fn the_command_line_thread_count_wins_unless_zero() {
    assert_eq!(pool_threads(Some(4), 8), Some(4));
    assert_eq!(pool_threads(Some(0), 8), None);
    assert_eq!(pool_threads(None, 8), Some(8));
    assert_eq!(pool_threads(None, 0), None);
}
