use std::time::{SystemTime, UNIX_EPOCH};

use zls::entry::{name_class, FileInfo, NameClass};
use zls::listing::{arrange_by_keys, arrange_entries, ListingConfig};
use zls::render::{layout_detail, layout_grid, render_listing, style_name};
use zls::size::format_size;
use zls::target::{check_target, TargetError};
use zls::time::{format_time, Timestamp};

fn now() -> Option<Timestamp> {
    let d = SystemTime::now().duration_since(UNIX_EPOCH).unwrap();
    Some(Timestamp { secs: d.as_secs(), nanos: d.subsec_nanos() })
}

fn at(secs: u64) -> Option<Timestamp> {
    Some(Timestamp { secs, nanos: 0 })
}

fn file(name: &str) -> FileInfo {
    FileInfo::new(name.to_string(), false, 0, None)
}

fn config(all: bool, short: bool, time: bool) -> ListingConfig {
    ListingConfig { all, short, time, human: true, bytes: false }
}

fn names(entries: &[FileInfo]) -> Vec<String> {
    entries.iter().map(|e| e.name.clone()).collect()
}

/// The scaled size as the float computation gives it.
fn float_size(size: u64) -> String {
    let units = ["B", "K", "M", "G", "T"];
    let mut value = size as f64;
    let mut index = 0;
    while value >= 1024.0 && index < units.len() - 1 {
        value /= 1024.0;
        index += 1;
    }
    if index == 0 {
        format!("{:.0}{}", value, units[index])
    } else {
        format!("{:.1}{}", value, units[index])
    }
}

#[test]
fn test_format_size_bytes() {
    assert_eq!(format_size(0, false), "0");
    assert_eq!(format_size(512, false), "512");
    assert_eq!(format_size(1023, false), "1023");
}

#[test]
fn test_format_size_human_readable() {
    assert_eq!(format_size(0, true), "0B");
    assert_eq!(format_size(512, true), "512B");
    assert_eq!(format_size(1024, true), "1.0K");
    assert_eq!(format_size(1536, true), "1.5K");
    assert_eq!(format_size(1048576, true), "1.0M");
    assert_eq!(format_size(1073741824, true), "1.0G");
    assert_eq!(format_size(1099511627776, true), "1.0T");
}

#[test]
fn test_format_time_none() {
    assert_eq!(format_time(None), "???");
}

#[test]
fn test_format_time_some() {
    let formatted = format_time(at(1640995200));
    assert!(formatted.len() > 5);
    assert!(formatted.contains(':'));
}

#[test]
fn test_file_info_hidden_detection() {
    let file_info = FileInfo::new(".hidden_file".to_string(), false, 0, None);
    assert!(file_info.is_hidden);
    assert_eq!(file_info.name, ".hidden_file");
}

#[test]
fn test_file_info_regular_file() {
    let file_info = FileInfo::new("regular_file.txt".to_string(), false, 1024, now());
    assert!(!file_info.is_hidden);
    assert!(!file_info.is_dir);
    assert_eq!(file_info.size, 1024);
}

#[test]
fn test_file_info_directory() {
    let file_info = FileInfo::new("directory".to_string(), true, 4096, now());
    assert!(!file_info.is_hidden);
    assert!(file_info.is_dir);
}

#[test]
fn test_format_size_edge_cases() {
    assert_eq!(format_size(1023, true), "1023B");
    assert_eq!(format_size(1025, true), "1.0K");
    assert_eq!(format_size(1048575, true), "1024.0K");
    assert_eq!(format_size(1048577, true), "1.0M");
}

#[test]
fn format_size_raw_is_decimal_digits() {
    assert_eq!(format_size(7, false), "7");
    assert_eq!(format_size(10, false), "10");
    assert_eq!(format_size(1048576, false), "1048576");
    assert_eq!(format_size(u64::MAX, false), "18446744073709551615");
}

#[test]
fn format_size_scaled_exact_values() {
    assert_eq!(format_size(1023 * 1024 + 900, true), "1023.9K");
    assert_eq!(format_size(5 * 1073741824 / 2, true), "2.5G");
    assert_eq!(format_size(1125899906842624, true), "1024.0T");
    assert_eq!(format_size(u64::MAX, true), "16777216.0T");
}

#[test]
fn format_size_agrees_with_float_formatting() {
    let mut samples: Vec<u64> = (0..6000).collect();
    for shift in 0..64 {
        let p = 1u64 << shift;
        samples.extend([p - 1, p, p + 1, p + p / 2, p / 4 * 5, p / 8 * 9]);
    }
    samples.extend([1280, 3328, 1048576 + 52428, 9007199254740993, 18014398509481985]);
    samples.extend([u64::MAX, u64::MAX - 1024, 123456789012345678]);
    for n in samples {
        assert_eq!(format_size(n, true), float_size(n), "size {}", n);
    }
}

#[test]
fn format_time_renders_utc_calendar() {
    assert_eq!(format_time(at(1640995200)), "Jan 01 00:00");
    assert_eq!(format_time(Some(Timestamp { secs: 1700000000, nanos: 999 })), "Nov 14 22:13");
    assert_eq!(format_time(at(0)), "Jan 01 00:00");
}

#[test]
fn name_classes() {
    let dir = FileInfo::new("main.rs".to_string(), true, 0, None);
    assert_eq!(name_class(&dir), NameClass::Directory);
    assert_eq!(name_class(&file("main.rs")), NameClass::Source);
    assert_eq!(name_class(&file(".rs")), NameClass::Source);
    assert_eq!(name_class(&file(".hidden")), NameClass::Hidden);
    assert_eq!(name_class(&file("notes.txt")), NameClass::Plain);
    assert_eq!(name_class(&file("rs")), NameClass::Plain);
}

#[test]
fn listing_hides_and_orders_by_lowercase_name() {
    let entries = vec![file("b.txt"), file("A.txt"), file(".hidden")];
    let shown = arrange_entries(entries, &config(false, false, false));
    assert_eq!(names(&shown), vec!["A.txt", "b.txt"]);

    let entries = vec![file("b.txt"), file("A.txt"), file(".hidden")];
    let shown = arrange_entries(entries, &config(true, false, false));
    assert_eq!(names(&shown), vec![".hidden", "A.txt", "b.txt"]);
}

#[test]
fn listing_compares_lower_cased_names() {
    let entries = vec![file("a"), file("B"), file("c")];
    let shown = arrange_entries(entries, &config(false, false, false));
    assert_eq!(names(&shown), vec!["a", "B", "c"]);
}

#[test]
fn listing_keeps_order_of_equal_names() {
    let entries = vec![
        FileInfo::new("README".to_string(), false, 1, None),
        FileInfo::new("readme".to_string(), false, 2, None),
        FileInfo::new("Readme".to_string(), false, 3, None),
    ];
    let shown = arrange_entries(entries, &config(false, false, false));
    let sizes: Vec<u64> = shown.iter().map(|e| e.size).collect();
    assert_eq!(sizes, vec![1, 2, 3]);
}

#[test]
fn listing_by_time_latest_first_missing_last() {
    let entries = vec![
        FileInfo::new("a".to_string(), false, 0, None),
        FileInfo::new("b".to_string(), false, 0, at(100)),
        FileInfo::new("c".to_string(), false, 0, Some(Timestamp { secs: 100, nanos: 5 })),
        FileInfo::new("d".to_string(), false, 0, at(0)),
        FileInfo::new("e".to_string(), false, 0, None),
        FileInfo::new("f".to_string(), false, 0, at(300)),
    ];
    let shown = arrange_entries(entries, &config(false, false, true));
    assert_eq!(names(&shown), vec!["f", "c", "b", "d", "a", "e"]);
}

#[test]
fn listing_of_nothing_is_empty() {
    let shown = arrange_entries(Vec::new(), &config(true, false, true));
    assert!(shown.is_empty());
    let hidden_only = arrange_entries(vec![file(".a"), file(".b")], &config(false, false, false));
    assert!(hidden_only.is_empty());
}

#[test]
fn target_checks() {
    assert_eq!(check_target(false, false), Err(TargetError::PathNotFound));
    assert_eq!(check_target(false, true), Err(TargetError::PathNotFound));
    assert_eq!(check_target(true, false), Err(TargetError::NotADirectory));
    assert_eq!(check_target(true, true), Ok(()));
}

#[test]
fn target_messages() {
    assert_eq!(
        TargetError::PathNotFound.message("/nonexistent/directory"),
        "Error: Path '/nonexistent/directory' does not exist"
    );
    assert_eq!(TargetError::NotADirectory.message("a.txt"), "Error: 'a.txt' is not a directory");
}

#[test]
fn detail_lines() {
    let entries = vec![
        FileInfo::new("src".to_string(), true, 4096, at(1640995200)),
        FileInfo::new("notes".to_string(), false, 123456789, None),
    ];
    let styled = names(&entries);
    assert_eq!(
        layout_detail(&entries, &styled, true),
        "d     4.0K Jan 01 00:00 src\n-   117.7M ??? notes\n"
    );
    assert_eq!(
        layout_detail(&entries, &styled, false),
        "d     4096 Jan 01 00:00 src\n- 123456789 ??? notes\n"
    );
    assert_eq!(layout_detail(&Vec::new(), &Vec::new(), true), "");
}

#[test]
fn grid_wraps_at_terminal_width() {
    let entries = vec![file("aaaa"), file("bb"), file("cccccc"), file("d")];
    let styled = names(&entries);
    assert_eq!(layout_grid(&entries, &styled, 80), "aaaa  bb  cccccc  d  \n");
    assert_eq!(layout_grid(&entries, &styled, 10), "aaaa  bb  \ncccccc  \nd  \n");
    assert_eq!(layout_grid(&Vec::new(), &Vec::new(), 10), "");
}

#[test]
fn grid_places_an_entry_wider_than_the_terminal() {
    let entries = vec![file("a_very_long_name"), file("another_long_one")];
    let styled = names(&entries);
    assert_eq!(layout_grid(&entries, &styled, 4), "a_very_long_name  \nanother_long_one  \n");
    assert_eq!(layout_grid(&entries, &styled, 0), "a_very_long_name  \nanother_long_one  \n");
}

#[test]
fn grid_counts_directory_slash() {
    let entries = vec![FileInfo::new("src".to_string(), true, 0, None), file("x")];
    let styled = vec!["src/".to_string(), "x".to_string()];
    assert_eq!(layout_grid(&entries, &styled, 8), "src/  \nx  \n");
    assert_eq!(layout_grid(&entries, &styled, 9), "src/  x  \n");
}

#[test]
fn styled_names() {
    let plain = file("notes.txt");
    assert_eq!(style_name(&plain, true), "notes.txt");
    let dir = FileInfo::new("src".to_string(), true, 0, None);
    assert!(style_name(&dir, true).contains("src/"));
    assert!(!style_name(&dir, false).contains("src/"));
    assert!(style_name(&file("main.rs"), false).contains("main.rs"));
}

#[test]
fn rendering_is_repeatable() {
    let make = || {
        vec![
            FileInfo::new("src".to_string(), true, 4096, at(1640995200)),
            file("main.rs"),
            file(".hidden"),
            file("notes"),
        ]
    };
    for short in [false, true] {
        let c = config(true, short, false);
        let first = render_listing(&make(), &c, 20);
        let second = render_listing(&make(), &c, 20);
        assert_eq!(first, second);
        assert!(first.contains("notes"));
    }
}

#[test]
fn rendering_plain_names_in_detail() {
    let entries = vec![FileInfo::new("notes".to_string(), false, 2048, None)];
    let c = ListingConfig { all: false, short: false, time: false, human: true, bytes: true };
    assert_eq!(render_listing(&entries, &c, 80), "-     2048 ??? notes\n");
    let c = ListingConfig { all: false, short: false, time: false, human: true, bytes: false };
    assert_eq!(render_listing(&entries, &c, 80), "-     2.0K ??? notes\n");
}

#[test]
fn listing_matches_stable_sort_on_many_entries() {
    let mut state: u64 = 12345;
    let mut next = || {
        state = state.wrapping_mul(6364136223846793005).wrapping_add(1442695040888963407);
        state >> 33
    };
    let letters = ['a', 'B', 'c', 'D', '.', 'é', 'Z', '_'];
    let mut entries = Vec::new();
    for i in 0..300u64 {
        let len = 1 + (next() % 3) as usize;
        let name: String = (0..len).map(|_| letters[(next() % 8) as usize]).collect();
        let modified = if next() % 5 == 0 { None } else { at(next() % 50) };
        entries.push(FileInfo::new(name, false, i, modified));
    }
    let mut by_name: Vec<(String, bool, u64)> =
        entries.iter().map(|e| (e.name.clone(), e.is_hidden, e.size)).collect();
    by_name.retain(|e| !e.1);
    by_name.sort_by(|a, b| a.0.to_lowercase().cmp(&b.0.to_lowercase()));
    let mut by_time: Vec<(Option<Timestamp>, u64)> = entries.iter().map(|e| (e.modified, e.size)).collect();
    by_time.sort_by(|a, b| {
        let rank = |t: &Option<Timestamp>| t.map(|t| (t.secs as i128) << 32 | t.nanos as i128).unwrap_or(-1);
        rank(&b.0).cmp(&rank(&a.0))
    });

    let copy = |entries: &Vec<FileInfo>| -> Vec<FileInfo> {
        entries.iter().map(|e| FileInfo::new(e.name.clone(), e.is_dir, e.size, e.modified)).collect()
    };
    let shown = arrange_entries(copy(&entries), &config(false, false, false));
    let sizes: Vec<u64> = shown.iter().map(|e| e.size).collect();
    assert_eq!(sizes, by_name.iter().map(|e| e.2).collect::<Vec<u64>>());

    let shown = arrange_entries(copy(&entries), &config(true, false, true));
    let sizes: Vec<u64> = shown.iter().map(|e| e.size).collect();
    assert_eq!(sizes, by_time.iter().map(|e| e.1).collect::<Vec<u64>>());
}

/// The text with terminal escape sequences taken out.
fn visible(text: &str) -> String {
    let mut out = String::new();
    let mut chars = text.chars();
    while let Some(c) = chars.next() {
        if c == '\u{1b}' {
            for d in chars.by_ref() {
                if d.is_ascii_alphabetic() {
                    break;
                }
            }
        } else {
            out.push(c);
        }
    }
    out
}

#[test]
fn styled_names_show_their_labels() {
    let dir = FileInfo::new("subdir".to_string(), true, 0, None);
    assert_eq!(visible(&style_name(&dir, true)), "subdir/");
    assert_eq!(visible(&style_name(&dir, false)), "subdir");
    assert_eq!(visible(&style_name(&file("main.rs"), true)), "main.rs");
    assert_eq!(visible(&style_name(&file(".hidden"), false)), ".hidden");
    assert_eq!(style_name(&file("notes"), false), "notes");
}

#[test]
fn grid_cells_end_with_two_spaces() {
    let entries = vec![
        FileInfo::new("subdir".to_string(), true, 0, None),
        file("main.rs"),
        file(".hidden"),
        file("é"),
    ];
    let c = config(true, true, false);
    let text = render_listing(&entries, &c, 80);
    assert_eq!(visible(&text), "subdir/  main.rs  .hidden  é  \n");
    let narrow = render_listing(&entries, &c, 13);
    assert_eq!(visible(&narrow), "subdir/  \nmain.rs  \n.hidden  é  \n");
}

#[test]
fn detail_listing_shows_every_entry() {
    let entries = vec![
        FileInfo::new("file1.txt".to_string(), false, 7, None),
        FileInfo::new("subdir".to_string(), true, 4096, None),
    ];
    let c = config(false, false, false);
    let text = visible(&render_listing(&entries, &c, 80));
    let lines: Vec<&str> = text.lines().collect();
    assert_eq!(lines, vec!["-       7B ??? file1.txt", "d     4.0K ??? subdir"]);
}

#[test]
fn format_time_has_fixed_shape() {
    for secs in [0u64, 59, 86399, 1640995200, 4102444800] {
        let t = format_time(at(secs));
        assert_eq!(t.chars().count(), 12);
        assert_eq!(t.chars().nth(3), Some(' '));
        assert_eq!(t.chars().nth(6), Some(' '));
        assert_eq!(t.chars().nth(9), Some(':'));
    }
}

fn keys_of(names: &[&str]) -> Vec<Vec<char>> {
    names.iter().map(|n| n.chars().collect()).collect()
}

#[test]
fn listing_by_given_keys() {
    let entries = vec![file("b.txt"), file("A.txt"), file(".hidden")];
    let keys = keys_of(&["b.txt", "a.txt", ".hidden"]);
    let shown = arrange_by_keys(entries, keys, &config(false, false, false));
    assert_eq!(names(&shown), vec!["A.txt", "b.txt"]);

    let entries = vec![file("b.txt"), file("A.txt"), file(".hidden")];
    let keys = keys_of(&["b.txt", "a.txt", ".hidden"]);
    let shown = arrange_by_keys(entries, keys, &config(true, false, false));
    assert_eq!(names(&shown), vec![".hidden", "A.txt", "b.txt"]);

    let entries = vec![file("x"), file("y"), file("z")];
    let keys = keys_of(&["2", "3", "1"]);
    let shown = arrange_by_keys(entries, keys, &config(false, false, false));
    assert_eq!(names(&shown), vec!["z", "x", "y"]);
}

#[test]
fn listing_by_time_ignores_keys() {
    let entries = vec![
        FileInfo::new("a".to_string(), false, 0, at(1)),
        FileInfo::new("b".to_string(), false, 0, at(2)),
    ];
    let shown = arrange_by_keys(entries, keys_of(&["a", "b"]), &config(false, false, true));
    assert_eq!(names(&shown), vec!["b", "a"]);
}

/// The two forms a painted label takes, colors on and off.
fn painted_forms(label: &str, class: NameClass) -> [String; 2] {
    let forms = |on: bool| match class {
        NameClass::Directory => {
            format!("\u{1b}[{}m\u{1b}[1m{}\u{1b}[0m", if on { "38;5;12" } else { "" }, label)
        }
        NameClass::Source => format!(
            "\u{1b}[{}m{}\u{1b}[{}m",
            if on { "38;5;11" } else { "" },
            label,
            if on { "39" } else { "" }
        ),
        NameClass::Hidden => format!(
            "\u{1b}[{}m{}\u{1b}[{}m",
            if on { "38;5;8" } else { "" },
            label,
            if on { "39" } else { "" }
        ),
        NameClass::Plain => label.to_string(),
    };
    [forms(true), forms(false)]
}

#[test]
fn each_class_gets_its_style() {
    let dir = FileInfo::new("subdir".to_string(), true, 0, None);
    assert!(painted_forms("subdir/", NameClass::Directory).contains(&style_name(&dir, true)));
    assert!(painted_forms("subdir", NameClass::Directory).contains(&style_name(&dir, false)));
    assert!(painted_forms("main.rs", NameClass::Source).contains(&style_name(&file("main.rs"), true)));
    assert!(painted_forms(".hidden", NameClass::Hidden).contains(&style_name(&file(".hidden"), true)));
    assert_eq!(style_name(&file("notes"), true), "notes");
}
