use std::path::{Component, Path, MAIN_SEPARATOR};
use velo::app_state::{AppState, SortColumn};
use velo::clock::{
    format_minute, format_time, is_datable, EARLIEST_SECOND, LATEST_SECOND,
};
use velo::columns::{sort_changed, sort_column_from_int, sort_column_to_int};
use velo::fs::entry::FileEntry;
use velo::path::{DirPath, PathComponent};
use velo::rows::{entry_to_row, icon_for_entry, row_with_time, to_rows, to_rows_from};
use velo::size::format_size;

const SECOND: i128 = 1_000_000_000;

fn dir_path(text: &str) -> DirPath {
    let components = Path::new(text)
        .components()
        .map(|c| match c {
            Component::RootDir => PathComponent::RootDir,
            Component::Normal(n) => PathComponent::Normal(n.as_encoded_bytes().to_vec()),
            _ => PathComponent::CurDir,
        })
        .collect();
    DirPath { separator: MAIN_SEPARATOR, text: text.to_string(), components }
}

fn file(name: &str, size: u64) -> FileEntry {
    FileEntry {
        name: name.to_string(),
        path: dir_path(name),
        is_dir: false,
        size,
        modified: None,
    }
}

#[test]
fn format_size_bytes_no_unit_scaling() {
    assert_eq!(format_size(0), "0 B");
    assert_eq!(format_size(1), "1 B");
    assert_eq!(format_size(999), "999 B");
    assert_eq!(format_size(1023), "1023 B");
}

#[test]
fn format_size_kilobytes() {
    assert_eq!(format_size(1024), "1.0 KB");
    assert_eq!(format_size(1536), "1.5 KB");
}

#[test]
fn format_size_megabytes() {
    assert_eq!(format_size(1024 * 1024), "1.0 MB");
    assert_eq!(format_size(1024 * 1024 * 3 / 2), "1.5 MB");
}

#[test]
fn format_size_gigabytes_and_terabytes() {
    assert_eq!(format_size(1024u64.pow(3)), "1.0 GB");
    assert_eq!(format_size(1024u64.pow(4)), "1.0 TB");
}

#[test]
fn format_size_caps_at_terabytes() {
    assert_eq!(format_size(1024u64.pow(5)), "1024.0 TB");
}

#[test]
fn format_time_none_is_dash() {
    assert_eq!(format_time(None), "-");
}

#[test]
fn format_time_some_has_expected_shape() {
    let formatted = format_time(Some(0));
    let bytes = formatted.as_bytes();
    assert_eq!(formatted.len(), 16);
    assert_eq!(bytes[4], b'-');
    assert_eq!(bytes[7], b'-');
    assert_eq!(bytes[10], b' ');
    assert_eq!(bytes[13], b':');
    assert!(formatted[..4].bytes().all(|b| b.is_ascii_digit()));
}

#[test]
fn sort_column_int_round_trips() {
    for column in [SortColumn::Name, SortColumn::Size, SortColumn::Modified] {
        assert_eq!(sort_column_from_int(sort_column_to_int(column)), column);
    }
    assert_eq!(sort_column_from_int(999), SortColumn::Name);
}

fn float_size(bytes: u64) -> String {
    let units = ["B", "KB", "MB", "GB", "TB"];
    if bytes < 1024 {
        return format!("{bytes} B");
    }
    let mut size = bytes as f64;
    let mut unit = 0;
    while size >= 1024.0 && unit < units.len() - 1 {
        size /= 1024.0;
        unit += 1;
    }
    format!("{size:.1} {}", units[unit])
}

#[test]
fn sizes_agree_with_floating_point() {
    for bytes in 0..20_000u64 {
        assert_eq!(format_size(bytes), float_size(bytes));
    }
    for shift in 10..64 {
        let power = 1u64 << shift;
        for delta in 0..600u64 {
            let scaled = delta << (shift / 3);
            for bytes in [
                power.wrapping_add(delta),
                power.wrapping_sub(delta),
                power.wrapping_add(scaled),
                power.wrapping_sub(scaled),
                power / 20 * (20 + delta % 20),
            ] {
                assert_eq!(format_size(bytes), float_size(bytes), "{bytes}");
            }
        }
    }
    let mut x: u64 = 88172645463325252;
    for _ in 0..200_000 {
        x ^= x << 13;
        x ^= x >> 7;
        x ^= x << 17;
        for bytes in [x, x >> 11, x >> 24, x >> 40] {
            assert_eq!(format_size(bytes), float_size(bytes), "{bytes}");
        }
    }
}

#[test]
fn size_ties_go_to_the_even_tenth() {
    assert_eq!(format_size(1280), "1.2 KB");
    assert_eq!(format_size(1792), "1.8 KB");
    assert_eq!(format_size(1024 * 1024 - 1), "1024.0 KB");
    assert_eq!(format_size(u64::MAX), "16777216.0 TB");
}

#[test]
fn whole_units_show_no_fraction() {
    assert_eq!(format_size(7 * 1024), "7.0 KB");
    assert_eq!(format_size(1023 * 1024 * 1024), "1023.0 MB");
    assert_eq!(format_size(12_345 << 40), "12345.0 TB");
}

#[test]
fn minutes_are_shown_in_the_given_zone() {
    assert_eq!(format_minute(0, 0), "1970-01-01 00:00");
    assert_eq!(format_minute(0, 9 * 3600), "1970-01-01 09:00");
    assert_eq!(format_minute(0, -60), "1969-12-31 23:59");
    assert_eq!(format_minute(1_431_648_000 * SECOND, 0), "2015-05-15 00:00");
    assert_eq!(format_minute(951_782_400 * SECOND, 0), "2000-02-29 00:00");
    assert_eq!(format_minute(951_868_799 * SECOND, 0), "2000-02-29 23:59");
    assert_eq!(format_minute(951_868_800 * SECOND, 0), "2000-03-01 00:00");
    assert_eq!(format_minute(4_107_542_400 * SECOND, 0), "2100-03-01 00:00");
    assert_eq!(format_minute(4_107_542_399 * SECOND, 0), "2100-02-28 23:59");
}

#[test]
fn time_before_the_epoch_is_rounded_down() {
    assert_eq!(format_minute(-1, 0), "1969-12-31 23:59");
    assert_eq!(format_minute(-60 * SECOND, 0), "1969-12-31 23:59");
    assert_eq!(format_minute(-60 * SECOND - 1, 0), "1969-12-31 23:58");
}

#[test]
fn years_outside_four_digits_have_a_sign() {
    assert_eq!(format_minute(253_402_300_799 * SECOND, 0), "9999-12-31 23:59");
    assert_eq!(format_minute(253_402_300_800 * SECOND, 0), "+10000-01-01 00:00");
    assert_eq!(format_minute(-62_167_219_200 * SECOND, 0), "0000-01-01 00:00");
    assert_eq!(format_minute(-62_167_219_201 * SECOND, 0), "-0001-12-31 23:59");
}

#[test]
fn first_and_last_datable_seconds() {
    let first = EARLIEST_SECOND as i128 * SECOND;
    let last = LATEST_SECOND as i128 * SECOND + SECOND - 1;
    assert!(is_datable(first));
    assert!(!is_datable(first - 1));
    assert!(is_datable(last));
    assert!(!is_datable(last + 1));
    assert!(!is_datable(i128::MIN));
    assert!(!is_datable(i128::MAX));
    assert_eq!(format_minute(first, 0), "-262143-01-01 00:00");
    assert_eq!(format_minute(first, -60), "-262144-12-31 23:59");
    assert_eq!(format_minute(last, 0), "+262142-12-31 23:59");
    assert_eq!(format_minute(last, 60), "+262143-01-01 00:00");
}

#[test]
fn local_time_is_the_time_in_some_zone() {
    let now = 1_700_000_000 * SECOND;
    let shown = format_time(Some(now));
    assert!((-86_399..86_400).any(|offset| format_minute(now, offset) == shown));
}

#[test]
fn clicks_on_the_header_order_the_list() {
    let mut state: AppState<()> = AppState::default();
    assert_eq!(sort_changed(&mut state, 0), (0, false));
    assert_eq!(sort_changed(&mut state, 0), (0, true));
    assert_eq!(sort_changed(&mut state, 1), (1, true));
    assert_eq!(sort_changed(&mut state, 1), (1, false));
    assert_eq!(sort_changed(&mut state, 2), (2, true));
    assert_eq!(state.sort_column, SortColumn::Modified);
    assert_eq!(sort_changed(&mut state, -3), (0, true));
    assert_eq!(state.sort_column, SortColumn::Name);
}

#[test]
fn icons_go_by_the_extension() {
    for (name, icon) in [
        ("main.rs", "🦀"),
        ("MAIN.RS", "🦀"),
        ("Cargo.toml", "⚙"),
        ("a.json", "⚙"),
        ("a.yaml", "⚙"),
        ("a.yml", "⚙"),
        ("a.png", "🖼"),
        ("a.jpg", "🖼"),
        ("a.jpeg", "🖼"),
        ("a.gif", "🖼"),
        ("a.svg", "🖼"),
        ("a.webp", "🖼"),
        ("a.bmp", "🖼"),
        ("a.mp4", "🎬"),
        ("a.mov", "🎬"),
        ("a.avi", "🎬"),
        ("a.mkv", "🎬"),
        ("a.webm", "🎬"),
        ("a.mp3", "🎵"),
        ("a.flac", "🎵"),
        ("a.wav", "🎵"),
        ("a.ogg", "🎵"),
        ("a.m4a", "🎵"),
        ("a.zip", "📦"),
        ("a.tar", "📦"),
        ("a.tar.gz", "📦"),
        ("a.7z", "📦"),
        ("a.rar", "📦"),
        ("a.pdf", "📑"),
        ("a.md", "📝"),
        ("a.Txt", "📝"),
        ("a.exe", "🖥"),
        ("a.msi", "🖥"),
        ("a.bin", "📄"),
        ("a.", "📄"),
        ("rs", "📄"),
        (".rs", "📄"),
        ("a.rsx", "📄"),
        ("a.ｒｓ", "📄"),
    ] {
        assert_eq!(icon_for_entry(&file(name, 0)), icon, "{name}");
    }
    let mut dir = file("src.rs", 0);
    dir.is_dir = true;
    assert_eq!(icon_for_entry(&dir), "📁");
    let mut raw = file("x", 0);
    raw.path = DirPath {
        separator: '/',
        text: "\u{fffd}.PdF".to_string(),
        components: vec![PathComponent::Normal(vec![0xff, b'.', b'P', b'd', b'F'])],
    };
    assert_eq!(icon_for_entry(&raw), "📑");
    raw.path = dir_path("/");
    assert_eq!(icon_for_entry(&raw), "📄");
}

#[test]
fn rows_show_their_entries() {
    let row = row_with_time(&file("notes.md", 2048), "some time".to_string());
    assert_eq!(row.type_label, "📝");
    assert_eq!(row.name, "notes.md");
    assert_eq!(row.size, "2.0 KB");
    assert_eq!(row.modified, "some time");
    assert!(!row.is_dir);

    let mut dir = file("docs", 4096);
    dir.is_dir = true;
    let row = entry_to_row(&dir);
    assert_eq!(row.type_label, "📁");
    assert_eq!(row.size, "-");
    assert_eq!(row.modified, "-");
    assert!(row.is_dir);
}

#[test]
fn rows_follow_their_entries_one_for_one() {
    let entries = vec![file("a", 1), file("b", 2), file("c", 3)];
    let all = to_rows(&entries);
    let sizes: Vec<&str> = all.iter().map(|r| r.size.as_str()).collect();
    assert_eq!(sizes, ["1 B", "2 B", "3 B"]);
    let some = to_rows_from(vec![&entries[2], &entries[0]]);
    let names: Vec<&str> = some.iter().map(|r| r.name.as_str()).collect();
    assert_eq!(names, ["c", "a"]);
}
