use std::path::{Component, Path, MAIN_SEPARATOR};
use velo::app_state::{AppState, SortColumn};
use velo::clock::format_minute;
use velo::fs::entry::FileEntry;
use velo::fs::lister::{list_dir, reads_in_parallel, to_entry, DirItem, Metadata};
use velo::fs::order::sort_entries;
use velo::fs::watcher::{
    make_watcher, watch_action, WatchAction, WatchEvent, DEBOUNCE_MILLIS,
};
use velo::listing::{
    apply_listing, filter_changed, finish_load, load_dir, typeahead_row, watch_stopped,
};
use velo::messages::{open_failed, status_text};
use velo::navigation::{
    activate_row, navigate_back, navigate_forward, navigate_to, update_history_buttons, Activation,
};
use velo::path::{DirPath, PathComponent};

fn dir_path(text: &str) -> DirPath {
    let components = Path::new(text)
        .components()
        .map(|c| match c {
            Component::RootDir => PathComponent::RootDir,
            Component::Normal(n) => PathComponent::Normal(n.as_encoded_bytes().to_vec()),
            _ => PathComponent::CurDir,
        })
        .collect();
    DirPath { separator: MAIN_SEPARATOR, text: text.to_string(), components }
}

fn item(name: &str, is_dir: bool, len: u64, modified: Option<i128>) -> Option<DirItem> {
    Some(DirItem {
        file_name: name.as_bytes().to_vec(),
        path: dir_path(name),
        metadata: Some(Metadata { is_dir, len, modified }),
    })
}

fn entry(name: &str, is_dir: bool, size: u64, modified: Option<i128>) -> FileEntry {
    FileEntry {
        name: name.to_string(),
        path: dir_path(name),
        is_dir,
        size,
        modified,
    }
}

fn names(entries: &[FileEntry]) -> Vec<&str> {
    entries.iter().map(|e| e.name.as_str()).collect()
}

fn sample() -> Vec<Option<DirItem>> {
    vec![
        item("zoo.txt", false, 5, Some(30)),
        item("Src", true, 4096, Some(10)),
        None,
        item("alpha.txt", false, 9, None),
        item("BETA.txt", false, 1, Some(20)),
        item("docs", true, 4096, None),
    ]
}

#[test]
fn listing_has_directories_first_and_ignores_case() {
    let listing = list_dir(sample(), SortColumn::Name, true);
    assert_eq!(names(&listing), ["docs", "Src", "alpha.txt", "BETA.txt", "zoo.txt"]);
}

#[test]
fn listing_by_the_other_columns() {
    let up = list_dir(sample(), SortColumn::Size, true);
    assert_eq!(names(&up), ["Src", "docs", "BETA.txt", "zoo.txt", "alpha.txt"]);
    let down = list_dir(sample(), SortColumn::Size, false);
    assert_eq!(names(&down), ["Src", "docs", "alpha.txt", "zoo.txt", "BETA.txt"]);
    let oldest = list_dir(sample(), SortColumn::Modified, true);
    assert_eq!(names(&oldest), ["docs", "Src", "alpha.txt", "BETA.txt", "zoo.txt"]);
    let newest = list_dir(sample(), SortColumn::Modified, false);
    assert_eq!(names(&newest), ["Src", "docs", "zoo.txt", "BETA.txt", "alpha.txt"]);
    let backwards = list_dir(sample(), SortColumn::Name, false);
    assert_eq!(names(&backwards), ["Src", "docs", "zoo.txt", "BETA.txt", "alpha.txt"]);
}

#[test]
fn name_order_agrees_with_std() {
    let mut entries = Vec::new();
    let mut x: u32 = 12345;
    for i in 0..500u64 {
        x = x.wrapping_mul(1_664_525).wrapping_add(1_013_904_223);
        let letters = ["a", "B", "b", "A", "é", "É", "Z", "-", "日", "z\u{10000}", "\u{ffff}"];
        let mut name = String::new();
        for k in 0..(x >> 28) % 4 {
            name.push_str(letters[((x >> (k * 4)) as usize) % letters.len()]);
        }
        entries.push(entry(&name, x % 3 == 0, i, None));
    }
    let mut expected = entries.clone();
    expected.sort_by_cached_key(|e| (!e.is_dir, e.name.to_lowercase()));
    let sorted = sort_entries(entries, SortColumn::Name, true);
    let got: Vec<u64> = sorted.iter().map(|e| e.size).collect();
    let want: Vec<u64> = expected.iter().map(|e| e.size).collect();
    assert_eq!(got, want);
}

#[test]
fn equal_keys_keep_their_places() {
    let entries = vec![
        entry("b", false, 1, None),
        entry("B", false, 2, None),
        entry("a", false, 3, None),
        entry("b", false, 4, None),
    ];
    let up = sort_entries(entries.clone(), SortColumn::Name, true);
    assert_eq!(up.iter().map(|e| e.size).collect::<Vec<u64>>(), [3, 1, 2, 4]);
    let down = sort_entries(entries, SortColumn::Name, false);
    assert_eq!(down.iter().map(|e| e.size).collect::<Vec<u64>>(), [1, 2, 4, 3]);
    assert!(sort_entries(Vec::new(), SortColumn::Size, true).is_empty());
}

#[test]
fn entry_of_unreadable_metadata_is_an_empty_file() {
    let made = to_entry(DirItem {
        file_name: vec![b'x', 0xff],
        path: dir_path("/d/x"),
        metadata: None,
    });
    assert_eq!(made.name, "x\u{fffd}");
    assert!(made.path.same(&dir_path("/d/x")));
    assert!(!made.is_dir);
    assert_eq!(made.size, 0);
    assert_eq!(made.modified, None);
}

#[test]
fn directory_has_no_size() {
    let made = to_entry(item("d", true, 4096, Some(1)).unwrap());
    assert!(made.is_dir);
    assert_eq!(made.size, 0);
    assert_eq!(made.modified, Some(1));
    let made = to_entry(item("f", false, 4096, Some(1)).unwrap());
    assert_eq!(made.size, 4096);
}

#[test]
fn large_directories_are_read_in_parallel() {
    assert!(!reads_in_parallel(255));
    assert!(reads_in_parallel(256));
}

fn open(state: &mut AppState<u8>, text: &str) {
    let nav = navigate_to(state, dir_path(text));
    assert!(nav.install_watcher);
}

#[test]
fn loaded_listing_is_taken_over() {
    let mut state: AppState<u8> = AppState::default();
    open(&mut state, "/d");
    let request = load_dir(&state, dir_path("/d"), true);
    assert_eq!(request.sort, SortColumn::Name);
    assert!(request.ascending);
    let loaded = finish_load(request, Ok(sample()));
    assert!(loaded.error.is_none());
    assert_eq!(loaded.rows.len(), 5);
    let view = apply_listing(&mut state, loaded, Some(7)).unwrap();
    assert_eq!(view.total_count, 5);
    assert_eq!(view.segments, ["/", "d"]);
    assert!(view.path.same(&dir_path("/d")));
    assert!(view.reset_input);
    assert_eq!(view.error_message, "");
    let shown: Vec<&str> = view.rows.iter().map(|r| r.name.as_str()).collect();
    assert_eq!(shown, ["docs", "Src", "alpha.txt", "BETA.txt", "zoo.txt"]);
    assert_eq!(state.watcher, Some(7));
    assert_eq!(names(&state.entries), shown);
}

#[test]
fn listing_of_a_directory_that_was_left_is_dropped() {
    let mut state: AppState<u8> = AppState::default();
    open(&mut state, "/old");
    let request = load_dir(&state, dir_path("/old"), true);
    open(&mut state, "/new");
    let loaded = finish_load(request, Ok(sample()));
    assert!(!state.should_apply(&loaded.path));
    assert!(apply_listing(&mut state, loaded, Some(7)).is_none());
    assert!(state.entries.is_empty());
    assert!(state.watcher.is_none());
}

#[test]
fn reading_again_keeps_filter_watcher_and_selection() {
    let mut state: AppState<u8> = AppState::default();
    open(&mut state, "/d");
    let loaded = finish_load(load_dir(&state, dir_path("/d"), true), Ok(Vec::new()));
    apply_listing(&mut state, loaded, Some(7)).unwrap();
    state.filter = "TXT".to_string();
    let loaded = finish_load(load_dir(&state, dir_path("/d"), false), Ok(sample()));
    let view = apply_listing(&mut state, loaded, None).unwrap();
    assert_eq!(state.watcher, Some(7));
    assert!(!view.reset_input);
    assert_eq!(view.total_count, 5);
    assert_eq!(view.error_message, "");
    let shown: Vec<&str> = view.rows.iter().map(|r| r.name.as_str()).collect();
    assert_eq!(shown, ["alpha.txt", "BETA.txt", "zoo.txt"]);
}

#[test]
fn failure_to_read_is_reported() {
    let mut state: AppState<u8> = AppState::default();
    open(&mut state, "/d");
    let request = load_dir(&state, dir_path("/d"), true);
    let loaded = finish_load(request, Err("denied".to_string()));
    assert!(loaded.entries.is_empty());
    assert!(loaded.rows.is_empty());
    let view = apply_listing(&mut state, loaded, None).unwrap();
    assert_eq!(view.error_message, "読み込みに失敗しました: denied");
    assert_eq!(view.total_count, 0);
}

#[test]
fn failure_to_watch_is_reported() {
    let (watcher, error) = make_watcher::<u8>(Err("no more".to_string()));
    assert_eq!(watcher, None);
    assert_eq!(error.as_deref(), Some("監視を開始できません: no more"));
    let mut state: AppState<u8> = AppState::default();
    open(&mut state, "/d");
    let loaded = finish_load(load_dir(&state, dir_path("/d"), true), Ok(sample()));
    let view = apply_listing(&mut state, loaded, watcher).unwrap();
    assert_eq!(view.error_message, "");
    assert!(state.watcher.is_none());
    assert_eq!(make_watcher(Ok(3u8)), (Some(3), None));
}

#[test]
fn watcher_that_stops_is_given_up() {
    let mut state: AppState<u8> = AppState { watcher: Some(1), ..AppState::default() };
    assert_eq!(watch_stopped(&mut state, "gone"), "監視エラー: gone");
    assert!(state.watcher.is_none());
    assert_eq!(open_failed("x"), "開けませんでした: x");
}

#[test]
fn events_of_a_watched_directory() {
    assert_eq!(DEBOUNCE_MILLIS, 300);
    assert!(matches!(watch_action(WatchEvent::Changed), WatchAction::Reload));
    for (errors, text) in [
        (vec![], ""),
        (vec!["a"], "a"),
        (vec!["a", "b", "c"], "a; b; c"),
    ] {
        let errors = errors.into_iter().map(|e: &str| e.to_string()).collect();
        match watch_action(WatchEvent::Failed(errors)) {
            WatchAction::Report(report) => assert_eq!(report, text),
            WatchAction::Reload => panic!(),
        }
    }
}

#[test]
fn changing_the_filter_changes_the_rows_only() {
    let mut state: AppState<u8> = AppState::default();
    open(&mut state, "/d");
    let loaded = finish_load(load_dir(&state, dir_path("/d"), true), Ok(sample()));
    apply_listing(&mut state, loaded, None).unwrap();
    let rows = filter_changed(&mut state, "O");
    let shown: Vec<&str> = rows.iter().map(|r| r.name.as_str()).collect();
    assert_eq!(shown, ["docs", "zoo.txt"]);
    assert_eq!(state.filter, "O");
    assert_eq!(state.entries.len(), 5);
    assert_eq!(filter_changed(&mut state, "").len(), 5);
}

#[test]
fn row_of_a_jump() {
    assert_eq!(typeahead_row(Some(4)), 4);
    assert_eq!(typeahead_row(None), -1);
}

#[test]
fn rows_are_entered_or_opened() {
    let mut state: AppState<u8> = AppState {
        entries: vec![entry("dir", true, 0, None), entry("file", false, 0, None)],
        ..AppState::default()
    };
    match activate_row(&state, 0) {
        Activation::Enter(path) => assert!(path.same(&dir_path("dir"))),
        other => panic!("{other:?}"),
    }
    match activate_row(&state, 1) {
        Activation::Open(path) => assert!(path.same(&dir_path("file"))),
        other => panic!("{other:?}"),
    }
    assert!(matches!(activate_row(&state, 2), Activation::Nothing));
    assert!(matches!(activate_row(&state, -1), Activation::Nothing));
    state.filter = "fi".to_string();
    assert!(matches!(activate_row(&state, 0), Activation::Open(_)));
}

#[test]
fn back_and_forward() {
    let mut state: AppState<u8> = AppState::default();
    assert!(navigate_back(&mut state).is_none());
    assert!(navigate_forward(&mut state).is_none());
    open(&mut state, "/a");
    assert_eq!(update_history_buttons(&state), (false, false));
    open(&mut state, "/b");
    state.filter = "x".to_string();
    let nav = navigate_back(&mut state).unwrap();
    assert!(nav.path.same(&dir_path("/a")));
    assert!(state.current_dir.same(&dir_path("/a")));
    assert_eq!(state.filter, "");
    assert_eq!(nav.filter_text, "");
    assert!(!nav.address_error);
    assert!(nav.install_watcher);
    assert!(!nav.can_go_back);
    assert!(nav.can_go_forward);
    assert!(navigate_back(&mut state).is_none());
    let nav = navigate_forward(&mut state).unwrap();
    assert!(nav.path.same(&dir_path("/b")));
    assert_eq!(update_history_buttons(&state), (true, false));
}

#[test]
fn going_somewhere_new_forgets_the_way_forward() {
    let mut state: AppState<u8> = AppState::default();
    open(&mut state, "/a");
    open(&mut state, "/b");
    navigate_back(&mut state).unwrap();
    let nav = navigate_to(&mut state, dir_path("/c"));
    assert!(nav.can_go_back);
    assert!(!nav.can_go_forward);
    assert!(navigate_forward(&mut state).is_none());
    assert_eq!(state.history_back.len(), 1);
}

#[test]
fn going_to_the_open_directory_records_nothing() {
    let mut state: AppState<u8> = AppState::default();
    open(&mut state, "/a");
    open(&mut state, "/b");
    navigate_back(&mut state).unwrap();
    open(&mut state, "/a/");
    assert_eq!(update_history_buttons(&state), (false, true));
    assert!(navigate_forward(&mut state).unwrap().path.same(&dir_path("/b")));
}

#[test]
fn rows_of_the_worker_are_shown_where_nothing_is_filtered() {
    let mut state: AppState<u8> = AppState::default();
    open(&mut state, "/d");
    let mut loaded = finish_load(load_dir(&state, dir_path("/d"), true), Ok(sample()));
    let elsewhere = [0, 3600]
        .map(|offset| format_minute(10, offset))
        .into_iter()
        .find(|text| *text != loaded.rows[1].modified)
        .unwrap();
    loaded.rows[1].modified = elsewhere.clone();
    let view = apply_listing(&mut state, loaded, None).unwrap();
    assert_eq!(view.rows[1].modified, elsewhere);
    assert_eq!(view.rows.len(), 5);
}

#[test]
fn status_bar_tells_of_reading_before_watching() {
    let text = |s: &str| s.to_string();
    assert_eq!(status_text(text("read"), Some(text("watch"))), "read");
    assert_eq!(status_text(text("read"), None), "read");
    assert_eq!(status_text(text(""), Some(text("watch"))), "watch");
    assert_eq!(status_text(text(""), None), "");
}

#[test]
fn letter_of_the_drive_may_be_small() {
    let on = |drive: &str| DirPath {
        separator: '\\',
        text: format!("{drive}\\x"),
        components: vec![
            PathComponent::Prefix { name: drive.as_bytes().to_vec(), verbatim: false },
            PathComponent::RootDir,
            PathComponent::Normal(b"x".to_vec()),
        ],
    };
    let mut state: AppState<u8> = AppState::default();
    navigate_to(&mut state, on("c:"));
    assert!(state.should_apply(&on("C:")));
    assert!(!state.should_apply(&on("D:")));
    navigate_to(&mut state, on("C:"));
    assert!(state.history_back.is_empty());
    assert_eq!(state.current_dir.text, "C:\\x");
    assert!(matches!(
        &state.current_dir.components[0],
        PathComponent::Prefix { name, .. } if name == b"C:"
    ));
}

#[test]
fn name_with_a_lone_surrogate_shows_one_replacement_character() {
    let named = |separator: char| DirItem {
        file_name: vec![b'a', 0xed, 0xa0, 0x80, b'b', 0xed, 0x9f, 0xbf],
        path: DirPath { separator, text: String::new(), components: Vec::new() },
        metadata: None,
    };
    assert_eq!(to_entry(named('\\')).name, "a\u{fffd}b\u{d7ff}");
    assert_eq!(to_entry(named('/')).name, "a\u{fffd}\u{fffd}\u{fffd}b\u{d7ff}");
}

#[test]
fn path_is_shown_as_it_was_typed() {
    let mut state: AppState<u8> = AppState::default();
    let nav = navigate_to(&mut state, dir_path("/home//user/"));
    assert_eq!(nav.path.text, "/home//user/");
    let loaded = finish_load(load_dir(&state, nav.path, true), Ok(Vec::new()));
    let view = apply_listing(&mut state, loaded, None).unwrap();
    assert_eq!(view.path.text, "/home//user/");
    assert_eq!(view.segments, ["/", "home", "user"]);
    navigate_to(&mut state, dir_path("/tmp"));
    assert_eq!(navigate_back(&mut state).unwrap().path.text, "/home//user/");
}
