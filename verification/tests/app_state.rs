use std::path::{Component, Path, MAIN_SEPARATOR};
use velo::app_state::{AppState, SortColumn};
use velo::fs::entry::FileEntry;
use velo::path::{DirPath, PathComponent};

fn dir_path(text: &str) -> DirPath {
    let components = Path::new(text)
        .components()
        .map(|c| match c {
            Component::Prefix(p) => PathComponent::Prefix {
                name: p.as_os_str().as_encoded_bytes().to_vec(),
                verbatim: p.kind().is_verbatim(),
            },
            Component::RootDir => PathComponent::RootDir,
            Component::CurDir => PathComponent::CurDir,
            Component::ParentDir => PathComponent::ParentDir,
            Component::Normal(n) => PathComponent::Normal(n.as_encoded_bytes().to_vec()),
        })
        .collect();
    DirPath { separator: MAIN_SEPARATOR, text: text.to_string(), components }
}

fn make_entry(name: &str, is_dir: bool) -> FileEntry {
    FileEntry {
        name: name.to_string(),
        path: dir_path(name),
        is_dir,
        size: 0,
        modified: None,
    }
}

fn names(state: &AppState<()>) -> Vec<&str> {
    state
        .visible_entries()
        .into_iter()
        .map(|e| e.name.as_str())
        .collect()
}

#[test]
fn visible_entries_no_filter_returns_all() {
    let state: AppState<()> = AppState {
        entries: vec![
            make_entry("alpha.txt", false),
            make_entry("beta.txt", false),
            make_entry("gamma", true),
        ],
        ..AppState::default()
    };
    assert_eq!(names(&state), ["alpha.txt", "beta.txt", "gamma"]);
}

#[test]
fn visible_entries_filter_narrows_results() {
    let state: AppState<()> = AppState {
        entries: vec![
            make_entry("main.rs", false),
            make_entry("lib.rs", false),
            make_entry("Cargo.toml", false),
        ],
        filter: "rs".to_string(),
        ..AppState::default()
    };
    assert_eq!(names(&state), ["main.rs", "lib.rs"]);
}

#[test]
fn visible_entries_filter_is_case_insensitive() {
    let state: AppState<()> = AppState {
        entries: vec![
            make_entry("Rust.rs", false),
            make_entry("python.py", false),
            make_entry("RUSTFMT", false),
        ],
        filter: "rust".to_string(),
        ..AppState::default()
    };
    assert_eq!(names(&state), ["Rust.rs", "RUSTFMT"]);
}

#[test]
fn entry_at_first_index_returns_first_entry() {
    let state: AppState<()> = AppState {
        entries: vec![
            make_entry("first.txt", false),
            make_entry("second.txt", false),
        ],
        ..AppState::default()
    };
    let entry = state.entry_at(0).expect("先頭エントリは存在するはず");
    assert_eq!(entry.name, "first.txt");
}

#[test]
fn entry_at_last_index_returns_last_entry() {
    let state: AppState<()> = AppState {
        entries: vec![
            make_entry("a.txt", false),
            make_entry("b.txt", false),
            make_entry("c.txt", false),
        ],
        ..AppState::default()
    };
    let last_idx = state.entries.len() - 1;
    let entry = state
        .entry_at(last_idx)
        .expect("末尾エントリは存在するはず");
    assert_eq!(entry.name, "c.txt");
}

#[test]
fn entry_at_out_of_bounds_returns_none() {
    let state: AppState<()> = AppState {
        entries: vec![make_entry("a.txt", false), make_entry("b.txt", false)],
        ..AppState::default()
    };
    assert!(state.entry_at(2).is_none());
}

#[test]
fn entry_at_respects_filtered_index() {
    let state: AppState<()> = AppState {
        entries: vec![
            make_entry("readme.md", false),
            make_entry("main.rs", false),
            make_entry("lib.rs", false),
            make_entry("build.rs", false),
        ],
        filter: "rs".to_string(),
        ..AppState::default()
    };
    let entry = state.entry_at(1).expect("フィルタ後 1 番目は存在するはず");
    assert_eq!(entry.name, "lib.rs");
}

#[test]
fn clearing_filter_restores_all_entries() {
    let mut state: AppState<()> = AppState {
        entries: vec![
            make_entry("foo.txt", false),
            make_entry("bar.txt", false),
            make_entry("baz.txt", false),
        ],
        ..AppState::default()
    };

    state.filter = "foo".to_string();
    let filtered = names(&state);
    assert_eq!(filtered, ["foo.txt"]);

    state.filter = String::new();
    let all = names(&state);
    assert_eq!(all, ["foo.txt", "bar.txt", "baz.txt"]);
}

#[test]
fn typeahead_match_finds_first_match() {
    let mut state: AppState<()> = AppState {
        entries: vec![
            make_entry("apple.txt", false),
            make_entry("banana.txt", false),
            make_entry("apricot.txt", false),
        ],
        ..AppState::default()
    };
    let idx = state.typeahead_match("a", -1);
    assert_eq!(
        idx,
        Some(0),
        "\"a\" で始まる先頭は apple.txt（インデックス 0）のはず"
    );
}

#[test]
fn typeahead_match_repeated_char_cycles_to_next() {
    let mut state: AppState<()> = AppState {
        entries: vec![
            make_entry("alpha.txt", false),
            make_entry("beta.txt", false),
            make_entry("arc.txt", false),
        ],
        ..AppState::default()
    };
    let first = state.typeahead_match("a", -1);
    assert_eq!(first, Some(0));

    let second = state.typeahead_match("a", 0);
    assert_eq!(
        second,
        Some(2),
        "\"a\" 繰り返しで次候補 arc.txt（インデックス 2）のはず"
    );
}

#[test]
fn default_state_is_empty_and_ordered_by_name() {
    let state: AppState<u8> = AppState::default();
    assert!(state.current_dir.components.is_empty());
    assert!(state.entries.is_empty());
    assert!(state.filter.is_empty());
    assert!(state.watcher.is_none());
    assert_eq!(state.sort_column, SortColumn::Name);
    assert!(state.sort_ascending);
    assert!(state.typeahead_buffer.is_empty());
    assert!(state.history_back.is_empty());
    assert!(state.history_forward.is_empty());
}

#[test]
fn filter_lowers_text_outside_ascii() {
    let mut state: AppState<()> = AppState {
        entries: vec![make_entry("ÄRGER.txt", false), make_entry("argument", false)],
        filter: "ärg".to_string(),
        ..AppState::default()
    };
    assert_eq!(names(&state), ["ÄRGER.txt"]);
    state.filter = "ÄRG".to_string();
    assert_eq!(names(&state), ["ÄRGER.txt"]);
}

#[test]
fn filter_matches_at_the_very_end_and_not_beyond() {
    let mut state: AppState<()> = AppState {
        entries: vec![make_entry("ab", false), make_entry("b", false)],
        filter: "ab".to_string(),
        ..AppState::default()
    };
    assert_eq!(names(&state), ["ab"]);
    state.filter = "abc".to_string();
    assert!(names(&state).is_empty());
    state.filter = "b".to_string();
    assert_eq!(names(&state), ["ab", "b"]);
}

#[test]
fn typing_more_narrows_the_list() {
    let mut state: AppState<()> = AppState {
        entries: vec![
            make_entry("main.rs", false),
            make_entry("mandate", false),
            make_entry("map", true),
        ],
        ..AppState::default()
    };
    state.filter = "ma".to_string();
    assert_eq!(names(&state), ["main.rs", "mandate", "map"]);
    state.filter = "MAN".to_string();
    assert_eq!(names(&state), ["mandate"]);
}

#[test]
fn typed_text_leads_to_the_first_name_with_that_beginning() {
    let mut state: AppState<()> = AppState {
        entries: vec![
            make_entry("Bach", true),
            make_entry("beta.txt", false),
            make_entry("bed.txt", false),
        ],
        ..AppState::default()
    };
    assert_eq!(state.typeahead_after(10_000, "b", -1), Some(0));
    assert_eq!(state.typeahead_after(100, "e", 0), Some(1));
    assert_eq!(state.typeahead_after(100, "D", 1), Some(2));
    assert_eq!(state.typeahead_buffer, "beD");
}

#[test]
fn half_a_second_ends_what_was_typed() {
    let mut state: AppState<()> = AppState {
        entries: vec![make_entry("ab", false), make_entry("b", false)],
        ..AppState::default()
    };
    assert_eq!(state.typeahead_after(0, "a", -1), Some(0));
    assert_eq!(state.typeahead_after(499, "b", 0), Some(0));
    assert_eq!(state.typeahead_buffer, "ab");
    assert_eq!(state.typeahead_after(500, "b", 0), Some(1));
    assert_eq!(state.typeahead_buffer, "b");
}

#[test]
fn repeated_character_goes_round() {
    let mut state: AppState<()> = AppState {
        entries: vec![
            make_entry("alpha", false),
            make_entry("Beta", false),
            make_entry("Arc", false),
        ],
        ..AppState::default()
    };
    assert_eq!(state.typeahead_after(0, "a", -1), Some(0));
    assert_eq!(state.typeahead_after(0, "A", 0), Some(2));
    assert_eq!(state.typeahead_after(0, "a", 2), Some(0));
    assert_eq!(state.typeahead_after(9_999, "b", 0), Some(1));
    assert_eq!(state.typeahead_after(0, "b", 1), Some(1));
    assert_eq!(state.typeahead_buffer, "bb");
}

#[test]
fn character_that_leads_nowhere_is_forgotten() {
    let mut state: AppState<()> = AppState {
        entries: vec![make_entry("alpha", false)],
        ..AppState::default()
    };
    assert_eq!(state.typeahead_after(0, "a", -1), Some(0));
    assert_eq!(state.typeahead_after(0, "x", 0), None);
    assert_eq!(state.typeahead_buffer, "a");
    assert_eq!(state.typeahead_after(700, "x", 0), None);
    assert_eq!(state.typeahead_buffer, "");
    state.filter = "nothing".to_string();
    assert_eq!(state.typeahead_after(0, "a", -1), None);
    assert_eq!(state.typeahead_buffer, "");
}

#[test]
fn typing_sees_only_what_the_filter_leaves() {
    let mut state: AppState<()> = AppState {
        entries: vec![
            make_entry("a.md", false),
            make_entry("a.rs", false),
            make_entry("b.rs", false),
        ],
        filter: "rs".to_string(),
        ..AppState::default()
    };
    assert_eq!(state.typeahead_match("b", -1), Some(1));
    assert_eq!(state.typeahead_after(800, "a", -1), Some(0));
}

#[test]
fn selection_beyond_the_list_starts_within_it() {
    let mut state: AppState<()> = AppState {
        entries: vec![make_entry("a1", false), make_entry("a2", false)],
        ..AppState::default()
    };
    assert_eq!(state.typeahead_after(0, "a", i32::MAX), Some(0));
    assert_eq!(state.typeahead_after(0, "a", 6), Some(1));
}

#[test]
fn clone_of_an_entry_holds_the_same_data() {
    let entry = FileEntry {
        name: "n".to_string(),
        path: dir_path("/x/n"),
        is_dir: false,
        size: 7,
        modified: Some(-5),
    };
    let copy = entry.clone();
    assert_eq!(copy.name, "n");
    assert!(copy.path.same(&entry.path));
    assert!(!copy.is_dir);
    assert_eq!(copy.size, 7);
    assert_eq!(copy.modified, Some(-5));
}

#[test]
fn repeated_key_goes_through_all_matches_and_round() {
    let mut state: AppState<()> = AppState {
        entries: ["Apple", "bee", "ant", "cat", "arc"]
            .iter()
            .map(|name| make_entry(name, false))
            .collect(),
        ..AppState::default()
    };
    let mut selected = -1;
    let pauses = [900, 0, 499, 500, 10, 10, 700];
    for (pause, row) in pauses.into_iter().zip([0, 2, 4, 0, 2, 4, 0]) {
        assert_eq!(state.typeahead_after(pause, "a", selected), Some(row));
        selected = row as i32;
    }
}

#[test]
fn moment_of_the_last_character_is_kept() {
    let mut state: AppState<()> = AppState {
        entries: vec![make_entry("ab", false), make_entry("b", false)],
        ..AppState::default()
    };
    let long_ago = std::time::Instant::now() - std::time::Duration::from_millis(800);
    state.typeahead_buffer = "a".to_string();
    state.typeahead_last = long_ago;
    let before = std::time::Instant::now();
    assert_eq!(state.typeahead_match("b", 0), Some(1));
    assert_eq!(state.typeahead_buffer, "b");
    assert!(state.typeahead_last >= before);

    state.typeahead_buffer = "a".to_string();
    assert_eq!(state.typeahead_match("b", 0), Some(0));
    assert_eq!(state.typeahead_buffer, "ab");

    let before = std::time::Instant::now();
    assert_eq!(state.typeahead_match("x", 0), None);
    assert!(state.typeahead_last >= before);
}

#[test]
fn pause_is_measured_between_the_moments_of_typing() {
    let mut state: AppState<()> = AppState {
        entries: vec![make_entry("ab", false), make_entry("b", false)],
        ..AppState::default()
    };
    let start = state.typeahead_last;
    let after = |millis: u64| start + std::time::Duration::from_millis(millis);
    assert_eq!(state.typeahead_at(after(1_000), "a", -1), Some(0));
    assert!(state.typeahead_last == after(1_000));
    assert_eq!(state.typeahead_at(after(1_499), "b", 0), Some(0));
    assert_eq!(state.typeahead_buffer, "ab");
    assert_eq!(state.typeahead_at(after(1_999), "b", 0), Some(1));
    assert_eq!(state.typeahead_buffer, "b");
    assert!(state.typeahead_last == after(1_999));
}
