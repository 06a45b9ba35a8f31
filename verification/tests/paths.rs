use std::path::{Component, Path, MAIN_SEPARATOR};
use velo::address::{address_target, resolve_input, resolve_text, typed_path, PathKind};
use velo::app_state::AppState;
use velo::breadcrumb::{build_path_from_components, path_to_segments};
use velo::navigation::{go_up, segment_clicked, start_dir};
use velo::path::{DirPath, PathComponent};

fn dir_path(text: &str) -> DirPath {
    let components = Path::new(text)
        .components()
        .map(|c| match c {
            Component::Prefix(p) => PathComponent::Prefix {
                name: p.as_os_str().as_encoded_bytes().to_vec(),
                verbatim: p.kind().is_verbatim(),
            },
            Component::RootDir => PathComponent::RootDir,
            Component::CurDir => PathComponent::CurDir,
            Component::ParentDir => PathComponent::ParentDir,
            Component::Normal(n) => PathComponent::Normal(n.as_encoded_bytes().to_vec()),
        })
        .collect();
    DirPath { separator: MAIN_SEPARATOR, text: text.to_string(), components }
}

fn name(text: &str) -> PathComponent {
    PathComponent::Normal(text.as_bytes().to_vec())
}

fn drive(text: &str, verbatim: bool) -> PathComponent {
    PathComponent::Prefix { name: text.as_bytes().to_vec(), verbatim }
}

fn of(components: Vec<PathComponent>) -> DirPath {
    written("", components)
}

fn written(text: &str, components: Vec<PathComponent>) -> DirPath {
    DirPath { separator: '\\', text: text.to_string(), components }
}

fn samples() -> Vec<&'static str> {
    vec![
        "", "/", ".", "..", "./a", "../a", "a", "a/b", "/a", "/a/b/c", "/home/user/x.tar.gz",
        "a/..", "/a/../b", ".hidden", "/.hidden.txt", "a.", "日本/語.md", "//", "///a", "//a//b//",
        "/a/./b/.", "./", ".//.", "././a", "a/./", "/.", "/./a", "a//./b", "../..", "...", "a/.b", "\\x",
    ]
}

#[test]
fn segments_of_a_unix_path() {
    assert_eq!(path_to_segments(&dir_path("/home/user")), ["/", "home", "user"]);
    assert_eq!(path_to_segments(&dir_path("/")), ["/"]);
    assert_eq!(path_to_segments(&dir_path("./a/../b")), ["a", "b"]);
    assert!(path_to_segments(&dir_path("")).is_empty());
}

#[test]
fn segments_of_a_windows_path() {
    let path = of(vec![
        drive("C:", false),
        PathComponent::RootDir,
        name("Users"),
        name("user"),
        name("Documents"),
    ]);
    assert_eq!(path_to_segments(&path), ["C:", "Users", "user", "Documents"]);
}

#[test]
fn segment_of_an_undecodable_name_has_replacement_characters() {
    let mut path = of(vec![
        PathComponent::RootDir,
        PathComponent::Normal(vec![b'a', 0xff, b'b']),
        PathComponent::Normal("é".as_bytes().to_vec()),
    ]);
    path.separator = '/';
    assert_eq!(path_to_segments(&path), ["/", "a\u{fffd}b", "é"]);
}

#[test]
fn each_segment_leads_to_its_directory() {
    let path = dir_path("/home/user/docs");
    for (index, target) in [(0, "/"), (1, "/home"), (2, "/home/user"), (3, "/home/user/docs")] {
        let built = build_path_from_components(&path, index).unwrap();
        assert!(built.same(&dir_path(target)));
        assert_eq!(built.text, target);
    }
    assert!(build_path_from_components(&path, 4).is_none());
    assert!(build_path_from_components(&dir_path(""), 0).is_none());
}

#[test]
fn a_drive_and_its_root_are_one_segment() {
    let path = of(vec![drive("C:", false), PathComponent::RootDir, name("Users")]);
    assert_eq!(build_path_from_components(&path, 1).unwrap().text, "C:\\Users");
    let built = build_path_from_components(&path, 0).unwrap();
    assert_eq!(built.text, "C:\\");
    assert!(built.same(&of(vec![drive("C:", false), PathComponent::RootDir])));
    assert!(build_path_from_components(&path, 1).unwrap().same(&path));
    assert!(build_path_from_components(&path, 2).is_none());

    let bare = of(vec![drive("C:", false), name("x")]);
    assert_eq!(build_path_from_components(&bare, 1).unwrap().text, "C:x");
    let built = build_path_from_components(&bare, 0).unwrap();
    assert!(built.same(&of(vec![drive("C:", false)])));
}

#[test]
fn dots_count_for_no_segment() {
    let path = dir_path("./a/../b");
    assert!(build_path_from_components(&path, 0).unwrap().same(&dir_path("a")));
    assert!(build_path_from_components(&path, 1).unwrap().same(&dir_path("a/b")));
    assert!(build_path_from_components(&path, 2).is_none());
}

#[test]
fn segments_of_a_built_path_are_the_first_ones() {
    for text in samples() {
        let path = dir_path(text);
        let segments = path_to_segments(&path);
        for index in 0..segments.len() {
            let built = build_path_from_components(&path, index).unwrap();
            assert_eq!(path_to_segments(&built), segments[..index + 1]);
        }
        assert!(build_path_from_components(&path, segments.len()).is_none());
    }
}

#[test]
fn last_segment_stays_in_the_directory() {
    let path = dir_path("/a/b/c");
    let last = path_to_segments(&path).len() - 1;
    assert!(build_path_from_components(&path, last).unwrap().same(&path));
}

#[test]
fn click_on_a_segment() {
    let state: AppState<()> = AppState {
        current_dir: dir_path("/a/b"),
        ..AppState::default()
    };
    assert!(segment_clicked(&state, 1).unwrap().same(&dir_path("/a")));
    assert!(segment_clicked(&state, 3).is_none());
    assert!(segment_clicked(&state, -1).is_none());
}

#[test]
fn parent_agrees_with_std() {
    for text in samples() {
        let expected = Path::new(text).parent();
        let parent = dir_path(text).parent();
        assert_eq!(parent.is_some(), expected.is_some(), "{text}");
        if let (Some(p), Some(e)) = (parent, expected) {
            assert!(p.same(&dir_path(e.to_str().unwrap())), "{text}");
            assert_eq!(p.text, e.to_str().unwrap(), "{text}");
        }
    }
}

#[test]
fn extension_agrees_with_std() {
    for text in samples() {
        let expected = Path::new(text).extension().map(|e| e.as_encoded_bytes().to_vec());
        assert_eq!(dir_path(text).extension(), expected, "{text}");
    }
}

#[test]
fn sameness_agrees_with_std() {
    for a in samples() {
        for b in samples() {
            assert_eq!(dir_path(a).same(&dir_path(b)), Path::new(a) == Path::new(b));
        }
    }
    assert!(dir_path("/a//b/").same(&dir_path("/a/./b")));
    assert!(!of(vec![drive("C:", false)]).same(&of(vec![drive("C:", true)])));
    assert!(!of(vec![name("x")]).same(&of(vec![drive("x", false)])));
}

#[test]
fn resolving_an_input_agrees_with_std() {
    for base in samples() {
        for input in samples() {
            let raw = Path::new(input);
            let expected = if raw.is_relative() {
                Path::new(base).join(raw)
            } else {
                raw.to_path_buf()
            };
            let resolved = resolve_input(&dir_path(base), &dir_path(input));
            assert_eq!(resolved.text, expected.to_str().unwrap());
            assert!(
                resolved.same(&dir_path(expected.to_str().unwrap())),
                "{base} {input}"
            );
        }
    }
}

#[test]
fn resolving_keeps_or_replaces_the_drive() {
    let base = written("C:\\a", vec![drive("C:", false), PathComponent::RootDir, name("a")]);
    let rooted = written("/b", vec![PathComponent::RootDir, name("b")]);
    let resolved = resolve_input(&base, &rooted);
    assert_eq!(resolved.text, "C:/b");
    assert!(resolved.same(&of(vec![drive("C:", false), PathComponent::RootDir, name("b")])));
    let other = written("D:b", vec![drive("D:", false), name("b")]);
    let resolved = resolve_input(&base, &other);
    assert_eq!(resolved.text, "D:b");
    assert!(resolved.same(&other));
    let plain = written("b", vec![name("b")]);
    assert_eq!(resolve_input(&base, &plain).text, "C:\\a\\b");
    let bare = written("C:", vec![drive("C:", false)]);
    let dotted = written("./b", vec![PathComponent::CurDir, name("b")]);
    let resolved = resolve_input(&bare, &dotted);
    assert_eq!(resolved.text, "C:./b");
    assert!(resolved.same(&of(vec![drive("C:", false), PathComponent::CurDir, name("b")])));
}

#[test]
fn resolving_below_a_verbatim_drive_removes_dots() {
    let prefix = r"\\?\C:";
    let base = written(
        r"\\?\C:\a\b",
        vec![drive(prefix, true), PathComponent::RootDir, name("a"), name("b")],
    );
    let input = written(
        "./../c/.",
        vec![PathComponent::CurDir, PathComponent::ParentDir, name("c"), PathComponent::CurDir],
    );
    let resolved = resolve_input(&base, &input);
    assert_eq!(resolved.text, r"\\?\C:\a\c");
    assert!(resolved.same(&of(vec![
        drive(prefix, true),
        PathComponent::RootDir,
        name("a"),
        name("c"),
    ])));
    let up = written("/../d", vec![PathComponent::RootDir, PathComponent::ParentDir, name("d")]);
    let resolved = resolve_input(&base, &up);
    assert_eq!(resolved.text, r"\\?\C:\d");
    assert!(resolved.same(&of(vec![drive(prefix, true), PathComponent::RootDir, name("d")])));
}

#[test]
fn parent_below_a_drive_is_written_as_before() {
    let parent = |text: &str, parts: Vec<PathComponent>| written(text, parts).parent().unwrap().text;
    let c = || drive("C:", false);
    let root = || PathComponent::RootDir;
    assert_eq!(parent("C:\\a/b\\", vec![c(), root(), name("a"), name("b")]), "C:\\a");
    assert_eq!(parent("C:\\a", vec![c(), root(), name("a")]), "C:\\");
    assert_eq!(parent("C:a", vec![c(), name("a")]), "C:");
    assert_eq!(parent("C:.", vec![c(), PathComponent::CurDir]), "C:");
    assert_eq!(parent("C:.\\a", vec![c(), PathComponent::CurDir, name("a")]), "C:.");
    let v = || drive(r"\\?\C:", true);
    assert_eq!(parent(r"\\?\C:\a\b", vec![v(), root(), name("a"), name("b")]), r"\\?\C:\a");
    assert!(written("C:\\", vec![c(), root()]).parent().is_none());
}

#[test]
fn typed_path_is_trimmed() {
    assert_eq!(typed_path("  /a b \n").as_deref(), Some("/a b"));
    assert_eq!(typed_path("\u{3000}x\u{85}").as_deref(), Some("x"));
    assert_eq!(typed_path("x").as_deref(), Some("x"));
    assert_eq!(typed_path(" \t\r\n"), None);
    assert_eq!(typed_path(""), None);
}

#[test]
fn white_space_is_what_is_trimmed() {
    for v in 0..0x11_0000u32 {
        if let Some(c) = char::from_u32(v) {
            let white = (0x9..=0xd).contains(&v)
                || (0x2000..=0x200a).contains(&v)
                || [0x20, 0x85, 0xa0, 0x1680, 0x2028, 0x2029, 0x202f, 0x205f, 0x3000].contains(&v);
            assert_eq!(typed_path(&c.to_string()).is_none(), white, "{v:x}");
        }
    }
}

#[test]
fn address_leads_to_a_directory_or_nowhere() {
    let target = address_target(dir_path("/a/b"), PathKind::Directory).unwrap();
    assert!(target.same(&dir_path("/a/b")));
    let target = address_target(dir_path("/a/b.txt"), PathKind::File).unwrap();
    assert!(target.same(&dir_path("/a")));
    assert!(address_target(dir_path("/"), PathKind::File).is_none());
    assert!(address_target(dir_path("/a"), PathKind::Missing).is_none());
}

#[test]
fn way_up_ends_at_the_root() {
    let mut state: AppState<()> = AppState {
        current_dir: dir_path("/a/b"),
        ..AppState::default()
    };
    state.current_dir = go_up(&state).unwrap();
    assert!(state.current_dir.same(&dir_path("/a")));
    state.current_dir = go_up(&state).unwrap();
    assert!(state.current_dir.same(&dir_path("/")));
    assert!(go_up(&state).is_none());
}

#[test]
fn first_directory() {
    let home = || Some(dir_path("/home/u"));
    let working = || Some(dir_path("/tmp"));
    assert!(start_dir(home(), working()).same(&dir_path("/home/u")));
    assert!(start_dir(home(), None).same(&dir_path("/home/u")));
    assert!(start_dir(None, working()).same(&dir_path("/tmp")));
    assert!(start_dir(None, None).same(&dir_path(".")));
    assert_eq!(start_dir(None, None).text, ".");
}

#[test]
fn resolving_a_text_agrees_with_std() {
    let mut inputs = samples();
    inputs.extend(["a//b/", "/a/./b/.", "./.", "..", "//", "/..", "a/../b", "é/.x/..y", " a ", "..."]);
    for base in samples() {
        for input in &inputs {
            let expected = Path::new(base).join(input);
            let resolved = resolve_text(&dir_path(base), input);
            assert_eq!(resolved.text, expected.to_str().unwrap());
            assert!(
                resolved.same(&dir_path(expected.to_str().unwrap())),
                "{base} {input}"
            );
        }
    }
}

#[test]
fn text_is_cut_at_slashes() {
    let resolved = resolve_text(&DirPath::empty(), "./a//b/./../é/");
    assert!(resolved.same(&of(vec![
        PathComponent::CurDir,
        name("a"),
        name("b"),
        PathComponent::ParentDir,
        name("é"),
    ])));
    let resolved = resolve_text(&dir_path("/x"), "/./a");
    assert!(resolved.same(&of(vec![PathComponent::RootDir, name("a")])));
}

#[test]
fn prefixes_are_compared_as_std_does() {
    let same = |a: &str, v: bool, b: &str, w: bool| {
        of(vec![drive(a, v)]).same(&of(vec![drive(b, w)]))
    };
    assert!(same("c:", false, "C:", false));
    assert!(!same("c:", false, "d:", false));
    assert!(same(r"\\?\c:", true, r"\\?\C:", true));
    assert!(!same("c:", false, r"\\?\c:", true));
    assert!(same("//server/share", false, r"\\server\share", false));
    assert!(!same(r"\\Server\share", false, r"\\server\share", false));
    assert!(!same("1:", false, "2:", false));
    assert!(!of(vec![name("c:")]).same(&of(vec![name("C:")])));
}

#[test]
fn text_of_a_path_names_the_path() {
    for text in samples() {
        let path = dir_path(text);
        let mut reached = vec![resolve_text(&path, "x/../y/."), resolve_text(&path, "./z")];
        reached.extend(path.parent());
        for index in 0..path_to_segments(&path).len() {
            reached.push(build_path_from_components(&path, index).unwrap());
        }
        for there in reached {
            assert!(there.same(&dir_path(&there.text)), "{text} {}", there.text);
        }
    }
}
