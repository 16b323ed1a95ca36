use backup::dirwalk::{DirWalk, DirWalkParameters, Entry, WalkEvent, WalkFilter};
use backup::misc_helper::{
    is_dir, is_dir_expected, is_file, is_file_or_dir, path_starts_with, relative_path, EntryKind,
};

fn file(path: &str) -> Entry {
    Entry { path: path.to_string(), kind: EntryKind::File }
}

fn dir(path: &str) -> Entry {
    Entry { path: path.to_string(), kind: EntryKind::Dir }
}

fn listing(path: &str) -> Option<Vec<Entry>> {
    match path {
        "/src" => Some(vec![file("/src/f2"), dir("/src/d"), file("/src/a.txt"), dir("/src/x")]),
        "/src/d" => Some(vec![file("/src/d/f1"), dir("/src/d/deep"), file("/src/d/a")]),
        "/src/d/deep" => Some(vec![]),
        "/src/x" => None,
        _ => None,
    }
}

fn run(mut walk: DirWalk) -> Vec<String> {
    let mut seen = Vec::new();
    loop {
        match walk.next_event() {
            WalkEvent::End => break,
            WalkEvent::Path(path) => seen.push(path),
            WalkEvent::ReadDir(path) => {
                if let Some(path) = walk.enter(listing(&path)) {
                    seen.push(path);
                }
            }
        }
    }
    assert!(matches!(walk.next_event(), WalkEvent::End));
    seen
}

#[test]
fn kinds_of_entries() {
    assert!(is_file(EntryKind::File));
    assert!(!is_file(EntryKind::Dir) && !is_file(EntryKind::Other) && !is_file(EntryKind::Missing));
    assert!(is_dir(EntryKind::Dir));
    assert!(!is_dir(EntryKind::File) && !is_dir(EntryKind::Other) && !is_dir(EntryKind::Missing));
    assert!(is_file_or_dir(EntryKind::File) && is_file_or_dir(EntryKind::Dir));
    assert!(!is_file_or_dir(EntryKind::Other) && !is_file_or_dir(EntryKind::Missing));
    assert_eq!(is_dir_expected(EntryKind::Dir, "no dir"), Ok(()));
    assert_eq!(is_dir_expected(EntryKind::File, "no dir"), Err("no dir"));
    assert_eq!(is_dir_expected(EntryKind::Missing, 7), Err(7));
}

#[test]
fn relative_path_strips_base_and_separators() {
    assert_eq!(relative_path("/src", "/src/a/b.txt"), "a/b.txt");
    assert_eq!(relative_path("/src/", "/src/a"), "a");
    assert_eq!(relative_path("/src", "/src//a"), "a");
    assert_eq!(relative_path("/src", "/src"), "");
    assert_eq!(relative_path("/src", "/src/"), "");
    assert_eq!(relative_path("", "a/b"), "a/b");
    assert_eq!(relative_path("", "/a/b"), "/a/b");
    assert_eq!(relative_path("s\u{e4}", "s\u{e4}/\u{20ac}"), "\u{20ac}");
}

#[test]
fn path_prefix_ends_at_a_component() {
    assert!(path_starts_with("/src", "/src/a"));
    assert!(path_starts_with("/src", "/src"));
    assert!(path_starts_with("/src/", "/src/a"));
    assert!(path_starts_with("", "anything"));
    assert!(!path_starts_with("/src", "/srcs/a"));
    assert!(!path_starts_with("/src", "/sr"));
    assert!(!path_starts_with("/src/a", "/src"));
    assert!(!path_starts_with("/srd", "/src/a"));
}

#[test]
fn missing_root_fails_the_constructor() {
    assert!(DirWalk::new_recursive("/nowhere", None).is_none());
    let parameters =
        DirWalkParameters { root_dir: "/nowhere".to_string(), recursive: false, filter: None };
    assert!(DirWalk::new(parameters, None).is_none());
}

#[test]
fn recursive_walk_sorts_children_and_goes_down_after_the_directory() {
    let walk = DirWalk::new_recursive("/src", listing("/src")).unwrap();
    assert_eq!(
        run(walk),
        vec![
            "/src/a.txt",
            "/src/d",
            "/src/d/a",
            "/src/d/deep",
            "/src/d/f1",
            "/src/f2",
            "/src/x",
        ]
    );
}

#[test]
fn flat_walk_stays_in_the_root() {
    let parameters =
        DirWalkParameters { root_dir: "/src".to_string(), recursive: false, filter: None };
    let mut walk = DirWalk::new(parameters, listing("/src")).unwrap();
    assert_eq!(walk.enter(listing("/src/d")), None);
    assert_eq!(run(walk), vec!["/src/a.txt", "/src/d", "/src/f2", "/src/x"]);
}

#[test]
fn filter_holds_back_but_does_not_stop_descent() {
    let files = DirWalkParameters {
        root_dir: "/src".to_string(),
        recursive: true,
        filter: Some(WalkFilter::Files),
    };
    assert_eq!(
        run(DirWalk::new(files, listing("/src")).unwrap()),
        vec!["/src/a.txt", "/src/d/a", "/src/d/f1", "/src/f2"]
    );
    let dirs = DirWalkParameters {
        root_dir: "/src".to_string(),
        recursive: true,
        filter: Some(WalkFilter::Dirs),
    };
    assert_eq!(
        run(DirWalk::new(dirs, listing("/src")).unwrap()),
        vec!["/src/d", "/src/d/deep", "/src/x"]
    );
    let flat_dirs = DirWalkParameters {
        root_dir: "/src".to_string(),
        recursive: false,
        filter: Some(WalkFilter::Dirs),
    };
    assert_eq!(run(DirWalk::new(flat_dirs, listing("/src")).unwrap()), vec!["/src/d", "/src/x"]);
}

#[test]
fn walk_asks_again_until_the_listing_comes() {
    let mut walk = DirWalk::new_recursive("/r", Some(vec![dir("/r/d"), file("/r/z")])).unwrap();
    assert!(matches!(walk.next_event(), WalkEvent::ReadDir(p) if p == "/r/d"));
    assert!(matches!(walk.next_event(), WalkEvent::ReadDir(p) if p == "/r/d"));
    assert_eq!(walk.enter(Some(vec![file("/r/d/b"), file("/r/d/a")])), Some("/r/d".to_string()));
    assert!(matches!(walk.next_event(), WalkEvent::Path(p) if p == "/r/d/a"));
    assert!(matches!(walk.next_event(), WalkEvent::Path(p) if p == "/r/d/b"));
    assert!(matches!(walk.next_event(), WalkEvent::Path(p) if p == "/r/z"));
    assert!(matches!(walk.next_event(), WalkEvent::End));
}

#[test]
fn empty_root_ends_at_once() {
    let mut walk = DirWalk::new_recursive("/r", Some(Vec::new())).unwrap();
    assert!(matches!(walk.next_event(), WalkEvent::End));
}

#[test]
fn order_is_by_bytes_of_the_path() {
    let mut walk = DirWalk::new_recursive(
        "/r",
        Some(vec![file("/r/b"), file("/r/B"), file("/r/a b"), file("/r/a"), file("/r/\u{e4}")]),
    )
    .unwrap();
    let mut seen = Vec::new();
    while let WalkEvent::Path(p) = walk.next_event() {
        seen.push(p);
    }
    assert_eq!(seen, vec!["/r/B", "/r/a", "/r/a b", "/r/b", "/r/\u{e4}"]);
}

#[test]
fn walks_of_the_archive_are_flat_and_filtered() {
    let listing = || {
        Some(vec![
            file("/arch/channels/main/r2"),
            dir("/arch/channels/main/sub"),
            file("/arch/channels/main/r1"),
        ])
    };
    let revisions =
        backup::archive::defs::channel_rev_paths("/arch", "main", listing()).unwrap();
    assert_eq!(run(revisions), vec!["/arch/channels/main/r1", "/arch/channels/main/r2"]);
    let blobs = backup::archive::defs::content_paths("/arch", listing()).unwrap();
    assert_eq!(run(blobs), vec!["/arch/channels/main/r1", "/arch/channels/main/r2"]);
    let channels = backup::archive::defs::channel_paths("/arch", listing()).unwrap();
    assert_eq!(run(channels), vec!["/arch/channels/main/sub"]);
    assert!(backup::archive::defs::channel_rev_paths("/arch", "main", None).is_none());
    assert!(backup::archive::defs::content_paths("/arch", None).is_none());
    assert!(backup::archive::defs::channel_paths("/arch", None).is_none());
}
