use fanbox_archive::expand::{entry_action, expand_decision, extension_of, stem_of_name, EntryAction, ExpandPlan};
use fanbox_archive::utils::{parse_dir, DefinedFile, FileType};

fn file(path: &str) -> DefinedFile {
    DefinedFile::new(path.to_string(), FileType::File)
}

fn folder(path: &str) -> DefinedFile {
    DefinedFile::new(path.to_string(), FileType::Folder)
}

#[test]
fn name_is_last_component() {
    assert_eq!(file("input/alice/a.jpg").name(), "a.jpg");
    assert_eq!(file("plain").name(), "plain");
    assert_eq!(folder("input/alice").name(), "alice");
}

#[test]
fn name_follows_path_file_name_on_degenerate_paths() {
    // A trailing separator does not hide the component.
    assert_eq!(folder("a/").name(), "a");
    assert_eq!(folder("a//").name(), "a");
    // A final parent component denotes no file name.
    assert_eq!(folder("a/..").name(), "");
    assert_eq!(folder("..").name(), "");
    assert_eq!(folder("/").name(), "");
    assert_eq!(folder("").name(), "");
    // Lone `.` components are stripped like separators.
    assert_eq!(folder(".").name(), "");
    assert_eq!(folder("a/.").name(), "a");
    assert_eq!(folder("./a").name(), "a");
    // Dotted names are ordinary names.
    assert_eq!(file("a/b.tar.gz").name(), "b.tar.gz");
    assert_eq!(file("a/...").name(), "...");
    assert_eq!(file("a/b.").name(), "b.");
}

#[test]
fn hidden_entries_are_skipped() {
    let entries = vec![file("dir/.DS_Store"), file("dir/a.jpg"), folder("dir/.git"), folder("dir/sub")];
    let kept = parse_dir(&entries, FileType::Both);
    assert_eq!(kept.len(), 2);
    assert_eq!(kept[0].name(), "a.jpg");
    assert_eq!(kept[1].name(), "sub");
}

#[test]
fn filter_selects_kind() {
    let entries = vec![file("d/a"), folder("d/b"), file("d/c")];
    let files = parse_dir(&entries, FileType::File);
    assert_eq!(files.len(), 2);
    let folders = parse_dir(&entries, FileType::Folder);
    assert_eq!(folders.len(), 1);
    assert_eq!(folders[0].name(), "b");
}

#[test]
fn extension_and_stem() {
    assert_eq!(extension_of("archive.zip"), "zip");
    assert_eq!(extension_of("a.b.zip"), "zip");
    assert_eq!(extension_of("noext"), "");
    assert_eq!(extension_of(".hidden"), "");
    assert_eq!(stem_of_name("archive.zip"), "archive");
    assert_eq!(stem_of_name("a.b.zip"), "a");
    assert_eq!(stem_of_name("noext"), "noext");
}

#[test]
fn marked_container_is_never_reopened() {
    match expand_decision("bundle.zip", true) {
        ExpandPlan::AlreadyExpanded => {}
        _ => panic!("a marked container must be left alone"),
    }
}

#[test]
fn unmarked_container_is_opened_with_its_marker() {
    match expand_decision("bundle.zip", false) {
        ExpandPlan::Expand { marker } => assert_eq!(marker, "bundle"),
        _ => panic!("an unmarked container must be opened"),
    }
}

#[test]
fn non_container_is_left_alone() {
    match expand_decision("photo.jpg", false) {
        ExpandPlan::NotContainer => {}
        _ => panic!("only zip files are containers"),
    }
}

#[test]
fn container_entries_are_flattened() {
    match entry_action("bundle", "art/page/1.png", false) {
        EntryAction::Extract { out_name } => assert_eq!(out_name, "bundle.art.page.1.png"),
        _ => panic!("ordinary entries are extracted"),
    }
}

#[test]
fn directories_and_layered_sources_are_ignored() {
    match entry_action("bundle", "art/", true) {
        EntryAction::Ignore => {}
        _ => panic!("directory entries contribute nothing"),
    }
    match entry_action("bundle", "art/source.psd", false) {
        EntryAction::Ignore => {}
        _ => panic!("layered sources are denylisted"),
    }
    // A hidden `.psd` has no extension at all, so it is not denylisted.
    match entry_action("bundle", "art/.psd", false) {
        EntryAction::Extract { out_name } => assert_eq!(out_name, "bundle.art..psd"),
        _ => panic!("a hidden entry has no extension and is extracted"),
    }
}
