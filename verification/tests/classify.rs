use fanbox_archive::cache::ImageCache;
use fanbox_archive::files::{collect_files, get_thumb, ClassifiedFile};
use fanbox_archive::utils::{DefinedFile, FileType};

fn file(path: &str) -> DefinedFile {
    DefinedFile::new(path.to_string(), FileType::File)
}

#[test]
fn files_are_classified_by_extension() {
    let mut cache = ImageCache::new(false);
    let entries = vec![file("p/c.txt"), file("p/a.jpg"), file("p/b.mp4"), file("p/.hidden")];
    let out = collect_files(&entries, &mut cache);
    // Sorted by file name; the hidden entry is gone.
    assert_eq!(out.len(), 3);
    match &out[0] {
        ClassifiedFile::Image { path, filename, width, height } => {
            assert_eq!(path, "p/a.jpg");
            assert_eq!(filename, "a.jpg");
            // The file does not exist, so probing fell back to zero.
            assert_eq!((*width, *height), (0, 0));
        }
        _ => panic!("a.jpg must classify as an image"),
    }
    match &out[1] {
        ClassifiedFile::Video { filename, .. } => assert_eq!(filename, "b.mp4"),
        _ => panic!("b.mp4 must classify as a video"),
    }
    match &out[2] {
        ClassifiedFile::Other { filename, .. } => assert_eq!(filename, "c.txt"),
        _ => panic!("c.txt must classify as a plain file"),
    }
}

#[test]
fn probed_dimensions_are_cached_once() {
    let mut cache = ImageCache::new(false);
    let entries = vec![file("p/a.jpg")];
    collect_files(&entries, &mut cache);
    assert_eq!(cache.get(&"p/a.jpg".to_string()), Some((0, 0)));
    // A second classification of the same path is a cache hit and leaves a
    // single entry behind.
    collect_files(&entries, &mut cache);
    assert_eq!(cache.entries().len(), 1);
}

#[test]
fn racing_same_path_inserts_collapse_to_one_entry() {
    let mut cache = ImageCache::new(false);
    cache.insert("p/a.jpg".to_string(), (640, 480));
    cache.insert("p/a.jpg".to_string(), (640, 480));
    assert_eq!(cache.entries().len(), 1);
    assert_eq!(cache.get(&"p/a.jpg".to_string()), Some((640, 480)));
}

#[test]
fn bypass_disables_reads_and_writes() {
    let mut cache = ImageCache::new(true);
    cache.insert("p/a.jpg".to_string(), (640, 480));
    assert_eq!(cache.get(&"p/a.jpg".to_string()), None);
    assert_eq!(cache.entries().len(), 0);
}

#[test]
fn snapshot_round_trip() {
    let mut cache = ImageCache::new(false);
    cache.insert("a".to_string(), (1, 2));
    cache.insert("b".to_string(), (3, 4));
    let stored: Vec<(String, (u32, u32))> = cache.entries().clone();
    let reloaded = ImageCache::from_entries(stored, false);
    assert_eq!(reloaded.get(&"a".to_string()), Some((1, 2)));
    assert_eq!(reloaded.get(&"b".to_string()), Some((3, 4)));
}

#[test]
fn thumbnail_is_smallest_image_name() {
    let files = vec![
        ClassifiedFile::Video { path: "v".to_string(), filename: "a.mp4".to_string() },
        ClassifiedFile::Image {
            path: "p2".to_string(),
            filename: "b.png".to_string(),
            width: 1,
            height: 1,
        },
        ClassifiedFile::Image {
            path: "p1".to_string(),
            filename: "a.png".to_string(),
            width: 1,
            height: 1,
        },
    ];
    assert_eq!(get_thumb(&files), Some("p1".to_string()));
}

#[test]
fn thumbnail_ties_keep_the_first_comer() {
    let files = vec![
        ClassifiedFile::Image {
            path: "first".to_string(),
            filename: "a.png".to_string(),
            width: 1,
            height: 1,
        },
        ClassifiedFile::Image {
            path: "second".to_string(),
            filename: "a.png".to_string(),
            width: 1,
            height: 1,
        },
    ];
    assert_eq!(get_thumb(&files), Some("first".to_string()));
}

#[test]
fn thumbnail_ties_on_empty_names_keep_the_first_comer() {
    let files = vec![
        ClassifiedFile::Image {
            path: "first".to_string(),
            filename: "".to_string(),
            width: 1,
            height: 1,
        },
        ClassifiedFile::Image {
            path: "second".to_string(),
            filename: "".to_string(),
            width: 1,
            height: 1,
        },
    ];
    assert_eq!(get_thumb(&files), Some("first".to_string()));
}

#[test]
fn cache_hit_leaves_the_cache_untouched() {
    let mut cache = ImageCache::new(false);
    cache.insert("p/a.jpg".to_string(), (640, 480));
    let entries = vec![file("p/a.jpg")];
    let out = collect_files(&entries, &mut cache);
    match &out[0] {
        ClassifiedFile::Image { width, height, .. } => assert_eq!((*width, *height), (640, 480)),
        _ => panic!("a.jpg must classify as an image"),
    }
    assert_eq!(cache.entries().len(), 1);
    assert_eq!(cache.get(&"p/a.jpg".to_string()), Some((640, 480)));
}

#[test]
fn no_image_means_no_thumbnail() {
    let files = vec![ClassifiedFile::Video { path: "v".to_string(), filename: "a.mp4".to_string() }];
    assert_eq!(get_thumb(&files), None);
}
