use fanbox_archive::author::archive_author;
use fanbox_archive::cache::ImageCache;
use fanbox_archive::config::{Config, LogLevel};
use fanbox_archive::error::ArchiveError;
use fanbox_archive::post::{archive_posts_files, date_and_name, PostDir};
use fanbox_archive::utils::{DefinedFile, FileType};

fn file(path: &str) -> DefinedFile {
    DefinedFile::new(path.to_string(), FileType::File)
}

#[test]
fn folder_name_splits_into_date_and_title() {
    let (date, title) = date_and_name("2024-01-02-hello").unwrap();
    assert_eq!((date.year, date.month, date.day), (2024, 1, 2));
    assert_eq!(title, "hello");
}

#[test]
fn malformed_name_is_fatal_for_the_post() {
    assert_eq!(date_and_name("not-a-date-title").unwrap_err(), ArchiveError::MalformedName);
    assert_eq!(date_and_name("short").unwrap_err(), ArchiveError::MalformedName);
    assert_eq!(date_and_name("2024-13-01-x").unwrap_err(), ArchiveError::MalformedName);
    assert_eq!(date_and_name("2024-02-30-x").unwrap_err(), ArchiveError::MalformedName);
    assert_eq!(date_and_name("2023-02-29-x").unwrap_err(), ArchiveError::MalformedName);
}

#[test]
fn leap_day_parses_in_a_leap_year() {
    let (date, title) = date_and_name("2024-02-29-leap day").unwrap();
    assert_eq!((date.year, date.month, date.day), (2024, 2, 29));
    assert_eq!(title, "leap day");
}

#[test]
fn posts_sort_ascending_and_author_lists_descending() {
    let author = DefinedFile::new("input/alice".to_string(), FileType::Folder);
    let dirs = vec![
        PostDir {
            name: "2024-01-05-world".to_string(),
            entries: vec![file("input/alice/2024-01-05-world/b.mp4")],
        },
        PostDir {
            name: "2024-01-02-hello".to_string(),
            entries: vec![file("input/alice/2024-01-02-hello/a.jpg")],
        },
    ];
    let mut cache = ImageCache::new(false);
    let (posts, links) = archive_posts_files(&author, &dirs, &mut cache).unwrap();
    assert_eq!(posts.len(), 2);
    // Ascending by date: the earliest post first.
    assert_eq!(posts[0].title, "hello");
    assert_eq!(posts[1].title, "world");
    assert_eq!(posts[0].id, "8031966e45ce3443");
    assert_eq!(posts[0].thumb, Some("alice/8031966e45ce3443/a.jpg".to_string()));
    assert_eq!(posts[1].thumb, None);
    // Links carry the original source and the archive-relative place.
    assert_eq!(links.len(), 2);
    assert_eq!(links[0].source, "input/alice/2024-01-05-world/b.mp4");
    assert_eq!(links[0].dest, "alice/6ab27114ffef1b8e/b.mp4");

    let rec = archive_author(&author, &posts);
    assert_eq!(rec.id, "alice");
    assert_eq!(rec.name, "alice");
    // The thumbnail comes from the earliest post...
    assert_eq!(rec.thumb, Some("alice/8031966e45ce3443/a.jpg".to_string()));
    // ...while the summaries list newest first.
    assert_eq!(rec.posts.len(), 2);
    assert_eq!(rec.posts[0].title, "world");
    assert_eq!(rec.posts[1].title, "hello");
    assert_eq!(rec.posts[1].files, 1);
}

#[test]
fn one_malformed_post_fails_the_author() {
    let author = DefinedFile::new("input/alice".to_string(), FileType::Folder);
    let dirs = vec![
        PostDir { name: "2024-01-02-hello".to_string(), entries: vec![] },
        PostDir { name: "not-a-date-title".to_string(), entries: vec![] },
    ];
    let mut cache = ImageCache::new(false);
    let err = archive_posts_files(&author, &dirs, &mut cache).unwrap_err();
    assert_eq!(err, ArchiveError::MalformedName);
}

#[test]
fn log_level_follows_flags() {
    let base = Config {
        input: "in".to_string(),
        output: "out".to_string(),
        force: false,
        quiet: false,
        verbose: false,
    };
    assert_eq!(base.log_level(), LogLevel::Info);
    let quiet = Config { quiet: true, ..base };
    assert_eq!(quiet.log_level(), LogLevel::Error);
    let loud = Config { quiet: true, verbose: true, ..quiet };
    assert_eq!(loud.log_level(), LogLevel::Debug);
}
