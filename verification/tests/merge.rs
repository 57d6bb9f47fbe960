use fanbox_archive::author::{archive_author, AuthorsEntry, PostSummary};
use fanbox_archive::cache::ImageCache;
use fanbox_archive::output::{build, AuthorWork, OutputOperation};
use fanbox_archive::post::{archive_posts_files, Date, PostDir};
use fanbox_archive::utils::{DefinedFile, FileType};

fn file(path: &str) -> DefinedFile {
    DefinedFile::new(path.to_string(), FileType::File)
}

fn alice_dirs() -> Vec<PostDir> {
    vec![
        PostDir {
            name: "2024-01-02-hello".to_string(),
            entries: vec![file("input/alice/2024-01-02-hello/a.jpg")],
        },
        PostDir {
            name: "2024-01-05-world".to_string(),
            entries: vec![file("input/alice/2024-01-05-world/b.mp4")],
        },
    ]
}

fn alice_work(old_posts: Vec<PostSummary>) -> AuthorWork {
    let author = DefinedFile::new("input/alice".to_string(), FileType::Folder);
    let mut cache = ImageCache::new(false);
    let (posts, links) = archive_posts_files(&author, &alice_dirs(), &mut cache).unwrap();
    let record = archive_author(&author, &posts);
    AuthorWork { author: record, posts, links, old_posts }
}

fn written(ops: &[OutputOperation], path: &str) -> String {
    for op in ops {
        if let OutputOperation::WriteJson { path: p, content } = op {
            if p == path {
                return content.clone();
            }
        }
    }
    panic!("no document written at {}", path);
}

#[test]
fn fresh_run_materializes_everything() {
    let ops = build(vec![alice_work(vec![])], &vec![]);
    assert_eq!(
        written(&ops, "authors.json"),
        "[{\"name\":\"alice\",\"thumb\":\"alice/8031966e45ce3443/a.jpg\"}]"
    );
    // author.json lists posts newest first.
    assert_eq!(
        written(&ops, "alice/author.json"),
        "[{\"id\":\"6ab27114ffef1b8e\",\"author\":\"alice\",\"name\":\"world\",\"date\":\"2024-01-05\",\"thumb\":null,\"files\":1},{\"id\":\"8031966e45ce3443\",\"author\":\"alice\",\"name\":\"hello\",\"date\":\"2024-01-02\",\"thumb\":\"alice/8031966e45ce3443/a.jpg\",\"files\":1}]"
    );
    assert_eq!(
        written(&ops, "alice/8031966e45ce3443/post.json"),
        "{\"name\":\"hello\",\"date\":\"2024-01-02\",\"images\":[{\"filename\":\"a.jpg\",\"width\":0,\"height\":0}]}"
    );
    assert_eq!(
        written(&ops, "alice/6ab27114ffef1b8e/post.json"),
        "{\"name\":\"world\",\"date\":\"2024-01-05\",\"videos\":[{\"filename\":\"b.mp4\"}]}"
    );
    let links: Vec<&OutputOperation> = ops
        .iter()
        .filter(|op| matches!(op, OutputOperation::LinkFile { .. }))
        .collect();
    assert_eq!(links.len(), 2);
    match links[0] {
        OutputOperation::LinkFile { source, dest } => {
            assert_eq!(source, "input/alice/2024-01-02-hello/a.jpg");
            assert_eq!(dest, "alice/8031966e45ce3443/a.jpg");
        }
        _ => unreachable!(),
    }
}

#[test]
fn archived_posts_are_not_rewritten_and_new_ones_append() {
    // An earlier run recorded ("alice", "hello"); this run discovers hello
    // again plus a new post.
    let old = vec![PostSummary {
        id: "8031966e45ce3443".to_string(),
        author: "alice".to_string(),
        title: "hello".to_string(),
        date: Date { year: 2024, month: 1, day: 2 },
        thumb: Some("alice/8031966e45ce3443/a.jpg".to_string()),
        files: 1,
    }];
    let author = DefinedFile::new("input/alice".to_string(), FileType::Folder);
    let dirs = vec![
        PostDir {
            name: "2024-01-02-hello".to_string(),
            entries: vec![file("input/alice/2024-01-02-hello/a.jpg")],
        },
        PostDir {
            name: "2024-01-07-newpost".to_string(),
            entries: vec![file("input/alice/2024-01-07-newpost/c.txt")],
        },
    ];
    let mut cache = ImageCache::new(false);
    let (posts, links) = archive_posts_files(&author, &dirs, &mut cache).unwrap();
    let record = archive_author(&author, &posts);
    let ops = build(vec![AuthorWork { author: record, posts, links, old_posts: old }], &vec![]);

    // The stored entry keeps its place; newpost is appended after it.
    assert_eq!(
        written(&ops, "alice/author.json"),
        "[{\"id\":\"8031966e45ce3443\",\"author\":\"alice\",\"name\":\"hello\",\"date\":\"2024-01-02\",\"thumb\":\"alice/8031966e45ce3443/a.jpg\",\"files\":1},{\"id\":\"1c4e0bc26a1532ab\",\"author\":\"alice\",\"name\":\"newpost\",\"date\":\"2024-01-07\",\"thumb\":null,\"files\":1}]"
    );
    // hello gets no post.json and no links; newpost gets both.
    for op in &ops {
        match op {
            OutputOperation::WriteJson { path, .. } => {
                assert!(!path.contains("8031966e45ce3443/post.json"));
            }
            OutputOperation::LinkFile { dest, .. } => {
                assert!(dest.starts_with("alice/1c4e0bc26a1532ab/"));
            }
            _ => {}
        }
    }
    let _ = written(&ops, "alice/1c4e0bc26a1532ab/post.json");
}

#[test]
fn rerun_on_unchanged_input_is_byte_identical() {
    // First run against an empty target.
    let ops1 = build(vec![alice_work(vec![])], &vec![]);
    let authors1 = written(&ops1, "authors.json");
    let author1 = written(&ops1, "alice/author.json");

    // Second run: the target now holds what the first run wrote.
    let stored: Vec<PostSummary> =
        alice_work(vec![]).author.posts.iter().map(|s| s.duplicate()).collect();
    let old_list = vec![AuthorsEntry {
        name: "alice".to_string(),
        thumb: Some("alice/8031966e45ce3443/a.jpg".to_string()),
    }];
    let ops2 = build(vec![alice_work(stored)], &old_list);

    assert_eq!(written(&ops2, "authors.json"), authors1);
    assert_eq!(written(&ops2, "alice/author.json"), author1);
    // Nothing beyond the author list, the author folder and its author.json:
    // no post is rewritten, no link is re-laid.
    assert_eq!(ops2.len(), 3);
}

#[test]
fn authors_sort_by_name_in_the_listing() {
    let make = |name: &str, date: &str| {
        let author = DefinedFile::new(format!("input/{}", name), FileType::Folder);
        let dirs = vec![PostDir { name: format!("{}-p of {}", date, name), entries: vec![] }];
        let mut cache = ImageCache::new(false);
        let (posts, links) = archive_posts_files(&author, &dirs, &mut cache).unwrap();
        let record = archive_author(&author, &posts);
        AuthorWork { author: record, posts, links, old_posts: vec![] }
    };
    let ops = build(vec![make("zoe", "2024-01-02"), make("bob", "2024-01-03")], &vec![]);
    let listing = written(&ops, "authors.json");
    assert!(listing.find("bob").unwrap() < listing.find("zoe").unwrap());
}

#[test]
fn empty_categories_are_omitted() {
    let author = DefinedFile::new("input/alice".to_string(), FileType::Folder);
    let dirs = vec![PostDir { name: "2024-01-02-empty".to_string(), entries: vec![] }];
    let mut cache = ImageCache::new(false);
    let (posts, links) = archive_posts_files(&author, &dirs, &mut cache).unwrap();
    let record = archive_author(&author, &posts);
    let id = posts[0].id.clone();
    let ops = build(
        vec![AuthorWork { author: record, posts, links, old_posts: vec![] }],
        &vec![],
    );
    let doc = written(&ops, &format!("alice/{}/post.json", id));
    assert_eq!(doc, "{\"name\":\"empty\",\"date\":\"2024-01-02\"}");
}

#[test]
fn titles_are_json_escaped() {
    let author = DefinedFile::new("input/alice".to_string(), FileType::Folder);
    let dirs = vec![PostDir { name: "2024-01-02-a \"q\" \\ b".to_string(), entries: vec![] }];
    let mut cache = ImageCache::new(false);
    let (posts, links) = archive_posts_files(&author, &dirs, &mut cache).unwrap();
    let record = archive_author(&author, &posts);
    let id = posts[0].id.clone();
    let ops = build(
        vec![AuthorWork { author: record, posts, links, old_posts: vec![] }],
        &vec![],
    );
    let doc = written(&ops, &format!("alice/{}/post.json", id));
    assert!(doc.starts_with("{\"name\":\"a \\\"q\\\" \\\\ b\","));
}
