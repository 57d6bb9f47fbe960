//! Media classification: each file of a post becomes an image (with cached
//! dimensions), a video, or a plain file, and the classified list is sorted
//! by file name.

use vstd::prelude::*;

use crate::cache::ImageCache;
use crate::text::{lemma_lex_lt_asymmetric, lemma_lex_lt_irreflexive, lex_le, lex_lt, str_le};
use crate::utils::{name_of, spec_parse_dir, DefinedFile, FileType};

verus! {

/// What the media-type table says about a file name: a known image, a known
/// video, some other known type, or nothing at all.
#[derive(Clone, Copy, Debug, PartialEq, Eq, Structural)]
pub enum MediaKind {
    Image,
    Video,
    Other,
    Unknown,
}

/// The media-type class of a path, as the extension table decides it. The
/// table is fixed, so the class is a function of the path alone.
pub uninterp spec fn media_kind_of(path: Seq<char>) -> int;

/// Decodes the named class into a `MediaKind`.
pub open spec fn kind_of_code(k: int) -> MediaKind {
    if k == 1 {
        MediaKind::Image
    } else if k == 2 {
        MediaKind::Video
    } else if k == 3 {
        MediaKind::Other
    } else {
        MediaKind::Unknown
    }
}

/// Relies on `mime_guess::MimeGuess::from_path`: the guess reads only the
/// path's extension against a built-in table, so the media kind is a pure
/// function of the path.
#[verifier::external_body]
pub fn guess_media_kind(path: &str) -> (k: MediaKind)
    ensures
        k == kind_of_code(media_kind_of(path@)),
{
    match mime_guess::MimeGuess::from_path(std::path::Path::new(path)).first() {
        None => MediaKind::Unknown,
        Some(m) => {
            if m.type_() == mime_guess::mime::IMAGE {
                MediaKind::Image
            } else if m.type_() == mime_guess::mime::VIDEO {
                MediaKind::Video
            } else {
                MediaKind::Other
            }
        },
    }
}

/// Relies on `imagesize::size`: it opens the file at `path` and reads its
/// header for the pixel dimensions. The result depends on what is on disk,
/// so nothing is promised of it.
#[verifier::external_body]
pub fn probe_dimensions(path: &str) -> (r: Option<(u32, u32)>) {
    match imagesize::size(std::path::Path::new(path)) {
        Ok(s) => Some((s.width as u32, s.height as u32)),
        Err(_) => None,
    }
}

/// A file of a post after classification. `path` is where the file's bytes
/// live; `filename` is its name inside the post.
#[derive(Debug)]
pub enum ClassifiedFile {
    Image { path: String, filename: String, width: u32, height: u32 },
    Video { path: String, filename: String },
    Other { path: String, filename: String },
}

pub open spec fn cf_filename(c: ClassifiedFile) -> Seq<char> {
    match c {
        ClassifiedFile::Image { filename, .. } => filename@,
        ClassifiedFile::Video { filename, .. } => filename@,
        ClassifiedFile::Other { filename, .. } => filename@,
    }
}

pub open spec fn cf_path(c: ClassifiedFile) -> Seq<char> {
    match c {
        ClassifiedFile::Image { path, .. } => path@,
        ClassifiedFile::Video { path, .. } => path@,
        ClassifiedFile::Other { path, .. } => path@,
    }
}

impl ClassifiedFile {
    /// The file's name inside its post.
    pub fn filename(&self) -> (r: &String)
        ensures
            r@ == cf_filename(*self),
    {
        match self {
            ClassifiedFile::Image { filename, .. } => filename,
            ClassifiedFile::Video { filename, .. } => filename,
            ClassifiedFile::Other { filename, .. } => filename,
        }
    }

    /// The path the file's bytes live at.
    pub fn path(&self) -> (r: &String)
        ensures
            r@ == cf_path(*self),
    {
        match self {
            ClassifiedFile::Image { path, .. } => path,
            ClassifiedFile::Video { path, .. } => path,
            ClassifiedFile::Other { path, .. } => path,
        }
    }

    /// An explicit deep copy; the fields are plain values.
    pub fn duplicate(&self) -> (r: Self)
        ensures
            r == *self,
    {
        match self {
            ClassifiedFile::Image { path, filename, width, height } => ClassifiedFile::Image {
                path: path.clone(),
                filename: filename.clone(),
                width: *width,
                height: *height,
            },
            ClassifiedFile::Video { path, filename } => ClassifiedFile::Video {
                path: path.clone(),
                filename: filename.clone(),
            },
            ClassifiedFile::Other { path, filename } => ClassifiedFile::Other {
                path: path.clone(),
                filename: filename.clone(),
            },
        }
    }

    /// The same classification with the stored path replaced.
    pub fn with_path(self, path: String) -> (r: Self)
        ensures
            cf_path(r) == path@,
            cf_filename(r) == cf_filename(self),
            r is Image <==> self is Image,
            r is Video <==> self is Video,
            r is Other <==> self is Other,
            self matches ClassifiedFile::Image { width, height, .. } ==> (r matches
                ClassifiedFile::Image { width: w2, height: h2, .. } && w2 == width && h2
                == height),
    {
        match self {
            ClassifiedFile::Image { filename, width, height, .. } => ClassifiedFile::Image {
                path,
                filename,
                width,
                height,
            },
            ClassifiedFile::Video { filename, .. } => ClassifiedFile::Video { path, filename },
            ClassifiedFile::Other { filename, .. } => ClassifiedFile::Other { path, filename },
        }
    }
}

/// Insertion of one classified file into a name-sorted run: it goes after
/// every file whose name is not greater, so equal names keep their first
/// comer in front.
pub open spec fn spec_insert_file(x: ClassifiedFile, s: Seq<ClassifiedFile>) -> Seq<ClassifiedFile>
    decreases s.len(),
{
    if s.len() == 0 {
        seq![x]
    } else if lex_le(cf_filename(s[0]), cf_filename(x)) {
        seq![s[0]] + spec_insert_file(x, s.drop_first())
    } else {
        seq![x] + s
    }
}

/// The stable sort of classified files by file name.
pub open spec fn sort_files(s: Seq<ClassifiedFile>) -> Seq<ClassifiedFile>
    decreases s.len(),
{
    if s.len() == 0 {
        Seq::empty()
    } else {
        spec_insert_file(s.last(), sort_files(s.drop_last()))
    }
}

/// Sorted by file name: no file's name is lexicographically below its
/// predecessor's.
pub open spec fn files_sorted(s: Seq<ClassifiedFile>) -> bool {
    forall|i: int|
        0 <= i < s.len() - 1 ==> !lex_lt(cf_filename(s[i + 1]), cf_filename(#[trigger] s[i]))
}

/// A name that is not greater never sits strictly above: the insertion
/// comparison, turned around.
proof fn lemma_le_gives_not_above(a: Seq<char>, b: Seq<char>)
    requires
        lex_le(a, b),
    ensures
        !lex_lt(b, a),
{
    if a == b {
        lemma_lex_lt_irreflexive(a);
    } else {
        lemma_lex_lt_asymmetric(a, b);
    }
}

proof fn lemma_insert_file_keeps_sorted(x: ClassifiedFile, s: Seq<ClassifiedFile>)
    requires
        files_sorted(s),
    ensures
        files_sorted(spec_insert_file(x, s)),
    decreases s.len(),
{
    let r = spec_insert_file(x, s);
    if s.len() == 0 {
    } else if lex_le(cf_filename(s[0]), cf_filename(x)) {
        let t = s.drop_first();
        assert(forall|m: int| 0 <= m < t.len() ==> (#[trigger] t[m]) == s[m + 1]);
        assert(files_sorted(t)) by {
            assert(forall|i: int|
                0 <= i < t.len() - 1 ==> (#[trigger] t[i]) == s[i + 1] && t[i + 1] == s[i + 2]);
        }
        lemma_insert_file_keeps_sorted(x, t);
        let rt = spec_insert_file(x, t);
        assert(r =~= seq![s[0]] + rt);
        assert(!lex_lt(cf_filename(rt[0]), cf_filename(s[0]))) by {
            if t.len() == 0 {
                assert(rt[0] == x);
                lemma_le_gives_not_above(cf_filename(s[0]), cf_filename(x));
            } else if lex_le(cf_filename(t[0]), cf_filename(x)) {
                assert(rt[0] == t[0]);
                assert(t[0] == s[1]);
            } else {
                assert(rt[0] == x);
                lemma_le_gives_not_above(cf_filename(s[0]), cf_filename(x));
            }
        }
        assert forall|i: int|
            0 <= i < r.len() - 1 implies !lex_lt(
            cf_filename(r[i + 1]),
            cf_filename(#[trigger] r[i]),
        ) by {
            if i == 0 {
                assert(r[0] == s[0]);
                assert(r[1] == rt[0]);
            } else {
                assert(r[i] == rt[i - 1]);
                assert(r[i + 1] == rt[i]);
                assert(!lex_lt(cf_filename(rt[i]), cf_filename(rt[i - 1])));
            }
        }
    } else {
        assert(r =~= seq![x] + s);
        assert forall|i: int|
            0 <= i < r.len() - 1 implies !lex_lt(
            cf_filename(r[i + 1]),
            cf_filename(#[trigger] r[i]),
        ) by {
            if i == 0 {
                assert(r[0] == x);
                assert(r[1] == s[0]);
            } else {
                assert(r[i] == s[i - 1]);
                assert(r[i + 1] == s[i]);
                assert(!lex_lt(cf_filename(s[i]), cf_filename(s[i - 1])));
            }
        }
    }
}

/// Law: classification's output is sorted by file name, which makes the
/// order of a post's files deterministic.
pub proof fn lemma_sort_files_sorted(s: Seq<ClassifiedFile>)
    ensures
        files_sorted(sort_files(s)),
    decreases s.len(),
{
    if s.len() > 0 {
        lemma_sort_files_sorted(s.drop_last());
        lemma_insert_file_keeps_sorted(s.last(), sort_files(s.drop_last()));
    }
}

/// Inserting at the first position whose name exceeds the new one is what
/// `spec_insert_file` describes.
proof fn lemma_insert_file_at(x: ClassifiedFile, s: Seq<ClassifiedFile>, j: int)
    requires
        0 <= j <= s.len(),
        forall|k: int| 0 <= k < j ==> lex_le(cf_filename(s[k]), cf_filename(x)),
        j < s.len() ==> !lex_le(cf_filename(s[j]), cf_filename(x)),
    ensures
        spec_insert_file(x, s) == s.take(j) + seq![x] + s.skip(j),
    decreases j,
{
    if j == 0 {
        if s.len() == 0 {
            assert(spec_insert_file(x, s) =~= s.take(0) + seq![x] + s.skip(0));
        } else {
            assert(spec_insert_file(x, s) =~= s.take(0) + seq![x] + s.skip(0));
        }
    } else {
        assert(lex_le(cf_filename(s[0]), cf_filename(x)));
        let t = s.drop_first();
        assert(forall|k: int| 0 <= k < j - 1 ==> t[k] == s[k + 1]);
        lemma_insert_file_at(x, t, j - 1);
        assert(seq![s[0]] + (t.take(j - 1) + seq![x] + t.skip(j - 1)) =~= s.take(j) + seq![x]
            + s.skip(j));
    }
}

/// Inserts `x` into the name-sorted vector `v` as `spec_insert_file` says.
pub fn insert_file_sorted(v: &mut Vec<ClassifiedFile>, x: ClassifiedFile)
    ensures
        final(v)@ == spec_insert_file(x, old(v)@),
{
    let n = v.len();
    let mut j: usize = 0;
    while j < n
        invariant
            j <= n,
            n == v@.len(),
            v == old(v),
            forall|k: int| 0 <= k < j ==> lex_le(cf_filename(v@[k]), cf_filename(x)),
        decreases n - j,
    {
        if !str_le(v[j].filename().as_str(), x.filename().as_str()) {
            proof {
                lemma_insert_file_at(x, v@, j as int);
                assert(v@.insert(j as int, x) =~= v@.take(j as int) + seq![x] + v@.skip(
                    j as int,
                ));
            }
            v.insert(j, x);
            return;
        }
        j = j + 1;
    }
    proof {
        lemma_insert_file_at(x, v@, n as int);
        assert(v@.take(n as int) =~= v@);
        assert(v@.skip(n as int) =~= Seq::<ClassifiedFile>::empty());
        assert(v@ + seq![x] + Seq::<ClassifiedFile>::empty() =~= v@.push(x));
    }
    v.push(x);
}

/// One map extends another when it keeps every present pair unchanged.
pub open spec fn cache_extends(
    pre: Map<Seq<char>, (u32, u32)>,
    post: Map<Seq<char>, (u32, u32)>,
) -> bool {
    forall|k: Seq<char>| #[trigger]
        pre.contains_key(k) ==> post.contains_key(k) && post[k] == pre[k]
}

/// How one classified file relates to the directory entry it came from: the
/// paths agree, the kind follows the media-type table, and an image's
/// dimensions stand in the cache `m` (unless the cache is bypassed).
pub open spec fn entry_matches(
    f: DefinedFile,
    c: ClassifiedFile,
    m: Map<Seq<char>, (u32, u32)>,
    bypass: bool,
) -> bool {
    &&& cf_path(c) == f.path@
    &&& cf_filename(c) == name_of(f.path@)
    &&& match c {
        ClassifiedFile::Image { width, height, .. } => kind_of_code(media_kind_of(f.path@))
            is Image && (!bypass ==> m.contains_key(f.path@) && m[f.path@] == (width, height)),
        ClassifiedFile::Video { .. } => kind_of_code(media_kind_of(f.path@)) is Video,
        ClassifiedFile::Other { .. } => kind_of_code(media_kind_of(f.path@)) is Other
            || kind_of_code(media_kind_of(f.path@)) is Unknown,
    }
}

/// Classifies one file of the given kind, resolving image dimensions through
/// the cache: a hit is reused, a miss is probed (failures count as zero by
/// zero) and recorded.
pub fn handle_file_mime(kind: MediaKind, file: &DefinedFile, cache: &mut ImageCache) -> (r:
    ClassifiedFile)
    requires
        old(cache).wf(),
        kind == kind_of_code(media_kind_of(file.path@)),
    ensures
        final(cache).wf(),
        final(cache).bypass() == old(cache).bypass(),
        cache_extends(old(cache)@, final(cache)@),
        old(cache).bypass() ==> final(cache)@ == old(cache)@,
        old(cache)@.contains_key(file.path@) ==> final(cache)@ == old(cache)@,
        forall|k: Seq<char>| #[trigger] final(cache)@.contains_key(k) ==> old(
            cache,
        )@.contains_key(k) || k == file.path@,
        entry_matches(*file, r, final(cache)@, final(cache).bypass()),
{
    let filename = file.name();
    let path = file.path.clone();
    match kind {
        MediaKind::Image => {
            let (width, height) = match cache.get(&file.path) {
                Some(dims) => dims,
                None => {
                    let dims = match probe_dimensions(file.path.as_str()) {
                        Some(d) => d,
                        None => (0, 0),
                    };
                    cache.insert(file.path.clone(), dims);
                    dims
                },
            };
            ClassifiedFile::Image { path, filename, width, height }
        },
        MediaKind::Video => ClassifiedFile::Video { path, filename },
        _ => ClassifiedFile::Other { path, filename },
    }
}

/// Classifies one directory entry into `result`; folders contribute nothing.
pub fn match_file(file: &DefinedFile, result: &mut Vec<ClassifiedFile>, cache: &mut ImageCache)
    requires
        old(cache).wf(),
    ensures
        final(cache).wf(),
        final(cache).bypass() == old(cache).bypass(),
        cache_extends(old(cache)@, final(cache)@),
        old(cache).bypass() ==> final(cache)@ == old(cache)@,
        old(cache)@.contains_key(file.path@) ==> final(cache)@ == old(cache)@,
        forall|k: Seq<char>| #[trigger] final(cache)@.contains_key(k) ==> old(
            cache,
        )@.contains_key(k) || k == file.path@,
        file.ty is File ==> exists|c: ClassifiedFile|
            final(result)@ == old(result)@.push(c) && #[trigger] entry_matches(
                *file,
                c,
                final(cache)@,
                final(cache).bypass(),
            ),
        !(file.ty is File) ==> final(result)@ == old(result)@ && final(cache)@ == old(cache)@,
    {
    match file.ty {
        FileType::File => {
            let kind = guess_media_kind(file.path.as_str());
            let classified = handle_file_mime(kind, file, cache);
            result.push(classified);
        },
        _ => {},
    }
}

/// The file entries (hidden ones dropped) that classification consumes.
pub open spec fn kept_files(entries: Seq<DefinedFile>) -> Seq<DefinedFile> {
    spec_parse_dir(entries, FileType::File)
}

/// How a raw classified list relates to the directory listing it came from.
pub open spec fn collect_raw_ok(
    entries: Seq<DefinedFile>,
    raw: Seq<ClassifiedFile>,
    m: Map<Seq<char>, (u32, u32)>,
    bypass: bool,
) -> bool {
    &&& raw.len() == kept_files(entries).len()
    &&& forall|i: int| 0 <= i < raw.len() ==> #[trigger] entry_matches(
        kept_files(entries)[i],
        raw[i],
        m,
        bypass,
    )
}

/// Classifies a post folder's listing: hidden entries and folders are
/// dropped, every file is classified (filling the dimension cache on the
/// way), and the result is sorted by file name.
pub fn collect_files(entries: &Vec<DefinedFile>, cache: &mut ImageCache) -> (r: Vec<ClassifiedFile>)
    requires
        old(cache).wf(),
    ensures
        final(cache).wf(),
        final(cache).bypass() == old(cache).bypass(),
        cache_extends(old(cache)@, final(cache)@),
        old(cache).bypass() ==> final(cache)@ == old(cache)@,
        forall|k: Seq<char>| #[trigger] final(cache)@.contains_key(k) ==> old(
            cache,
        )@.contains_key(k) || (exists|t: int|
            0 <= t < kept_files(entries@).len() && (#[trigger] kept_files(entries@)[t]).path@
                == k),
        exists|raw: Seq<ClassifiedFile>|
            #[trigger] collect_raw_ok(entries@, raw, final(cache)@, final(cache).bypass())
                && r@ == sort_files(raw),
{
    let files = crate::utils::parse_dir(entries, FileType::File);
    let n = files.len();
    let mut raw: Vec<ClassifiedFile> = Vec::new();
    let mut i: usize = 0;
    while i < n
        invariant
            i <= n,
            n == files@.len(),
            files@ == kept_files(entries@),
            cache.wf(),
            cache.bypass() == old(cache).bypass(),
            cache_extends(old(cache)@, cache@),
            old(cache).bypass() ==> cache@ == old(cache)@,
            forall|k: Seq<char>| #[trigger] cache@.contains_key(k) ==> old(cache)@.contains_key(
                k,
            ) || (exists|t: int| 0 <= t < i && (#[trigger] files@[t]).path@ == k),
            raw@.len() == i,
            forall|k: int| 0 <= k < i ==> #[trigger] entry_matches(
                files@[k],
                raw@[k],
                cache@,
                cache.bypass(),
            ),
            forall|k: int| 0 <= k < i ==> files@[k].ty is File,
        decreases n - i,
    {
        let file = files[i].duplicate();
        assert(file.ty is File) by {
            lemma_parse_dir_kinds(entries@, i as int);
        }
        let ghost pre = cache@;
        match_file(&file, &mut raw, cache);
        proof {
            assert forall|k: int| 0 <= k < i + 1 implies #[trigger] entry_matches(
                files@[k],
                raw@[k],
                cache@,
                cache.bypass(),
            ) by {
                if k < i {
                    assert(entry_matches(files@[k], raw@[k], pre, cache.bypass()));
                }
            }
        }
        i = i + 1;
    }
    let mut sorted: Vec<ClassifiedFile> = Vec::new();
    let m = raw.len();
    let mut j: usize = 0;
    while j < m
        invariant
            j <= m,
            m == raw@.len(),
            sorted@ == sort_files(raw@.take(j as int)),
        decreases m - j,
    {
        assert(raw@.take(j + 1).drop_last() =~= raw@.take(j as int));
        assert(raw@.take(j + 1).last() == raw@[j as int]);
        insert_file_sorted(&mut sorted, raw[j].duplicate());
        j = j + 1;
    }
    assert(raw@.take(m as int) =~= raw@);
    proof {
        assert(collect_raw_ok(entries@, raw@, cache@, cache.bypass()));
    }
    sorted
}

/// A classified list stays valid when the cache only grows around it.
pub proof fn lemma_collect_raw_monotone(
    entries: Seq<DefinedFile>,
    raw: Seq<ClassifiedFile>,
    m1: Map<Seq<char>, (u32, u32)>,
    m2: Map<Seq<char>, (u32, u32)>,
    bypass: bool,
)
    requires
        collect_raw_ok(entries, raw, m1, bypass),
        cache_extends(m1, m2),
    ensures
        collect_raw_ok(entries, raw, m2, bypass),
{
    assert forall|i: int| 0 <= i < raw.len() implies #[trigger] entry_matches(
        kept_files(entries)[i],
        raw[i],
        m2,
        bypass,
    ) by {
        assert(entry_matches(kept_files(entries)[i], raw[i], m1, bypass));
    }
}

/// Every entry `spec_parse_dir` keeps under a `File` filter is a file.
proof fn lemma_parse_dir_kinds(entries: Seq<DefinedFile>, i: int)
    requires
        0 <= i < spec_parse_dir(entries, FileType::File).len(),
    ensures
        spec_parse_dir(entries, FileType::File)[i].ty is File,
    decreases entries.len(),
{
    if entries.len() > 0 {
        let rest = spec_parse_dir(entries.drop_last(), FileType::File);
        if i < rest.len() {
            lemma_parse_dir_kinds(entries.drop_last(), i);
        }
    }
}

/// The running fold of the thumbnail choice: the smallest image file name
/// seen so far and the path of its image; ties keep the first comer.
pub open spec fn spec_thumb_state(files: Seq<ClassifiedFile>) -> (Seq<char>, Option<Seq<char>>)
    decreases files.len(),
{
    if files.len() == 0 {
        (Seq::empty(), None::<Seq<char>>)
    } else {
        let prev = spec_thumb_state(files.drop_last());
        match files.last() {
            ClassifiedFile::Image { path, filename, .. } => {
                if prev.1 is None || lex_lt(filename@, prev.0) {
                    (filename@, Some(path@))
                } else {
                    prev
                }
            },
            _ => prev,
        }
    }
}

/// The post thumbnail: the path of the image with the lexicographically
/// smallest file name, if any image is present.
pub open spec fn spec_get_thumb(files: Seq<ClassifiedFile>) -> Option<Seq<char>> {
    spec_thumb_state(files).1
}

/// Law: the thumbnail choice is the image with the lexicographically
/// smallest file name — there is a thumbnail exactly when there is an
/// image, it is some image's path, and no image's name is strictly below
/// the chosen one. Ties by name keep the first comer: an image whose name
/// equals the best seen so far never replaces it.
pub proof fn lemma_thumbnail_is_smallest_image(files: Seq<ClassifiedFile>)
    ensures
        spec_thumb_state(files).1 is None <==> (forall|j: int|
            0 <= j < files.len() ==> !((#[trigger] files[j]) is Image)),
        spec_thumb_state(files).1 is Some ==> {
            &&& exists|i: int|
                0 <= i < files.len() && (#[trigger] files[i]) is Image && Some(cf_path(files[i]))
                    == spec_thumb_state(files).1 && cf_filename(files[i]) == spec_thumb_state(
                    files,
                ).0
            &&& forall|j: int|
                0 <= j < files.len() && (#[trigger] files[j]) is Image ==> !lex_lt(
                    cf_filename(files[j]),
                    spec_thumb_state(files).0,
                )
        },
    decreases files.len(),
{
    if files.len() > 0 {
        let prev = files.drop_last();
        assert(forall|j: int| 0 <= j < prev.len() ==> (#[trigger] prev[j]) == files[j]);
        lemma_thumbnail_is_smallest_image(prev);
        let st_prev = spec_thumb_state(prev);
        let st = spec_thumb_state(files);
        match files.last() {
            ClassifiedFile::Image { path, filename, .. } => {
                assert(files[files.len() - 1] is Image);
                if st_prev.1 is None {
                    assert(st == (filename@, Some(path@)));
                    assert(files[files.len() - 1] is Image && Some(
                        cf_path(files[files.len() - 1]),
                    ) == st.1 && cf_filename(files[files.len() - 1]) == st.0);
                    assert forall|j: int|
                        0 <= j < files.len() && (#[trigger] files[j]) is Image implies !lex_lt(
                        cf_filename(files[j]),
                        st.0,
                    ) by {
                        if j < files.len() - 1 {
                            assert(prev[j] is Image);
                        } else {
                            lemma_lex_lt_irreflexive(filename@);
                        }
                    }
                } else {
                    assert(st_prev.1 is Some);
                    if lex_lt(filename@, st_prev.0) {
                        assert(st == (filename@, Some(path@)));
                        assert forall|j: int|
                            0 <= j < files.len() && (#[trigger] files[j]) is Image implies !lex_lt(
                            cf_filename(files[j]),
                            st.0,
                        ) by {
                            if j < files.len() - 1 {
                                assert(prev[j] is Image);
                                assert(!lex_lt(cf_filename(prev[j]), st_prev.0));
                                if lex_lt(cf_filename(files[j]), filename@) {
                                    crate::text::lemma_lex_lt_trans(
                                        cf_filename(files[j]),
                                        filename@,
                                        st_prev.0,
                                    );
                                }
                            } else {
                                lemma_lex_lt_irreflexive(filename@);
                            }
                        }
                        assert(files[files.len() - 1] is Image && Some(
                            cf_path(files[files.len() - 1]),
                        ) == st.1 && cf_filename(files[files.len() - 1]) == st.0);
                    } else {
                        assert(st == st_prev);
                        let i = choose|i: int|
                            0 <= i < prev.len() && #[trigger] prev[i] is Image && Some(
                                cf_path(prev[i]),
                            ) == st_prev.1 && cf_filename(prev[i]) == st_prev.0;
                        assert(files[i] is Image && Some(cf_path(files[i])) == st.1
                            && cf_filename(files[i]) == st.0);
                        assert forall|j: int|
                            0 <= j < files.len() && (#[trigger] files[j]) is Image implies !lex_lt(
                            cf_filename(files[j]),
                            st.0,
                        ) by {
                            if j < files.len() - 1 {
                                assert(prev[j] is Image);
                                assert(!lex_lt(cf_filename(prev[j]), st_prev.0));
                            } else {
                                assert(cf_filename(files[j]) == filename@);
                                assert(!lex_lt(filename@, st_prev.0));
                            }
                        }
                    }
                }
            },
            _ => {
                assert(st == st_prev);
                if st.1 is Some {
                    let i = choose|i: int|
                        0 <= i < prev.len() && #[trigger] prev[i] is Image && Some(
                            cf_path(prev[i]),
                        ) == st_prev.1 && cf_filename(prev[i]) == st_prev.0;
                    assert(files[i] is Image && Some(cf_path(files[i])) == st.1 && cf_filename(
                        files[i],
                    ) == st.0);
                }
                if st.1 is Some {
                    assert forall|j: int|
                        0 <= j < files.len() && (#[trigger] files[j]) is Image implies !lex_lt(
                        cf_filename(files[j]),
                        st.0,
                    ) by {
                        assert(j < files.len() - 1);
                        assert(prev[j] is Image);
                        assert(!lex_lt(cf_filename(prev[j]), st_prev.0));
                    }
                } else {
                    assert forall|j: int| 0 <= j < files.len() implies !((#[trigger] files[j])
                        is Image) by {
                        if j < files.len() - 1 {
                            assert(!(prev[j] is Image));
                        }
                    }
                }
            },
        }
    }
}

pub open spec fn opt_view(o: Option<String>) -> Option<Seq<char>> {
    match o {
        Some(s) => Some(s@),
        None => None,
    }
}

/// Picks the post thumbnail from a classified list.
pub fn get_thumb(files: &Vec<ClassifiedFile>) -> (r: Option<String>)
    ensures
        opt_view(r) == spec_get_thumb(files@),
{
    let mut thumb: Option<String> = None;
    let mut newest = String::new();
    let n = files.len();
    let mut i: usize = 0;
    while i < n
        invariant
            i <= n,
            n == files@.len(),
            (newest@, opt_view(thumb)) == spec_thumb_state(files@.take(i as int)),
        decreases n - i,
    {
        assert(files@.take(i + 1).drop_last() =~= files@.take(i as int));
        assert(files@.take(i + 1).last() == files@[i as int]);
        match &files[i] {
            ClassifiedFile::Image { path, filename, .. } => {
                if thumb.is_none() || crate::text::str_lt(filename.as_str(), newest.as_str()) {
                    newest = filename.clone();
                    thumb = Some(path.clone());
                }
            },
            _ => {},
        }
        i = i + 1;
    }
    assert(files@.take(n as int) =~= files@);
    thumb
}

} // verus!
