//! Post assembly: parsing the `<date>-<title>` folder naming convention,
//! classifying each post folder's files, rewriting paths into the archive's
//! `author/id/filename` layout, and sorting posts by publication date.

use vstd::prelude::*;

use crate::cache::ImageCache;
use crate::error::ArchiveError;
use crate::files::{
    cache_extends, cf_filename, cf_path, collect_files, collect_raw_ok, get_thumb, kept_files,
    lemma_collect_raw_monotone, opt_view, sort_files, spec_get_thumb, ClassifiedFile,
};
use crate::text::push_char;
use crate::utils::{cyrb53, name_of, spec_cyrb53, DefinedFile};

verus! {

/// A calendar date; `valid_date` is its invariant.
#[derive(Clone, Copy, Debug, PartialEq, Eq, Structural)]
pub struct Date {
    pub year: u32,
    pub month: u32,
    pub day: u32,
}

pub open spec fn is_leap_year(y: int) -> bool {
    y % 4 == 0 && (y % 100 != 0 || y % 400 == 0)
}

pub open spec fn days_in_month(y: int, m: int) -> int {
    if m == 2 {
        if is_leap_year(y) {
            29
        } else {
            28
        }
    } else if m == 4 || m == 6 || m == 9 || m == 11 {
        30
    } else {
        31
    }
}

pub open spec fn valid_date(d: Date) -> bool {
    &&& 1 <= d.month <= 12
    &&& 1 <= d.day <= days_in_month(d.year as int, d.month as int)
    &&& d.year <= 9999
}

/// The date packed into one number, so that earlier dates are smaller.
pub open spec fn date_key(d: Date) -> int {
    d.year * 10000 + d.month * 100 + d.day
}

fn days_in_month_exec(y: u32, m: u32) -> (r: u32)
    requires
        1 <= m <= 12,
    ensures
        r == days_in_month(y as int, m as int),
{
    if m == 2 {
        if y % 4 == 0 && (y % 100 != 0 || y % 400 == 0) {
            29
        } else {
            28
        }
    } else if m == 4 || m == 6 || m == 9 || m == 11 {
        30
    } else {
        31
    }
}

pub open spec fn is_digit(c: char) -> bool {
    48 <= c as u32 <= 57
}

pub open spec fn digit_val(c: char) -> int {
    c as u32 - 48
}

fn digit_of(c: char) -> (r: Option<u32>)
    ensures
        match r {
            Some(v) => is_digit(c) && v == digit_val(c),
            None => !is_digit(c),
        },
{
    let u = c as u32;
    if 48 <= u && u <= 57 {
        Some(u - 48)
    } else {
        None
    }
}

/// Whether ten characters have the shape `YYYY-MM-DD`.
pub open spec fn date_text_ok(s: Seq<char>) -> bool {
    &&& s.len() == 10
    &&& is_digit(s[0])
    &&& is_digit(s[1])
    &&& is_digit(s[2])
    &&& is_digit(s[3])
    &&& s[4] == '-'
    &&& is_digit(s[5])
    &&& is_digit(s[6])
    &&& s[7] == '-'
    &&& is_digit(s[8])
    &&& is_digit(s[9])
}

/// The date ten `YYYY-MM-DD` characters denote.
pub open spec fn date_of_text(s: Seq<char>) -> Date {
    Date {
        year: (digit_val(s[0]) * 1000 + digit_val(s[1]) * 100 + digit_val(s[2]) * 10 + digit_val(
            s[3],
        )) as u32,
        month: (digit_val(s[5]) * 10 + digit_val(s[6])) as u32,
        day: (digit_val(s[8]) * 10 + digit_val(s[9])) as u32,
    }
}

/// Whether ten characters denote a real calendar date.
pub open spec fn parses_as_date(s: Seq<char>) -> bool {
    date_text_ok(s) && valid_date(date_of_text(s))
}

/// Whether a post folder name follows the convention: a ten-character date,
/// one separator character, and the title (possibly empty).
pub open spec fn well_named(name: Seq<char>) -> bool {
    name.len() >= 11 && parses_as_date(name.take(10))
}

/// Parses ten `YYYY-MM-DD` characters into a calendar date.
pub fn parse_date(text: &str) -> (r: Option<Date>)
    ensures
        r is Some <==> text@.len() == 10 && parses_as_date(text@),
        r matches Some(d) ==> d == date_of_text(text@) && valid_date(d),
{
    let n = text.unicode_len();
    if n != 10 {
        return None;
    }
    if text.get_char(4) != '-' || text.get_char(7) != '-' {
        return None;
    }
    let d0 = match digit_of(text.get_char(0)) {
        Some(v) => v,
        None => {
            return None;
        },
    };
    let d1 = match digit_of(text.get_char(1)) {
        Some(v) => v,
        None => {
            return None;
        },
    };
    let d2 = match digit_of(text.get_char(2)) {
        Some(v) => v,
        None => {
            return None;
        },
    };
    let d3 = match digit_of(text.get_char(3)) {
        Some(v) => v,
        None => {
            return None;
        },
    };
    let d5 = match digit_of(text.get_char(5)) {
        Some(v) => v,
        None => {
            return None;
        },
    };
    let d6 = match digit_of(text.get_char(6)) {
        Some(v) => v,
        None => {
            return None;
        },
    };
    let d8 = match digit_of(text.get_char(8)) {
        Some(v) => v,
        None => {
            return None;
        },
    };
    let d9 = match digit_of(text.get_char(9)) {
        Some(v) => v,
        None => {
            return None;
        },
    };
    let year = d0 * 1000 + d1 * 100 + d2 * 10 + d3;
    let month = d5 * 10 + d6;
    let day = d8 * 10 + d9;
    if month < 1 || month > 12 {
        return None;
    }
    if day < 1 || day > days_in_month_exec(year, month) {
        return None;
    }
    Some(Date { year, month, day })
}

/// Splits a post folder name into its date and its title. A name too short
/// for the convention, or whose first ten characters are not a calendar
/// date, is malformed; that is fatal for the post.
pub fn date_and_name(filename: &str) -> (r: Result<(Date, String), ArchiveError>)
    ensures
        r is Ok <==> well_named(filename@),
        r matches Ok(p) ==> {
            &&& p.0 == date_of_text(filename@.take(10))
            &&& valid_date(p.0)
            &&& p.1@ == filename@.skip(11)
        },
        r is Err ==> r == Err::<(Date, String), ArchiveError>(ArchiveError::MalformedName),
{
    let n = filename.unicode_len();
    if n < 11 {
        return Err(ArchiveError::MalformedName);
    }
    let head = filename.substring_char(0, 10);
    assert(head@ =~= filename@.take(10));
    let date = match parse_date(head) {
        Some(d) => d,
        None => {
            return Err(ArchiveError::MalformedName);
        },
    };
    let title = filename.substring_char(11, n).to_owned();
    assert(title@ =~= filename@.skip(11));
    Ok((date, title))
}

/// A post folder as the scanner found it: its name and the (recursively
/// flattened) file listing underneath it.
#[derive(Debug)]
pub struct PostDir {
    pub name: String,
    pub entries: Vec<DefinedFile>,
}

/// One symlink to create: `source` is where the bytes live, `dest` the
/// archive-relative place; `author` and `title` tie it to its post, so that
/// links of already-archived posts can be withheld.
#[derive(Debug)]
pub struct Link {
    pub source: String,
    pub dest: String,
    pub author: String,
    pub title: String,
}

/// An assembled post: its stable id, parsed title and date, classified
/// files (with archive-relative paths), and thumbnail.
#[derive(Debug)]
pub struct Post {
    pub id: String,
    pub title: String,
    pub author: String,
    pub published: Date,
    pub files: Vec<ClassifiedFile>,
    pub thumb: Option<String>,
}

/// Insertion of a post into a date-sorted run; equal dates keep the earlier
/// comer in front.
pub open spec fn spec_insert_post(x: Post, s: Seq<Post>) -> Seq<Post>
    decreases s.len(),
{
    if s.len() == 0 {
        seq![x]
    } else if date_key(s[0].published) <= date_key(x.published) {
        seq![s[0]] + spec_insert_post(x, s.drop_first())
    } else {
        seq![x] + s
    }
}

/// The stable sort of posts by publication date, earliest first.
pub open spec fn sort_posts(s: Seq<Post>) -> Seq<Post>
    decreases s.len(),
{
    if s.len() == 0 {
        Seq::empty()
    } else {
        spec_insert_post(s.last(), sort_posts(s.drop_last()))
    }
}

proof fn lemma_insert_post_at(x: Post, s: Seq<Post>, j: int)
    requires
        0 <= j <= s.len(),
        forall|k: int| 0 <= k < j ==> date_key(s[k].published) <= date_key(x.published),
        j < s.len() ==> !(date_key(s[j].published) <= date_key(x.published)),
    ensures
        spec_insert_post(x, s) == s.take(j) + seq![x] + s.skip(j),
    decreases j,
{
    if j == 0 {
        assert(spec_insert_post(x, s) =~= s.take(0) + seq![x] + s.skip(0));
    } else {
        let t = s.drop_first();
        assert(forall|k: int| 0 <= k < j - 1 ==> t[k] == s[k + 1]);
        lemma_insert_post_at(x, t, j - 1);
        assert(seq![s[0]] + (t.take(j - 1) + seq![x] + t.skip(j - 1)) =~= s.take(j) + seq![x]
            + s.skip(j));
    }
}

fn date_le(a: &Date, b: &Date) -> (r: bool)
    ensures
        r == (date_key(*a) <= date_key(*b)),
{
    let ka = (a.year as u64) * 10000 + (a.month as u64) * 100 + (a.day as u64);
    let kb = (b.year as u64) * 10000 + (b.month as u64) * 100 + (b.day as u64);
    ka <= kb
}

/// Inserts a post into a date-sorted vector as `spec_insert_post` says.
fn insert_post_sorted(v: &mut Vec<Post>, x: Post)
    ensures
        final(v)@ == spec_insert_post(x, old(v)@),
{
    let n = v.len();
    let mut j: usize = 0;
    while j < n
        invariant
            j <= n,
            n == v@.len(),
            v == old(v),
            forall|k: int| 0 <= k < j ==> date_key(v@[k].published) <= date_key(x.published),
        decreases n - j,
    {
        if !date_le(&v[j].published, &x.published) {
            proof {
                lemma_insert_post_at(x, v@, j as int);
                assert(v@.insert(j as int, x) =~= v@.take(j as int) + seq![x] + v@.skip(
                    j as int,
                ));
            }
            v.insert(j, x);
            return;
        }
        j = j + 1;
    }
    proof {
        lemma_insert_post_at(x, v@, n as int);
        assert(v@.take(n as int) + seq![x] + v@.skip(n as int) =~= v@.push(x));
    }
    v.push(x);
}

/// Non-decreasing publication dates, the order `sort_posts` promises.
pub open spec fn posts_ascending(s: Seq<Post>) -> bool {
    forall|i: int, j: int|
        0 <= i < j < s.len() ==> date_key(#[trigger] s[i].published) <= date_key(
            #[trigger] s[j].published,
        )
}

proof fn lemma_insert_post_elements(x: Post, s: Seq<Post>, k: int)
    requires
        0 <= k < spec_insert_post(x, s).len(),
    ensures
        spec_insert_post(x, s)[k] == x || exists|m: int|
            0 <= m < s.len() && s[m] == spec_insert_post(x, s)[k],
    decreases s.len(),
{
    if s.len() == 0 {
    } else if date_key(s[0].published) <= date_key(x.published) {
        if k == 0 {
            assert(s[0] == spec_insert_post(x, s)[0]);
        } else {
            lemma_insert_post_elements(x, s.drop_first(), k - 1);
            if spec_insert_post(x, s)[k] != x {
                let m = choose|m: int|
                    0 <= m < s.drop_first().len() && s.drop_first()[m] == spec_insert_post(
                        x,
                        s.drop_first(),
                    )[k - 1];
                assert(s[m + 1] == spec_insert_post(x, s)[k]);
            }
        }
    } else {
        if k > 0 {
            assert(s[k - 1] == spec_insert_post(x, s)[k]);
        }
    }
}

proof fn lemma_insert_post_sorted(x: Post, s: Seq<Post>)
    requires
        posts_ascending(s),
    ensures
        posts_ascending(spec_insert_post(x, s)),
    decreases s.len(),
{
    let r = spec_insert_post(x, s);
    if s.len() == 0 {
    } else if date_key(s[0].published) <= date_key(x.published) {
        let t = s.drop_first();
        assert(forall|m: int| 0 <= m < t.len() ==> (#[trigger] t[m]) == s[m + 1]);
        lemma_insert_post_sorted(x, t);
        let rt = spec_insert_post(x, t);
        assert forall|i: int, j: int| 0 <= i < j < r.len() implies date_key(
            #[trigger] r[i].published,
        ) <= date_key(#[trigger] r[j].published) by {
            if i == 0 {
                assert(r[0] == s[0]);
                assert(r[j] == rt[j - 1]);
                lemma_insert_post_elements(x, t, j - 1);
                if rt[j - 1] != x {
                    let m = choose|m: int| 0 <= m < t.len() && t[m] == rt[j - 1];
                    assert(date_key(s[0].published) <= date_key(s[m + 1].published));
                }
            } else {
                assert(r[i] == rt[i - 1]);
                assert(r[j] == rt[j - 1]);
            }
        }
    } else {
        assert forall|i: int, j: int| 0 <= i < j < r.len() implies date_key(
            #[trigger] r[i].published,
        ) <= date_key(#[trigger] r[j].published) by {
            if i == 0 {
                assert(r[0] == x);
                assert(r[j] == s[j - 1]);
                if j - 1 > 0 {
                    assert(date_key(s[0].published) <= date_key(s[j - 1].published));
                }
            } else {
                assert(r[i] == s[i - 1]);
                assert(r[j] == s[j - 1]);
            }
        }
    }
}

/// Law: the assembled posts stand in ascending publication order — the
/// earliest post comes first, so the first post is the thumbnail donor.
pub proof fn lemma_sort_posts_ascending(s: Seq<Post>)
    ensures
        posts_ascending(sort_posts(s)),
    decreases s.len(),
{
    if s.len() > 0 {
        lemma_sort_posts_ascending(s.drop_last());
        lemma_insert_post_sorted(s.last(), sort_posts(s.drop_last()));
    }
}

/// The archive-relative place of a post file.
pub open spec fn rel_path(author: Seq<char>, id: Seq<char>, filename: Seq<char>) -> Seq<char> {
    author + seq!['/'] + id + seq!['/'] + filename
}

/// `new` is `orig` with its path moved to `path`: same name, same kind, same
/// dimensions.
pub open spec fn file_rewritten(orig: ClassifiedFile, new: ClassifiedFile, path: Seq<char>) -> bool {
    &&& cf_path(new) == path
    &&& cf_filename(new) == cf_filename(orig)
    &&& match (orig, new) {
        (
            ClassifiedFile::Image { width: w1, height: h1, .. },
            ClassifiedFile::Image { width: w2, height: h2, .. },
        ) => w1 == w2 && h1 == h2,
        (ClassifiedFile::Video { .. }, ClassifiedFile::Video { .. }) => true,
        (ClassifiedFile::Other { .. }, ClassifiedFile::Other { .. }) => true,
        _ => false,
    }
}

/// How one assembled post's files and links relate to the raw classification
/// `raw` of its folder listing.
pub open spec fn post_files_ok(
    author_name: Seq<char>,
    dir: PostDir,
    p: Post,
    links: Seq<Link>,
    m: Map<Seq<char>, (u32, u32)>,
    bypass: bool,
    raw: Seq<ClassifiedFile>,
) -> bool {
    let sorted = sort_files(raw);
    &&& collect_raw_ok(dir.entries@, raw, m, bypass)
    &&& p.files@.len() == sorted.len()
    &&& links.len() == sorted.len()
    &&& forall|i: int| 0 <= i < sorted.len() ==> #[trigger] file_rewritten(
        sorted[i],
        p.files@[i],
        rel_path(author_name, p.id@, cf_filename(sorted[i])),
    )
    &&& forall|i: int| 0 <= i < sorted.len() ==> {
        &&& (#[trigger] links[i]).source@ == cf_path(sorted[i])
        &&& links[i].dest@ == rel_path(author_name, p.id@, cf_filename(sorted[i]))
        &&& links[i].author@ == author_name
        &&& links[i].title@ == p.title@
    }
}

/// How one assembled post relates to the folder it came from.
pub open spec fn post_ok(
    author_name: Seq<char>,
    dir: PostDir,
    p: Post,
    links: Seq<Link>,
    m: Map<Seq<char>, (u32, u32)>,
    bypass: bool,
) -> bool {
    &&& well_named(dir.name@)
    &&& p.title@ == dir.name@.skip(11)
    &&& p.published == date_of_text(dir.name@.take(10))
    &&& valid_date(p.published)
    &&& p.id@ == spec_cyrb53(p.title@)
    &&& p.author@ == author_name
    &&& opt_view(p.thumb) == spec_get_thumb(p.files@)
    &&& exists|raw: Seq<ClassifiedFile>| #[trigger] post_files_ok(
        author_name,
        dir,
        p,
        links,
        m,
        bypass,
        raw,
    )
}

/// The per-post link lists, flattened in post order.
pub open spec fn flat_links(s: Seq<Seq<Link>>) -> Seq<Link>
    decreases s.len(),
{
    if s.len() == 0 {
        Seq::empty()
    } else {
        flat_links(s.drop_last()) + s.last()
    }
}

/// How a whole author's assembled posts relate to its scanned post folders,
/// before date sorting.
pub open spec fn assembled_ok(
    author_path: Seq<char>,
    dirs: Seq<PostDir>,
    unsorted: Seq<Post>,
    linkss: Seq<Seq<Link>>,
    m: Map<Seq<char>, (u32, u32)>,
    bypass: bool,
) -> bool {
    &&& unsorted.len() == dirs.len()
    &&& linkss.len() == dirs.len()
    &&& forall|i: int| 0 <= i < dirs.len() ==> #[trigger] post_ok(
        name_of(author_path),
        dirs[i],
        unsorted[i],
        linkss[i],
        m,
        bypass,
    )
}

/// Assembles every post of one author: each post folder's name must parse
/// as `<date><separator><title>` (else the whole author fails with
/// `MalformedName`), its files are classified and rewritten into the
/// archive layout, and the posts come back sorted by date, earliest first,
/// beside the flat list of links to create.
pub fn archive_posts_files(
    author: &DefinedFile,
    posts: &Vec<PostDir>,
    cache: &mut ImageCache,
) -> (r: Result<(Vec<Post>, Vec<Link>), ArchiveError>)
    requires
        old(cache).wf(),
    ensures
        final(cache).wf(),
        final(cache).bypass() == old(cache).bypass(),
        cache_extends(old(cache)@, final(cache)@),
        old(cache).bypass() ==> final(cache)@ == old(cache)@,
        forall|k: Seq<char>| #[trigger] final(cache)@.contains_key(k) ==> old(
            cache,
        )@.contains_key(k) || (exists|i: int, t: int|
            0 <= i < posts@.len() && 0 <= t < kept_files(posts@[i].entries@).len()
                && (#[trigger] kept_files(posts@[i].entries@)[t]).path@ == k),
        r is Ok <==> (forall|i: int| 0 <= i < posts@.len() ==> #[trigger] well_named(
            posts@[i].name@,
        )),
        r is Err ==> r == Err::<(Vec<Post>, Vec<Link>), ArchiveError>(ArchiveError::MalformedName),
        r matches Ok(out) ==> exists|u: Seq<Post>, ls: Seq<Seq<Link>>|
            {
                &&& #[trigger] assembled_ok(
                    author.path@,
                    posts@,
                    u,
                    ls,
                    final(cache)@,
                    final(cache).bypass(),
                )
                &&& out.0@ == sort_posts(u)
                &&& out.1@ == flat_links(ls)
            },
{
    let author_name = author.name();
    let n = posts.len();
    let mut unsorted: Vec<Post> = Vec::new();
    let mut links: Vec<Link> = Vec::new();
    let ghost mut linkss: Seq<Seq<Link>> = Seq::empty();
    let mut i: usize = 0;
    while i < n
        invariant
            i <= n,
            n == posts@.len(),
            author_name@ == name_of(author.path@),
            cache.wf(),
            cache.bypass() == old(cache).bypass(),
            cache_extends(old(cache)@, cache@),
            old(cache).bypass() ==> cache@ == old(cache)@,
            forall|k: Seq<char>| #[trigger] cache@.contains_key(k) ==> old(cache)@.contains_key(
                k,
            ) || (exists|u: int, t: int|
                0 <= u < i && 0 <= t < kept_files(posts@[u].entries@).len()
                    && (#[trigger] kept_files(posts@[u].entries@)[t]).path@ == k),
            unsorted@.len() == i,
            linkss.len() == i,
            links@ == flat_links(linkss),
            forall|k: int| 0 <= k < i ==> #[trigger] well_named(posts@[k].name@),
            forall|k: int| 0 <= k < i ==> #[trigger] post_ok(
                name_of(author.path@),
                posts@[k],
                unsorted@[k],
                linkss[k],
                cache@,
                cache.bypass(),
            ),
        decreases n - i,
    {
        let dir = &posts[i];
        let (date, title) = match date_and_name(dir.name.as_str()) {
            Ok(p) => p,
            Err(e) => {
                return Err(e);
            },
        };
        let id = cyrb53(title.as_str());
        let mut reldir = author_name.clone();
        push_char(&mut reldir, '/');
        reldir.append(id.as_str());
        assert(reldir@ =~= author_name@ + seq!['/'] + id@);
        let ghost pre = cache@;
        let sorted_files = collect_files(&dir.entries, cache);
        proof {
            assert forall|k: Seq<char>| #[trigger] cache@.contains_key(k) implies old(
                cache,
            )@.contains_key(k) || (exists|u: int, t: int|
                0 <= u < i + 1 && 0 <= t < kept_files(posts@[u].entries@).len()
                    && (#[trigger] kept_files(posts@[u].entries@)[t]).path@ == k) by {
                if !pre.contains_key(k) {
                    let t = choose|t: int|
                        0 <= t < kept_files(dir.entries@).len() && (#[trigger] kept_files(
                            dir.entries@,
                        )[t]).path@ == k;
                    assert(kept_files(posts@[i as int].entries@)[t].path@ == k);
                }
            }
        }
        let ghost raw = choose|raw: Seq<ClassifiedFile>|
            #[trigger] collect_raw_ok(dir.entries@, raw, cache@, cache.bypass())
                && sorted_files@ == sort_files(raw);
        let m = sorted_files.len();
        let mut rewritten: Vec<ClassifiedFile> = Vec::new();
        let mut plinks: Vec<Link> = Vec::new();
        let mut j: usize = 0;
        while j < m
            invariant
                j <= m,
                m == sorted_files@.len(),
                rewritten@.len() == j,
                plinks@.len() == j,
                reldir@ == author_name@ + seq!['/'] + id@,
                forall|k: int| 0 <= k < j ==> #[trigger] file_rewritten(
                    sorted_files@[k],
                    rewritten@[k],
                    rel_path(author_name@, id@, cf_filename(sorted_files@[k])),
                ),
                forall|k: int| 0 <= k < j ==> {
                    &&& (#[trigger] plinks@[k]).source@ == cf_path(sorted_files@[k])
                    &&& plinks@[k].dest@ == rel_path(
                        author_name@,
                        id@,
                        cf_filename(sorted_files@[k]),
                    )
                    &&& plinks@[k].author@ == author_name@
                    &&& plinks@[k].title@ == title@
                },
            decreases m - j,
        {
            let f = &sorted_files[j];
            let mut relfile = reldir.clone();
            push_char(&mut relfile, '/');
            relfile.append(f.filename().as_str());
            assert(relfile@ =~= rel_path(author_name@, id@, cf_filename(sorted_files@[j as int])));
            plinks.push(
                Link {
                    source: f.path().clone(),
                    dest: relfile.clone(),
                    author: author_name.clone(),
                    title: title.clone(),
                },
            );
            rewritten.push(f.duplicate().with_path(relfile));
            j = j + 1;
        }
        let thumb = get_thumb(&rewritten);
        let ghost pl = plinks@;
        links.append(&mut plinks);
        let post = Post {
            id,
            title,
            author: author_name.clone(),
            published: date,
            files: rewritten,
            thumb,
        };
        proof {
            assert(post_files_ok(
                name_of(author.path@),
                posts@[i as int],
                post,
                pl,
                cache@,
                cache.bypass(),
                raw,
            ));
            assert(post_ok(
                name_of(author.path@),
                posts@[i as int],
                post,
                pl,
                cache@,
                cache.bypass(),
            ));
            assert forall|k: int| 0 <= k < i implies #[trigger] post_ok(
                name_of(author.path@),
                posts@[k],
                unsorted@[k],
                linkss[k],
                cache@,
                cache.bypass(),
            ) by {
                assert(post_ok(
                    name_of(author.path@),
                    posts@[k],
                    unsorted@[k],
                    linkss[k],
                    pre,
                    cache.bypass(),
                ));
                let raw0 = choose|raw0: Seq<ClassifiedFile>| #[trigger] post_files_ok(
                    name_of(author.path@),
                    posts@[k],
                    unsorted@[k],
                    linkss[k],
                    pre,
                    cache.bypass(),
                    raw0,
                );
                lemma_collect_raw_monotone(
                    posts@[k].entries@,
                    raw0,
                    pre,
                    cache@,
                    cache.bypass(),
                );
                assert(post_files_ok(
                    name_of(author.path@),
                    posts@[k],
                    unsorted@[k],
                    linkss[k],
                    cache@,
                    cache.bypass(),
                    raw0,
                ));
            }
            assert(linkss.push(pl).drop_last() =~= linkss);
            assert(flat_links(linkss.push(pl)) == flat_links(linkss) + pl);
        }
        unsorted.push(post);
        proof {
            linkss = linkss.push(pl);
        }
        i = i + 1;
    }
    let ghost full = unsorted@;
    let mut sorted_posts: Vec<Post> = Vec::new();
    let mut k: usize = 0;
    while k < n
        invariant
            k <= n,
            n == full.len(),
            unsorted@ == full.skip(k as int),
            sorted_posts@ == sort_posts(full.take(k as int)),
        decreases n - k,
    {
        let p = unsorted.remove(0);
        assert(full.skip(k as int).remove(0) =~= full.skip(k + 1));
        assert(full.take(k + 1).drop_last() =~= full.take(k as int));
        assert(full.take(k + 1).last() == full[k as int]);
        insert_post_sorted(&mut sorted_posts, p);
        k = k + 1;
    }
    assert(full.take(n as int) =~= full);
    proof {
        assert(assembled_ok(
            author.path@,
            posts@,
            full,
            linkss,
            cache@,
            cache.bypass(),
        ));
    }
    Ok((sorted_posts, links))
}

} // verus!
