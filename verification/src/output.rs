//! The output materializer. It turns assembled authors into an ordered list
//! of operations — folders to make, JSON documents to write, symlinks to
//! lay — merging with whatever an earlier run left in the target tree:
//! posts already recorded there are never written or linked again, and
//! stored entries keep their place.

use vstd::prelude::*;

use crate::author::{clone_opt_string, Author, AuthorsEntry, PostSummary};
use crate::json::{author_json, authors_json, post_json, write_author_json, write_authors_json, write_post_json};
use crate::post::{Link, Post};
use crate::text::{lex_le, str_eq, str_le};

verus! {

/// One side effect to apply against the target root. Building the list is
/// pure; applying it is the only step that touches a filesystem.
#[derive(Debug)]
pub enum OutputOperation {
    /// Ensure a directory exists (a no-op when it already does).
    MakeFolder { path: String },
    /// Write a JSON document, replacing any previous one.
    WriteJson { path: String, content: String },
    /// Lay a symlink (a no-op when the destination is already a symlink).
    LinkFile { source: String, dest: String },
}

/// The mathematical shadow of an operation.
#[verifier::ext_equal]
pub ghost enum OpView {
    MakeFolder { path: Seq<char> },
    WriteJson { path: Seq<char>, content: Seq<char> },
    LinkFile { source: Seq<char>, dest: Seq<char> },
}

impl View for OutputOperation {
    type V = OpView;

    open spec fn view(&self) -> OpView {
        match self {
            OutputOperation::MakeFolder { path } => OpView::MakeFolder { path: path@ },
            OutputOperation::WriteJson { path, content } => OpView::WriteJson {
                path: path@,
                content: content@,
            },
            OutputOperation::LinkFile { source, dest } => OpView::LinkFile {
                source: source@,
                dest: dest@,
            },
        }
    }
}

impl DeepView for OutputOperation {
    type V = OpView;

    open spec fn deep_view(&self) -> OpView {
        self.view()
    }
}

/// Everything one author contributes to a run: the assembled record, the
/// full posts, the links, and the summaries an earlier run stored in that
/// author's `author.json` (empty when there was none).
#[derive(Debug)]
pub struct AuthorWork {
    pub author: Author,
    pub posts: Vec<Post>,
    pub links: Vec<Link>,
    pub old_posts: Vec<PostSummary>,
}

/// Insertion of one author into a name-sorted run.
pub open spec fn spec_insert_work(x: AuthorWork, s: Seq<AuthorWork>) -> Seq<AuthorWork>
    decreases s.len(),
{
    if s.len() == 0 {
        seq![x]
    } else if lex_le(s[0].author.name@, x.author.name@) {
        seq![s[0]] + spec_insert_work(x, s.drop_first())
    } else {
        seq![x] + s
    }
}

/// The stable sort of authors by name, fixing the order in which the
/// parallel phase's results are materialized.
pub open spec fn sort_works(s: Seq<AuthorWork>) -> Seq<AuthorWork>
    decreases s.len(),
{
    if s.len() == 0 {
        Seq::empty()
    } else {
        spec_insert_work(s.last(), sort_works(s.drop_last()))
    }
}

proof fn lemma_insert_work_at(x: AuthorWork, s: Seq<AuthorWork>, j: int)
    requires
        0 <= j <= s.len(),
        forall|k: int| 0 <= k < j ==> lex_le(s[k].author.name@, x.author.name@),
        j < s.len() ==> !lex_le(s[j].author.name@, x.author.name@),
    ensures
        spec_insert_work(x, s) == s.take(j) + seq![x] + s.skip(j),
    decreases j,
{
    if j == 0 {
        assert(spec_insert_work(x, s) =~= s.take(0) + seq![x] + s.skip(0));
    } else {
        let t = s.drop_first();
        assert(forall|k: int| 0 <= k < j - 1 ==> t[k] == s[k + 1]);
        lemma_insert_work_at(x, t, j - 1);
        assert(seq![s[0]] + (t.take(j - 1) + seq![x] + t.skip(j - 1)) =~= s.take(j) + seq![x]
            + s.skip(j));
    }
}

fn insert_work_sorted(v: &mut Vec<AuthorWork>, x: AuthorWork)
    ensures
        final(v)@ == spec_insert_work(x, old(v)@),
{
    let n = v.len();
    let mut j: usize = 0;
    while j < n
        invariant
            j <= n,
            n == v@.len(),
            v == old(v),
            forall|k: int| 0 <= k < j ==> lex_le(v@[k].author.name@, x.author.name@),
        decreases n - j,
    {
        if !str_le(v[j].author.name.as_str(), x.author.name.as_str()) {
            proof {
                lemma_insert_work_at(x, v@, j as int);
                assert(v@.insert(j as int, x) =~= v@.take(j as int) + seq![x] + v@.skip(
                    j as int,
                ));
            }
            v.insert(j, x);
            return;
        }
        j = j + 1;
    }
    proof {
        lemma_insert_work_at(x, v@, n as int);
        assert(v@.take(n as int) + seq![x] + v@.skip(n as int) =~= v@.push(x));
    }
    v.push(x);
}

/// Appending one element to the right part of a concatenation.
proof fn lemma_push_concat<A>(x: Seq<A>, y: Seq<A>, e: A)
    ensures
        (x + y).push(e) == x + y.push(e),
{
    assert((x + y).push(e) =~= x + y.push(e));
}

/// An `(author, title)` pair, the key under which a post is recorded.
#[verifier::ext_equal]
pub ghost struct PairV {
    pub author: Seq<char>,
    pub title: Seq<char>,
}

/// The pairs of stored summaries, in order.
pub open spec fn pair_seq(old: Seq<PostSummary>) -> Seq<PairV> {
    old.map_values(|s: PostSummary| PairV { author: s.author@, title: s.title@ })
}

/// The pairs recorded by the first `n` authors' stored summaries.
pub open spec fn skips_upto(works: Seq<AuthorWork>, n: int) -> Seq<PairV>
    decreases n,
{
    if n <= 0 || n > works.len() {
        Seq::empty()
    } else {
        skips_upto(works, n - 1) + pair_seq(works[n - 1].old_posts@)
    }
}

/// Whether a pair is recorded as already archived.
pub open spec fn pair_skipped(skips: Seq<PairV>, author: Seq<char>, title: Seq<char>) -> bool {
    exists|i: int| 0 <= i < skips.len() && skips[i].author == author && skips[i].title == title
}

/// The view of an executable skip list.
pub open spec fn pairs_view(skips: Seq<(String, String)>) -> Seq<PairV> {
    skips.map_values(|p: (String, String)| PairV { author: p.0@, title: p.1@ })
}

fn pair_in(skips: &Vec<(String, String)>, author: &str, title: &str) -> (r: bool)
    ensures
        r == pair_skipped(pairs_view(skips@), author@, title@),
{
    let n = skips.len();
    let mut i: usize = 0;
    while i < n
        invariant
            i <= n,
            n == skips@.len(),
            forall|k: int| 0 <= k < i ==> !((#[trigger] pairs_view(skips@)[k]).author == author@
                && pairs_view(skips@)[k].title == title@),
        decreases n - i,
    {
        if str_eq(skips[i].0.as_str(), author) && str_eq(skips[i].1.as_str(), title) {
            assert(pairs_view(skips@)[i as int].author == author@ && pairs_view(skips@)[
                i as int].title == title@);
            return true;
        }
        assert(!(pairs_view(skips@)[i as int].author == author@ && pairs_view(skips@)[
            i as int].title == title@));
        i = i + 1;
    }
    false
}

fn name_shadowed(works: &Vec<AuthorWork>, name: &str) -> (r: bool)
    ensures
        r == name_in_works(works@, name@),
{
    let n = works.len();
    let mut k: usize = 0;
    while k < n
        invariant
            k <= n,
            n == works@.len(),
            forall|t: int| 0 <= t < k ==> (#[trigger] works@[t]).author.name@ != name@,
        decreases n - k,
    {
        if str_eq(works[k].author.name.as_str(), name) {
            assert(works@[k as int].author.name@ == name@);
            return true;
        }
        k = k + 1;
    }
    assert(!name_in_works(works@, name@));
    false
}

/// The new summaries that survive the merge: those whose pair is not yet
/// recorded, in their incoming order.
pub open spec fn filtered_new(new: Seq<PostSummary>, skips: Seq<PairV>) -> Seq<PostSummary>
    decreases new.len(),
{
    if new.len() == 0 {
        Seq::empty()
    } else {
        let rest = filtered_new(new.drop_last(), skips);
        if pair_skipped(skips, new.last().author@, new.last().title@) {
            rest
        } else {
            rest.push(new.last())
        }
    }
}

/// The merge of an author's stored summaries with the incoming ones: the
/// stored entries keep their place, the new ones are appended.
pub open spec fn merged_summaries(
    old: Seq<PostSummary>,
    new: Seq<PostSummary>,
    skips: Seq<PairV>,
) -> Seq<PostSummary> {
    old + filtered_new(new, skips)
}

/// The fresh author-list entries of this run, in sorted author order.
pub open spec fn new_entries(works: Seq<AuthorWork>) -> Seq<AuthorsEntry> {
    works.map_values(
        |w: AuthorWork| AuthorsEntry { name: w.author.name, thumb: w.author.thumb },
    )
}

/// Whether this run brings an author of the given name.
pub open spec fn name_in_works(works: Seq<AuthorWork>, name: Seq<char>) -> bool {
    exists|i: int| 0 <= i < works.len() && works[i].author.name@ == name
}

/// The stored author-list entries that this run does not replace.
pub open spec fn old_entries_kept(
    old_list: Seq<AuthorsEntry>,
    works: Seq<AuthorWork>,
) -> Seq<AuthorsEntry>
    decreases old_list.len(),
{
    if old_list.len() == 0 {
        Seq::empty()
    } else {
        let rest = old_entries_kept(old_list.drop_last(), works);
        if name_in_works(works, old_list.last().name@) {
            rest
        } else {
            rest.push(old_list.last())
        }
    }
}

/// The merged top-level author list: this run's entries first, then the
/// stored entries it does not replace.
pub open spec fn merged_entries(
    works: Seq<AuthorWork>,
    old_list: Seq<AuthorsEntry>,
) -> Seq<AuthorsEntry> {
    new_entries(works) + old_entries_kept(old_list, works)
}

/// The folder and `author.json` operations of the first `n` authors. The
/// `author.json` of the `i`-th author is merged against the pairs recorded
/// by authors up to and including `i`.
pub open spec fn author_ops_upto(works: Seq<AuthorWork>, n: int) -> Seq<OpView>
    decreases n,
{
    if n <= 0 || n > works.len() {
        Seq::empty()
    } else {
        let w = works[n - 1];
        author_ops_upto(works, n - 1) + seq![
            OpView::MakeFolder { path: w.author.id@ },
            OpView::WriteJson {
                path: w.author.id@ + "/author.json"@,
                content: author_json(
                    merged_summaries(w.old_posts@, w.author.posts@, skips_upto(works, n)),
                ),
            },
        ]
    }
}

/// The folder and `post.json` operations of one author's posts that are not
/// recorded as archived.
pub open spec fn post_ops_posts(posts: Seq<Post>, skips: Seq<PairV>) -> Seq<OpView>
    decreases posts.len(),
{
    if posts.len() == 0 {
        Seq::empty()
    } else {
        let p = posts.last();
        let rest = post_ops_posts(posts.drop_last(), skips);
        if pair_skipped(skips, p.author@, p.title@) {
            rest
        } else {
            rest + seq![
                OpView::MakeFolder { path: p.author@ + "/"@ + p.id@ },
                OpView::WriteJson {
                    path: p.author@ + "/"@ + p.id@ + "/post.json"@,
                    content: post_json(p),
                },
            ]
        }
    }
}

pub open spec fn post_ops_upto(works: Seq<AuthorWork>, n: int, skips: Seq<PairV>) -> Seq<OpView>
    decreases n,
{
    if n <= 0 || n > works.len() {
        Seq::empty()
    } else {
        post_ops_upto(works, n - 1, skips) + post_ops_posts(works[n - 1].posts@, skips)
    }
}

/// The link operations of one author's links whose posts are not recorded
/// as archived.
pub open spec fn link_ops_links(links: Seq<Link>, skips: Seq<PairV>) -> Seq<OpView>
    decreases links.len(),
{
    if links.len() == 0 {
        Seq::empty()
    } else {
        let l = links.last();
        let rest = link_ops_links(links.drop_last(), skips);
        if pair_skipped(skips, l.author@, l.title@) {
            rest
        } else {
            rest.push(OpView::LinkFile { source: l.source@, dest: l.dest@ })
        }
    }
}

pub open spec fn link_ops_upto(works: Seq<AuthorWork>, n: int, skips: Seq<PairV>) -> Seq<OpView>
    decreases n,
{
    if n <= 0 || n > works.len() {
        Seq::empty()
    } else {
        link_ops_upto(works, n - 1, skips) + link_ops_links(works[n - 1].links@, skips)
    }
}

/// The whole operation list of one run, in order: the merged author list,
/// then per author (name-sorted) a folder and a merged `author.json`, then
/// the new posts' folders and `post.json` documents, then the new links.
pub open spec fn spec_build(works: Seq<AuthorWork>, old_list: Seq<AuthorsEntry>) -> Seq<OpView> {
    let sorted = sort_works(works);
    let all = skips_upto(sorted, sorted.len() as int);
    seq![
        OpView::WriteJson {
            path: "authors.json"@,
            content: authors_json(merged_entries(sorted, old_list)),
        },
    ] + author_ops_upto(sorted, sorted.len() as int) + post_ops_upto(
        sorted,
        sorted.len() as int,
        all,
    ) + link_ops_upto(sorted, sorted.len() as int, all)
}

/// Builds the run's operation list. Everything is pinned: the order of the
/// operations, every path, and every byte of every document.
pub fn build(works: Vec<AuthorWork>, old_list: &Vec<AuthorsEntry>) -> (r: Vec<OutputOperation>)
    ensures
        r.deep_view() == spec_build(works@, old_list@),
{
    let ghost input = works@;
    // Fix the author order.
    let mut pending = works;
    let mut sorted: Vec<AuthorWork> = Vec::new();
    let total = pending.len();
    let mut s: usize = 0;
    while s < total
        invariant
            s <= total,
            total == input.len(),
            pending@ == input.skip(s as int),
            sorted@ == sort_works(input.take(s as int)),
        decreases total - s,
    {
        let w = pending.remove(0);
        assert(input.skip(s as int).remove(0) =~= input.skip(s + 1));
        assert(input.take(s + 1).drop_last() =~= input.take(s as int));
        assert(input.take(s + 1).last() == input[s as int]);
        insert_work_sorted(&mut sorted, w);
        s = s + 1;
    }
    assert(input.take(total as int) =~= input);
    let ghost sw = sort_works(input);
    let n = sorted.len();
    assert(sorted@ == sw);

    let mut ops: Vec<OutputOperation> = Vec::new();

    // The merged top-level author list.
    let mut entries: Vec<AuthorsEntry> = Vec::new();
    let mut i: usize = 0;
    while i < n
        invariant
            i <= n,
            n == sorted@.len(),
            sorted@ == sw,
            entries@ == new_entries(sw.take(i as int)),
        decreases n - i,
    {
        entries.push(
            AuthorsEntry {
                name: sorted[i].author.name.clone(),
                thumb: clone_opt_string(&sorted[i].author.thumb),
            },
        );
        proof {
            assert(new_entries(sw.take(i + 1)) =~= new_entries(sw.take(i as int)).push(
                AuthorsEntry { name: sw[i as int].author.name, thumb: sw[i as int].author.thumb },
            ));
        }
        i = i + 1;
    }
    assert(sw.take(n as int) =~= sw);
    let m = old_list.len();
    let mut j: usize = 0;
    while j < m
        invariant
            j <= m,
            m == old_list@.len(),
            n == sorted@.len(),
            sorted@ == sw,
            entries@ == new_entries(sw) + old_entries_kept(old_list@.take(j as int), sw),
        decreases m - j,
    {
        let e = &old_list[j];
        let shadowed = name_shadowed(&sorted, e.name.as_str());
        assert(old_list@.take(j + 1).drop_last() =~= old_list@.take(j as int));
        assert(old_list@.take(j + 1).last() == old_list@[j as int]);
        if !shadowed {
            assert(!name_in_works(sw, old_list@[j as int].name@));
            entries.push(AuthorsEntry { name: e.name.clone(), thumb: clone_opt_string(&e.thumb) });
        } else {
            assert(name_in_works(sw, old_list@[j as int].name@));
        }
        j = j + 1;
    }
    assert(old_list@.take(m as int) =~= old_list@);
    assert(entries@ == merged_entries(sw, old_list@));
    let authors_doc = write_authors_json(&entries);
    ops.push(
        OutputOperation::WriteJson { path: String::from_str("authors.json"), content: authors_doc },
    );
    let ghost ops0 = seq![
        OpView::WriteJson {
            path: "authors.json"@,
            content: authors_json(merged_entries(sw, old_list@)),
        },
    ];
    assert(ops.deep_view() =~~= ops0);

    // Authors: folder plus merged author.json, accumulating the skip pairs.
    let mut skips: Vec<(String, String)> = Vec::new();
    let mut a: usize = 0;
    while a < n
        invariant
            a <= n,
            n == sorted@.len(),
            sorted@ == sw,
            pairs_view(skips@) == skips_upto(sw, a as int),
            ops.deep_view() == ops0 + author_ops_upto(sw, a as int),
        decreases n - a,
    {
        // Record this author's stored pairs first, as the merge sees them.
        let olen = sorted[a].old_posts.len();
        proof {
            assert(skips_upto(sw, a as int) + pair_seq(sw[a as int].old_posts@.take(0))
                =~~= skips_upto(sw, a as int));
        }
        let mut o: usize = 0;
        while o < olen
            invariant
                o <= olen,
                a < n,
                n == sorted@.len(),
                sorted@ == sw,
                olen == sw[a as int].old_posts@.len(),
                pairs_view(skips@) == skips_upto(sw, a as int) + pair_seq(
                    sw[a as int].old_posts@.take(o as int),
                ),
            decreases olen - o,
        {
            let sref = &sorted[a].old_posts[o];
            assert(sw[a as int].old_posts@.take(o + 1).drop_last() =~= sw[a as int].old_posts@.take(
                o as int,
            ));
            assert(sw[a as int].old_posts@.take(o + 1).last() == sw[a as int].old_posts@[o as int]);
            let ghost spre = pairs_view(skips@);
            let ghost pv = PairV {
                author: sw[a as int].old_posts@[o as int].author@,
                title: sw[a as int].old_posts@[o as int].title@,
            };
            skips.push((sref.author.clone(), sref.title.clone()));
            proof {
                assert(pairs_view(skips@) =~~= spre.push(pv));
                lemma_push_concat(
                    skips_upto(sw, a as int),
                    pair_seq(sw[a as int].old_posts@.take(o as int)),
                    pv,
                );
                assert(pair_seq(sw[a as int].old_posts@.take(o + 1)) =~~= pair_seq(
                    sw[a as int].old_posts@.take(o as int),
                ).push(pv));
                assert(pairs_view(skips@) == skips_upto(sw, a as int) + pair_seq(
                    sw[a as int].old_posts@.take(o + 1),
                ));
            }
            o = o + 1;
        }
        proof {
            assert(sw[a as int].old_posts@.take(olen as int) =~= sw[a as int].old_posts@);
            assert(pairs_view(skips@) =~~= skips_upto(sw, a + 1));
        }
        // The merged summary list: stored entries first, new ones appended.
        let mut merged: Vec<PostSummary> = Vec::new();
        let mut o2: usize = 0;
        while o2 < olen
            invariant
                o2 <= olen,
                a < n,
                n == sorted@.len(),
                sorted@ == sw,
                olen == sw[a as int].old_posts@.len(),
                merged@ == sw[a as int].old_posts@.take(o2 as int),
            decreases olen - o2,
        {
            merged.push(sorted[a].old_posts[o2].duplicate());
            assert(merged@ =~= sw[a as int].old_posts@.take(o2 + 1));
            o2 = o2 + 1;
        }
        assert(sw[a as int].old_posts@.take(olen as int) =~= sw[a as int].old_posts@);
        let plen = sorted[a].author.posts.len();
        let ghost cur_skips = pairs_view(skips@);
        proof {
            assert(merged_summaries(
                sw[a as int].old_posts@,
                sw[a as int].author.posts@.take(0),
                cur_skips,
            ) =~~= sw[a as int].old_posts@);
        }
        let mut p: usize = 0;
        while p < plen
            invariant
                p <= plen,
                a < n,
                n == sorted@.len(),
                sorted@ == sw,
                plen == sw[a as int].author.posts@.len(),
                pairs_view(skips@) == cur_skips,
                merged@ == merged_summaries(
                    sw[a as int].old_posts@,
                    sw[a as int].author.posts@.take(p as int),
                    cur_skips,
                ),
            decreases plen - p,
        {
            let sref = &sorted[a].author.posts[p];
            assert(sw[a as int].author.posts@.take(p + 1).drop_last() =~= sw[a as int].author.posts@.take(p as int));
            assert(sw[a as int].author.posts@.take(p + 1).last() == sw[a as int].author.posts@[p as int]);
            if !pair_in(&skips, sref.author.as_str(), sref.title.as_str()) {
                merged.push(sref.duplicate());
            }
            assert(merged@ =~~= merged_summaries(
                sw[a as int].old_posts@,
                sw[a as int].author.posts@.take(p + 1),
                cur_skips,
            ));
            p = p + 1;
        }
        assert(sw[a as int].author.posts@.take(plen as int) =~= sw[a as int].author.posts@);
        let author_doc = write_author_json(&merged);
        let folder = sorted[a].author.id.clone();
        let mut jpath = sorted[a].author.id.clone();
        jpath.append("/author.json");
        assert(jpath@ =~= sw[a as int].author.id@ + "/author.json"@);
        proof {
            assert(skips_upto(sw, a + 1) == pairs_view(skips@));
            assert(merged@ == merged_summaries(
                sw[a as int].old_posts@,
                sw[a as int].author.posts@,
                skips_upto(sw, a + 1),
            ));
        }
        let ghost mk = OpView::MakeFolder { path: sw[a as int].author.id@ };
        let ghost wj = OpView::WriteJson {
            path: sw[a as int].author.id@ + "/author.json"@,
            content: author_json(
                merged_summaries(
                    sw[a as int].old_posts@,
                    sw[a as int].author.posts@,
                    skips_upto(sw, a + 1),
                ),
            ),
        };
        let ghost opre = ops.deep_view();
        ops.push(OutputOperation::MakeFolder { path: folder });
        ops.push(OutputOperation::WriteJson { path: jpath, content: author_doc });
        proof {
            assert(ops.deep_view() =~~= opre.push(mk).push(wj));
            lemma_push_concat(ops0, author_ops_upto(sw, a as int), mk);
            lemma_push_concat(ops0, author_ops_upto(sw, a as int).push(mk), wj);
            assert(author_ops_upto(sw, a + 1) =~~= author_ops_upto(sw, a as int).push(mk).push(
                wj,
            ));
            assert(ops.deep_view() == ops0 + author_ops_upto(sw, a + 1));
        }
        a = a + 1;
    }
    proof {
        assert(pairs_view(skips@) == skips_upto(sw, n as int));
    }
    let ghost all_skips = skips_upto(sw, n as int);
    let ghost ops1 = ops0 + author_ops_upto(sw, n as int);

    // Posts: a folder and a post.json for every post not recorded before.
    proof {
        assert(ops.deep_view() =~~= ops1 + post_ops_upto(sw, 0, all_skips));
    }
    let mut a2: usize = 0;
    while a2 < n
        invariant
            a2 <= n,
            n == sorted@.len(),
            sorted@ == sw,
            pairs_view(skips@) == all_skips,
            ops.deep_view() == ops1 + post_ops_upto(sw, a2 as int, all_skips),
        decreases n - a2,
    {
        let plen = sorted[a2].posts.len();
        proof {
            assert(ops.deep_view() =~~= ops1 + post_ops_upto(sw, a2 as int, all_skips)
                + post_ops_posts(sw[a2 as int].posts@.take(0), all_skips));
        }
        let mut p: usize = 0;
        while p < plen
            invariant
                p <= plen,
                a2 < n,
                n == sorted@.len(),
                sorted@ == sw,
                plen == sw[a2 as int].posts@.len(),
                pairs_view(skips@) == all_skips,
                ops.deep_view() == ops1 + post_ops_upto(sw, a2 as int, all_skips)
                    + post_ops_posts(sw[a2 as int].posts@.take(p as int), all_skips),
            decreases plen - p,
        {
            let post = &sorted[a2].posts[p];
            assert(sw[a2 as int].posts@.take(p + 1).drop_last() =~= sw[a2 as int].posts@.take(
                p as int,
            ));
            assert(sw[a2 as int].posts@.take(p + 1).last() == sw[a2 as int].posts@[p as int]);
            if !pair_in(&skips, post.author.as_str(), post.title.as_str()) {
                let mut folder = post.author.clone();
                folder.append("/");
                folder.append(post.id.as_str());
                assert(folder@ =~~= sw[a2 as int].posts@[p as int].author@ + "/"@ + sw[a2 as int].posts@[p as int].id@);
                let mut jpath = folder.clone();
                jpath.append("/post.json");
                assert(jpath@ =~~= sw[a2 as int].posts@[p as int].author@ + "/"@ + sw[a2 as int].posts@[p as int].id@ + "/post.json"@);
                let doc = write_post_json(post);
                let ghost pv = sw[a2 as int].posts@[p as int];
                let ghost mk = OpView::MakeFolder { path: pv.author@ + "/"@ + pv.id@ };
                let ghost wj = OpView::WriteJson {
                    path: pv.author@ + "/"@ + pv.id@ + "/post.json"@,
                    content: post_json(pv),
                };
                let ghost opre = ops.deep_view();
                ops.push(OutputOperation::MakeFolder { path: folder });
                ops.push(OutputOperation::WriteJson { path: jpath, content: doc });
                proof {
                    assert(ops.deep_view() =~~= opre.push(mk).push(wj));
                    lemma_push_concat(
                        ops1 + post_ops_upto(sw, a2 as int, all_skips),
                        post_ops_posts(sw[a2 as int].posts@.take(p as int), all_skips),
                        mk,
                    );
                    lemma_push_concat(
                        ops1 + post_ops_upto(sw, a2 as int, all_skips),
                        post_ops_posts(sw[a2 as int].posts@.take(p as int), all_skips).push(mk),
                        wj,
                    );
                    assert(post_ops_posts(sw[a2 as int].posts@.take(p + 1), all_skips)
                        =~~= post_ops_posts(sw[a2 as int].posts@.take(p as int), all_skips).push(
                        mk,
                    ).push(wj));
                    assert(ops.deep_view() == ops1 + post_ops_upto(sw, a2 as int, all_skips)
                        + post_ops_posts(sw[a2 as int].posts@.take(p + 1), all_skips));
                }
            }
            p = p + 1;
        }
        assert(sw[a2 as int].posts@.take(plen as int) =~= sw[a2 as int].posts@);
        proof {
            assert(ops.deep_view() =~~= ops1 + post_ops_upto(sw, a2 + 1, all_skips));
        }
        a2 = a2 + 1;
    }
    let ghost ops2 = ops1 + post_ops_upto(sw, n as int, all_skips);

    // Links for the posts written this run.
    proof {
        assert(ops.deep_view() =~~= ops2 + link_ops_upto(sw, 0, all_skips));
    }
    let mut a3: usize = 0;
    while a3 < n
        invariant
            a3 <= n,
            n == sorted@.len(),
            sorted@ == sw,
            pairs_view(skips@) == all_skips,
            ops.deep_view() == ops2 + link_ops_upto(sw, a3 as int, all_skips),
        decreases n - a3,
    {
        let llen = sorted[a3].links.len();
        proof {
            assert(ops.deep_view() =~~= ops2 + link_ops_upto(sw, a3 as int, all_skips)
                + link_ops_links(sw[a3 as int].links@.take(0), all_skips));
        }
        let mut l: usize = 0;
        while l < llen
            invariant
                l <= llen,
                a3 < n,
                n == sorted@.len(),
                sorted@ == sw,
                llen == sw[a3 as int].links@.len(),
                pairs_view(skips@) == all_skips,
                ops.deep_view() == ops2 + link_ops_upto(sw, a3 as int, all_skips)
                    + link_ops_links(sw[a3 as int].links@.take(l as int), all_skips),
            decreases llen - l,
        {
            let link = &sorted[a3].links[l];
            assert(sw[a3 as int].links@.take(l + 1).drop_last() =~= sw[a3 as int].links@.take(
                l as int,
            ));
            assert(sw[a3 as int].links@.take(l + 1).last() == sw[a3 as int].links@[l as int]);
            if !pair_in(&skips, link.author.as_str(), link.title.as_str()) {
                let ghost lv = OpView::LinkFile {
                    source: sw[a3 as int].links@[l as int].source@,
                    dest: sw[a3 as int].links@[l as int].dest@,
                };
                let ghost opre = ops.deep_view();
                ops.push(
                    OutputOperation::LinkFile {
                        source: link.source.clone(),
                        dest: link.dest.clone(),
                    },
                );
                proof {
                    assert(ops.deep_view() =~~= opre.push(lv));
                    lemma_push_concat(
                        ops2 + link_ops_upto(sw, a3 as int, all_skips),
                        link_ops_links(sw[a3 as int].links@.take(l as int), all_skips),
                        lv,
                    );
                    assert(link_ops_links(sw[a3 as int].links@.take(l + 1), all_skips)
                        =~~= link_ops_links(sw[a3 as int].links@.take(l as int), all_skips).push(
                        lv,
                    ));
                    assert(ops.deep_view() == ops2 + link_ops_upto(sw, a3 as int, all_skips)
                        + link_ops_links(sw[a3 as int].links@.take(l + 1), all_skips));
                }
            }
            l = l + 1;
        }
        assert(sw[a3 as int].links@.take(llen as int) =~= sw[a3 as int].links@);
        proof {
            assert(ops.deep_view() =~~= ops2 + link_ops_upto(sw, a3 + 1, all_skips));
        }
        a3 = a3 + 1;
    }
    proof {
        assert(ops.deep_view() =~~= spec_build(input, old_list@));
    }
    ops
}

/// Law: the merge filter keeps exactly the incoming summaries whose
/// `(author, title)` pair is not recorded, in their incoming order.
pub proof fn lemma_filtered_new_exact(new: Seq<PostSummary>, skips: Seq<PairV>)
    ensures
        forall|i: int| 0 <= i < filtered_new(new, skips).len() ==> !pair_skipped(
            skips,
            (#[trigger] filtered_new(new, skips)[i]).author@,
            filtered_new(new, skips)[i].title@,
        ) && new.contains(filtered_new(new, skips)[i]),
        forall|j: int| 0 <= j < new.len() && !pair_skipped(
            skips,
            (#[trigger] new[j]).author@,
            new[j].title@,
        ) ==> filtered_new(new, skips).contains(new[j]),
    decreases new.len(),
{
    if new.len() > 0 {
        let prev = new.drop_last();
        lemma_filtered_new_exact(prev, skips);
        let rest = filtered_new(prev, skips);
        let whole = filtered_new(new, skips);
        assert forall|i: int| 0 <= i < rest.len() implies new.contains(rest[i]) by {
            assert(prev.contains(rest[i]));
            let k = choose|k: int| 0 <= k < prev.len() && prev[k] == rest[i];
            assert(new[k] == rest[i]);
        }
        if pair_skipped(skips, new.last().author@, new.last().title@) {
            assert(whole == rest);
            assert forall|j: int|
                0 <= j < new.len() && !pair_skipped(
                    skips,
                    (#[trigger] new[j]).author@,
                    new[j].title@,
                ) implies whole.contains(new[j]) by {
                assert(j < new.len() - 1);
                assert(prev[j] == new[j]);
                assert(rest.contains(new[j]));
            }
        } else {
            assert(whole == rest.push(new.last()));
            assert(new.contains(new.last())) by {
                assert(new[new.len() - 1] == new.last());
            }
            assert forall|i: int| 0 <= i < whole.len() implies !pair_skipped(
                skips,
                (#[trigger] whole[i]).author@,
                whole[i].title@,
            ) && new.contains(whole[i]) by {
                if i < rest.len() {
                    assert(whole[i] == rest[i]);
                } else {
                    assert(whole[i] == new.last());
                }
            }
            assert forall|j: int|
                0 <= j < new.len() && !pair_skipped(
                    skips,
                    (#[trigger] new[j]).author@,
                    new[j].title@,
                ) implies whole.contains(new[j]) by {
                if j < new.len() - 1 {
                    assert(prev[j] == new[j]);
                    assert(rest.contains(new[j]));
                    let k = choose|k: int| 0 <= k < rest.len() && rest[k] == new[j];
                    assert(whole[k] == new[j]);
                } else {
                    assert(whole[whole.len() - 1] == new[j]);
                }
            }
        }
    }
}

/// Law: the merge appends — stored summaries keep their exact places and the
/// surviving incoming ones follow, in order.
pub proof fn lemma_merge_appends(old: Seq<PostSummary>, new: Seq<PostSummary>, skips: Seq<PairV>)
    ensures
        merged_summaries(old, new, skips).len() == old.len() + filtered_new(new, skips).len(),
        forall|i: int| 0 <= i < old.len() ==> merged_summaries(old, new, skips)[i] == old[i],
        forall|i: int|
            old.len() <= i < merged_summaries(old, new, skips).len() ==> merged_summaries(
                old,
                new,
                skips,
            )[i] == filtered_new(new, skips)[i - old.len()],
{
}

proof fn lemma_filtered_all_recorded(new: Seq<PostSummary>, skips: Seq<PairV>)
    requires
        forall|j: int| 0 <= j < new.len() ==> pair_skipped(
            skips,
            (#[trigger] new[j]).author@,
            new[j].title@,
        ),
    ensures
        filtered_new(new, skips) == Seq::<PostSummary>::empty(),
    decreases new.len(),
{
    if new.len() > 0 {
        assert(pair_skipped(skips, new[new.len() - 1].author@, new[new.len() - 1].title@));
        assert(forall|j: int| 0 <= j < new.drop_last().len() ==> (#[trigger] new.drop_last()[j])
            == new[j]);
        lemma_filtered_all_recorded(new.drop_last(), skips);
    }
}

/// Law (idempotent re-run): when every incoming post of an author is already
/// recorded in the stored summaries' pairs, the merge leaves the stored list
/// untouched, so the freshly written `author.json` is character-identical to
/// the one on disk.
pub proof fn lemma_rerun_author_json_identical(
    old: Seq<PostSummary>,
    new: Seq<PostSummary>,
    skips: Seq<PairV>,
)
    requires
        forall|j: int| 0 <= j < new.len() ==> pair_skipped(
            skips,
            (#[trigger] new[j]).author@,
            new[j].title@,
        ),
    ensures
        merged_summaries(old, new, skips) == old,
        author_json(merged_summaries(old, new, skips)) == author_json(old),
{
    lemma_filtered_all_recorded(new, skips);
    assert(merged_summaries(old, new, skips) =~= old);
}

/// Law (idempotent re-run): a post whose pair is recorded as archived is
/// materialized no further — no folder, no `post.json`, and no links.
pub proof fn lemma_rerun_no_post_output(posts: Seq<Post>, links: Seq<Link>, skips: Seq<PairV>)
    requires
        forall|j: int| 0 <= j < posts.len() ==> pair_skipped(
            skips,
            (#[trigger] posts[j]).author@,
            posts[j].title@,
        ),
        forall|j: int| 0 <= j < links.len() ==> pair_skipped(
            skips,
            (#[trigger] links[j]).author@,
            links[j].title@,
        ),
    ensures
        post_ops_posts(posts, skips) == Seq::<OpView>::empty(),
        link_ops_links(links, skips) == Seq::<OpView>::empty(),
    decreases posts.len() + links.len(),
{
    if posts.len() > 0 {
        assert(pair_skipped(skips, posts[posts.len() - 1].author@, posts[posts.len() - 1].title@));
        assert(forall|j: int|
            0 <= j < posts.drop_last().len() ==> (#[trigger] posts.drop_last()[j]) == posts[j]);
        lemma_rerun_no_post_output(posts.drop_last(), links, skips);
    } else if links.len() > 0 {
        assert(pair_skipped(skips, links[links.len() - 1].author@, links[links.len() - 1].title@));
        assert(forall|j: int|
            0 <= j < links.drop_last().len() ==> (#[trigger] links.drop_last()[j]) == links[j]);
        lemma_rerun_no_post_output(posts, links.drop_last(), skips);
    }
}

/// Law (idempotent re-run): when this run brings an author for every stored
/// entry of the top-level list, the merged list is exactly this run's — a
/// re-run over unchanged input writes the same `authors.json` again.
pub proof fn lemma_rerun_authors_list_identical(
    works: Seq<AuthorWork>,
    old_list: Seq<AuthorsEntry>,
)
    requires
        forall|j: int| 0 <= j < old_list.len() ==> name_in_works(
            works,
            (#[trigger] old_list[j]).name@,
        ),
    ensures
        merged_entries(works, old_list) == new_entries(works),
        authors_json(merged_entries(works, old_list)) == authors_json(new_entries(works)),
    decreases old_list.len(),
{
    if old_list.len() > 0 {
        assert(name_in_works(works, old_list[old_list.len() - 1].name@));
        assert(forall|j: int|
            0 <= j < old_list.drop_last().len() ==> (#[trigger] old_list.drop_last()[j])
                == old_list[j]);
        lemma_rerun_authors_list_identical(works, old_list.drop_last());
        assert(old_entries_kept(old_list, works) =~= Seq::<AuthorsEntry>::empty());
        assert(merged_entries(works, old_list) =~= new_entries(works));
    } else {
        assert(merged_entries(works, old_list) =~= new_entries(works));
    }
}

} // verus!
