//! Author assembly: an author's record is their name, the summaries of
//! their posts in display order (newest first), and a thumbnail taken from
//! the earliest post.

use vstd::prelude::*;

use crate::files::opt_view;
use crate::post::{Date, Post};
use crate::utils::{name_of, DefinedFile};

verus! {

/// A post summary, as the author listing stores it.
#[derive(Debug)]
pub struct PostSummary {
    pub id: String,
    pub author: String,
    pub title: String,
    pub date: Date,
    pub thumb: Option<String>,
    pub files: usize,
}

impl PostSummary {
    /// An explicit deep copy; the fields are plain values.
    pub fn duplicate(&self) -> (r: Self)
        ensures
            r == *self,
    {
        PostSummary {
            id: self.id.clone(),
            author: self.author.clone(),
            title: self.title.clone(),
            date: self.date,
            thumb: clone_opt_string(&self.thumb),
            files: self.files,
        }
    }
}

/// One line of the top-level author list: the author's name and their
/// thumbnail, if any.
#[derive(Debug)]
pub struct AuthorsEntry {
    pub name: String,
    pub thumb: Option<String>,
}

/// An author: the folder name doubles as the id, the thumbnail comes from
/// the earliest post, and `posts` lists summaries newest-first.
#[derive(Debug)]
pub struct Author {
    pub id: String,
    pub name: String,
    pub thumb: Option<String>,
    pub posts: Vec<PostSummary>,
}

/// Whether `s` summarizes `p`.
pub open spec fn summary_matches(s: PostSummary, p: Post) -> bool {
    &&& s.id@ == p.id@
    &&& s.author@ == p.author@
    &&& s.title@ == p.title@
    &&& s.date == p.published
    &&& opt_view(s.thumb) == opt_view(p.thumb)
    &&& s.files == p.files@.len()
}

pub fn clone_opt_string(o: &Option<String>) -> (r: Option<String>)
    ensures
        r == *o,
{
    match o {
        Some(s) => Some(s.clone()),
        None => None,
    }
}

fn summarize(p: &Post) -> (r: PostSummary)
    ensures
        summary_matches(r, *p),
{
    PostSummary {
        id: p.id.clone(),
        author: p.author.clone(),
        title: p.title.clone(),
        date: p.published,
        thumb: clone_opt_string(&p.thumb),
        files: p.files.len(),
    }
}

/// Builds an author's record from their date-sorted posts (earliest first):
/// the thumbnail is the earliest post's, while the summaries are listed in
/// the opposite, newest-first order for display. Both choices are kept
/// exactly as they stand — the asymmetry is deliberate.
pub fn archive_author(author: &DefinedFile, posts: &Vec<Post>) -> (r: Author)
    ensures
        r.id@ == name_of(author.path@),
        r.name@ == name_of(author.path@),
        opt_view(r.thumb) == if posts@.len() > 0 {
            opt_view(posts@[0].thumb)
        } else {
            None::<Seq<char>>
        },
        r.posts@.len() == posts@.len(),
        forall|i: int| 0 <= i < posts@.len() ==> #[trigger] summary_matches(
            r.posts@[i],
            posts@[posts@.len() - 1 - i],
        ),
{
    let name = author.name();
    let thumb = if posts.len() > 0 {
        clone_opt_string(&posts[0].thumb)
    } else {
        None
    };
    let n = posts.len();
    let mut summaries: Vec<PostSummary> = Vec::new();
    let mut i: usize = 0;
    while i < n
        invariant
            i <= n,
            n == posts@.len(),
            summaries@.len() == i,
            forall|k: int| 0 <= k < i ==> #[trigger] summary_matches(
                summaries@[k],
                posts@[posts@.len() - 1 - k],
            ),
        decreases n - i,
    {
        let s = summarize(&posts[n - 1 - i]);
        summaries.push(s);
        i = i + 1;
    }
    Author { id: name.clone(), name, thumb, posts: summaries }
}

/// Law: summaries built in reverse of date-sorted posts stand newest first —
/// the display order of an author's listing never puts an older post above
/// a newer one.
pub proof fn lemma_author_listing_descending(posts: Seq<Post>, summaries: Seq<PostSummary>)
    requires
        crate::post::posts_ascending(posts),
        summaries.len() == posts.len(),
        forall|i: int| 0 <= i < posts.len() ==> #[trigger] summary_matches(
            summaries[i],
            posts[posts.len() - 1 - i],
        ),
    ensures
        forall|i: int, j: int|
            0 <= i < j < summaries.len() ==> crate::post::date_key(
                #[trigger] summaries[j].date,
            ) <= crate::post::date_key(#[trigger] summaries[i].date),
{
    assert forall|i: int, j: int| 0 <= i < j < summaries.len() implies crate::post::date_key(
        #[trigger] summaries[j].date,
    ) <= crate::post::date_key(#[trigger] summaries[i].date) by {
        assert(summary_matches(summaries[i], posts[posts.len() - 1 - i]));
        assert(summary_matches(summaries[j], posts[posts.len() - 1 - j]));
        assert(crate::post::date_key(posts[posts.len() - 1 - j].published) <= crate::post::date_key(
            posts[posts.len() - 1 - i].published,
        ));
    }
}

} // verus!
