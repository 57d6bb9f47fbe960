//! The archive's JSON documents, emitted byte for byte by verified code.
//! Each writer's contract gives the exact character sequence, so two runs
//! over equal values produce identical text.

use vstd::prelude::*;

use crate::author::{AuthorsEntry, PostSummary};
use crate::files::{cf_filename, opt_view, ClassifiedFile};
use crate::post::{Date, Post};
use crate::text::{dec_str, push_char, push_dec};

verus! {

/// How one character is written inside a JSON string.
pub open spec fn esc_char(c: char) -> Seq<char> {
    if c == '"' {
        seq!['\\', '"']
    } else if c == '\\' {
        seq!['\\', '\\']
    } else if c == '\n' {
        seq!['\\', 'n']
    } else if c == '\r' {
        seq!['\\', 'r']
    } else if c == '\t' {
        seq!['\\', 't']
    } else {
        seq![c]
    }
}

pub open spec fn json_escape(s: Seq<char>) -> Seq<char>
    decreases s.len(),
{
    if s.len() == 0 {
        Seq::empty()
    } else {
        json_escape(s.drop_last()) + esc_char(s.last())
    }
}

/// A JSON string literal: the escaped characters between quotes.
pub open spec fn json_string(s: Seq<char>) -> Seq<char> {
    seq!['"'] + json_escape(s) + seq!['"']
}

/// A nullable string: `null`, or a JSON string.
pub open spec fn json_opt_string(o: Option<Seq<char>>) -> Seq<char> {
    match o {
        Some(s) => json_string(s),
        None => "null"@,
    }
}

fn push_json_string(out: &mut String, s: &str)
    ensures
        final(out)@ == old(out)@ + json_string(s@),
{
    push_char(out, '"');
    let n = s.unicode_len();
    let mut i: usize = 0;
    while i < n
        invariant
            i <= n,
            n == s@.len(),
            out@ == old(out)@ + seq!['"'] + json_escape(s@.take(i as int)),
        decreases n - i,
    {
        assert(s@.take(i + 1).drop_last() =~= s@.take(i as int));
        assert(s@.take(i + 1).last() == s@[i as int]);
        let c = s.get_char(i);
        if c == '"' {
            push_char(out, '\\');
            push_char(out, '"');
        } else if c == '\\' {
            push_char(out, '\\');
            push_char(out, '\\');
        } else if c == '\n' {
            push_char(out, '\\');
            push_char(out, 'n');
        } else if c == '\r' {
            push_char(out, '\\');
            push_char(out, 'r');
        } else if c == '\t' {
            push_char(out, '\\');
            push_char(out, 't');
        } else {
            push_char(out, c);
        }
        assert(out@ =~= old(out)@ + seq!['"'] + json_escape(s@.take(i + 1)));
        i = i + 1;
    }
    assert(s@.take(n as int) =~= s@);
    push_char(out, '"');
    assert(out@ =~= old(out)@ + json_string(s@));
}

fn push_json_opt(out: &mut String, o: &Option<String>)
    ensures
        final(out)@ == old(out)@ + json_opt_string(opt_view(*o)),
{
    match o {
        Some(s) => push_json_string(out, s.as_str()),
        None => out.append("null"),
    }
}

/// Two decimal digits, zero-padded.
pub open spec fn pad2(n: int) -> Seq<char> {
    if n < 10 {
        seq!['0'] + dec_str(n)
    } else {
        dec_str(n)
    }
}

/// Four decimal digits, zero-padded.
pub open spec fn pad4(n: int) -> Seq<char> {
    if n < 10 {
        "000"@ + dec_str(n)
    } else if n < 100 {
        "00"@ + dec_str(n)
    } else if n < 1000 {
        "0"@ + dec_str(n)
    } else {
        dec_str(n)
    }
}

/// A date as the archive writes it: `YYYY-MM-DD`.
pub open spec fn date_text(d: Date) -> Seq<char> {
    pad4(d.year as int) + seq!['-'] + pad2(d.month as int) + seq!['-'] + pad2(d.day as int)
}

#[verifier::rlimit(50)]
fn push_date_text(out: &mut String, d: &Date)
    ensures
        final(out)@ == old(out)@ + date_text(*d),
{
    if d.year < 10 {
        out.append("000");
    } else if d.year < 100 {
        out.append("00");
    } else if d.year < 1000 {
        out.append("0");
    }
    push_dec(out, d.year as u64);
    push_char(out, '-');
    if d.month < 10 {
        push_char(out, '0');
        assert(out@ =~= old(out)@ + pad4(d.year as int) + seq!['-'] + seq!['0']);
    }
    push_dec(out, d.month as u64);
    push_char(out, '-');
    if d.day < 10 {
        push_char(out, '0');
    }
    push_dec(out, d.day as u64);
    assert(out@ =~= old(out)@ + date_text(*d));
}

/// Comma-joined items.
pub open spec fn joined(items: Seq<Seq<char>>) -> Seq<char>
    decreases items.len(),
{
    if items.len() == 0 {
        Seq::empty()
    } else if items.len() == 1 {
        items[0]
    } else {
        joined(items.drop_last()) + seq![','] + items.last()
    }
}

/// One entry of the top-level author list.
pub open spec fn authors_entry_json(e: AuthorsEntry) -> Seq<char> {
    "{\"name\":"@ + json_string(e.name@) + ",\"thumb\":"@ + json_opt_string(opt_view(e.thumb))
        + "}"@
}

/// The whole `authors.json` document.
pub open spec fn authors_json(entries: Seq<AuthorsEntry>) -> Seq<char> {
    "["@ + joined(entries.map_values(|e: AuthorsEntry| authors_entry_json(e))) + "]"@
}

fn push_authors_entry(out: &mut String, e: &AuthorsEntry)
    ensures
        final(out)@ == old(out)@ + authors_entry_json(*e),
{
    out.append("{\"name\":");
    push_json_string(out, e.name.as_str());
    out.append(",\"thumb\":");
    push_json_opt(out, &e.thumb);
    out.append("}");
    assert(out@ =~= old(out)@ + authors_entry_json(*e));
}

/// Writes the top-level author list.
pub fn write_authors_json(entries: &Vec<AuthorsEntry>) -> (r: String)
    ensures
        r@ == authors_json(entries@),
{
    let mut out = String::new();
    out.append("[");
    let n = entries.len();
    let mut i: usize = 0;
    while i < n
        invariant
            i <= n,
            n == entries@.len(),
            out@ == Seq::<char>::empty() + "["@ + joined(
                entries@.take(i as int).map_values(|e: AuthorsEntry| authors_entry_json(e)),
            ),
        decreases n - i,
    {
        if i > 0 {
            push_char(&mut out, ',');
        }
        push_authors_entry(&mut out, &entries[i]);
        proof {
            let items = entries@.take(i + 1).map_values(|e: AuthorsEntry| authors_entry_json(e));
            assert(items.drop_last() =~= entries@.take(i as int).map_values(
                |e: AuthorsEntry| authors_entry_json(e),
            ));
            assert(items.last() == authors_entry_json(entries@[i as int]));
            assert(out@ =~= Seq::<char>::empty() + "["@ + joined(items));
        }
        i = i + 1;
    }
    assert(entries@.take(n as int) =~= entries@);
    out.append("]");
    assert(out@ =~= authors_json(entries@));
    out
}

/// One post summary inside `author.json`.
pub open spec fn summary_json(s: PostSummary) -> Seq<char> {
    "{\"id\":"@ + json_string(s.id@) + ",\"author\":"@ + json_string(s.author@) + ",\"name\":"@
        + json_string(s.title@) + ",\"date\":\""@ + date_text(s.date) + "\""@ + ",\"thumb\":"@
        + json_opt_string(opt_view(s.thumb)) + ",\"files\":"@ + dec_str(s.files as int) + "}"@
}

fn push_summary_json(out: &mut String, s: &PostSummary)
    ensures
        final(out)@ == old(out)@ + summary_json(*s),
{
    out.append("{\"id\":");
    push_json_string(out, s.id.as_str());
    out.append(",\"author\":");
    push_json_string(out, s.author.as_str());
    out.append(",\"name\":");
    push_json_string(out, s.title.as_str());
    out.append(",\"date\":\"");
    push_date_text(out, &s.date);
    out.append("\"");
    out.append(",\"thumb\":");
    push_json_opt(out, &s.thumb);
    out.append(",\"files\":");
    push_dec(out, s.files as u64);
    out.append("}");
    assert(out@ =~= old(out)@ + summary_json(*s));
}

/// The whole `author.json` document: the post summaries, in stored order.
pub open spec fn author_json(summaries: Seq<PostSummary>) -> Seq<char> {
    "["@ + joined(summaries.map_values(|s: PostSummary| summary_json(s))) + "]"@
}

/// Writes one author's `author.json`.
pub fn write_author_json(summaries: &Vec<PostSummary>) -> (r: String)
    ensures
        r@ == author_json(summaries@),
{
    let mut out = String::new();
    out.append("[");
    let n = summaries.len();
    let mut i: usize = 0;
    while i < n
        invariant
            i <= n,
            n == summaries@.len(),
            out@ == Seq::<char>::empty() + "["@ + joined(
                summaries@.take(i as int).map_values(|s: PostSummary| summary_json(s)),
            ),
        decreases n - i,
    {
        if i > 0 {
            push_char(&mut out, ',');
        }
        push_summary_json(&mut out, &summaries[i]);
        proof {
            let items = summaries@.take(i + 1).map_values(|s: PostSummary| summary_json(s));
            assert(items.drop_last() =~= summaries@.take(i as int).map_values(
                |s: PostSummary| summary_json(s),
            ));
            assert(items.last() == summary_json(summaries@[i as int]));
            assert(out@ =~= Seq::<char>::empty() + "["@ + joined(items));
        }
        i = i + 1;
    }
    assert(summaries@.take(n as int) =~= summaries@);
    out.append("]");
    assert(out@ =~= author_json(summaries@));
    out
}

/// The image files of a post, in stored order.
pub open spec fn images_of(files: Seq<ClassifiedFile>) -> Seq<ClassifiedFile>
    decreases files.len(),
{
    if files.len() == 0 {
        Seq::empty()
    } else {
        let rest = images_of(files.drop_last());
        if files.last() is Image {
            rest.push(files.last())
        } else {
            rest
        }
    }
}

/// The video files of a post, in stored order.
pub open spec fn videos_of(files: Seq<ClassifiedFile>) -> Seq<ClassifiedFile>
    decreases files.len(),
{
    if files.len() == 0 {
        Seq::empty()
    } else {
        let rest = videos_of(files.drop_last());
        if files.last() is Video {
            rest.push(files.last())
        } else {
            rest
        }
    }
}

/// The remaining files of a post, in stored order.
pub open spec fn others_of(files: Seq<ClassifiedFile>) -> Seq<ClassifiedFile>
    decreases files.len(),
{
    if files.len() == 0 {
        Seq::empty()
    } else {
        let rest = others_of(files.drop_last());
        if files.last() is Other {
            rest.push(files.last())
        } else {
            rest
        }
    }
}

/// One image entry of `post.json`.
pub open spec fn image_json(c: ClassifiedFile) -> Seq<char> {
    match c {
        ClassifiedFile::Image { width, height, .. } => "{\"filename\":"@ + json_string(
            cf_filename(c),
        ) + ",\"width\":"@ + dec_str(width as int) + ",\"height\":"@ + dec_str(height as int)
            + "}"@,
        _ => Seq::empty(),
    }
}

/// One name-only entry of `post.json`.
pub open spec fn name_json(c: ClassifiedFile) -> Seq<char> {
    "{\"filename\":"@ + json_string(cf_filename(c)) + "}"@
}

/// The whole `post.json` document; empty categories are omitted.
pub open spec fn post_json(p: Post) -> Seq<char> {
    let imgs = images_of(p.files@);
    let vids = videos_of(p.files@);
    let others = others_of(p.files@);
    "{\"name\":"@ + json_string(p.title@) + ",\"date\":\""@ + date_text(p.published) + "\""@ + (
    if imgs.len() > 0 {
        ",\"images\":["@ + joined(imgs.map_values(|c: ClassifiedFile| image_json(c))) + "]"@
    } else {
        Seq::empty()
    }) + (if vids.len() > 0 {
        ",\"videos\":["@ + joined(vids.map_values(|c: ClassifiedFile| name_json(c))) + "]"@
    } else {
        Seq::empty()
    }) + (if others.len() > 0 {
        ",\"files\":["@ + joined(others.map_values(|c: ClassifiedFile| name_json(c))) + "]"@
    } else {
        Seq::empty()
    }) + "}"@
}

fn push_image_json(out: &mut String, c: &ClassifiedFile)
    requires
        *c is Image,
    ensures
        final(out)@ == old(out)@ + image_json(*c),
{
    match c {
        ClassifiedFile::Image { filename, width, height, .. } => {
            out.append("{\"filename\":");
            push_json_string(out, filename.as_str());
            out.append(",\"width\":");
            push_dec(out, *width as u64);
            out.append(",\"height\":");
            push_dec(out, *height as u64);
            out.append("}");
            assert(out@ =~= old(out)@ + image_json(*c));
        },
        _ => {},
    }
}

fn push_name_json(out: &mut String, c: &ClassifiedFile)
    ensures
        final(out)@ == old(out)@ + name_json(*c),
{
    out.append("{\"filename\":");
    push_json_string(out, c.filename().as_str());
    out.append("}");
    assert(out@ =~= old(out)@ + name_json(*c));
}

/// Writes one post's `post.json`.
pub fn write_post_json(p: &Post) -> (r: String)
    ensures
        r@ == post_json(*p),
{
    let mut out = String::new();
    out.append("{\"name\":");
    push_json_string(&mut out, p.title.as_str());
    out.append(",\"date\":\"");
    push_date_text(&mut out, &p.published);
    out.append("\"");
    let ghost head = out@;
    let n = p.files.len();

    // images
    let mut count: usize = 0;
    let mut i: usize = 0;
    while i < n
        invariant
            i <= n,
            n == p.files@.len(),
            count <= i,
            count == images_of(p.files@.take(i as int)).len(),
            count == 0 ==> out@ == head,
            count > 0 ==> out@ == head + ",\"images\":["@ + joined(
                images_of(p.files@.take(i as int)).map_values(|c: ClassifiedFile| image_json(c)),
            ),
        decreases n - i,
    {
        assert(p.files@.take(i + 1).drop_last() =~= p.files@.take(i as int));
        assert(p.files@.take(i + 1).last() == p.files@[i as int]);
        let is_img = matches!(&p.files[i], ClassifiedFile::Image { .. });
        if is_img {
            if count == 0 {
                out.append(",\"images\":[");
            } else {
                push_char(&mut out, ',');
            }
            push_image_json(&mut out, &p.files[i]);
            proof {
                let items = images_of(p.files@.take(i + 1)).map_values(
                    |c: ClassifiedFile| image_json(c),
                );
                assert(items.drop_last() =~= images_of(p.files@.take(i as int)).map_values(
                    |c: ClassifiedFile| image_json(c),
                ));
                assert(items.last() == image_json(p.files@[i as int]));
                assert(out@ =~= head + ",\"images\":["@ + joined(items));
            }
            count = count + 1;
        }
        i = i + 1;
    }
    assert(p.files@.take(n as int) =~= p.files@);
    if count > 0 {
        out.append("]");
    }
    let ghost head2 = head + (if images_of(p.files@).len() > 0 {
        ",\"images\":["@ + joined(
            images_of(p.files@).map_values(|c: ClassifiedFile| image_json(c)),
        ) + "]"@
    } else {
        Seq::<char>::empty()
    });
    assert(out@ =~= head2);

    // videos
    let mut count2: usize = 0;
    let mut i2: usize = 0;
    while i2 < n
        invariant
            i2 <= n,
            n == p.files@.len(),
            count2 <= i2,
            count2 == videos_of(p.files@.take(i2 as int)).len(),
            count2 == 0 ==> out@ == head2,
            count2 > 0 ==> out@ == head2 + ",\"videos\":["@ + joined(
                videos_of(p.files@.take(i2 as int)).map_values(|c: ClassifiedFile| name_json(c)),
            ),
        decreases n - i2,
    {
        assert(p.files@.take(i2 + 1).drop_last() =~= p.files@.take(i2 as int));
        assert(p.files@.take(i2 + 1).last() == p.files@[i2 as int]);
        let is_vid = matches!(&p.files[i2], ClassifiedFile::Video { .. });
        if is_vid {
            if count2 == 0 {
                out.append(",\"videos\":[");
            } else {
                push_char(&mut out, ',');
            }
            push_name_json(&mut out, &p.files[i2]);
            proof {
                let items = videos_of(p.files@.take(i2 + 1)).map_values(
                    |c: ClassifiedFile| name_json(c),
                );
                assert(items.drop_last() =~= videos_of(p.files@.take(i2 as int)).map_values(
                    |c: ClassifiedFile| name_json(c),
                ));
                assert(items.last() == name_json(p.files@[i2 as int]));
                assert(out@ =~= head2 + ",\"videos\":["@ + joined(items));
            }
            count2 = count2 + 1;
        }
        i2 = i2 + 1;
    }
    assert(p.files@.take(n as int) =~= p.files@);
    if count2 > 0 {
        out.append("]");
    }
    let ghost head3 = head2 + (if videos_of(p.files@).len() > 0 {
        ",\"videos\":["@ + joined(
            videos_of(p.files@).map_values(|c: ClassifiedFile| name_json(c)),
        ) + "]"@
    } else {
        Seq::<char>::empty()
    });
    assert(out@ =~= head3);

    // other files
    let mut count3: usize = 0;
    let mut i3: usize = 0;
    while i3 < n
        invariant
            i3 <= n,
            n == p.files@.len(),
            count3 <= i3,
            count3 == others_of(p.files@.take(i3 as int)).len(),
            count3 == 0 ==> out@ == head3,
            count3 > 0 ==> out@ == head3 + ",\"files\":["@ + joined(
                others_of(p.files@.take(i3 as int)).map_values(|c: ClassifiedFile| name_json(c)),
            ),
        decreases n - i3,
    {
        assert(p.files@.take(i3 + 1).drop_last() =~= p.files@.take(i3 as int));
        assert(p.files@.take(i3 + 1).last() == p.files@[i3 as int]);
        let is_other = matches!(&p.files[i3], ClassifiedFile::Other { .. });
        if is_other {
            if count3 == 0 {
                out.append(",\"files\":[");
            } else {
                push_char(&mut out, ',');
            }
            push_name_json(&mut out, &p.files[i3]);
            proof {
                let items = others_of(p.files@.take(i3 + 1)).map_values(
                    |c: ClassifiedFile| name_json(c),
                );
                assert(items.drop_last() =~= others_of(p.files@.take(i3 as int)).map_values(
                    |c: ClassifiedFile| name_json(c),
                ));
                assert(items.last() == name_json(p.files@[i3 as int]));
                assert(out@ =~= head3 + ",\"files\":["@ + joined(items));
            }
            count3 = count3 + 1;
        }
        i3 = i3 + 1;
    }
    assert(p.files@.take(n as int) =~= p.files@);
    if count3 > 0 {
        out.append("]");
    }
    out.append("}");
    assert(out@ =~= post_json(*p));
    out
}

} // verus!
