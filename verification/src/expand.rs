//! Container expansion, as decisions on plain values: whether a file is a
//! compressed container, whether its marker directory already settles it,
//! what the marker is called, and what each entry inside becomes. The
//! surrounding application opens and extracts; every name and every verdict
//! comes from here.

use vstd::prelude::*;

use crate::text::{find_last, last_index_of, push_char};

verus! {

/// The extension of a file name: the characters after the last `.`, unless
/// the only `.` leads the name (a hidden file has no extension).
pub open spec fn ext_of(name: Seq<char>) -> Seq<char> {
    if last_index_of(name, '.') >= 1 {
        name.skip(last_index_of(name, '.') + 1)
    } else {
        Seq::empty()
    }
}

/// Extracts the extension of a file name.
pub fn extension_of(name: &str) -> (r: String)
    ensures
        r@ == ext_of(name@),
{
    let n = name.unicode_len();
    match find_last(name, '.') {
        Some(i) => {
            if i >= 1 {
                let sub = name.substring_char(i + 1, n);
                assert(sub@ =~= ext_of(name@));
                sub.to_owned()
            } else {
                assert(ext_of(name@) =~= Seq::<char>::empty());
                String::new()
            }
        },
        None => {
            assert(ext_of(name@) =~= Seq::<char>::empty());
            String::new()
        },
    }
}

/// The position of the first `.` at or after `i`, or `-1` if there is none.
pub open spec fn first_index_from(s: Seq<char>, c: char, i: int) -> int
    decreases s.len() - i,
{
    if i < 0 || i >= s.len() {
        -1
    } else if s[i] == c {
        i
    } else {
        first_index_from(s, c, i + 1)
    }
}

/// The stem of a file name: everything before the first `.` past the leading
/// position, as the marker directory is named.
pub open spec fn stem_of(name: Seq<char>) -> Seq<char> {
    if first_index_from(name, '.', 1) == -1 {
        name
    } else {
        name.take(first_index_from(name, '.', 1))
    }
}

/// Extracts the stem of a file name.
pub fn stem_of_name(name: &str) -> (r: String)
    ensures
        r@ == stem_of(name@),
{
    let n = name.unicode_len();
    let mut i: usize = 1;
    while i < n
        invariant
            1 <= i,
            i <= n || n == 0,
            n == name@.len(),
            first_index_from(name@, '.', 1) == first_index_from(name@, '.', i as int),
        decreases n - i,
    {
        if name.get_char(i) == '.' {
            let sub = name.substring_char(0, i);
            return sub.to_owned();
        }
        i = i + 1;
    }
    name.to_owned()
}

/// Whether a file name names a compressed container.
pub open spec fn is_container(name: Seq<char>) -> bool {
    ext_of(name) == seq!['z', 'i', 'p']
}

/// Decides whether a file name names a compressed container.
pub fn is_container_name(name: &str) -> (r: bool)
    ensures
        r == is_container(name@),
{
    let ext = extension_of(name);
    proof {
        reveal_strlit("zip");
        assert("zip"@ =~= seq!['z', 'i', 'p']);
    }
    crate::text::str_eq(ext.as_str(), "zip")
}

/// What to do with one file that may be a container.
#[derive(Debug)]
pub enum ExpandPlan {
    /// The file is no container; classification takes it as it is.
    NotContainer,
    /// The marker directory exists, so the container was dealt with before;
    /// it must not be opened again.
    AlreadyExpanded,
    /// Open the container; `marker` is the sibling directory to create when
    /// its entries are out (or when it refuses to open).
    Expand { marker: String },
}

/// Decides the fate of one file. The marker directory's presence is the sole
/// guard: while it exists the container is never reopened, whatever else
/// changed around it.
pub fn expand_decision(file_name: &str, marker_exists: bool) -> (p: ExpandPlan)
    ensures
        !is_container(file_name@) ==> p is NotContainer,
        is_container(file_name@) && marker_exists ==> p is AlreadyExpanded,
        is_container(file_name@) && !marker_exists ==> (p matches ExpandPlan::Expand { marker }
            && marker@ == stem_of(file_name@)),
{
    if !is_container_name(file_name) {
        ExpandPlan::NotContainer
    } else if marker_exists {
        ExpandPlan::AlreadyExpanded
    } else {
        ExpandPlan::Expand { marker: stem_of_name(file_name) }
    }
}

/// The entry's path with every `/` replaced by `.`, flattening it to one
/// sibling file name.
pub open spec fn dot_joined(p: Seq<char>) -> Seq<char> {
    Seq::new(
        p.len(),
        |i: int|
            if p[i] == '/' {
                '.'
            } else {
                p[i]
            },
    )
}

/// The name an extracted entry is written under: the container's stem, a
/// dot, and the flattened entry path.
pub open spec fn extracted_name(stem: Seq<char>, entry: Seq<char>) -> Seq<char> {
    stem + seq!['.'] + dot_joined(entry)
}

/// The extension a full path denotes: that of its file name, as
/// `Path::extension` reads it — a path whose file name starts with its only
/// `.` (or has none at all) has no extension.
pub open spec fn path_ext_of(p: Seq<char>) -> Seq<char> {
    ext_of(crate::utils::name_of(p))
}

/// What to do with one entry of an opened container.
#[derive(Debug)]
pub enum EntryAction {
    /// Directories and denylisted layered-image sources contribute nothing.
    Ignore,
    /// Write the entry's bytes to `out_name` beside the container.
    Extract { out_name: String },
}

/// Decides the fate of one container entry: directories and `psd` sources
/// are skipped, everything else is written out under a collision-free name.
pub fn entry_action(stem: &str, entry_path: &str, is_dir: bool) -> (a: EntryAction)
    ensures
        is_dir ==> a is Ignore,
        !is_dir && path_ext_of(entry_path@) == seq!['p', 's', 'd'] ==> a is Ignore,
        !is_dir && path_ext_of(entry_path@) != seq!['p', 's', 'd'] ==> (a matches
            EntryAction::Extract { out_name } && out_name@ == extracted_name(
            stem@,
            entry_path@,
        )),
{
    if is_dir {
        return EntryAction::Ignore;
    }
    let entry_name = crate::utils::path_file_name(entry_path);
    let ext = extension_of(entry_name.as_str());
    proof {
        reveal_strlit("psd");
        assert("psd"@ =~= seq!['p', 's', 'd']);
    }
    if crate::text::str_eq(ext.as_str(), "psd") {
        return EntryAction::Ignore;
    }
    let mut out = stem.to_owned();
    push_char(&mut out, '.');
    let n = entry_path.unicode_len();
    let mut i: usize = 0;
    while i < n
        invariant
            i <= n,
            n == entry_path@.len(),
            out@ == stem@ + seq!['.'] + dot_joined(entry_path@).take(i as int),
        decreases n - i,
    {
        let c = entry_path.get_char(i);
        let mapped = if c == '/' {
            '.'
        } else {
            c
        };
        push_char(&mut out, mapped);
        assert(out@ =~= stem@ + seq!['.'] + dot_joined(entry_path@).take(i + 1));
        i = i + 1;
    }
    assert(dot_joined(entry_path@).take(n as int) =~= dot_joined(entry_path@));
    EntryAction::Extract { out_name: out }
}

} // verus!
