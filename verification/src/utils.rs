//! Directory entries, the visibility/type filter applied to directory
//! listings, and the identity hash that gives posts their stable ids.

use vstd::prelude::*;

use crate::text::{digit_char, find_last, hex_str, last_index_of, push_hex};

verus! {

/// The kind of a directory entry, or — as a filter — the choice to keep both
/// kinds.
#[derive(Clone, Copy, Debug, PartialEq, Eq, Structural)]
pub enum FileType {
    Folder,
    File,
    Both,
}

/// A directory entry: a path and whether it names a file or a folder.
/// The scanner that fills it hands paths over as plain strings with `/`
/// separating components.
#[derive(Debug)]
pub struct DefinedFile {
    pub path: String,
    pub ty: FileType,
}

/// Whether the path's last component is `..`, which denotes no file name.
pub open spec fn ends_with_parent(path: Seq<char>) -> bool {
    &&& path.len() >= 2
    &&& path[path.len() - 1] == '.'
    &&& path[path.len() - 2] == '.'
    &&& (path.len() == 2 || path[path.len() - 3] == '/')
}

/// The file name a path denotes, read as `Path::file_name` reads it:
/// trailing separators and lone `.` components are stripped, the final
/// component is the name, and a final `..` — like a path with no component
/// at all — yields the empty name.
pub open spec fn name_of(path: Seq<char>) -> Seq<char>
    decreases path.len(),
{
    if path.len() == 0 {
        Seq::empty()
    } else if path.last() == '/' {
        name_of(path.drop_last())
    } else if path.last() == '.' && (path.len() == 1 || path[path.len() - 2] == '/') {
        name_of(path.drop_last())
    } else if ends_with_parent(path) {
        Seq::empty()
    } else {
        path.skip(last_index_of(path, '/') + 1)
    }
}

/// Extracts the file name a path denotes.
pub fn path_file_name(path: &str) -> (r: String)
    ensures
        r@ == name_of(path@),
    decreases path@.len(),
{
    let n = path.unicode_len();
    if n == 0 {
        return String::new();
    }
    let last = path.get_char(n - 1);
    if last == '/' {
        let prefix = path.substring_char(0, n - 1);
        assert(prefix@ =~= path@.drop_last());
        return path_file_name(prefix);
    }
    if last == '.' && (n == 1 || path.get_char(n - 2) == '/') {
        let prefix = path.substring_char(0, n - 1);
        assert(prefix@ =~= path@.drop_last());
        return path_file_name(prefix);
    }
    if n >= 2 && last == '.' && path.get_char(n - 2) == '.' && (n == 2 || path.get_char(n - 3)
        == '/') {
        return String::new();
    }
    assert(!ends_with_parent(path@));
    match find_last(path, '/') {
        Some(i) => {
            let sub = path.substring_char(i + 1, n);
            assert(sub@ =~= name_of(path@));
            sub.to_owned()
        },
        None => {
            assert(path@.skip(0) =~= path@);
            path.to_owned()
        },
    }
}

/// Whether the entry's file name starts with the hidden marker `.`.
pub open spec fn is_hidden(path: Seq<char>) -> bool {
    name_of(path).len() > 0 && name_of(path)[0] == '.'
}

impl DefinedFile {
    pub fn new(path: String, ty: FileType) -> (r: Self)
        ensures
            r.path == path,
            r.ty == ty,
    {
        Self { path, ty }
    }

    /// The file name of the entry, as `Path::file_name` would read it.
    pub fn name(&self) -> (r: String)
        ensures
            r@ == name_of(self.path@),
    {
        path_file_name(self.path.as_str())
    }

    /// An explicit deep copy; the fields are plain values.
    pub fn duplicate(&self) -> (r: Self)
        ensures
            r == *self,
    {
        DefinedFile { path: self.path.clone(), ty: self.ty }
    }
}

/// Whether the filter keeps the entry: hidden entries never pass, and the
/// entry's kind must match unless the filter is `Both`.
pub open spec fn entry_kept(f: DefinedFile, filter: FileType) -> bool {
    !is_hidden(f.path@) && (filter is Both || f.ty == filter)
}

/// The entries that the filter keeps, in their original order.
pub open spec fn spec_parse_dir(entries: Seq<DefinedFile>, filter: FileType) -> Seq<DefinedFile>
    decreases entries.len(),
{
    if entries.len() == 0 {
        Seq::empty()
    } else {
        let rest = spec_parse_dir(entries.drop_last(), filter);
        if entry_kept(entries.last(), filter) {
            rest.push(entries.last())
        } else {
            rest
        }
    }
}

/// Filters a directory listing: skips hidden entries and keeps those whose
/// kind matches the filter. The caller supplies the raw listing; no order
/// beyond the listing's own is promised.
pub fn parse_dir(entries: &Vec<DefinedFile>, filter: FileType) -> (r: Vec<DefinedFile>)
    ensures
        r@ == spec_parse_dir(entries@, filter),
{
    let mut out: Vec<DefinedFile> = Vec::new();
    let n = entries.len();
    let mut i: usize = 0;
    while i < n
        invariant
            i <= n,
            n == entries@.len(),
            out@ == spec_parse_dir(entries@.take(i as int), filter),
        decreases n - i,
    {
        let entry = &entries[i];
        let name = entry.name();
        let hidden = if name.as_str().unicode_len() > 0 {
            name.as_str().get_char(0) == '.'
        } else {
            false
        };
        assert(entries@.take(i + 1).drop_last() =~= entries@.take(i as int));
        assert(entries@.take(i + 1).last() == entries@[i as int]);
        if !hidden && (matches!(filter, FileType::Both) || entry.ty == filter) {
            out.push(entry.duplicate());
        }
        i = i + 1;
    }
    assert(entries@.take(n as int) =~= entries@);
    out
}

/// One mixing round of the identity hash.
pub open spec fn cyrb_step(st: (u64, u64), c: char) -> (u64, u64) {
    (
        vstd::wrapping::u64_specs::wrapping_mul(st.0 ^ (c as u64), 2654435761),
        vstd::wrapping::u64_specs::wrapping_mul(st.1 ^ (c as u64), 1597334677),
    )
}

/// The two accumulators after mixing in every character of `s`.
pub open spec fn cyrb_state(s: Seq<char>) -> (u64, u64)
    decreases s.len(),
{
    if s.len() == 0 {
        ((0xdeadbeefu64 ^ 1) as u64, (0x41c6ce57u64 ^ 1) as u64)
    } else {
        cyrb_step(cyrb_state(s.drop_last()), s.last())
    }
}

/// The 53-bit-style value the identity hash prints: both accumulators are
/// scrambled once more and packed into one number.
pub open spec fn cyrb_value(s: Seq<char>) -> u64 {
    let st = cyrb_state(s);
    let h1a = vstd::wrapping::u64_specs::wrapping_mul(st.0 ^ (st.0 >> 16), 2246822507);
    let h1 = h1a ^ vstd::wrapping::u64_specs::wrapping_mul(st.1 ^ (st.1 >> 13), 3266489909);
    let h2a = vstd::wrapping::u64_specs::wrapping_mul(st.1 ^ (st.1 >> 16), 2246822507);
    let h2 = h2a ^ vstd::wrapping::u64_specs::wrapping_mul(h1 ^ (h1 >> 13), 3266489909);
    vstd::wrapping::u64_specs::wrapping_add(
        vstd::wrapping::u64_specs::wrapping_mul(4294967296, 2097151 & h2),
        h1,
    )
}

/// The identity hash as written: the packed value in lower-case hexadecimal.
pub open spec fn spec_cyrb53(s: Seq<char>) -> Seq<char> {
    hex_str(cyrb_value(s) as int)
}

/// The deterministic identity hash of a title. The same characters give the
/// same string on every run and every machine; it is an identifier, not a
/// cryptographic commitment.
pub fn cyrb53(text: &str) -> (r: String)
    ensures
        r@ == spec_cyrb53(text@),
{
    let n = text.unicode_len();
    let mut h1: u64 = 0xdeadbeef ^ 1;
    let mut h2: u64 = 0x41c6ce57 ^ 1;
    let mut i: usize = 0;
    while i < n
        invariant
            i <= n,
            n == text@.len(),
            (h1, h2) == cyrb_state(text@.take(i as int)),
        decreases n - i,
    {
        let code = text.get_char(i) as u64;
        assert(text@.take(i + 1).drop_last() =~= text@.take(i as int));
        assert(text@.take(i + 1).last() == text@[i as int]);
        h1 = (h1 ^ code).wrapping_mul(2654435761);
        h2 = (h2 ^ code).wrapping_mul(1597334677);
        i = i + 1;
    }
    assert(text@.take(n as int) =~= text@);
    h1 = (h1 ^ (h1 >> 16)).wrapping_mul(2246822507);
    h1 = h1 ^ (h2 ^ (h2 >> 13)).wrapping_mul(3266489909);
    h2 = (h2 ^ (h2 >> 16)).wrapping_mul(2246822507);
    h2 = h2 ^ (h1 ^ (h1 >> 13)).wrapping_mul(3266489909);
    let value = (4294967296u64).wrapping_mul(2097151 & h2).wrapping_add(h1);
    assert(value == cyrb_value(text@));
    let mut out = String::new();
    push_hex(&mut out, value);
    assert(out@ =~= spec_cyrb53(text@));
    out
}

/// Law: the identity hash is a pure function of the title — equal titles
/// always carry equal ids, whatever run or machine computed them.
pub proof fn lemma_identity_hash_deterministic(a: Seq<char>, b: Seq<char>)
    requires
        a == b,
    ensures
        spec_cyrb53(a) == spec_cyrb53(b),
{
}

} // verus!
