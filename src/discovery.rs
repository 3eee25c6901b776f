//! Which files of a directory listing hold configuration, and in what order
//! they are read: primary files first, override files after them.
use vstd::prelude::*;
use crate::text::{ends_with, is_word, last_dot, lemma_last_dot_bounds, split_at_last_dot, starts_with};

verus! {

/// One entry of a directory listing, as the listing gave it.
#[derive(Debug)]
pub struct DirEntry {
    /// The entry's file name (no directory part).
    pub name: String,
    /// Whether the entry is a directory.
    pub is_dir: bool,
}

impl DirEntry {
    pub fn new(name: String, is_dir: bool) -> (r: DirEntry)
        ensures
            r.name@ == name@,
            r.is_dir == is_dir,
    {
        DirEntry { name, is_dir }
    }
}

/// A file name split into its stem and extension, the extension being what
/// follows the last `.`; names with no `.`, a single leading `.` as their
/// only dot, or the name `..` have no extension.
pub open spec fn stem_and_extension(n: Seq<char>) -> Option<(Seq<char>, Seq<char>)> {
    if n == ".."@ || last_dot(n) <= 0 {
        None
    } else {
        Some((n.take(last_dot(n)), n.skip(last_dot(n) + 1)))
    }
}

/// Extensions of editor backups, swap files and hidden artifacts.
pub open spec fn excluded_extension(x: Seq<char>) -> bool {
    "."@.is_prefix_of(x) || "#"@.is_prefix_of(x) || "~"@.is_suffix_of(x) || "#"@.is_suffix_of(x)
}

/// A stem that marks an override file.
pub open spec fn override_stem(s: Seq<char>) -> bool {
    s == "override"@ || "_override"@.is_suffix_of(s)
}

/// How an entry is treated: `None` when it is skipped, else whether it is an
/// override file.
pub open spec fn entry_kind(e: DirEntry) -> Option<bool> {
    if e.is_dir {
        None
    } else {
        match stem_and_extension(e.name@) {
            None => None,
            Some((stem, ext)) => if excluded_extension(ext) {
                None
            } else {
                Some(override_stem(stem))
            },
        }
    }
}

/// The names of the entries of the given kind, in listing order.
pub open spec fn names_of_kind(es: Seq<DirEntry>, is_override: bool) -> Seq<Seq<char>>
    decreases es.len(),
{
    if es.len() == 0 {
        Seq::empty()
    } else {
        let rest = names_of_kind(es.drop_last(), is_override);
        if entry_kind(es.last()) == Some(is_override) {
            rest.push(es.last().name@)
        } else {
            rest
        }
    }
}

/// The order in which the files of a listing are read.
pub open spec fn file_order(es: Seq<DirEntry>) -> Seq<Seq<char>> {
    names_of_kind(es, false) + names_of_kind(es, true)
}

/// Whether a file name is that of an override file.
pub open spec fn override_name(n: Seq<char>) -> bool {
    stem_and_extension(n) matches Some((stem, _)) && override_stem(stem)
}

pub open spec fn views(v: Seq<String>) -> Seq<Seq<char>> {
    v.map_values(|s: String| s@)
}

fn classify(e: &DirEntry) -> (r: Option<bool>)
    ensures
        r == entry_kind(*e),
{
    proof {
        lemma_last_dot_bounds(e.name@);
    }
    if e.is_dir || is_word(e.name.as_str(), "..") {
        return None;
    }
    match split_at_last_dot(e.name.as_str()) {
        None => None,
        Some((stem, ext)) => {
            if stem.as_str().is_empty() {
                return None;
            }
            if starts_with(ext.as_str(), ".") || starts_with(ext.as_str(), "#") || ends_with(
                ext.as_str(),
                "~",
            ) || ends_with(ext.as_str(), "#") {
                return None;
            }
            Some(is_word(stem.as_str(), "override") || ends_with(stem.as_str(), "_override"))
        },
    }
}

/// The names of the configuration files among `entries`, in the order in
/// which they are read: the primary files in listing order, then the
/// override files in listing order.
pub fn order_files(entries: &Vec<DirEntry>) -> (r: Vec<String>)
    ensures
        views(r@) == file_order(entries@),
{
    let mut primary: Vec<String> = Vec::new();
    let mut overrides: Vec<String> = Vec::new();
    let mut i: usize = 0;
    while i < entries.len()
        invariant
            i <= entries.len(),
            views(primary@) == names_of_kind(entries@.take(i as int), false),
            views(overrides@) == names_of_kind(entries@.take(i as int), true),
        decreases entries.len() - i,
    {
        let e = &entries[i];
        let kind = classify(e);
        assert(entries@.take(i + 1).drop_last() =~= entries@.take(i as int));
        match kind {
            Some(true) => overrides.push(e.name.clone()),
            Some(false) => primary.push(e.name.clone()),
            None => {},
        }
        assert(views(primary@) =~= names_of_kind(entries@.take(i + 1), false));
        assert(views(overrides@) =~= names_of_kind(entries@.take(i + 1), true));
        i += 1;
    }
    assert(entries@.take(i as int) =~= entries@);
    let mut k: usize = 0;
    let ghost p0 = primary@;
    while k < overrides.len()
        invariant
            k <= overrides.len(),
            primary@ == p0 + overrides@.take(k as int),
        decreases overrides.len() - k,
    {
        primary.push(overrides[k].clone());
        assert(p0 + overrides@.take(k + 1) =~= (p0 + overrides@.take(k as int)).push(overrides@[k as int]));
        k += 1;
    }
    assert(overrides@.take(k as int) =~= overrides@);
    assert(views(primary@) =~= views(p0) + views(overrides@));
    primary
}

} // verus!
