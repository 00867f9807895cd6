//! The listing engine: filtering, one directory's output, and the
//! depth-first recursive walk over a captured directory tree.

use vstd::prelude::*;
use crate::config::{Params, ParamsV, ShowType};
use crate::entry::{clone_entries, entry_views, Entry, EntryV};
use crate::format::{format_entry, line_spec};
use crate::sort::{sort_entries, sort_spec};

verus! {

/// Whether an entry passes the configured filter.
pub open spec fn passes_filter(e: EntryV, show: ShowType) -> bool {
    match show {
        ShowType::All => true,
        ShowType::Dir => e.is_dir,
        ShowType::File => e.is_file,
    }
}

/// The subsequence of entries that pass the filter, in order.
pub open spec fn filtered(s: Seq<EntryV>, show: ShowType) -> Seq<EntryV> {
    s.filter(|e: EntryV| passes_filter(e, show))
}

/// Appending one entry extends the filtered subsequence exactly when the
/// entry passes the filter.
pub proof fn lemma_filtered_push(s: Seq<EntryV>, e: EntryV, show: ShowType)
    ensures
        filtered(s.push(e), show) == if passes_filter(e, show) {
            filtered(s, show).push(e)
        } else {
            filtered(s, show)
        },
{
    reveal_with_fuel(Seq::filter, 2);
    assert(s.push(e).drop_last() =~= s);
    assert(s.push(e).last() == e);
}

/// An empty sequence has an empty filtered subsequence.
pub proof fn lemma_filtered_empty(show: ShowType)
    ensures
        filtered(Seq::<EntryV>::empty(), show) == Seq::<EntryV>::empty(),
{
    reveal_with_fuel(Seq::filter, 2);
}

/// The entries a directory listing prints, in the order it prints them:
/// the stable sort by the configured key, restricted to the configured
/// filter.
pub open spec fn listed_entries(entries: Seq<EntryV>, p: ParamsV) -> Seq<EntryV> {
    filtered(sort_spec(entries, p.sort), p.show)
}

/// The views of a sequence of lines.
pub open spec fn line_views(s: Seq<String>) -> Seq<Seq<char>> {
    s.map_values(|x: String| x@)
}

/// One directory of a captured listing snapshot: the header line to print
/// for it, its immediate entries in raw enumeration order, and — when the
/// walk is recursive — its child directories, also in raw enumeration
/// order.
pub struct DirTree {
    /// The absolute-path header printed above the directory's entries, or
    /// the textual fallback when the absolute path could not be resolved.
    pub header: String,
    /// The directory's immediate entries, in raw enumeration order.
    pub entries: Vec<Entry>,
    /// The directory's child directories, in raw enumeration order; left
    /// empty when the walk is not recursive.
    pub subdirs: Vec<DirTree>,
}

/// The mathematical value of a [`DirTree`].
pub struct DirTreeV {
    pub header: Seq<char>,
    pub entries: Seq<EntryV>,
    pub subdirs: Seq<DirTreeV>,
}

/// The mathematical value of a [`DirTree`].
pub open spec fn dir_view(d: DirTree) -> DirTreeV
    decreases d,
{
    DirTreeV {
        header: d.header@,
        entries: entry_views(d.entries@),
        subdirs: dir_views(d.subdirs@),
    }
}

/// The mathematical values of a sequence of directories.
pub open spec fn dir_views(s: Seq<DirTree>) -> Seq<DirTreeV>
    decreases s,
{
    if s.len() == 0 {
        Seq::<DirTreeV>::empty()
    } else {
        dir_views(s.drop_last()).push(dir_view(s.last()))
    }
}

/// The views of a sequence of directories, element by element.
pub proof fn lemma_dir_views(s: Seq<DirTree>)
    ensures
        dir_views(s).len() == s.len(),
        forall|i: int| 0 <= i < s.len() ==> dir_views(s)[i] == dir_view(s[i]),
    decreases s,
{
    if s.len() == 0 {
    } else {
        lemma_dir_views(s.drop_last());
    }
}

/// The target of one listing invocation: a single file, or a directory with
/// its captured contents.
pub enum FsTree {
    File(Entry),
    Dir(DirTree),
}

/// The mathematical value of an [`FsTree`].
pub enum FsTreeV {
    File(EntryV),
    Dir(DirTreeV),
}

/// The mathematical value of an [`FsTree`].
pub open spec fn tree_view(t: FsTree) -> FsTreeV {
    match t {
        FsTree::File(e) => FsTreeV::File(e@),
        FsTree::Dir(d) => FsTreeV::Dir(dir_view(d)),
    }
}

/// The output of one directory's listing: a blank line, the header, a blank
/// line, then the display line of each passing entry, sorted.
pub open spec fn dir_lines_spec(d: DirTreeV, p: ParamsV) -> Seq<Seq<char>> {
    seq![Seq::<char>::empty(), d.header, Seq::<char>::empty()] + listed_entries(
        d.entries,
        p,
    ).map_values(|e: EntryV| line_spec(e, p))
}

/// Lists one directory: prints its header block, then one line per entry
/// that passes the filter, in stably sorted order.
pub fn ls_dir(d: &DirTree, params: &Params) -> (r: Vec<String>)
    ensures
        line_views(r@) == dir_lines_spec(dir_view(*d), params@),
{
    let ghost p = params@;
    let mut lines: Vec<String> = Vec::new();
    lines.push(String::new());
    lines.push(d.header.clone());
    lines.push(String::new());
    let sorted = sort_entries(clone_entries(&d.entries), &params.sort);
    let ghost sv = entry_views(sorted@);
    proof {
        assert(sv == sort_spec(entry_views(d.entries@), p.sort));
        lemma_filtered_empty(p.show);
        assert(line_views(lines@) =~= seq![Seq::<char>::empty(), d.header@, Seq::<char>::empty()]
            + filtered(sv.take(0), p.show).map_values(|e: EntryV| line_spec(e, p)));
    }
    let mut i: usize = 0;
    while i < sorted.len()
        invariant
            i <= sorted.len(),
            params@ == p,
            sv == entry_views(sorted@),
            sv == sort_spec(entry_views(d.entries@), p.sort),
            line_views(lines@) == seq![Seq::<char>::empty(), d.header@, Seq::<char>::empty()]
                + filtered(sv.take(i as int), p.show).map_values(|e: EntryV| line_spec(e, p)),
        decreases sorted.len() - i,
    {
        let ghost prev = lines@;
        let e = &sorted[i];
        let keep = match params.show {
            ShowType::All => true,
            ShowType::Dir => e.is_dir,
            ShowType::File => e.is_file,
        };
        if keep {
            lines.push(format_entry(e, params));
        }
        proof {
            assert(sv.take(i + 1).drop_last() =~= sv.take(i as int));
            assert(sv.take(i + 1).last() == e@);
            assert(sv.take(i + 1) == sv.take(i as int).push(e@));
            lemma_filtered_push(sv.take(i as int), e@, p.show);
            if passes_filter(e@, p.show) {
                assert(line_views(lines@) =~= line_views(prev).push(line_spec(e@, p)));
                assert(filtered(sv.take(i + 1), p.show).map_values(|x: EntryV| line_spec(x, p))
                    =~= filtered(sv.take(i as int), p.show).map_values(
                    |x: EntryV| line_spec(x, p),
                ).push(line_spec(e@, p)));
                assert(line_views(lines@) =~= seq![
                    Seq::<char>::empty(),
                    d.header@,
                    Seq::<char>::empty(),
                ] + filtered(sv.take(i + 1), p.show).map_values(|x: EntryV| line_spec(x, p)));
            }
        }
        i = i + 1;
    }
    proof {
        assert(sv.take(sv.len() as int) =~= sv);
        assert(line_views(lines@) =~= dir_lines_spec(dir_view(*d), p));
    }
    lines
}

/// Lists a single file target: exactly one display line, with no header.
pub fn ls_file(e: &Entry, params: &Params) -> (r: Vec<String>)
    ensures
        line_views(r@) == seq![line_spec(e@, params@)],
{
    let mut lines: Vec<String> = Vec::new();
    lines.push(format_entry(e, params));
    proof {
        assert(line_views(lines@) =~= seq![line_spec(e@, params@)]);
    }
    lines
}

/// The output of one non-recursive listing invocation: a directory's full
/// block for a directory target, a single display line for anything else.
pub open spec fn ls_spec(t: FsTreeV, p: ParamsV) -> Seq<Seq<char>> {
    match t {
        FsTreeV::File(e) => seq![line_spec(e, p)],
        FsTreeV::Dir(d) => dir_lines_spec(d, p),
    }
}

/// Lists one target: the whole directory block when the target is a
/// directory, one formatted line when it is a single file.
pub fn ls(t: &FsTree, params: &Params) -> (r: Vec<String>)
    ensures
        line_views(r@) == ls_spec(tree_view(*t), params@),
{
    match t {
        FsTree::File(e) => ls_file(e, params),
        FsTree::Dir(d) => ls_dir(d, params),
    }
}

/// The output of the recursive walk from one directory: the directory's own
/// listing first, then, depth-first and in raw enumeration order, the walk
/// of each child directory.
pub open spec fn recurse_lines_spec(d: DirTreeV, p: ParamsV) -> Seq<Seq<char>>
    decreases d,
{
    dir_lines_spec(d, p) + recurse_all_spec(d.subdirs, p)
}

/// The concatenated recursive walks of a sequence of directories, in order.
pub open spec fn recurse_all_spec(s: Seq<DirTreeV>, p: ParamsV) -> Seq<Seq<char>>
    decreases s,
{
    if s.len() == 0 {
        Seq::<Seq<char>>::empty()
    } else {
        recurse_all_spec(s.drop_last(), p) + recurse_lines_spec(s.last(), p)
    }
}

/// Walks one directory depth-first, pre-order: lists it, then recursively
/// walks each of its child directories in raw enumeration order.
pub fn ls_recurse(d: &DirTree, params: &Params) -> (r: Vec<String>)
    ensures
        line_views(r@) == recurse_lines_spec(dir_view(*d), params@),
    decreases *d,
{
    let ghost p = params@;
    let mut lines = ls_dir(d, params);
    let ghost dl = dir_lines_spec(dir_view(*d), p);
    proof {
        lemma_dir_views(d.subdirs@);
        assert(lines@.len() == line_views(lines@).len());
        assert(line_views(lines@) =~= dl + recurse_all_spec(
            dir_views(d.subdirs@).take(0),
            p,
        ));
    }
    let mut i: usize = 0;
    while i < d.subdirs.len()
        invariant
            i <= d.subdirs.len(),
            params@ == p,
            dl == dir_lines_spec(dir_view(*d), p),
            line_views(lines@) == dl + recurse_all_spec(dir_views(d.subdirs@).take(i as int), p),
        decreases d.subdirs.len() - i,
    {
        let ghost prev = lines@;
        let mut sub = ls_recurse(&d.subdirs[i], params);
        let ghost subv = sub@;
        lines.append(&mut sub);
        proof {
            lemma_dir_views(d.subdirs@);
            let dv = dir_views(d.subdirs@);
            assert(dv.take(i + 1).drop_last() =~= dv.take(i as int));
            assert(dv.take(i + 1).last() == dir_view(d.subdirs@[i as int]));
            assert(line_views(lines@) =~= line_views(prev) + line_views(subv));
            assert(line_views(lines@) =~= dl + recurse_all_spec(dv.take(i + 1), p));
        }
        i = i + 1;
    }
    proof {
        lemma_dir_views(d.subdirs@);
        assert(dir_views(d.subdirs@).take(dir_views(d.subdirs@).len() as int) =~= dir_views(
            d.subdirs@,
        ));
    }
    lines
}

} // verus!
