//! The properties the listing keeps, stated and proved over the
//! specification functions that the executable functions are pinned to.

use vstd::prelude::*;
use crate::config::{apply_flag, apply_flags, parse_spec, ParamsV, ShowType, SortType};
use crate::entry::EntryV;
use crate::listing::{
    dir_lines_spec, filtered, lemma_filtered_empty, lemma_filtered_push, listed_entries,
    passes_filter, recurse_all_spec, recurse_lines_spec, DirTreeV,
};
use crate::sort::{
    lemma_sort_name_identity, lemma_sort_spec_sorted, lemma_sort_spec_stable, lemma_with_key_empty,
    lemma_with_key_push, sort_key, sort_spec, sorted_by, with_key,
};

verus! {

/// Every entry of the filtered subsequence passes the filter.
pub proof fn lemma_filtered_pred(s: Seq<EntryV>, show: ShowType)
    ensures
        forall|i: int| 0 <= i < filtered(s, show).len() ==> passes_filter(
            #[trigger] filtered(s, show)[i],
            show,
        ),
    decreases s.len(),
{
    if s.len() == 0 {
        lemma_filtered_empty(show);
    } else {
        lemma_filtered_pred(s.drop_last(), show);
        lemma_filtered_push(s.drop_last(), s.last(), show);
        assert(s.drop_last().push(s.last()) =~= s);
    }
}

/// Every entry of the filtered subsequence occurs in the sequence.
proof fn lemma_filtered_contains(s: Seq<EntryV>, show: ShowType)
    ensures
        forall|i: int| 0 <= i < filtered(s, show).len() ==> s.contains(
            #[trigger] filtered(s, show)[i],
        ),
    decreases s.len(),
{
    if s.len() == 0 {
        lemma_filtered_empty(show);
    } else {
        lemma_filtered_contains(s.drop_last(), show);
        lemma_filtered_push(s.drop_last(), s.last(), show);
        assert(s.drop_last().push(s.last()) =~= s);
        assert forall|i: int| 0 <= i < filtered(s, show).len() implies s.contains(
            #[trigger] filtered(s, show)[i],
        ) by {
            let f = filtered(s, show);
            let fd = filtered(s.drop_last(), show);
            if i < fd.len() {
                assert(fd[i] == f[i]);
                let j = choose|j: int| 0 <= j < s.drop_last().len() && s.drop_last()[j] == fd[i];
                assert(s[j] == f[i]);
            } else {
                assert(f[i] == s.last());
                assert(s[s.len() - 1] == s.last());
            }
        }
    }
}

/// Filtering keeps the order of what it keeps: a filtered subsequence of a
/// sorted sequence is sorted.
proof fn lemma_filtered_sorted(s: Seq<EntryV>, show: ShowType, sort: SortType)
    requires
        sorted_by(s, sort),
    ensures
        sorted_by(filtered(s, show), sort),
    decreases s.len(),
{
    if s.len() == 0 {
        lemma_filtered_empty(show);
    } else {
        assert(sorted_by(s.drop_last(), sort));
        lemma_filtered_sorted(s.drop_last(), show, sort);
        lemma_filtered_contains(s.drop_last(), show);
        lemma_filtered_push(s.drop_last(), s.last(), show);
        assert(s.drop_last().push(s.last()) =~= s);
        let f = filtered(s, show);
        let fd = filtered(s.drop_last(), show);
        assert forall|i: int, j: int| 0 <= i < j < f.len() implies sort_key(f[i], sort)
            <= sort_key(f[j], sort) by {
            if j < fd.len() {
            } else if passes_filter(s.last(), show) {
                assert(f[j] == s.last());
                let m = choose|m: int| 0 <= m < s.drop_last().len() && s.drop_last()[m] == fd[i];
                assert(sort_key(s[m], sort) <= sort_key(s[s.len() - 1], sort));
            }
        }
    }
}

/// Selecting a key's entries commutes with filtering.
proof fn lemma_with_key_filtered(s: Seq<EntryV>, show: ShowType, sort: SortType, k: u64)
    ensures
        with_key(filtered(s, show), sort, k) == filtered(with_key(s, sort, k), show),
    decreases s.len(),
{
    if s.len() == 0 {
        lemma_filtered_empty(show);
        lemma_with_key_empty(sort, k);
    } else {
        let dl = s.drop_last();
        let l = s.last();
        lemma_with_key_filtered(dl, show, sort, k);
        assert(dl.push(l) =~= s);
        lemma_filtered_push(dl, l, show);
        lemma_with_key_push(dl, l, sort, k);
        if passes_filter(l, show) {
            lemma_with_key_push(filtered(dl, show), l, sort, k);
        }
        if sort_key(l, sort) == k {
            lemma_filtered_push(with_key(dl, sort, k), l, show);
        }
    }
}

/// With the name sort key no reordering happens: the printed entries are
/// exactly the raw enumeration order, restricted to the filter.
pub proof fn lemma_name_keeps_enumeration_order(entries: Seq<EntryV>, p: ParamsV)
    requires
        p.sort is Name,
    ensures
        listed_entries(entries, p) == filtered(entries, p.show),
{
    lemma_sort_name_identity(entries);
}

/// With the size sort key the printed entries are non-decreasing in size,
/// and entries of equal size keep their raw enumeration order: for every
/// size, the printed entries of that size are exactly the raw-order
/// filtered entries of that size.
pub proof fn lemma_size_sort_order(entries: Seq<EntryV>, p: ParamsV, k: u64)
    requires
        p.sort is Size,
    ensures
        forall|i: int, j: int|
            0 <= i < j < listed_entries(entries, p).len() ==> listed_entries(entries, p)[i].size
                <= listed_entries(entries, p)[j].size,
        with_key(listed_entries(entries, p), p.sort, k) == with_key(
            filtered(entries, p.show),
            p.sort,
            k,
        ),
{
    lemma_sort_spec_sorted(entries, p.sort);
    lemma_filtered_sorted(sort_spec(entries, p.sort), p.show, p.sort);
    assert forall|i: int, j: int|
        0 <= i < j < listed_entries(entries, p).len() implies listed_entries(entries, p)[i].size
        <= listed_entries(entries, p)[j].size by {
        assert(sort_key(listed_entries(entries, p)[i], p.sort) <= sort_key(
            listed_entries(entries, p)[j],
            p.sort,
        ));
    }
    lemma_with_key_filtered(sort_spec(entries, p.sort), p.show, p.sort, k);
    lemma_sort_spec_stable(entries, p.sort, k);
    lemma_with_key_filtered(entries, p.show, p.sort, k);
}

/// Under a restricting filter every printed entry satisfies it: with the
/// directories-only filter every printed entry is a directory, with the
/// files-only filter every printed entry is a regular file.
pub proof fn lemma_filter_restricts(entries: Seq<EntryV>, p: ParamsV)
    ensures
        p.show is Dir ==> forall|i: int|
            0 <= i < listed_entries(entries, p).len() ==> (#[trigger] listed_entries(entries, p)[i]).is_dir,
        p.show is File ==> forall|i: int|
            0 <= i < listed_entries(entries, p).len() ==> (#[trigger] listed_entries(entries, p)[i]).is_file,
{
    lemma_filtered_pred(sort_spec(entries, p.sort), p.show);
}

/// The directories of a tree in the order the recursive walk lists them:
/// the directory itself first, then, depth-first, the directories of each
/// child subtree, children in raw enumeration order. Each directory of the
/// tree occurs exactly once.
pub open spec fn preorder(d: DirTreeV) -> Seq<DirTreeV>
    decreases d,
{
    seq![d] + preorder_all(d.subdirs)
}

/// The concatenated pre-orders of a sequence of trees, in order.
pub open spec fn preorder_all(s: Seq<DirTreeV>) -> Seq<DirTreeV>
    decreases s,
{
    if s.len() == 0 {
        Seq::<DirTreeV>::empty()
    } else {
        preorder_all(s.drop_last()) + preorder(s.last())
    }
}

/// The listings of a sequence of directories, one after the other.
pub open spec fn flat_dir_lines(ds: Seq<DirTreeV>, p: ParamsV) -> Seq<Seq<char>>
    decreases ds,
{
    if ds.len() == 0 {
        Seq::<Seq<char>>::empty()
    } else {
        flat_dir_lines(ds.drop_last(), p) + dir_lines_spec(ds.last(), p)
    }
}

proof fn lemma_flat_dir_lines_add(a: Seq<DirTreeV>, b: Seq<DirTreeV>, p: ParamsV)
    ensures
        flat_dir_lines(a + b, p) == flat_dir_lines(a, p) + flat_dir_lines(b, p),
    decreases b.len(),
{
    if b.len() == 0 {
        assert(a + b =~= a);
        assert(flat_dir_lines(a, p) + flat_dir_lines(b, p) =~= flat_dir_lines(a, p));
    } else {
        lemma_flat_dir_lines_add(a, b.drop_last(), p);
        assert((a + b).drop_last() =~= a + b.drop_last());
        assert((a + b).last() == b.last());
        assert(flat_dir_lines(a, p) + (flat_dir_lines(b.drop_last(), p) + dir_lines_spec(
            b.last(),
            p,
        )) =~= (flat_dir_lines(a, p) + flat_dir_lines(b.drop_last(), p)) + dir_lines_spec(
            b.last(),
            p,
        ));
    }
}

/// The recursive walk is depth-first and pre-order, and visits every
/// directory of the tree exactly once: its output is the concatenation of
/// one listing per directory, the directories taken in pre-order.
pub proof fn lemma_recursion_preorder(d: DirTreeV, p: ParamsV)
    ensures
        recurse_lines_spec(d, p) == flat_dir_lines(preorder(d), p),
    decreases d,
{
    lemma_recursion_preorder_all(d.subdirs, p);
    assert(seq![d].drop_last() =~= Seq::<DirTreeV>::empty());
    assert(seq![d].last() == d);
    assert(flat_dir_lines(Seq::<DirTreeV>::empty(), p) == Seq::<Seq<char>>::empty());
    assert(flat_dir_lines(seq![d], p) =~= dir_lines_spec(d, p));
    lemma_flat_dir_lines_add(seq![d], preorder_all(d.subdirs), p);
    assert(recurse_lines_spec(d, p) =~= flat_dir_lines(seq![d] + preorder_all(d.subdirs), p));
}

proof fn lemma_recursion_preorder_all(s: Seq<DirTreeV>, p: ParamsV)
    ensures
        recurse_all_spec(s, p) == flat_dir_lines(preorder_all(s), p),
    decreases s,
{
    if s.len() == 0 {
    } else {
        lemma_recursion_preorder_all(s.drop_last(), p);
        lemma_recursion_preorder(s.last(), p);
        lemma_flat_dir_lines_add(preorder_all(s.drop_last()), preorder(s.last()), p);
    }
}

/// Which entries are printed, and in what order, depends only on the sort
/// key and the filter: display options do not reorder a listing.
pub proof fn lemma_display_flags_keep_order(entries: Seq<EntryV>, p1: ParamsV, p2: ParamsV)
    requires
        p1.sort == p2.sort,
        p1.show == p2.show,
    ensures
        listed_entries(entries, p1) == listed_entries(entries, p2),
{
}

/// Running with no flags and running with the permission and long flags
/// print the same entries in the same order.
pub proof fn lemma_perm_long_round_trip(entries: Seq<EntryV>)
    ensures
        listed_entries(entries, parse_spec(Seq::<Seq<char>>::empty())) == listed_entries(
            entries,
            parse_spec(seq!["-p"@, "-l"@]),
        ),
{
    reveal_strlit("-p");
    reveal_strlit("-l");
    reveal_strlit("-r");
    reveal_strlit("-c");
    reveal_strlit("-m");
    reveal_strlit("-s");
    reveal_strlit("-d");
    reveal_strlit("-f");
    reveal_strlit(".");
    let toks = seq!["-p"@, "-l"@];
    let init = ParamsV { path: crate::config::target_path(toks), ..crate::config::default_params() };
    assert(toks.drop_last() =~= seq!["-p"@]);
    assert(seq!["-p"@].drop_last() =~= Seq::<Seq<char>>::empty());
    assert(apply_flags(init, Seq::<Seq<char>>::empty()) == init);
    assert(apply_flags(init, seq!["-p"@]) == apply_flag(init, "-p"@));
    assert(apply_flags(init, toks) == apply_flag(apply_flag(init, "-p"@), "-l"@));
    let p1 = parse_spec(Seq::<Seq<char>>::empty());
    let p2 = parse_spec(toks);
    assert(p2.sort == SortType::Name && p2.show == ShowType::All);
    assert(p1.sort == SortType::Name && p1.show == ShowType::All);
    lemma_display_flags_keep_order(entries, p1, p2);
}

} // verus!
