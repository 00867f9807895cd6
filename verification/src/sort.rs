//! A stable sort of directory entries by the configured key.

use vstd::prelude::*;
use crate::config::SortType;
use crate::entry::{entry_views, Entry, EntryV};

verus! {

/// The integer an entry is ordered by under a sort key. The name key orders
/// nothing: every entry gets the same key, so the stable sort keeps raw
/// enumeration order.
pub open spec fn sort_key(e: EntryV, sort: SortType) -> u64 {
    match sort {
        SortType::Name => 0,
        SortType::LastModified => e.modified,
        SortType::Created => e.created,
        SortType::Size => e.size,
    }
}

/// The entries are in non-decreasing key order.
pub open spec fn sorted_by(s: Seq<EntryV>, sort: SortType) -> bool {
    forall|i: int, j: int|
        0 <= i < j < s.len() ==> sort_key(s[i], sort) <= sort_key(s[j], sort)
}

/// The entry inserted after every entry whose key is at most its own:
/// the insertion step of a stable insertion sort.
pub open spec fn insert_sorted(s: Seq<EntryV>, e: EntryV, sort: SortType) -> Seq<EntryV>
    decreases s.len(),
{
    if s.len() == 0 {
        seq![e]
    } else if sort_key(s.last(), sort) <= sort_key(e, sort) {
        s.push(e)
    } else {
        insert_sorted(s.drop_last(), e, sort).push(s.last())
    }
}

/// The stable insertion sort of a sequence of entries: entries are inserted
/// in order, each after all entries with a key at most its own.
pub open spec fn sort_spec(s: Seq<EntryV>, sort: SortType) -> Seq<EntryV>
    decreases s.len(),
{
    if s.len() == 0 {
        Seq::<EntryV>::empty()
    } else {
        insert_sorted(sort_spec(s.drop_last(), sort), s.last(), sort)
    }
}

/// The subsequence of entries whose key equals a given value, in order.
pub open spec fn with_key(s: Seq<EntryV>, sort: SortType, k: u64) -> Seq<EntryV> {
    s.filter(|e: EntryV| sort_key(e, sort) == k)
}

/// Appending one entry extends the equal-key subsequence exactly when the
/// entry carries that key.
pub proof fn lemma_with_key_push(s: Seq<EntryV>, e: EntryV, sort: SortType, k: u64)
    ensures
        with_key(s.push(e), sort, k) == if sort_key(e, sort) == k {
            with_key(s, sort, k).push(e)
        } else {
            with_key(s, sort, k)
        },
{
    reveal_with_fuel(Seq::filter, 2);
    assert(s.push(e).drop_last() =~= s);
    assert(s.push(e).last() == e);
}

/// An empty sequence has an empty equal-key subsequence.
pub proof fn lemma_with_key_empty(sort: SortType, k: u64)
    ensures
        with_key(Seq::<EntryV>::empty(), sort, k) == Seq::<EntryV>::empty(),
{
    reveal_with_fuel(Seq::filter, 2);
}

/// Every entry of an insertion is the inserted entry or one of the original
/// sequence.
proof fn lemma_insert_sorted_elems(s: Seq<EntryV>, e: EntryV, sort: SortType)
    ensures
        insert_sorted(s, e, sort).len() == s.len() + 1,
        forall|i: int|
            0 <= i < insert_sorted(s, e, sort).len() ==> (insert_sorted(s, e, sort)[i] == e
                || s.contains(insert_sorted(s, e, sort)[i])),
    decreases s.len(),
{
    if s.len() == 0 {
    } else if sort_key(s.last(), sort) <= sort_key(e, sort) {
    } else {
        lemma_insert_sorted_elems(s.drop_last(), e, sort);
        let t = insert_sorted(s.drop_last(), e, sort);
        assert forall|i: int| 0 <= i < t.push(s.last()).len() implies (t.push(s.last())[i] == e
            || s.contains(t.push(s.last())[i])) by {
            if i < t.len() {
                if t[i] != e {
                    let j = choose|j: int| 0 <= j < s.drop_last().len() && s.drop_last()[j] == t[i];
                    assert(s[j] == t[i]);
                }
            } else {
                assert(s[s.len() - 1] == s.last());
            }
        }
    }
}

/// Inserting into a sorted sequence keeps it sorted.
proof fn lemma_insert_sorted_sorted(s: Seq<EntryV>, e: EntryV, sort: SortType)
    requires
        sorted_by(s, sort),
    ensures
        sorted_by(insert_sorted(s, e, sort), sort),
    decreases s.len(),
{
    if s.len() == 0 {
    } else if sort_key(s.last(), sort) <= sort_key(e, sort) {
        assert forall|i: int, j: int|
            0 <= i < j < s.push(e).len() implies sort_key(s.push(e)[i], sort) <= sort_key(
            s.push(e)[j],
            sort,
        ) by {
            if j < s.len() {
            } else {
                assert(s.push(e)[j] == e);
                if i < s.len() - 1 {
                    assert(sort_key(s[i], sort) <= sort_key(s[s.len() - 1], sort));
                }
            }
        }
    } else {
        assert(sorted_by(s.drop_last(), sort));
        lemma_insert_sorted_sorted(s.drop_last(), e, sort);
        lemma_insert_sorted_elems(s.drop_last(), e, sort);
        let t = insert_sorted(s.drop_last(), e, sort);
        assert forall|i: int, j: int|
            0 <= i < j < t.push(s.last()).len() implies sort_key(t.push(s.last())[i], sort)
            <= sort_key(t.push(s.last())[j], sort) by {
            if j < t.len() {
            } else {
                let x = t.push(s.last())[i];
                assert(x == t[i]);
                if x == e {
                } else {
                    let m = choose|m: int| 0 <= m < s.drop_last().len() && s.drop_last()[m] == x;
                    assert(sort_key(s[m], sort) <= sort_key(s[s.len() - 1], sort));
                }
            }
        }
    }
}

/// Insertion adds the entry to the subsequence of its own key and leaves
/// every other key's subsequence unchanged.
proof fn lemma_insert_sorted_with_key(s: Seq<EntryV>, e: EntryV, sort: SortType, k: u64)
    ensures
        with_key(insert_sorted(s, e, sort), sort, k) == if sort_key(e, sort) == k {
            with_key(s, sort, k).push(e)
        } else {
            with_key(s, sort, k)
        },
    decreases s.len(),
{
    if s.len() == 0 {
        lemma_with_key_empty(sort, k);
        assert(seq![e] =~= Seq::<EntryV>::empty().push(e));
        lemma_with_key_push(Seq::<EntryV>::empty(), e, sort, k);
    } else if sort_key(s.last(), sort) <= sort_key(e, sort) {
        lemma_with_key_push(s, e, sort, k);
    } else {
        let t = insert_sorted(s.drop_last(), e, sort);
        lemma_insert_sorted_with_key(s.drop_last(), e, sort, k);
        lemma_with_key_push(t, s.last(), sort, k);
        lemma_with_key_push(s.drop_last(), s.last(), sort, k);
        assert(s.drop_last().push(s.last()) =~= s);
    }
}

/// The sort returns a sorted sequence.
pub proof fn lemma_sort_spec_sorted(s: Seq<EntryV>, sort: SortType)
    ensures
        sorted_by(sort_spec(s, sort), sort),
    decreases s.len(),
{
    if s.len() == 0 {
    } else {
        lemma_sort_spec_sorted(s.drop_last(), sort);
        lemma_insert_sorted_sorted(sort_spec(s.drop_last(), sort), s.last(), sort);
    }
}

/// The sort keeps the length.
pub proof fn lemma_sort_spec_len(s: Seq<EntryV>, sort: SortType)
    ensures
        sort_spec(s, sort).len() == s.len(),
    decreases s.len(),
{
    if s.len() == 0 {
    } else {
        lemma_sort_spec_len(s.drop_last(), sort);
        lemma_insert_sorted_elems(sort_spec(s.drop_last(), sort), s.last(), sort);
    }
}

/// The sort is stable: for every key value, the entries carrying that key
/// come out exactly as they went in, in the same relative order.
pub proof fn lemma_sort_spec_stable(s: Seq<EntryV>, sort: SortType, k: u64)
    ensures
        with_key(sort_spec(s, sort), sort, k) == with_key(s, sort, k),
    decreases s.len(),
{
    if s.len() == 0 {
    } else {
        lemma_sort_spec_stable(s.drop_last(), sort, k);
        lemma_insert_sorted_with_key(sort_spec(s.drop_last(), sort), s.last(), sort, k);
        lemma_with_key_push(s.drop_last(), s.last(), sort, k);
        assert(s.drop_last().push(s.last()) =~= s);
    }
}

/// Under the name key the sort reorders nothing.
pub proof fn lemma_sort_name_identity(s: Seq<EntryV>)
    ensures
        sort_spec(s, SortType::Name) == s,
    decreases s.len(),
{
    if s.len() == 0 {
        assert(sort_spec(s, SortType::Name) =~= s);
    } else {
        lemma_sort_name_identity(s.drop_last());
        let t = sort_spec(s.drop_last(), SortType::Name);
        if t.len() == 0 {
            assert(insert_sorted(t, s.last(), SortType::Name) =~= s);
        } else {
            assert(sort_key(t.last(), SortType::Name) <= sort_key(s.last(), SortType::Name));
            assert(t.push(s.last()) =~= s);
        }
    }
}

/// The key an entry is ordered by under a sort key.
fn entry_key(e: &Entry, sort: &SortType) -> (r: u64)
    ensures
        r == sort_key(e@, *sort),
{
    match sort {
        SortType::Name => 0,
        SortType::LastModified => e.modified,
        SortType::Created => e.created,
        SortType::Size => e.size,
    }
}

/// An insertion at a position below which every key is at most the entry's
/// and from which on every key is above it is the stable insertion.
proof fn lemma_insert_sorted_at(s: Seq<EntryV>, e: EntryV, sort: SortType, pos: int)
    requires
        0 <= pos <= s.len(),
        forall|j: int| pos <= j < s.len() ==> sort_key(s[j], sort) > sort_key(e, sort),
        pos > 0 ==> sort_key(s[pos - 1], sort) <= sort_key(e, sort),
    ensures
        insert_sorted(s, e, sort) == s.insert(pos, e),
    decreases s.len(),
{
    if s.len() == 0 {
        assert(insert_sorted(s, e, sort) =~= s.insert(0, e));
    } else if pos == s.len() {
        assert(sort_key(s.last(), sort) <= sort_key(e, sort));
        assert(s.push(e) =~= s.insert(pos, e));
    } else {
        assert(sort_key(s[s.len() - 1], sort) > sort_key(e, sort));
        lemma_insert_sorted_at(s.drop_last(), e, sort, pos);
        assert(insert_sorted(s.drop_last(), e, sort).push(s.last()) =~= s.insert(pos, e));
    }
}

/// Inserts one entry into a vector so that it lands after every entry whose
/// key is at most its own.
fn insert_entry(out: &mut Vec<Entry>, e: Entry, sort: &SortType)
    ensures
        entry_views(final(out)@) == insert_sorted(entry_views(old(out)@), e@, *sort),
{
    let k = entry_key(&e, sort);
    let ghost s = entry_views(out@);
    let mut pos: usize = out.len();
    while pos > 0 && entry_key(&out[pos - 1], sort) > k
        invariant
            pos <= out@.len(),
            s == entry_views(out@),
            k == sort_key(e@, *sort),
            forall|j: int| pos <= j < s.len() ==> sort_key(s[j], *sort) > sort_key(e@, *sort),
        decreases pos,
    {
        pos = pos - 1;
    }
    proof {
        lemma_insert_sorted_at(s, e@, *sort, pos as int);
    }
    out.insert(pos, e);
    proof {
        assert(entry_views(out@) =~= s.insert(pos as int, e@));
    }
}

/// Sorts the entries by the configured key with a stable insertion sort;
/// under the name key the entries are returned unchanged.
pub fn sort_entries(entries: Vec<Entry>, sort: &SortType) -> (r: Vec<Entry>)
    ensures
        entry_views(r@) == sort_spec(entry_views(entries@), *sort),
{
    let ghost orig = entry_views(entries@);
    match sort {
        SortType::Name => {
            proof {
                lemma_sort_name_identity(orig);
            }
            entries
        },
        _ => {
            let mut input = entries;
            let mut out: Vec<Entry> = Vec::new();
            while input.len() > 0
                invariant
                    input@.len() <= orig.len(),
                    entry_views(input@) == orig.skip(orig.len() - input@.len()),
                    entry_views(out@) == sort_spec(
                        orig.take(orig.len() - input@.len()),
                        *sort,
                    ),
                decreases input.len(),
            {
                let ghost m = orig.len() - input@.len();
                let ghost prev_in = input@;
                let e = input.remove(0);
                proof {
                    assert(e@ == entry_views(prev_in)[0]);
                    assert(e@ == orig.skip(m)[0]);
                    assert(e@ == orig[m]);
                    assert forall|j: int| 0 <= j < input@.len() implies entry_views(input@)[j]
                        == orig.skip(m + 1)[j] by {
                        assert(input@[j] == prev_in[j + 1]);
                        assert(entry_views(prev_in)[j + 1] == orig.skip(m)[j + 1]);
                    }
                    assert(entry_views(input@) =~= orig.skip(m + 1));
                }
                insert_entry(&mut out, e, sort);
                proof {
                    assert(orig.take(m + 1).drop_last() =~= orig.take(m));
                    assert(orig.take(m + 1).last() == orig[m]);
                }
            }
            proof {
                assert(orig.skip(0) =~= orig);
                assert(orig.take(orig.len() as int) =~= orig);
            }
            out
        },
    }
}

} // verus!
