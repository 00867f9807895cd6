//! One filesystem entry, as the listing sees it.

use vstd::prelude::*;

verus! {

/// The data of one filesystem entry, captured while its parent directory is
/// listed. The surrounding program fills it from the platform's metadata;
/// the library only reads it. Timestamps are nanoseconds since the epoch.
pub struct Entry {
    /// The base name of the entry, not its full path.
    pub name: String,
    /// The platform reports the entry as a directory.
    pub is_dir: bool,
    /// The platform reports the entry as a regular file.
    pub is_file: bool,
    /// Length in bytes.
    pub size: u64,
    /// The platform's readonly bit; no finer permission bits are modeled.
    pub readonly: bool,
    /// Modification time.
    pub modified: u64,
    /// Creation time.
    pub created: u64,
}

/// The mathematical value of an [`Entry`].
pub struct EntryV {
    pub name: Seq<char>,
    pub is_dir: bool,
    pub is_file: bool,
    pub size: u64,
    pub readonly: bool,
    pub modified: u64,
    pub created: u64,
}

impl View for Entry {
    type V = EntryV;

    open spec fn view(&self) -> EntryV {
        EntryV {
            name: self.name@,
            is_dir: self.is_dir,
            is_file: self.is_file,
            size: self.size,
            readonly: self.readonly,
            modified: self.modified,
            created: self.created,
        }
    }
}

/// The views of a sequence of entries.
pub open spec fn entry_views(s: Seq<Entry>) -> Seq<EntryV> {
    s.map_values(|e: Entry| e@)
}

/// An entry equal in value to the given one.
pub fn clone_entry(e: &Entry) -> (r: Entry)
    ensures
        r@ == e@,
{
    Entry {
        name: e.name.clone(),
        is_dir: e.is_dir,
        is_file: e.is_file,
        size: e.size,
        readonly: e.readonly,
        modified: e.modified,
        created: e.created,
    }
}

/// A vector of entries equal in value to the given one.
pub fn clone_entries(v: &Vec<Entry>) -> (r: Vec<Entry>)
    ensures
        entry_views(r@) == entry_views(v@),
{
    let mut r: Vec<Entry> = Vec::new();
    let mut i: usize = 0;
    while i < v.len()
        invariant
            i <= v.len(),
            r@.len() == i,
            entry_views(r@) == entry_views(v@.take(i as int)),
        decreases v.len() - i,
    {
        let ghost prev = r@;
        let c = clone_entry(&v[i]);
        r.push(c);
        proof {
            assert forall|j: int| 0 <= j < r@.len() implies entry_views(r@)[j] == entry_views(
                v@.take(i + 1),
            )[j] by {
                if j < i {
                    assert(entry_views(prev)[j] == entry_views(v@.take(i as int))[j]);
                    assert(v@.take(i + 1)[j] == v@.take(i as int)[j]);
                }
            }
            assert(entry_views(r@) =~= entry_views(v@.take(i + 1)));
        }
        i = i + 1;
    }
    proof {
        assert(v@.take(v@.len() as int) =~= v@);
    }
    r
}

} // verus!
