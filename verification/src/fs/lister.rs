//! How the listing of a directory is made of what the file system says.
use crate::app_state::SortColumn;
use crate::fs::entry::FileEntry;
use crate::fs::order::{is_order_of, no_entry_is_lost, sort_entries};
use crate::names::{name_text, text_of_name};
use crate::path::DirPath;
use vstd::prelude::*;

verus! {

/// From this many entries on their metadata are read in parallel. For fewer the
/// threads would cost more than they save.
pub const PARALLEL_THRESHOLD: usize = 256;

/// Are the metadata of this many entries to be read in parallel?
pub fn reads_in_parallel(count: usize) -> (res: bool)
    ensures
        res == (count >= PARALLEL_THRESHOLD),
{
    count >= PARALLEL_THRESHOLD
}

/// What the file system says of an entry beyond its name.
#[derive(Debug)]
pub struct Metadata {
    pub is_dir: bool,
    pub len: u64,
    /// The time of the last change, in nanoseconds since the start of 1970 in UTC.
    pub modified: Option<i128>,
}

/// An entry as it was read from a directory.
#[derive(Debug)]
pub struct DirItem {
    /// The name, in the encoding of [`crate::path::PathComponent`].
    pub file_name: Vec<u8>,
    pub path: DirPath,
    /// `None` if the metadata could not be read.
    pub metadata: Option<Metadata>,
}

/// Is `entry` made of `item`? What could not be read has careful defaults: a file
/// without content and without a time. A directory has no size.
pub open spec fn is_entry_of(entry: FileEntry, item: DirItem) -> bool {
    &&& entry.name@ == name_text(item.file_name@, item.path.separator)
    &&& entry.path == item.path
    &&& match item.metadata {
        Some(m) => {
            &&& entry.is_dir == m.is_dir
            &&& entry.size == (if m.is_dir {
                0u64
            } else {
                m.len
            })
            &&& entry.modified == m.modified
        },
        None => !entry.is_dir && entry.size == 0 && entry.modified is None,
    }
}

/// Makes an entry of an item. It always succeeds, so that one item that cannot be
/// read does not hold up the others.
pub fn to_entry(item: DirItem) -> (entry: FileEntry)
    ensures
        is_entry_of(entry, item),
{
    let name: String = text_of_name(&item.file_name, item.path.separator);
    match item.metadata {
        Some(m) => {
            let size: u64 = if m.is_dir {
                0
            } else {
                m.len
            };
            FileEntry { name, path: item.path, is_dir: m.is_dir, size, modified: m.modified }
        },
        None => FileEntry { name, path: item.path, is_dir: false, size: 0, modified: None },
    }
}

/// The items that could be read, in the order in which they came.
pub open spec fn readable(items: Seq<Option<DirItem>>) -> Seq<DirItem>
    decreases items.len(),
{
    if items.len() == 0 {
        Seq::empty()
    } else {
        let before = readable(items.drop_last());
        match items.last() {
            Some(item) => before.push(item),
            None => before,
        }
    }
}

/// Are the entries made of the items, one for one?
pub open spec fn are_entries_of(entries: Seq<FileEntry>, items: Seq<DirItem>) -> bool {
    &&& entries.len() == items.len()
    &&& forall|i: int| 0 <= i < entries.len() ==> is_entry_of(#[trigger] entries[i], items[i])
}

/// Is `listing` the listing of the items: an entry for every item that could be read,
/// in the order of the list?
pub open spec fn is_listing_of(
    listing: Seq<FileEntry>,
    items: Seq<Option<DirItem>>,
    column: SortColumn,
    ascending: bool,
) -> bool {
    exists|entries: Seq<FileEntry>, from: Seq<int>|
        #![trigger is_order_of(entries, listing, from, column, ascending)]
        are_entries_of(entries, readable(items)) && is_order_of(
            entries,
            listing,
            from,
            column,
            ascending,
        )
}

/// Makes the listing of a directory of what was read from it. An item that could not
/// be read at all is `None` and left out.
pub fn list_dir(items: Vec<Option<DirItem>>, sort: SortColumn, ascending: bool) -> (listing: Vec<
    FileEntry,
>)
    ensures
        is_listing_of(listing@, items@, sort, ascending),
        forall|i: int|
            0 <= i < items@.len() && #[trigger] items@[i] is Some ==> shows(
                listing@,
                items@[i]->0,
            ),
        listing@.len() <= items@.len(),
        (forall|i: int| 0 <= i < items@.len() ==> #[trigger] items@[i] is Some) ==> listing@.len()
            == items@.len(),
{
    let ghost all = items@;
    let mut entries: Vec<FileEntry> = Vec::new();
    assert(readable(all.take(0)) == Seq::<DirItem>::empty());
    for item in it: items.into_iter()
        invariant
            it.seq() == all,
            are_entries_of(entries@, readable(all.take(it.index() as int))),
    {
        let ghost before = readable(all.take(it.index() as int));
        proof {
            let upto = all.take(it.index() as int + 1);
            assert(upto.drop_last() == all.take(it.index() as int));
            assert(upto.last() == item);
        }
        match item {
            Some(read) => {
                let ghost was = entries@;
                entries.push(to_entry(read));
                assert(entries@.drop_last() == was);
                assert(are_entries_of(entries@, before.push(read)));
            },
            None => {},
        }
    }
    assert(all.take(all.len() as int) == all);
    let ghost plain = entries@;
    let listing = sort_entries(entries, sort, ascending);
    proof {
        let from = choose|from: Seq<int>| is_order_of(plain, listing@, from, sort, ascending);
        assert(is_order_of(plain, listing@, from, sort, ascending));
        lemma_listing_covers(listing@, all, sort, ascending);
    }
    listing
}

/// Does the listing show the item?
pub open spec fn shows(listing: Seq<FileEntry>, item: DirItem) -> bool {
    exists|k: int| 0 <= k < listing.len() && is_entry_of(#[trigger] listing[k], item)
}

/// Is the entry made of one of the items?
pub open spec fn comes_from(entry: FileEntry, items: Seq<DirItem>) -> bool {
    exists|x: int| 0 <= x < items.len() && is_entry_of(entry, #[trigger] items[x])
}

/// A listing shows every item that could be read, and nothing else: what fails for
/// one item takes no other away.
pub proof fn listing_shows_all_that_was_read(
    listing: Seq<FileEntry>,
    items: Seq<Option<DirItem>>,
    column: SortColumn,
    ascending: bool,
)
    requires
        is_listing_of(listing, items, column, ascending),
    ensures
        listing.len() == readable(items).len(),
        forall|x: int| 0 <= x < readable(items).len() ==> shows(listing, #[trigger] readable(items)[x]),
        forall|k: int| 0 <= k < listing.len() ==> comes_from(#[trigger] listing[k], readable(items)),
{
    let read = readable(items);
    let (entries, from) = choose|entries: Seq<FileEntry>, from: Seq<int>|
        #![trigger is_order_of(entries, listing, from, column, ascending)]
        are_entries_of(entries, read) && is_order_of(entries, listing, from, column, ascending);
    assert forall|x: int| 0 <= x < read.len() implies shows(listing, #[trigger] read[x]) by {
        let k = no_entry_is_lost(entries, listing, from, column, ascending, x);
        assert(is_entry_of(entries[x], read[x]));
        assert(is_entry_of(listing[k], read[x]));
    }
    assert forall|k: int| 0 <= k < listing.len() implies comes_from(#[trigger] listing[k], read) by {
        let x = from[k];
        assert(is_entry_of(entries[x], read[x]));
        assert(is_entry_of(listing[k], read[x]));
    }
}

/// An entry holds what was read of its item: the name as text, the path, whether it is a
/// directory, the size of a file and the time. Of an item whose metadata could not be read
/// it says that it is a file, of no size and no time; of a directory no size.
pub proof fn entry_holds_what_was_read(entry: FileEntry, item: DirItem)
    requires
        is_entry_of(entry, item),
    ensures
        entry.name@ == name_text(item.file_name@, item.path.separator),
        entry.path == item.path,
        item.metadata is None ==> !entry.is_dir && entry.size == 0 && entry.modified is None,
        item.metadata is Some ==> entry.is_dir == item.metadata->0.is_dir && entry.modified
            == item.metadata->0.modified,
        item.metadata is Some && item.metadata->0.is_dir ==> entry.size == 0,
        item.metadata is Some && !item.metadata->0.is_dir ==> entry.size == item.metadata->0.len,
{
}

proof fn lemma_places_of_readable(items: Seq<Option<DirItem>>) -> (places: Seq<int>)
    ensures
        places.len() == readable(items).len(),
        places.no_duplicates(),
        forall|x: int|
            0 <= x < places.len() ==> 0 <= #[trigger] places[x] < items.len() && items[places[x]]
                == Some(readable(items)[x]),
        forall|i: int| 0 <= i < items.len() && #[trigger] items[i] is Some ==> places.contains(i),
    decreases items.len(),
{
    if items.len() == 0 {
        Seq::empty()
    } else {
        let front = items.drop_last();
        let before = lemma_places_of_readable(front);
        let last = items.len() - 1;
        assert forall|x: int| 0 <= x < before.len() implies 0 <= #[trigger] before[x] < last
            && items[before[x]] == Some(readable(front)[x]) by {
            assert(front[before[x]] == items[before[x]]);
        }
        let places = if items.last() is Some {
            before.push(last)
        } else {
            before
        };
        assert forall|x: int| 0 <= x < places.len() implies 0 <= #[trigger] places[x] < items.len()
            && items[places[x]] == Some(readable(items)[x]) by {
            if x < before.len() {
                assert(places[x] == before[x]);
            }
        }
        assert forall|i: int| 0 <= i < items.len() && #[trigger] items[i] is Some implies
            places.contains(i) by {
            if i < last {
                assert(front[i] == items[i]);
                assert(before.contains(i));
                let x = choose|x: int| 0 <= x < before.len() && before[x] == i;
                assert(places[x] == i);
            } else {
                assert(places[places.len() - 1] == i);
            }
        }
        places
    }
}

/// A listing has one entry for each item that is there, and none besides. Every entry is
/// made of an item at a place of its own, and every item that is there has its entry.
pub proof fn listing_has_an_entry_for_each_item(
    listing: Seq<FileEntry>,
    items: Seq<Option<DirItem>>,
    column: SortColumn,
    ascending: bool,
)
    requires
        is_listing_of(listing, items, column, ascending),
    ensures
        exists|at: Seq<int>|
            {
                &&& #[trigger] at.no_duplicates()
                &&& at.len() == listing.len()
                &&& forall|k: int|
                    0 <= k < listing.len() ==> 0 <= #[trigger] at[k] < items.len()
                        && items[at[k]] is Some && is_entry_of(listing[k], items[at[k]]->0)
                &&& forall|i: int|
                    0 <= i < items.len() && #[trigger] items[i] is Some ==> at.contains(i)
            },
{
    let read = readable(items);
    let (entries, from) = choose|entries: Seq<FileEntry>, from: Seq<int>|
        #![trigger is_order_of(entries, listing, from, column, ascending)]
        are_entries_of(entries, read) && is_order_of(entries, listing, from, column, ascending);
    let places = lemma_places_of_readable(items);
    let at = Seq::new(listing.len(), |k: int| places[from[k]]);
    assert forall|k: int| 0 <= k < listing.len() implies 0 <= #[trigger] at[k] < items.len()
        && items[at[k]] is Some && is_entry_of(listing[k], items[at[k]]->0) by {
        let x = from[k];
        assert(0 <= x < entries.len());
        assert(listing[k] == entries[x]);
        assert(is_entry_of(entries[x], read[x]));
        assert(items[places[x]] == Some(read[x]));
    }
    assert(at.no_duplicates());
    assert forall|i: int| 0 <= i < items.len() && #[trigger] items[i] is Some implies at.contains(
        i,
    ) by {
        assert(places.contains(i));
        let x = choose|x: int| 0 <= x < places.len() && places[x] == i;
        let k = no_entry_is_lost(entries, listing, from, column, ascending, x);
        assert(at[k] == i);
    }
}

proof fn lemma_listing_covers(
    listing: Seq<FileEntry>,
    items: Seq<Option<DirItem>>,
    column: SortColumn,
    ascending: bool,
)
    requires
        is_listing_of(listing, items, column, ascending),
    ensures
        forall|i: int|
            0 <= i < items.len() && #[trigger] items[i] is Some ==> shows(listing, items[i]->0),
        listing.len() <= items.len(),
        (forall|i: int| 0 <= i < items.len() ==> #[trigger] items[i] is Some) ==> listing.len()
            == items.len(),
{
    listing_has_an_entry_for_each_item(listing, items, column, ascending);
    let at = choose|at: Seq<int>|
        {
            &&& #[trigger] at.no_duplicates()
            &&& at.len() == listing.len()
            &&& forall|k: int|
                0 <= k < listing.len() ==> 0 <= #[trigger] at[k] < items.len()
                    && items[at[k]] is Some && is_entry_of(listing[k], items[at[k]]->0)
            &&& forall|i: int|
                0 <= i < items.len() && #[trigger] items[i] is Some ==> at.contains(i)
        };
    assert forall|i: int| 0 <= i < items.len() && #[trigger] items[i] is Some implies shows(
        listing,
        items[i]->0,
    ) by {
        let k = choose|k: int| 0 <= k < at.len() && at[k] == i;
        assert(is_entry_of(listing[k], items[at[k]]->0));
    }
    let all = vstd::set_lib::set_int_range(0, items.len() as int);
    vstd::set_lib::lemma_int_range(0, items.len() as int);
    at.unique_seq_to_set();
    vstd::seq_lib::seq_to_set_is_finite(at);
    assert(at.to_set().subset_of(all));
    vstd::set_lib::lemma_len_subset(at.to_set(), all);
    if forall|i: int| 0 <= i < items.len() ==> #[trigger] items[i] is Some {
        assert forall|i: int| all.contains(i) implies at.to_set().contains(i) by {
            assert(items[i] is Some);
            assert(at.contains(i));
        }
        assert(at.to_set() =~= all);
    }
}

/// As many entries as there are items: one more item at the end is one entry more, if it is
/// there, and none otherwise.
pub proof fn listing_counts_the_items(items: Seq<Option<DirItem>>, item: DirItem)
    ensures
        readable(Seq::empty()).len() == 0,
        readable(items.push(Some(item))) == readable(items).push(item),
        readable(items.push(None)) == readable(items),
{
    assert(items.push(Some(item)).drop_last() == items);
    assert(items.push(None).drop_last() == items);
}

} // verus!
