//! The state of the browser window.
use crate::fs::entry::FileEntry;
use crate::path::{DirPath, Part};
use crate::text::{
    ascii_lowercase, ascii_lowercase_idempotent, has_substring, held_text_has_something_around_it,
    lower_chars, lowercase, occurs_at, occurs_in,
};
use std::time::Instant;
use vstd::prelude::*;
use vstd::string::*;
use vstd::utf8::is_ascii_chars;

verus! {

/// The column that orders the list.
#[derive(Clone, Copy, PartialEq, Eq, Structural, Debug, Default)]
pub enum SortColumn {
    /// The name, without regard to case.
    #[default]
    Name,
    /// The size in bytes.
    Size,
    /// The time of the last change.
    Modified,
}

/// The clock that only runs forward, from `std::time::Instant`.
#[verifier::external_type_specification]
#[verifier::external_body]
pub struct ExInstant(Instant);

/// `Instant::now` of std: the moment of the call, of which nothing is known.
pub assume_specification[ Instant::now ]() -> Instant
;

/// The time from one moment to a later one, as `Instant::duration_since` gives it.
pub uninterp spec fn time_between(later: Instant, earlier: Instant) -> core::time::Duration;

/// `Instant::duration_since` of std: the time between two moments. It depends on the two
/// alone and goes by the name [`time_between`]; how long it is stays unsaid, for a moment
/// shows nothing of itself.
pub assume_specification[ Instant::duration_since ](
    later: &Instant,
    earlier: Instant,
) -> (res: core::time::Duration)
    ensures
        res == time_between(*later, earlier),
;

/// The whole milliseconds of a stretch of time, as `Duration::as_millis` gives them.
pub uninterp spec fn whole_millis(d: core::time::Duration) -> u128;

/// `Duration::as_millis` of std: the whole milliseconds of a stretch of time. They depend
/// on it alone and go by the name [`whole_millis`].
pub assume_specification[ core::time::Duration::as_millis ](d: &core::time::Duration) -> (res: u128)
    ensures
        res == whole_millis(*d),
;

/// What the window shows and how: the one place where this is recorded.
///
/// `W` is what keeps a directory being watched for as long as it is kept.
pub struct AppState<W> {
    /// The directory that is open; the empty path before the first one is.
    pub current_dir: DirPath,
    /// All entries of the directory, in the order of the list, whatever the filter.
    pub entries: Vec<FileEntry>,
    /// Only entries with this text in their name are shown. The empty filter lets
    /// all through.
    pub filter: String,
    /// Watches the open directory.
    pub watcher: Option<W>,
    /// The column that orders the list.
    pub sort_column: SortColumn,
    /// Does the order go upwards?
    pub sort_ascending: bool,
    /// What has been typed to jump to an entry. A pause of half a second ends it.
    pub typeahead_buffer: String,
    /// When the last character was typed.
    pub typeahead_last: Instant,
    /// The directories to go back to, the nearest last.
    pub history_back: Vec<DirPath>,
    /// The directories to go forward to, the nearest last.
    pub history_forward: Vec<DirPath>,
}

impl<W> Default for AppState<W> {
    fn default() -> (state: AppState<W>)
        ensures
            state.current_dir@.parts == Seq::<Part>::empty(),
            state.current_dir@.text == Seq::<char>::empty(),
            state.entries@ == Seq::<FileEntry>::empty(),
            state.filter@ == Seq::<char>::empty(),
            state.watcher is None,
            state.sort_column == SortColumn::Name,
            state.sort_ascending,
            state.typeahead_buffer@ == Seq::<char>::empty(),
            state.history_back@ == Seq::<DirPath>::empty(),
            state.history_forward@ == Seq::<DirPath>::empty(),
    {
        AppState {
            current_dir: DirPath::empty(),
            entries: Vec::new(),
            filter: String::new(),
            watcher: None,
            sort_column: SortColumn::Name,
            sort_ascending: true,
            typeahead_buffer: String::new(),
            typeahead_last: Instant::now(),
            history_back: Vec::new(),
            history_forward: Vec::new(),
        }
    }
}

/// Does the filter let the name through? It does if the name holds the filter's text,
/// without regard to case.
pub open spec fn passes(name: Seq<char>, filter: Seq<char>) -> bool {
    lowercase(filter).len() == 0 || occurs_in(lowercase(name), lowercase(filter))
}

/// The entries that the filter lets through, in the order of the list.
pub open spec fn visible_of(entries: Seq<FileEntry>, filter: Seq<char>) -> Seq<FileEntry> {
    entries.filter(|e: FileEntry| passes(e.name@, filter))
}

impl<W> AppState<W> {
    /// The entries that are shown.
    pub open spec fn visible(&self) -> Seq<FileEntry> {
        visible_of(self.entries@, self.filter@)
    }

    /// The entries that the filter lets through, in the order of the list. The empty
    /// filter lets all through.
    pub fn visible_entries(&self) -> (res: Vec<&FileEntry>)
        ensures
            res@.unref() == self.visible(),
            self.filter@.len() == 0 ==> res@.unref() == self.entries@,
            forall|i: int|
                0 <= i < self.entries@.len() ==> (res@.unref().contains(#[trigger] self.entries@[i])
                    <==> lowercase(self.filter@).len() == 0 || exists|at: int|
                    occurs_at(lowercase(self.entries@[i].name@), lowercase(self.filter@), at)),
    {
        let needle: Vec<char> = lower_chars(self.filter.as_str());
        let ghost all = self.entries@;
        let ghost pred = |e: FileEntry| passes(e.name@, self.filter@);
        proof {
            if self.filter@.len() == 0 {
                empty_filter_shows_all(all, self.filter@);
            }
        }
        let mut res: Vec<&FileEntry> = Vec::new();
        assert(all.take(0).filter(pred) =~= Seq::<FileEntry>::empty());
        for i in 0..self.entries.len()
            invariant
                all == self.entries@,
                needle@ == lowercase(self.filter@),
                pred == (|e: FileEntry| passes(e.name@, self.filter@)),
                res@.unref() == all.take(i as int).filter(pred),
        {
            let entry = &self.entries[i];
            let ghost was = res@;
            let shown: bool = needle.len() == 0 || has_substring(
                &lower_chars(entry.name.as_str()),
                &needle,
            );
            proof {
                assert(all.take(i as int + 1) == all.take(i as int).push(*entry));
                all.take(i as int).lemma_filter_push(*entry, pred);
            }
            if shown {
                res.push(entry);
                assert(res@.unref() == was.unref().push(*entry));
            }
        }
        assert(all.take(all.len() as int) == all);
        proof {
            assert forall|i: int| 0 <= i < all.len() implies (self.visible().contains(
                #[trigger] all[i],
            ) <==> lowercase(self.filter@).len() == 0 || exists|at: int|
                occurs_at(lowercase(all[i].name@), lowercase(self.filter@), at)) by {
                filter_goes_by_the_text_in_the_name(all, self.filter@, i, 0);
                if exists|at: int|
                    occurs_at(lowercase(all[i].name@), lowercase(self.filter@), at) {
                    let at = choose|at: int|
                        occurs_at(lowercase(all[i].name@), lowercase(self.filter@), at);
                    filter_goes_by_the_text_in_the_name(all, self.filter@, i, at);
                }
            }
        }
        res
    }

    /// The entry in a row of the list, where the rows are those that the filter leaves.
    pub fn entry_at(&self, index: usize) -> (res: Option<&FileEntry>)
        ensures
            index < self.visible().len() ==> res == Some(&self.visible()[index as int]),
            index >= self.visible().len() ==> res is None,
    {
        let shown = self.visible_entries();
        assert(shown@.unref().len() == shown@.len());
        if index < shown.len() {
            assert(*shown@[index as int] == shown@.unref()[index as int]);
            Some(shown[index])
        } else {
            None
        }
    }
}

/// The empty filter lets every entry through.
pub proof fn empty_filter_shows_all(entries: Seq<FileEntry>, filter: Seq<char>)
    requires
        filter.len() == 0,
    ensures
        visible_of(entries, filter) == entries,
    decreases entries.len(),
{
    reveal(Seq::filter);
    if entries.len() > 0 {
        empty_filter_shows_all(entries.drop_last(), filter);
        assert(passes(entries.last().name@, filter));
        assert(entries.drop_last().push(entries.last()) == entries);
    } else {
        assert(visible_of(entries, filter) == entries);
    }
}

/// Whether the filter is typed in capitals or not makes no difference.
pub proof fn filter_ignores_case(entries: Seq<FileEntry>, one: Seq<char>, two: Seq<char>)
    requires
        lowercase(one) == lowercase(two),
    ensures
        visible_of(entries, one) == visible_of(entries, two),
{
    assert((|e: FileEntry| passes(e.name@, one)) =~= (|e: FileEntry| passes(e.name@, two)));
}

/// A filter shows an entry exactly if it lets the name through, and shows no entry
/// that is not in the list.
pub proof fn filter_shows_what_passes(entries: Seq<FileEntry>, filter: Seq<char>, e: FileEntry)
    ensures
        visible_of(entries, filter).contains(e) <==> entries.contains(e) && passes(
            e.name@,
            filter,
        ),
        visible_of(entries, filter).len() <= entries.len(),
{
    let pred = |e: FileEntry| passes(e.name@, filter);
    let shown = entries.filter(pred);
    entries.lemma_filter_len(pred);
    if shown.contains(e) {
        entries.lemma_filter_contains_rev(pred, e);
        let i = choose|i: int| 0 <= i < shown.len() && shown[i] == e;
        entries.lemma_filter_pred(pred, i);
    }
    if entries.contains(e) && passes(e.name@, filter) {
        let i = choose|i: int| 0 <= i < entries.len() && entries[i] == e;
        entries.lemma_filter_contains(pred, i);
    }
}

/// Filtering keeps the order of the list: the rows of the front part of a list come
/// first, those of the rest follow.
pub proof fn filter_keeps_the_order(
    front: Seq<FileEntry>,
    rest: Seq<FileEntry>,
    filter: Seq<char>,
)
    ensures
        visible_of(front + rest, filter) == visible_of(front, filter) + visible_of(rest, filter),
{
    Seq::filter_distributes_over_add(front, rest, |e: FileEntry| passes(e.name@, filter));
}

/// A filter that holds another one shows nothing that the other does not show: typing
/// on narrows the list.
pub proof fn longer_filter_narrows(name: Seq<char>, longer: Seq<char>, shorter: Seq<char>)
    requires
        occurs_in(lowercase(longer), lowercase(shorter)),
        passes(name, longer),
    ensures
        passes(name, shorter),
{
    let (n, l, s) = (lowercase(name), lowercase(longer), lowercase(shorter));
    let i = choose|at: int| occurs_at(l, s, at);
    if l.len() > 0 {
        let k = choose|at: int| occurs_at(n, l, at);
        assert(n.subrange(k + i, k + i + s.len()) == n.subrange(k, k + l.len()).subrange(
            i,
            i + s.len(),
        ));
        assert(occurs_at(n, s, k + i));
    }
}

/// A filter of ASCII characters works the same in small letters.
pub proof fn capitals_in_filter_do_not_matter(entries: Seq<FileEntry>, filter: Seq<char>)
    requires
        is_ascii_chars(filter),
    ensures
        visible_of(entries, ascii_lowercase(filter)) == visible_of(entries, filter),
{
    assert(is_ascii_chars(ascii_lowercase(filter)));
    ascii_lowercase_idempotent(filter);
    filter_ignores_case(entries, ascii_lowercase(filter), filter);
}

/// An entry is shown exactly if the filter lowers to nothing or its lowered text stands at
/// some position in the lowered name.
pub proof fn filter_goes_by_the_text_in_the_name(
    entries: Seq<FileEntry>,
    filter: Seq<char>,
    i: int,
    at: int,
)
    requires
        0 <= i < entries.len(),
    ensures
        occurs_at(lowercase(entries[i].name@), lowercase(filter), at) ==> visible_of(
            entries,
            filter,
        ).contains(entries[i]),
        lowercase(filter).len() == 0 ==> visible_of(entries, filter).contains(entries[i]),
        lowercase(filter).len() > 0 && (forall|k: int|
            !occurs_at(lowercase(entries[i].name@), lowercase(filter), k)) ==> !visible_of(
            entries,
            filter,
        ).contains(entries[i]),
{
    assert(entries.contains(entries[i]));
    filter_shows_what_passes(entries, filter, entries[i]);
}

/// One entry more in the list is one row more at the end, if its lowered name holds the
/// lowered filter, and none otherwise. An empty list shows nothing.
pub proof fn filter_judges_each_entry_alone(
    entries: Seq<FileEntry>,
    filter: Seq<char>,
    e: FileEntry,
)
    ensures
        visible_of(Seq::empty(), filter) == Seq::<FileEntry>::empty(),
        (exists|a: Seq<char>, b: Seq<char>|
            lowercase(e.name@) == #[trigger] (a + lowercase(filter) + b)) ==> visible_of(
            entries.push(e),
            filter,
        ) == visible_of(entries, filter).push(e),
        !(exists|a: Seq<char>, b: Seq<char>|
            lowercase(e.name@) == #[trigger] (a + lowercase(filter) + b)) ==> visible_of(
            entries.push(e),
            filter,
        ) == visible_of(entries, filter),
{
    held_text_has_something_around_it(lowercase(e.name@), lowercase(filter));
    entries.lemma_filter_push(e, |e: FileEntry| passes(e.name@, filter));
    assert(visible_of(Seq::empty(), filter) =~= Seq::<FileEntry>::empty()) by {
        reveal(Seq::filter);
    }
    if lowercase(filter).len() == 0 {
        let name = lowercase(e.name@);
        assert(name == Seq::<char>::empty() + lowercase(filter) + name);
    }
}

/// A state shows what its own filter leaves of its own entries.
pub proof fn state_shows_what_its_filter_leaves<W>(state: AppState<W>)
    ensures
        state.visible() == visible_of(state.entries@, state.filter@),
{
}

} // verus!
