//! Reading a directory and showing what was read.
use crate::app_state::{empty_filter_shows_all, passes, visible_of, AppState, SortColumn};
use crate::breadcrumb::{path_to_segments, segments_of, texts};
use crate::clock::has_date;
use crate::fs::entry::FileEntry;
use crate::fs::lister::{
    comes_from, is_entry_of, is_listing_of, list_dir, listing_shows_all_that_was_read, readable,
    DirItem,
};
use crate::messages::{load_failed, watch_failed};
use crate::path::{same_path, DirPath};
use crate::rows::{all_datable, show_entries, shows_entry, to_rows, to_rows_from, FileRow};
use vstd::prelude::*;
use vstd::string::*;

verus! {

/// What is handed over for a directory to be read.
#[derive(Debug)]
pub struct LoadRequest {
    pub path: DirPath,
    pub sort: SortColumn,
    pub ascending: bool,
    /// Is the directory to be watched once it is shown?
    pub install_watcher: bool,
}

/// Makes the request to read a directory in the order that is set now.
pub fn load_dir<W>(state: &AppState<W>, path: DirPath, install_watcher: bool) -> (request:
    LoadRequest)
    ensures
        request.path == path,
        request.sort == state.sort_column,
        request.ascending == state.sort_ascending,
        request.install_watcher == install_watcher,
{
    LoadRequest {
        path,
        sort: state.sort_column,
        ascending: state.sort_ascending,
        install_watcher,
    }
}

/// What came of reading a directory.
#[derive(Debug)]
pub struct LoadedListing {
    pub path: DirPath,
    pub entries: Vec<FileEntry>,
    /// The rows of all entries.
    pub rows: Vec<FileRow>,
    /// What to report where the directory could not be read.
    pub error: Option<String>,
    pub install_watcher: bool,
}

impl LoadedListing {
    /// Do the rows show the entries, and can they be shown again?
    pub open spec fn well_formed(&self) -> bool {
        show_entries(self.rows@, self.entries@) && all_datable(self.entries@)
    }
}

/// Can the time of the item be shown?
pub open spec fn item_datable(item: DirItem) -> bool {
    match item.metadata {
        Some(m) => m.modified is Some ==> has_date(m.modified->0 as int),
        None => true,
    }
}

/// Can the times of all items be shown?
pub open spec fn items_datable(items: Seq<Option<DirItem>>) -> bool {
    forall|i: int|
        0 <= i < items.len() && #[trigger] items[i] is Some ==> item_datable(items[i]->0)
}

proof fn lemma_readable_datable(items: Seq<Option<DirItem>>)
    requires
        items_datable(items),
    ensures
        forall|x: int|
            0 <= x < readable(items).len() ==> item_datable(#[trigger] readable(items)[x]),
    decreases items.len(),
{
    if items.len() > 0 {
        let front = items.drop_last();
        assert forall|i: int| 0 <= i < front.len() && #[trigger] front[i] is Some implies
            item_datable(front[i]->0) by {
            assert(front[i] == items[i]);
        }
        lemma_readable_datable(front);
        assert(items[items.len() - 1] == items.last());
        let (before, after) = (readable(front), readable(items));
        assert forall|x: int| 0 <= x < after.len() implies item_datable(#[trigger] after[x]) by {
            if x < before.len() {
                assert(after[x] == before[x]);
            }
        }
    }
}

proof fn lemma_listing_datable(
    listing: Seq<FileEntry>,
    items: Seq<Option<DirItem>>,
    sort: SortColumn,
    ascending: bool,
)
    requires
        is_listing_of(listing, items, sort, ascending),
        items_datable(items),
    ensures
        all_datable(listing),
{
    listing_shows_all_that_was_read(listing, items, sort, ascending);
    lemma_readable_datable(items);
    let read = readable(items);
    assert forall|k: int| 0 <= k < listing.len() implies (
    #[trigger] listing[k]).has_datable_time() by {
        assert(comes_from(listing[k], read));
        let x = choose|x: int| 0 <= x < read.len() && is_entry_of(listing[k], #[trigger] read[x]);
        assert(item_datable(read[x]));
    }
}

/// Makes of what was read the listing and its rows, or the report that reading failed.
pub fn finish_load(request: LoadRequest, read: Result<Vec<Option<DirItem>>, String>) -> (loaded:
    LoadedListing)
    requires
        read is Ok ==> items_datable(read->Ok_0@),
    ensures
        loaded.well_formed(),
        show_entries(loaded.rows@, loaded.entries@),
        loaded.path == request.path,
        loaded.install_watcher == request.install_watcher,
        match read {
            Ok(items) => {
                &&& is_listing_of(loaded.entries@, items@, request.sort, request.ascending)
                &&& loaded.error is None
            },
            Err(error) => {
                &&& loaded.entries@.len() == 0
                &&& loaded.error is Some
                &&& loaded.error->0@ == "読み込みに失敗しました: "@ + error@
            },
        },
{
    match read {
        Ok(items) => {
            let ghost all = items@;
            let entries = list_dir(items, request.sort, request.ascending);
            proof {
                lemma_listing_datable(entries@, all, request.sort, request.ascending);
            }
            let rows = to_rows(entries.as_slice());
            LoadedListing {
                path: request.path,
                entries,
                rows,
                error: None,
                install_watcher: request.install_watcher,
            }
        },
        Err(error) => LoadedListing {
            path: request.path,
            entries: Vec::new(),
            rows: Vec::new(),
            error: Some(load_failed(error.as_str())),
            install_watcher: request.install_watcher,
        },
    }
}

/// What the window has to show after a directory was read.
#[derive(Debug)]
pub struct ListingView {
    /// The directory that is shown.
    pub path: DirPath,
    /// The rows of the entries that the filter lets through.
    pub rows: Vec<FileRow>,
    /// The number of all entries, whatever the filter.
    pub total_count: i32,
    /// The segments of the breadcrumb bar.
    pub segments: Vec<String>,
    /// Is the address bar to take over the path, and the selection to be given up? A
    /// directory that is only read again keeps both.
    pub reset_input: bool,
    /// The text of the status bar; empty if there is nothing to report.
    pub error_message: String,
}

/// The text of the status bar after a directory was read: why that failed, or nothing.
pub open spec fn report(error: Option<String>) -> Seq<char> {
    match error {
        Some(e) => e@,
        None => Seq::empty(),
    }
}

/// Do the two states differ in nothing but the entries and the watcher?
pub open spec fn same_but_listing<W>(before: AppState<W>, after: AppState<W>) -> bool {
    after == (AppState { entries: after.entries, watcher: after.watcher, ..before })
}

impl<W> AppState<W> {
    /// Is what was read from a directory still wanted? It is if that directory is the
    /// one that is open now: the last directory that was gone to wins.
    pub fn should_apply(&self, path: &DirPath) -> (res: bool)
        ensures
            res == same_path(self.current_dir@, path@),
    {
        self.current_dir.same(path)
    }
}

/// Takes over what was read from a directory, unless another one is open by now.
///
/// `watcher` is what came of watching the directory. It counts only where the directory
/// was to be watched; one that is only read again keeps the watcher that it has.
pub fn apply_listing<W>(
    state: &mut AppState<W>,
    loaded: LoadedListing,
    watcher: Option<W>,
) -> (view: Option<ListingView>)
    requires
        loaded.well_formed(),
    ensures
        !same_path(old(state).current_dir@, loaded.path@) ==> view is None && *final(state) == *old(
            state,
        ),
        same_path(old(state).current_dir@, loaded.path@) ==> {
            &&& view is Some
            &&& same_but_listing(*old(state), *final(state))
            &&& final(state).entries == loaded.entries
            &&& final(state).watcher == (if loaded.install_watcher {
                watcher
            } else {
                old(state).watcher
            })
            &&& view->0.path == loaded.path
            &&& show_entries(view->0.rows@, final(state).visible())
            &&& old(state).filter@.len() == 0 ==> view->0.rows == loaded.rows
            &&& view->0.total_count == loaded.entries@.len() as i32
            &&& texts(view->0.segments@) == segments_of(
                loaded.path@.parts,
                loaded.path@.separator,
            )
            &&& view->0.reset_input == loaded.install_watcher
            &&& view->0.error_message@ == report(loaded.error)
            &&& loaded.error is None ==> view->0.error_message@.len() == 0
            &&& loaded.error is Some ==> view->0.error_message@ == loaded.error->0@
            &&& final(state).filter == old(state).filter
            &&& final(state).current_dir == old(state).current_dir
        },
{
    if !state.should_apply(&loaded.path) {
        return None;
    }
    state.entries = loaded.entries;
    if loaded.install_watcher {
        state.watcher = watcher;
    }
    let total_count: i32 = state.entries.len() as i32;
    let rows: Vec<FileRow> = if state.filter.as_str().is_empty() {
        proof {
            empty_filter_shows_all(state.entries@, state.filter@);
        }
        loaded.rows
    } else {
        proof {
            lemma_visible_datable(state.entries@, state.filter@);
        }
        to_rows_from(state.visible_entries())
    };
    let segments = path_to_segments(&loaded.path);
    let error_message: String = match loaded.error {
        Some(error) => error,
        None => String::new(),
    };
    Some(
        ListingView {
            path: loaded.path,
            rows,
            total_count,
            segments,
            reset_input: loaded.install_watcher,
            error_message,
        },
    )
}

proof fn lemma_visible_datable(entries: Seq<FileEntry>, filter: Seq<char>)
    requires
        all_datable(entries),
    ensures
        all_datable(visible_of(entries, filter)),
{
    let pred = |e: FileEntry| passes(e.name@, filter);
    let shown = entries.filter(pred);
    assert forall|i: int| 0 <= i < shown.len() implies (#[trigger] shown[i]).has_datable_time() by {
        assert(shown.contains(shown[i]));
        entries.lemma_filter_contains_rev(pred, shown[i]);
        let k = choose|k: int| 0 <= k < entries.len() && entries[k] == shown[i];
        assert(entries[k].has_datable_time());
    }
}

/// Takes over a new filter and makes the rows that it leaves. The entries themselves
/// stay, so a filter that is emptied brings all of them back.
pub fn filter_changed<W>(state: &mut AppState<W>, text: &str) -> (rows: Vec<FileRow>)
    requires
        all_datable(old(state).entries@),
    ensures
        final(state).filter@ == text@,
        *final(state) == (AppState { filter: final(state).filter, ..*old(state) }),
        show_entries(rows@, final(state).visible()),
        text@.len() == 0 ==> show_entries(rows@, old(state).entries@),
{
    state.filter = text.to_string();
    proof {
        lemma_visible_datable(state.entries@, state.filter@);
    }
    to_rows_from(state.visible_entries())
}

/// Takes note that the directory cannot be watched any longer: the watcher is given up,
/// and the text reports why.
pub fn watch_stopped<W>(state: &mut AppState<W>, message: &str) -> (report: String)
    ensures
        final(state).watcher is None,
        *final(state) == (AppState { watcher: final(state).watcher, ..*old(state) }),
        report@ == "監視エラー: "@ + message@,
{
    state.watcher = None;
    watch_failed(message)
}

/// The row to select after a jump by typing: -1 leaves the selection as it is.
pub fn typeahead_row(hit: Option<usize>) -> (row: i32)
    ensures
        match hit {
            Some(i) => row == i as i32,
            None => row == -1,
        },
{
    match hit {
        Some(i) => i as i32,
        None => -1,
    }
}

/// Taking over a listing touches nothing but the entries and the watcher.
pub proof fn listing_leaves_the_rest_alone<W>(before: AppState<W>, after: AppState<W>)
    requires
        same_but_listing(before, after),
    ensures
        after.current_dir == before.current_dir,
        after.filter == before.filter,
        after.sort_column == before.sort_column,
        after.sort_ascending == before.sort_ascending,
        after.typeahead_buffer == before.typeahead_buffer,
        after.typeahead_last == before.typeahead_last,
        after.history_back == before.history_back,
        after.history_forward == before.history_forward,
{
}

/// What was read goes with its rows: they show its entries, one for one.
pub proof fn loaded_rows_show_the_loaded_entries(loaded: LoadedListing, i: int)
    requires
        loaded.well_formed(),
    ensures
        loaded.rows@.len() == loaded.entries@.len(),
        0 <= i < loaded.rows@.len() ==> shows_entry(loaded.rows@[i], loaded.entries@[i]),
{
}

} // verus!
