//! What holds of calls, stated on their arguments and results alone.
use crate::address::{
    absolute_input_stands_alone, address_target, is_white_space,
    relative_input_starts_at_the_open_directory, resolve_input, trim_back, trim_front, typed_path,
    typed_text_loses_only_white_space_around_it, PathKind,
};
use crate::app_state::{passes, visible_of, AppState, SortColumn};
use crate::breadcrumb::{
    build_path_from_components, path_to_segments, segment_count_agrees,
    segment_path_is_the_front_of_the_path, texts_are_those_of_the_strings,
};
use crate::columns::{sort_changed, sort_column_from_int, sort_column_to_int};
use crate::fs::entry::FileEntry;
use crate::fs::lister::{
    is_entry_of, list_dir, listing_shows_all_that_was_read, readable, to_entry, DirItem,
};
use crate::fs::order::{
    is_order_of, no_entry_is_lost, order_by_name_goes_down_the_alphabet,
    order_by_size_goes_by_the_bytes, order_by_time_goes_by_the_clock, sort_entries,
};
use crate::fs::watcher::{joined_texts, make_watcher, watch_action, WatchAction, WatchEvent};
use crate::listing::{
    apply_listing, filter_changed, finish_load, load_dir, typeahead_row, watch_stopped, ListingView,
    LoadRequest, LoadedListing,
};
use crate::messages::status_text;
use crate::names::name_text;
use crate::navigation::{
    activate_row, back_returns_from_going, forward_undoes_back, go_up, navigate_back,
    navigate_forward, navigate_to, start_dir, update_history_buttons, Activation, Navigation,
};
use crate::path::{same_path, well_formed, DirPath, Part};
use crate::rows::{shows_entry, FileRow};
use crate::size::{format_size, rounded, size_shows_the_nearest_tenth, small_size_shows_its_bytes};
use crate::text::{decimal, lowercase, occurs_at};
use crate::typeahead::{
    repeated_character_leads_to_the_next_name, several_characters_lead_to_the_first_name,
};
use vstd::prelude::*;
use vstd::string::*;

verus! {

/// Typing several characters selects the first shown row whose name begins with all that
/// was typed since the last pause of half a second, whatever row was selected; where no
/// shown name begins with it nothing is selected.
pub proof fn typing_several_characters_selects_the_first_match<W>(
    state: &mut AppState<W>,
    elapsed_millis: u128,
    ch: &str,
    selected: i32,
    hit: Option<usize>,
    typed: Seq<char>,
    i: int,
    row: int,
)
    requires
        call_ensures(
            AppState::<W>::typeahead_after,
            (state, elapsed_millis, ch, selected),
            hit,
        ),
        elapsed_millis >= 500 ==> typed == ch@,
        elapsed_millis < 500 ==> typed == old(state).typeahead_buffer@ + ch@,
        0 <= i < lowercase(typed).len(),
        seq![lowercase(typed)[i]] != lowercase(ch@),
        0 <= row < old(state).visible().len(),
    ensures
        hit is Some ==> lowercase(typed).is_prefix_of(
            lowercase(old(state).visible()[hit->0 as int].name@),
        ),
        lowercase(typed).is_prefix_of(lowercase(old(state).visible()[row].name@)) ==> hit is Some
            && hit->0 <= row,
        final(state).entries == old(state).entries,
        final(state).filter == old(state).filter,
        hit is Some ==> final(state).typeahead_buffer@ == typed,
{
    several_characters_lead_to_the_first_name(
        *old(state),
        *final(state),
        elapsed_millis >= 500,
        ch@,
        selected as int,
        hit,
        typed,
        i,
        row,
    );
}

/// Typing one character again selects the next shown row below the selected one whose name
/// begins with it, or the first such row of all if none lies below.
pub proof fn typing_one_character_again_selects_the_next_match<W>(
    state: &mut AppState<W>,
    elapsed_millis: u128,
    ch: &str,
    selected: i32,
    hit: Option<usize>,
    typed: Seq<char>,
    row: int,
)
    requires
        call_ensures(
            AppState::<W>::typeahead_after,
            (state, elapsed_millis, ch, selected),
            hit,
        ),
        elapsed_millis >= 500 ==> typed == ch@,
        elapsed_millis < 500 ==> typed == old(state).typeahead_buffer@ + ch@,
        forall|i: int|
            0 <= i < lowercase(typed).len() ==> seq![#[trigger] lowercase(typed)[i]] == lowercase(
                ch@,
            ),
        selected < old(state).visible().len(),
        0 <= row < old(state).visible().len(),
        lowercase(ch@).is_prefix_of(lowercase(old(state).visible()[row].name@)),
    ensures
        hit is Some,
        lowercase(ch@).is_prefix_of(lowercase(old(state).visible()[hit->0 as int].name@)),
        row > selected ==> selected < hit->0 <= row,
        row <= selected ==> hit->0 > selected || hit->0 <= row,
{
    repeated_character_leads_to_the_next_name(
        *old(state),
        *final(state),
        elapsed_millis >= 500,
        ch@,
        selected as int,
        hit,
        typed,
        row,
    );
}

/// Sorting by name puts directories above files and goes by the numbers of the characters at
/// the first difference of the lowered names.
pub proof fn sorting_by_name_goes_by_the_first_difference(
    entries: Vec<FileEntry>,
    sorted: Vec<FileEntry>,
    i: int,
    j: int,
)
    requires
        call_ensures(sort_entries, (entries, SortColumn::Name, true), sorted),
        0 <= i < j < sorted@.len(),
    ensures
        sorted@.len() == entries@.len(),
        sorted@[j].is_dir ==> sorted@[i].is_dir,
        ({
            let (a, b) = (lowercase(sorted@[i].name@), lowercase(sorted@[j].name@));
            sorted@[i].is_dir == sorted@[j].is_dir && a != b ==> exists|k: int|
                0 <= k <= a.len() && k < b.len() && a.take(k) == #[trigger] b.take(k) && (k
                    == a.len() || (a[k] as int) < (b[k] as int))
        }),
{
    let from = choose|from: Seq<int>|
        is_order_of(entries@, sorted@, from, SortColumn::Name, true);
    if sorted@[i].is_dir == sorted@[j].is_dir {
        order_by_name_goes_down_the_alphabet(entries@, sorted@, from, true, i, j);
    } else {
        assert(sorted@[i] == sorted@[i] && sorted@[j] == sorted@[j]);
    }
}

/// Sorting by size or by time goes by the number, upwards or downwards, below directories
/// that stand above files either way.
pub proof fn sorting_by_a_number_goes_by_the_number(
    entries: Vec<FileEntry>,
    sorted: Vec<FileEntry>,
    by_size: bool,
    ascending: bool,
    i: int,
    j: int,
)
    requires
        by_size ==> call_ensures(sort_entries, (entries, SortColumn::Size, ascending), sorted),
        !by_size ==> call_ensures(sort_entries, (entries, SortColumn::Modified, ascending), sorted),
        0 <= i < j < sorted@.len(),
    ensures
        sorted@.len() == entries@.len(),
        sorted@[j].is_dir ==> sorted@[i].is_dir,
        by_size && sorted@[i].is_dir == sorted@[j].is_dir && ascending ==> sorted@[i].size
            <= sorted@[j].size,
        by_size && sorted@[i].is_dir == sorted@[j].is_dir && !ascending ==> sorted@[i].size
            >= sorted@[j].size,
        !by_size && sorted@[i].is_dir == sorted@[j].is_dir && sorted@[i].modified is Some
            && sorted@[j].modified is Some ==> (if ascending {
            sorted@[i].modified->0 <= sorted@[j].modified->0
        } else {
            sorted@[i].modified->0 >= sorted@[j].modified->0
        }),
        !by_size && sorted@[i].is_dir == sorted@[j].is_dir && ascending && sorted@[j].modified is None
            ==> sorted@[i].modified is None,
        !by_size && sorted@[i].is_dir == sorted@[j].is_dir && !ascending
            && sorted@[i].modified is None ==> sorted@[j].modified is None,
{
    let column = if by_size {
        SortColumn::Size
    } else {
        SortColumn::Modified
    };
    let from = choose|from: Seq<int>| is_order_of(entries@, sorted@, from, column, ascending);
    assert(is_order_of(entries@, sorted@, from, column, ascending));
    if sorted@[i].is_dir == sorted@[j].is_dir {
        if by_size {
            order_by_size_goes_by_the_bytes(entries@, sorted@, from, ascending, i, j);
        } else {
            order_by_time_goes_by_the_clock(entries@, sorted@, from, ascending, i, j);
        }
    } else {
        assert(sorted@[i] == sorted@[i] && sorted@[j] == sorted@[j]);
    }
}

/// Sorting keeps every entry and adds none.
pub proof fn sorting_keeps_every_entry(
    entries: Vec<FileEntry>,
    column: SortColumn,
    ascending: bool,
    sorted: Vec<FileEntry>,
    x: int,
)
    requires
        call_ensures(sort_entries, (entries, column, ascending), sorted),
    ensures
        sorted@.len() == entries@.len(),
        0 <= x < entries@.len() ==> sorted@.contains(entries@[x]),
        0 <= x < sorted@.len() ==> entries@.contains(sorted@[x]),
{
    let from = choose|from: Seq<int>| is_order_of(entries@, sorted@, from, column, ascending);
    assert(is_order_of(entries@, sorted@, from, column, ascending));
    if 0 <= x < entries@.len() {
        let k = no_entry_is_lost(entries@, sorted@, from, column, ascending, x);
        assert(sorted@[k] == entries@[x]);
    }
    if 0 <= x < sorted@.len() {
        assert(sorted@[x] == entries@[from[x]]);
        assert(0 <= from[x] < entries@.len());
    }
}

proof fn lemma_count_of_readable(items: Seq<Option<DirItem>>)
    ensures
        readable(items).len() == items.filter(|item: Option<DirItem>| item is Some).len(),
    decreases items.len(),
{
    reveal(Seq::filter);
    if items.len() > 0 {
        lemma_count_of_readable(items.drop_last());
    }
}

/// A listing has exactly as many entries as items could be read, and one that was made of
/// each of them, whatever its name.
pub proof fn listing_a_directory_leaves_nothing_out(
    items: Vec<Option<DirItem>>,
    column: SortColumn,
    ascending: bool,
    listing: Vec<FileEntry>,
    i: int,
)
    requires
        call_ensures(list_dir, (items, column, ascending), listing),
    ensures
        listing@.len() == items@.filter(|item: Option<DirItem>| item is Some).len(),
        0 <= i < items@.len() && items@[i] is Some ==> exists|k: int|
            0 <= k < listing@.len() && is_entry_of(#[trigger] listing@[k], items@[i]->0),
{
    lemma_count_of_readable(items@);
    listing_shows_all_that_was_read(listing@, items@, column, ascending);
    if 0 <= i < items@.len() {
        assert(items@[i] == items@[i]);
    }
}

/// An entry is made of what was read, field by field.
pub proof fn entry_is_made_of_what_was_read(item: DirItem, entry: FileEntry)
    requires
        call_ensures(to_entry, (item,), entry),
    ensures
        entry.path == item.path,
        item.metadata is None ==> !entry.is_dir && entry.size == 0 && entry.modified is None,
        item.metadata is Some ==> entry.is_dir == item.metadata->0.is_dir && entry.modified
            == item.metadata->0.modified && entry.size == (if item.metadata->0.is_dir {
            0
        } else {
            item.metadata->0.len
        }),
        entry.name@ == name_text(item.file_name@, item.path.separator),
{
}

/// The shown entries are those whose lowered name holds the lowered filter, all of them, in
/// the order of the list.
pub proof fn shown_entries_hold_the_filter<W>(state: &AppState<W>, shown: Vec<&FileEntry>)
    requires
        call_ensures(AppState::<W>::visible_entries, (state,), shown),
    ensures
        shown@.unref() == state.entries@.filter(
            |e: FileEntry|
                lowercase(state.filter@).len() == 0 || exists|at: int|
                    occurs_at(lowercase(e.name@), lowercase(state.filter@), at),
        ),
{
    let f = |e: FileEntry|
        lowercase(state.filter@).len() == 0 || exists|at: int|
            occurs_at(lowercase(e.name@), lowercase(state.filter@), at);
    let g = |e: FileEntry| passes(e.name@, state.filter@);
    assert(f =~= g);
}

/// The entry in a row is the one that is shown there; beyond the last row there is none.
pub proof fn row_holds_the_shown_entry<W>(
    state: &AppState<W>,
    index: usize,
    entry: Option<&FileEntry>,
)
    requires
        call_ensures(AppState::<W>::entry_at, (state, index), entry),
    ensures
        entry is Some <==> index < visible_of(state.entries@, state.filter@).len(),
        entry is Some ==> *(entry->0) == visible_of(state.entries@, state.filter@)[index as int],
{
}

/// A size below 1024 shows its bytes; any other the nearest tenth of its unit.
pub proof fn size_is_shown_in_its_unit(bytes: u64, text: String, unit: nat, name: Seq<char>)
    requires
        call_ensures(format_size, (bytes,), text),
        (unit == 1024 && name == seq!['K', 'B']) || (unit == 1024 * 1024 && name == seq!['M', 'B'])
            || (unit == 1024 * 1024 * 1024 && name == seq!['G', 'B']) || (unit == 1024 * 1024 * 1024
            * 1024 && name == seq!['T', 'B']),
    ensures
        bytes < 1024 ==> text@ == decimal(bytes as nat) + seq![' ', 'B'],
        unit <= bytes && (bytes < 1024 * unit || unit == 1024 * 1024 * 1024 * 1024) ==> exists|
            tenths: nat,
        |
            {
                &&& text@ == #[trigger] decimal(tenths / 10) + seq![
                    '.',
                    (48 + tenths % 10) as char,
                    ' ',
                ] + name
                &&& 2 * (tenths * unit - 10 * rounded(bytes as nat)) <= unit
                &&& 2 * (10 * rounded(bytes as nat) - tenths * unit) <= unit
            },
{
    if bytes < 1024 {
        small_size_shows_its_bytes(bytes as nat);
    }
    if unit <= bytes && (bytes < 1024 * unit || unit == 1024 * 1024 * 1024 * 1024) {
        size_shows_the_nearest_tenth(bytes as nat, unit, name);
    }
}

/// Going to another directory opens it, shows all of it, and puts the one that was open at
/// the end of those to go back to; all that lay ahead is gone.
pub proof fn going_elsewhere_records_the_open_directory<W>(
    state: &mut AppState<W>,
    path: DirPath,
    nav: Navigation,
    i: int,
)
    requires
        call_ensures(navigate_to::<W>, (state, path), nav),
        old(state).current_dir@.parts.len() > 0,
        !same_path(old(state).current_dir@, path@),
    ensures
        final(state).current_dir@ == path@,
        final(state).history_back@.len() == old(state).history_back@.len() + 1,
        final(state).history_back@.last()@ == old(state).current_dir@,
        0 <= i < old(state).history_back@.len() ==> final(state).history_back@[i]@ == old(
            state,
        ).history_back@[i]@,
        final(state).history_forward@.len() == 0,
        final(state).filter@.len() == 0,
        final(state).entries == old(state).entries,
        final(state).watcher == old(state).watcher,
        nav.path@ == path@,
        nav.can_go_back && !nav.can_go_forward && nav.install_watcher && !nav.address_error,
{
    let (b, c) = (old(state).place().back, final(state).place().back);
    assert(c == b.push(old(state).current_dir@));
    assert(c.len() == final(state).history_back@.len());
    assert(b.len() == old(state).history_back@.len());
    if 0 <= i < b.len() {
        assert(c[i] == b[i]);
        assert(b[i] == old(state).history_back@[i]@);
        assert(c[i] == final(state).history_back@[i]@);
    }
    assert(c.last() == final(state).history_back@.last()@);
    assert(final(state).place().forward.len() == final(state).history_forward@.len());
}

/// Going somewhere and then back opens the directory that was left, and the one that was gone
/// to lies ahead.
pub proof fn going_and_coming_back<W>(
    first: &mut AppState<W>,
    path: DirPath,
    nav: Navigation,
    second: &mut AppState<W>,
    back: Option<Navigation>,
)
    requires
        call_ensures(navigate_to::<W>, (first, path), nav),
        *old(second) == *final(first),
        call_ensures(navigate_back::<W>, (second,), back),
        old(first).current_dir@.parts.len() > 0,
        !same_path(old(first).current_dir@, path@),
    ensures
        back is Some,
        back->0.path@ == old(first).current_dir@,
        final(second).current_dir@ == old(first).current_dir@,
        final(second).history_back@.len() == old(first).history_back@.len(),
        final(second).history_forward@.len() == 1,
        final(second).history_forward@[0]@ == path@,
{
    back_returns_from_going(old(first).place(), path@);
    assert(final(second).place().back.len() == final(second).history_back@.len());
    assert(old(first).place().back.len() == old(first).history_back@.len());
    assert(final(second).place().forward.len() == final(second).history_forward@.len());
    assert(final(second).place().forward[0] == final(second).history_forward@[0]@);
}

/// Going back and then forward opens the directory that was left again.
pub proof fn going_back_and_forward<W>(
    first: &mut AppState<W>,
    back: Option<Navigation>,
    second: &mut AppState<W>,
    forward: Option<Navigation>,
)
    requires
        call_ensures(navigate_back::<W>, (first,), back),
        *old(second) == *final(first),
        call_ensures(navigate_forward::<W>, (second,), forward),
        old(first).history_back@.len() > 0,
    ensures
        back is Some,
        forward is Some,
        back->0.path@ == old(first).history_back@.last()@,
        final(second).current_dir@ == old(first).current_dir@,
        final(second).history_back@.len() == old(first).history_back@.len(),
        final(second).history_forward@.len() == old(first).history_forward@.len(),
{
    let place = old(first).place();
    assert(place.back.len() == old(first).history_back@.len());
    assert(place.back.last() == old(first).history_back@.last()@);
    forward_undoes_back(place);
    assert(final(second).place().back.len() == final(second).history_back@.len());
    assert(final(second).place().forward.len() == final(second).history_forward@.len());
    assert(place.forward.len() == old(first).history_forward@.len());
}

/// Where there is nothing to go back to, going back does nothing.
pub proof fn there_is_no_way_back_from_the_first<W>(
    state: &mut AppState<W>,
    back: Option<Navigation>,
    enabled: (bool, bool),
)
    requires
        call_ensures(navigate_back::<W>, (state,), back),
        call_ensures(update_history_buttons::<W>, (&*old(state),), enabled),
        old(state).history_back@.len() == 0,
    ensures
        back is None,
        !enabled.0,
        final(state).current_dir@ == old(state).current_dir@,
        final(state).filter == old(state).filter,
        final(state).entries == old(state).entries,
{
    assert(old(state).place().back.len() == 0);
}

/// A listing of the open directory is taken over whole; with it comes the new watcher, be
/// there one or none, where the directory was gone to, and the old one stays where it was
/// only read again. The count is that of all entries, whatever the filter.
pub proof fn listing_of_the_open_directory_is_taken_over<W>(
    state: &mut AppState<W>,
    loaded: LoadedListing,
    watcher: Option<W>,
    view: Option<ListingView>,
    i: int,
)
    requires
        call_ensures(apply_listing::<W>, (state, loaded, watcher), view),
        same_path(old(state).current_dir@, loaded.path@),
    ensures
        view is Some,
        final(state).entries == loaded.entries,
        loaded.install_watcher ==> final(state).watcher == watcher,
        !loaded.install_watcher ==> final(state).watcher == old(state).watcher,
        final(state).filter == old(state).filter,
        final(state).history_back == old(state).history_back,
        final(state).history_forward == old(state).history_forward,
        loaded.entries@.len() <= i32::MAX ==> view->0.total_count == loaded.entries@.len(),
        view->0.reset_input == loaded.install_watcher,
        view->0.path == loaded.path,
        loaded.error is None ==> view->0.error_message@.len() == 0,
        loaded.error is Some ==> view->0.error_message@ == loaded.error->0@,
        old(state).filter@.len() == 0 ==> view->0.rows == loaded.rows,
        view->0.rows@.len() == visible_of(loaded.entries@, old(state).filter@).len(),
        0 <= i < view->0.rows@.len() ==> shows_entry(
            view->0.rows@[i],
            visible_of(loaded.entries@, old(state).filter@)[i],
        ),
{
}

/// A listing of any other directory changes nothing.
pub proof fn listing_of_another_directory_is_dropped<W>(
    state: &mut AppState<W>,
    loaded: LoadedListing,
    watcher: Option<W>,
    view: Option<ListingView>,
)
    requires
        call_ensures(apply_listing::<W>, (state, loaded, watcher), view),
        !same_path(old(state).current_dir@, loaded.path@),
    ensures
        view is None,
        *final(state) == *old(state),
{
}

/// Reading a directory in the set order gives its whole listing, or the reason why it could
/// not be read and nothing else.
pub proof fn reading_gives_all_or_the_reason(
    request: LoadRequest,
    read: Result<Vec<Option<DirItem>>, String>,
    loaded: LoadedListing,
)
    requires
        call_ensures(finish_load, (request, read), loaded),
    ensures
        loaded.path == request.path,
        loaded.install_watcher == request.install_watcher,
        loaded.rows@.len() == loaded.entries@.len(),
        read is Err ==> loaded.entries@.len() == 0 && loaded.error is Some,
        read is Ok ==> loaded.error is None && loaded.entries@.len() == read->Ok_0@.filter(
            |item: Option<DirItem>| item is Some,
        ).len(),
{
    if read is Ok {
        lemma_count_of_readable(read->Ok_0@);
        listing_shows_all_that_was_read(
            loaded.entries@,
            read->Ok_0@,
            request.sort,
            request.ascending,
        );
    }
}

/// A directory is asked for in the order that is set.
pub proof fn request_carries_the_set_order<W>(
    state: &AppState<W>,
    path: DirPath,
    install_watcher: bool,
    request: LoadRequest,
)
    requires
        call_ensures(load_dir::<W>, (state, path, install_watcher), request),
    ensures
        request.path == path,
        request.sort == state.sort_column,
        request.ascending == state.sort_ascending,
        request.install_watcher == install_watcher,
{
}

/// A new filter shows what it leaves of the entries that are there and changes nothing else;
/// the empty one brings all of them back.
pub proof fn filter_only_hides<W>(
    state: &mut AppState<W>,
    text: &str,
    rows: Vec<FileRow>,
    i: int,
)
    requires
        call_ensures(filter_changed::<W>, (state, text), rows),
    ensures
        final(state).filter@ == text@,
        final(state).entries == old(state).entries,
        final(state).watcher == old(state).watcher,
        final(state).current_dir == old(state).current_dir,
        rows@.len() == visible_of(old(state).entries@, text@).len(),
        text@.len() == 0 ==> rows@.len() == old(state).entries@.len(),
        0 <= i < rows@.len() ==> shows_entry(rows@[i], visible_of(old(state).entries@, text@)[i]),
{
}

/// Clicking a column of the header twice: the second click on the one that orders the list
/// undoes the first, and nothing but the order changes.
pub proof fn clicking_twice_turns_round_twice<W>(
    first: &mut AppState<W>,
    column: i32,
    one: (i32, bool),
    second: &mut AppState<W>,
    two: (i32, bool),
)
    requires
        call_ensures(sort_changed::<W>, (first, column), one),
        *old(second) == *final(first),
        call_ensures(sort_changed::<W>, (second, column), two),
    ensures
        two.0 == one.0,
        two.1 == !one.1,
        column == 0 || column == 1 || column == 2 ==> one.0 == column,
        !(column == 1 || column == 2) ==> one.0 == 0,
        final(first).sort_column != old(first).sort_column ==> one.1,
        final(first).sort_column == old(first).sort_column ==> one.1 == !old(first).sort_ascending,
        final(second).entries == old(first).entries,
        final(second).current_dir == old(first).current_dir,
        final(second).filter == old(first).filter,
{
}

/// The number of a column leads back to the column.
pub proof fn column_survives_its_number(column: SortColumn, number: i32, again: SortColumn)
    requires
        call_ensures(sort_column_to_int, (column,), number),
        call_ensures(sort_column_from_int, (number,), again),
    ensures
        again == column,
        0 <= number <= 2,
{
}

/// A row with a directory is gone to, one with a file is opened, by the path of the entry that
/// is shown there. Where no row is nothing happens.
pub proof fn row_is_entered_or_opened<W>(state: &AppState<W>, index: i32, activation: Activation)
    requires
        call_ensures(activate_row::<W>, (state, index), activation),
    ensures
        ({
            let rows = visible_of(state.entries@, state.filter@);
            &&& !(0 <= index < rows.len()) ==> activation is Nothing
            &&& 0 <= index < rows.len() && rows[index as int].is_dir ==> activation is Enter
                && activation->Enter_0@ == rows[index as int].path@
            &&& 0 <= index < rows.len() && !rows[index as int].is_dir ==> activation is Open
                && activation->Open_0@ == rows[index as int].path@
        }),
{
}

/// The address of a directory leads there, that of a file to the directory it lies in, and any
/// other nowhere.
pub proof fn address_leads_to_a_directory(
    resolved: DirPath,
    kind: PathKind,
    target: Option<DirPath>,
)
    requires
        call_ensures(address_target, (resolved, kind), target),
    ensures
        kind is Directory ==> target == Some(resolved),
        kind is Missing ==> target is None,
        kind is File && resolved@.parts.len() > 0 && resolved@.parts.last() is Normal ==> target
            is Some && target->0@.parts == resolved@.parts.drop_last(),
{
}

/// The way up leads to the directory without the last component, and ends at a root.
pub proof fn way_up_ends_at_the_root<W>(state: &AppState<W>, target: Option<DirPath>)
    requires
        call_ensures(go_up::<W>, (state,), target),
        state.current_dir@.parts.len() > 0,
    ensures
        state.current_dir@.parts.last() is RootDir ==> target is None,
        state.current_dir@.parts.last() is Normal ==> target is Some && target->0@.parts
            == state.current_dir@.parts.drop_last(),
{
}

/// The first directory is the home directory, or else the working directory, or else `.`.
pub proof fn first_directory_is_home(
    home: Option<DirPath>,
    working: Option<DirPath>,
    dir: DirPath,
)
    requires
        call_ensures(start_dir, (home, working), dir),
    ensures
        home is Some ==> dir == home->0,
        home is None && working is Some ==> dir == working->0,
        home is None && working is None ==> dir@.parts == seq![Part::CurDir] && dir@.text == seq![
            '.',
        ],
{
    reveal_strlit(".");
    assert("."@ == seq!['.']);
}

/// Of a typed text only the white space around it is lost, and nothing is typed where nothing
/// else is there.
pub proof fn typed_text_is_kept_but_for_white_space(text: &str, typed: Option<String>)
    requires
        call_ensures(typed_path, (text,), typed),
    ensures
        typed is Some ==> typed->0@.len() > 0 && !is_white_space(typed->0@[0]) && !is_white_space(
            typed->0@.last(),
        ),
        typed is Some ==> exists|a: Seq<char>, b: Seq<char>|
            {
                &&& text@ == #[trigger] (a + typed->0@ + b)
                &&& forall|i: int| 0 <= i < a.len() ==> is_white_space(#[trigger] a[i])
                &&& forall|i: int| 0 <= i < b.len() ==> is_white_space(#[trigger] b[i])
            },
        typed is None ==> forall|i: int| 0 <= i < text@.len() ==> is_white_space(#[trigger] text@[i]),
{
    typed_text_loses_only_white_space_around_it(text@);
    if typed is None {
        let left = trim_back(trim_front(text@));
        let (a, b) = choose|a: Seq<char>, b: Seq<char>|
            {
                &&& text@ == #[trigger] (a + left + b)
                &&& forall|i: int| 0 <= i < a.len() ==> is_white_space(#[trigger] a[i])
                &&& forall|i: int| 0 <= i < b.len() ==> is_white_space(#[trigger] b[i])
            };
        assert forall|i: int| 0 <= i < text@.len() implies is_white_space(#[trigger] text@[i]) by {
            if i < a.len() {
                assert(text@[i] == a[i]);
            } else {
                assert(text@[i] == b[i - a.len()]);
            }
        }
    }
}

/// The segment bar of a path and the paths behind it have the same length, and the last
/// segment of a path of names leads to the path itself.
pub proof fn segments_lead_to_their_paths(
    path: &DirPath,
    segments: Vec<String>,
    index: usize,
    target: Option<DirPath>,
)
    requires
        call_ensures(path_to_segments, (path,), segments),
        call_ensures(build_path_from_components, (path, index), target),
        well_formed(path@.parts),
        forall|i: int|
            0 <= i < path@.parts.len() ==> !(#[trigger] path@.parts[i] is CurDir
                || path@.parts[i] is ParentDir),
    ensures
        target is Some <==> index < segments@.len(),
        target is Some ==> target->0@.parts.is_prefix_of(path@.parts),
        index + 1 == segments@.len() ==> target is Some && target->0@.parts == path@.parts,
{
    let p = path@.parts;
    segment_count_agrees(p, path@.separator);
    texts_are_those_of_the_strings(segments@, 0);
    if target is Some {
        segment_path_is_the_front_of_the_path(p, index as int);
        let steps = p.filter(|part: Part| !(part is CurDir) && !(part is ParentDir));
        assert(steps == p) by {
            lemma_filter_all(p);
        }
    }
}

proof fn lemma_filter_all(p: Seq<Part>)
    requires
        forall|i: int|
            0 <= i < p.len() ==> !(#[trigger] p[i] is CurDir || p[i] is ParentDir),
    ensures
        p.filter(|part: Part| !(part is CurDir) && !(part is ParentDir)) == p,
    decreases p.len(),
{
    reveal(Seq::filter);
    if p.len() > 0 {
        let front = p.drop_last();
        assert forall|i: int| 0 <= i < front.len() implies !(#[trigger] front[i] is CurDir
            || front[i] is ParentDir) by {
            assert(front[i] == p[i]);
        }
        lemma_filter_all(front);
        assert(p[p.len() - 1] == p.last());
        assert(front.push(p.last()) == p);
    } else {
        assert(p.filter(|part: Part| !(part is CurDir) && !(part is ParentDir)) == p);
    }
}

/// A change has the directory read again; errors are reported, a single one as it is.
pub proof fn change_reloads_and_errors_are_reported(
    event: WatchEvent,
    action: WatchAction,
)
    requires
        call_ensures(watch_action, (event,), action),
    ensures
        event is Changed <==> action is Reload,
        event is Failed && event->Failed_0@.len() == 1 ==> action->Report_0@
            == event->Failed_0@[0]@,
        event is Failed && event->Failed_0@.len() == 2 ==> action->Report_0@
            == event->Failed_0@[0]@ + seq![';', ' '] + event->Failed_0@[1]@,
{
    reveal_strlit("; ");
    assert("; "@ == seq![';', ' ']);
    if event is Failed && event->Failed_0@.len() == 2 {
        let texts = event->Failed_0@;
        assert(texts.drop_last().len() == 1);
        assert(joined_texts(texts.drop_last(), "; "@) == texts[0]@);
    }
}

/// A watcher that was started is kept and nothing is reported; otherwise there is none, and
/// the report ends in the reason.
pub proof fn watcher_or_report<W>(
    started: Result<W, String>,
    res: (Option<W>, Option<String>),
)
    requires
        call_ensures(make_watcher::<W>, (started,), res),
    ensures
        started is Ok ==> res.0 == Some(started->Ok_0) && res.1 is None,
        started is Err ==> res.0 is None && res.1 is Some && res.1->0@.len()
            >= started->Err_0@.len() && res.1->0@.skip(
            res.1->0@.len() - started->Err_0@.len(),
        ) == started->Err_0@,
{
}

/// A watcher that stops is given up, whatever it was, and nothing else is.
pub proof fn stopped_watcher_is_given_up<W>(state: &mut AppState<W>, message: &str, report: String)
    requires
        call_ensures(watch_stopped::<W>, (state, message), report),
    ensures
        final(state).watcher is None,
        final(state).entries == old(state).entries,
        final(state).current_dir == old(state).current_dir,
        final(state).filter == old(state).filter,
        report@.len() >= message@.len(),
        report@.skip(report@.len() - message@.len()) == message@,
{
}

/// A jump selects its row, and no jump selects nothing.
pub proof fn jump_selects_its_row(hit: Option<usize>, row: i32)
    requires
        call_ensures(typeahead_row, (hit,), row),
    ensures
        hit is None ==> row == -1,
        hit is Some && hit->0 <= i32::MAX ==> row == hit->0,
{
}

/// The status bar shows why reading failed, or else why watching did, or else nothing.
pub proof fn status_bar_shows_the_first_trouble(
    read_error: String,
    watch_error: Option<String>,
    text: String,
)
    requires
        call_ensures(status_text, (read_error, watch_error), text),
    ensures
        read_error@.len() > 0 ==> text@ == read_error@,
        read_error@.len() == 0 && watch_error is Some ==> text@ == watch_error->0@,
        read_error@.len() == 0 && watch_error is None ==> text@.len() == 0,
{
}

/// An input that is relative lies below the open directory, component by component; one that
/// starts at the root or with a prefix of its own does not depend on it.
pub proof fn input_lies_below_the_open_directory(base: &DirPath, input: &DirPath, res: DirPath)
    requires
        call_ensures(resolve_input, (base, input), res),
        input@.parts.len() > 0,
        base@.parts.len() > 0 ==> !(base@.parts[0] is Prefix),
    ensures
        input@.parts[0] is Normal || input@.parts[0] is ParentDir ==> res@.parts == base@.parts
            + input@.parts,
        input@.parts[0] is RootDir || input@.parts[0] is Prefix ==> res@.parts == input@.parts
            && res@.text == input@.text,
        input@.parts[0] is CurDir && base@.parts.len() > 0 ==> res@.parts == base@.parts
            + input@.parts.skip(1),
{
    relative_input_starts_at_the_open_directory(base@.parts, input@.parts);
    if input@.parts[0] is RootDir || input@.parts[0] is Prefix {
        absolute_input_stands_alone(base@.parts, input@.parts);
    }
    assert(base@.text.take(0) + input@.text == input@.text);
}

} // verus!
