//! The header of the list: which column orders it, and in which direction.
use crate::app_state::{AppState, SortColumn};
use vstd::prelude::*;

verus! {

/// The number by which the window knows a column.
pub open spec fn column_number(column: SortColumn) -> int {
    match column {
        SortColumn::Name => 0,
        SortColumn::Size => 1,
        SortColumn::Modified => 2,
    }
}

/// The column with a number; any number that is not taken stands for the name.
pub open spec fn numbered_column(number: int) -> SortColumn {
    if number == 1 {
        SortColumn::Size
    } else if number == 2 {
        SortColumn::Modified
    } else {
        SortColumn::Name
    }
}

/// The column that the window knows by a number.
pub fn sort_column_from_int(value: i32) -> (column: SortColumn)
    ensures
        column == numbered_column(value as int),
{
    match value {
        1 => SortColumn::Size,
        2 => SortColumn::Modified,
        _ => SortColumn::Name,
    }
}

/// The number by which the window knows a column.
pub fn sort_column_to_int(column: SortColumn) -> (value: i32)
    ensures
        value == column_number(column),
{
    match column {
        SortColumn::Name => 0,
        SortColumn::Size => 1,
        SortColumn::Modified => 2,
    }
}

/// The column and the direction after a click on a column of the header. A click on the
/// column that orders the list turns the direction round; another column starts
/// upwards.
pub open spec fn after_click(column: SortColumn, ascending: bool, clicked: SortColumn) -> (
    SortColumn,
    bool,
) {
    if clicked == column {
        (column, !ascending)
    } else {
        (clicked, true)
    }
}

/// Takes a click on a column of the header, which is given by its number. The result is
/// what the header has to show: the number of the column and the direction.
pub fn sort_changed<W>(state: &mut AppState<W>, column: i32) -> (shown: (i32, bool))
    ensures
        (final(state).sort_column, final(state).sort_ascending) == after_click(
            old(state).sort_column,
            old(state).sort_ascending,
            numbered_column(column as int),
        ),
        shown.0 == column_number(final(state).sort_column),
        shown.1 == final(state).sort_ascending,
        *final(state) == (AppState {
            sort_column: final(state).sort_column,
            sort_ascending: final(state).sort_ascending,
            ..*old(state)
        }),
{
    let clicked = sort_column_from_int(column);
    if state.sort_column == clicked {
        state.sort_ascending = !state.sort_ascending;
    } else {
        state.sort_column = clicked;
        state.sort_ascending = true;
    }
    (sort_column_to_int(state.sort_column), state.sort_ascending)
}

/// A column keeps its identity on the way through its number, and a number that no
/// column has stands for the name.
pub proof fn column_numbers_round_trip(column: SortColumn, number: int)
    ensures
        numbered_column(column_number(column)) == column,
        0 <= number <= 2 ==> column_number(numbered_column(number)) == number,
        !(0 <= number <= 2) ==> numbered_column(number) == SortColumn::Name,
{
}

/// Two clicks on the column that orders the list leave everything as it was; a click
/// on another column orders upwards, whatever the direction was.
pub proof fn second_click_undoes_the_first(column: SortColumn, ascending: bool)
    ensures
        ({
            let (c, a) = after_click(column, ascending, column);
            after_click(c, a, column)
        }) == (column, ascending),
        forall|other: SortColumn|
            other != column ==> #[trigger] after_click(column, ascending, other) == (other, true),
{
}

/// The columns are numbered from the left: name, size, time.
pub proof fn columns_are_numbered_from_the_left(number: int)
    ensures
        column_number(SortColumn::Name) == 0,
        column_number(SortColumn::Size) == 1,
        column_number(SortColumn::Modified) == 2,
        numbered_column(number) == SortColumn::Size <==> number == 1,
        numbered_column(number) == SortColumn::Modified <==> number == 2,
        numbered_column(number) == SortColumn::Name <==> number != 1 && number != 2,
{
}

/// A click on the column that orders the list turns the direction round and keeps the
/// column; a click on another one takes that column, upwards.
pub proof fn click_turns_or_takes_the_column(
    column: SortColumn,
    ascending: bool,
    clicked: SortColumn,
)
    ensures
        clicked == column ==> after_click(column, ascending, clicked) == (column, !ascending),
        clicked != column ==> after_click(column, ascending, clicked) == (clicked, true),
{
}

} // verus!
