//! The order of a listing.
use crate::app_state::SortColumn;
use crate::fs::entry::FileEntry;
use crate::text::{lower_chars, lowercase};
use std::collections::VecDeque;
use vstd::prelude::*;

verus! {

/// Does text `a` stand before text `b`? At the first difference the smaller character
/// decides; a text stands before its own continuations.
pub open spec fn text_before(a: Seq<char>, b: Seq<char>) -> bool
    decreases a.len(),
{
    if b.len() == 0 {
        false
    } else if a.len() == 0 {
        true
    } else if a[0] != b[0] {
        a[0] < b[0]
    } else {
        text_before(a.drop_first(), b.drop_first())
    }
}

/// Is `a` earlier than `b`? What has no time comes before all that has one.
pub open spec fn time_before(a: Option<i128>, b: Option<i128>) -> bool {
    match (a, b) {
        (None, Some(_)) => true,
        (Some(x), Some(y)) => x < y,
        (_, None) => false,
    }
}

/// Does `a` have the smaller value in the column?
pub open spec fn column_before(a: FileEntry, b: FileEntry, column: SortColumn) -> bool {
    match column {
        SortColumn::Name => text_before(lowercase(a.name@), lowercase(b.name@)),
        SortColumn::Size => a.size < b.size,
        SortColumn::Modified => time_before(a.modified, b.modified),
    }
}

/// Does `a` have to stand above `b` in the list? Directories stand above files;
/// among their like the column decides, upwards or downwards.
pub open spec fn listed_before(
    a: FileEntry,
    b: FileEntry,
    column: SortColumn,
    ascending: bool,
) -> bool {
    if a.is_dir != b.is_dir {
        a.is_dir
    } else if ascending {
        column_before(a, b, column)
    } else {
        column_before(b, a, column)
    }
}

/// Is `sorted` the list `entries` in its order? `from` says where each entry came from:
/// every entry occurs once, none stands above one that has to stand above it, and
/// what the order leaves open stays as it was.
pub open spec fn is_order_of(
    entries: Seq<FileEntry>,
    sorted: Seq<FileEntry>,
    from: Seq<int>,
    column: SortColumn,
    ascending: bool,
) -> bool {
    &&& sorted.len() == entries.len()
    &&& from.len() == entries.len()
    &&& from.no_duplicates()
    &&& forall|i: int| #![trigger from[i]] 0 <= i < from.len() ==> 0 <= from[i] < entries.len()
    &&& forall|i: int|
        #![trigger sorted[i]]
        0 <= i < sorted.len() ==> sorted[i] == entries[from[i]]
    &&& forall|i: int, j: int|
        #![trigger sorted[i], sorted[j]]
        0 <= i < j < sorted.len() ==> listed_before(sorted[i], sorted[j], column, ascending) || (
        !listed_before(sorted[j], sorted[i], column, ascending) && from[i] < from[j])
}

proof fn lemma_text_order(a: Seq<char>, b: Seq<char>, c: Seq<char>)
    ensures
        !text_before(a, a),
        text_before(a, b) ==> !text_before(b, a),
        !text_before(a, b) && !text_before(b, a) ==> a == b,
        text_before(a, b) && text_before(b, c) ==> text_before(a, c),
    decreases a.len(),
{
    if a.len() > 0 {
        let (x, y, z) = (a.drop_first(), b.drop_first(), c.drop_first());
        lemma_text_order(x, y, z);
        if b.len() > 0 && a[0] == b[0] && x == y {
            assert(a == seq![a[0]] + x);
            assert(b == seq![b[0]] + y);
        }
    } else {
        assert(b.len() == 0 ==> a == b);
    }
}

proof fn lemma_listed_order(
    a: FileEntry,
    b: FileEntry,
    c: FileEntry,
    column: SortColumn,
    ascending: bool,
)
    ensures
        !listed_before(a, a, column, ascending),
        listed_before(a, b, column, ascending) ==> !listed_before(b, a, column, ascending),
        listed_before(a, b, column, ascending) && listed_before(b, c, column, ascending)
            ==> listed_before(a, c, column, ascending),
        !listed_before(a, b, column, ascending) && !listed_before(b, c, column, ascending)
            ==> !listed_before(a, c, column, ascending),
{
    let (x, y, z) = (lowercase(a.name@), lowercase(b.name@), lowercase(c.name@));
    lemma_text_order(x, y, z);
    lemma_text_order(x, z, y);
    lemma_text_order(y, x, z);
    lemma_text_order(y, z, x);
    lemma_text_order(z, x, y);
    lemma_text_order(z, y, x);
}

/// An entry with what it is ordered by: its lowered name where names decide, and the
/// place where it stood.
struct Keyed {
    entry: FileEntry,
    lowered: Vec<char>,
    position: usize,
}

spec fn keyed(k: Keyed, column: SortColumn) -> bool {
    column is Name ==> k.lowered@ == lowercase(k.entry.name@)
}

spec fn all_keyed(s: Seq<Keyed>, column: SortColumn) -> bool {
    forall|i: int| 0 <= i < s.len() ==> keyed(#[trigger] s[i], column)
}

spec fn goes_first(a: Keyed, b: Keyed, column: SortColumn, ascending: bool) -> bool {
    listed_before(a.entry, b.entry, column, ascending) || (!listed_before(
        b.entry,
        a.entry,
        column,
        ascending,
    ) && a.position < b.position)
}

spec fn in_order(s: Seq<Keyed>, column: SortColumn, ascending: bool) -> bool {
    forall|i: int, j: int|
        0 <= i < j < s.len() ==> goes_first(#[trigger] s[i], #[trigger] s[j], column, ascending)
}

spec fn distinct_places(s: Seq<Keyed>) -> bool {
    forall|i: int, j: int|
        0 <= i < j < s.len() ==> (#[trigger] s[i]).position != (#[trigger] s[j]).position
}

spec fn apart(a: Seq<Keyed>, b: Seq<Keyed>) -> bool {
    forall|i: int, j: int|
        0 <= i < a.len() && 0 <= j < b.len() ==> (#[trigger] a[i]).position != (
        #[trigger] b[j]).position
}

spec fn all_first(a: Seq<Keyed>, b: Seq<Keyed>, column: SortColumn, ascending: bool) -> bool {
    forall|i: int, j: int|
        0 <= i < a.len() && 0 <= j < b.len() ==> goes_first(
            #[trigger] a[i],
            #[trigger] b[j],
            column,
            ascending,
        )
}

proof fn lemma_goes_first(a: Keyed, b: Keyed, c: Keyed, column: SortColumn, ascending: bool)
    ensures
        !goes_first(a, a, column, ascending),
        goes_first(a, b, column, ascending) && goes_first(b, c, column, ascending) ==> goes_first(
            a,
            c,
            column,
            ascending,
        ),
        a.position != b.position ==> goes_first(a, b, column, ascending) != goes_first(
            b,
            a,
            column,
            ascending,
        ),
{
    let (x, y, z) = (a.entry, b.entry, c.entry);
    lemma_listed_order(x, y, z, column, ascending);
    lemma_listed_order(x, z, y, column, ascending);
    lemma_listed_order(y, x, z, column, ascending);
    lemma_listed_order(y, z, x, column, ascending);
    lemma_listed_order(z, x, y, column, ascending);
    lemma_listed_order(z, y, x, column, ascending);
}

fn text_stands_before(a: &Vec<char>, b: &Vec<char>) -> (res: bool)
    ensures
        res == text_before(a@, b@),
{
    let mut i: usize = 0;
    assert(a@.skip(0) == a@);
    assert(b@.skip(0) == b@);
    while i < a.len() && i < b.len()
        invariant
            i <= a.len(),
            i <= b.len(),
            text_before(a@, b@) == text_before(a@.skip(i as int), b@.skip(i as int)),
        decreases a.len() - i,
    {
        if a[i] != b[i] {
            return a[i] < b[i];
        }
        assert(a@.skip(i as int).drop_first() == a@.skip(i as int + 1));
        assert(b@.skip(i as int).drop_first() == b@.skip(i as int + 1));
        i = i + 1;
    }
    i < b.len()
}

fn time_is_before(a: &Option<i128>, b: &Option<i128>) -> (res: bool)
    ensures
        res == time_before(*a, *b),
{
    match (a, b) {
        (None, Some(_)) => true,
        (Some(x), Some(y)) => *x < *y,
        (_, None) => false,
    }
}

fn has_smaller_value(a: &Keyed, b: &Keyed, column: SortColumn) -> (res: bool)
    requires
        keyed(*a, column),
        keyed(*b, column),
    ensures
        res == column_before(a.entry, b.entry, column),
{
    match column {
        SortColumn::Name => text_stands_before(&a.lowered, &b.lowered),
        SortColumn::Size => a.entry.size < b.entry.size,
        SortColumn::Modified => time_is_before(&a.entry.modified, &b.entry.modified),
    }
}

fn stands_above(a: &Keyed, b: &Keyed, column: SortColumn, ascending: bool) -> (res: bool)
    requires
        keyed(*a, column),
        keyed(*b, column),
    ensures
        res == listed_before(a.entry, b.entry, column, ascending),
{
    if a.entry.is_dir != b.entry.is_dir {
        a.entry.is_dir
    } else if ascending {
        has_smaller_value(a, b, column)
    } else {
        has_smaller_value(b, a, column)
    }
}

fn is_first(a: &Keyed, b: &Keyed, column: SortColumn, ascending: bool) -> (res: bool)
    requires
        keyed(*a, column),
        keyed(*b, column),
    ensures
        res == goes_first(*a, *b, column, ascending),
{
    stands_above(a, b, column, ascending) || (!stands_above(b, a, column, ascending) && a.position
        < b.position)
}

proof fn lemma_push_in_order(
    out: Seq<Keyed>,
    x: Keyed,
    a: Seq<Keyed>,
    b: Seq<Keyed>,
    column: SortColumn,
    ascending: bool,
)
    requires
        in_order(out, column, ascending),
        a.len() > 0,
        x == a[0],
        in_order(a, column, ascending),
        in_order(b, column, ascending),
        all_first(out, a, column, ascending),
        all_first(out, b, column, ascending),
        b.len() > 0 ==> goes_first(x, b[0], column, ascending),
    ensures
        in_order(out.push(x), column, ascending),
        in_order(a.skip(1), column, ascending),
        all_first(out.push(x), a.skip(1), column, ascending),
        all_first(out.push(x), b, column, ascending),
{
    let more = out.push(x);
    assert forall|i: int, j: int| 0 <= i < j < more.len() implies goes_first(
        #[trigger] more[i],
        #[trigger] more[j],
        column,
        ascending,
    ) by {
        if j == out.len() {
            assert(goes_first(out[i], a[0], column, ascending));
        }
    }
    assert forall|i: int, j: int| 0 <= i < more.len() && 0 <= j < b.len() implies goes_first(
        #[trigger] more[i],
        #[trigger] b[j],
        column,
        ascending,
    ) by {
        if i == out.len() {
            if j > 0 {
                assert(goes_first(b[0], b[j], column, ascending));
                lemma_goes_first(x, b[0], b[j], column, ascending);
            }
        }
    }
}

proof fn lemma_move_front(out: Seq<Keyed>, a: Seq<Keyed>)
    requires
        a.len() > 0,
    ensures
        out.push(a[0]).to_multiset().add(a.skip(1).to_multiset()) == out.to_multiset().add(
            a.to_multiset(),
        ),
{
    broadcast use vstd::seq_lib::group_to_multiset_ensures;

    assert(a.remove(0) == a.skip(1));
    assert(a.contains(a[0]));
    assert(a.to_multiset().count(a[0]) > 0);
    assert(out.push(a[0]).to_multiset().add(a.skip(1).to_multiset()) =~= out.to_multiset().add(
        a.to_multiset(),
    ));
}

fn merge(
    first: VecDeque<Keyed>,
    second: VecDeque<Keyed>,
    column: SortColumn,
    ascending: bool,
) -> (out: VecDeque<Keyed>)
    requires
        in_order(first@, column, ascending),
        in_order(second@, column, ascending),
        all_keyed(first@, column),
        all_keyed(second@, column),
        apart(first@, second@),
    ensures
        in_order(out@, column, ascending),
        out@.to_multiset() == first@.to_multiset().add(second@.to_multiset()),
{
    broadcast use vstd::seq_lib::group_to_multiset_ensures;

    let mut a = first;
    let mut b = second;
    let mut out: VecDeque<Keyed> = VecDeque::new();
    let ghost total = a@.to_multiset().add(b@.to_multiset());
    assert(out@.to_multiset().add(a@.to_multiset()).add(b@.to_multiset()) =~= total);
    while a.len() > 0 && b.len() > 0
        invariant
            in_order(out@, column, ascending),
            in_order(a@, column, ascending),
            in_order(b@, column, ascending),
            all_keyed(a@, column),
            all_keyed(b@, column),
            apart(a@, b@),
            all_first(out@, a@, column, ascending),
            all_first(out@, b@, column, ascending),
            out@.to_multiset().add(a@.to_multiset()).add(b@.to_multiset()) == total,
        decreases a.len() + b.len(),
    {
        let ghost (was_a, was_b, was_out) = (a@, b@, out@);
        let take_a: bool = is_first(&a[0], &b[0], column, ascending);
        proof {
            lemma_goes_first(a@[0], b@[0], a@[0], column, ascending);
            if take_a {
                lemma_push_in_order(out@, a@[0], a@, b@, column, ascending);
                assert(a@.subrange(1, a@.len() as int) == a@.skip(1));
            } else {
                lemma_push_in_order(out@, b@[0], b@, a@, column, ascending);
                assert(b@.subrange(1, b@.len() as int) == b@.skip(1));
            }
        }
        if take_a {
            if let Some(x) = a.pop_front() {
                out.push_back(x);
            }
        } else {
            if let Some(x) = b.pop_front() {
                out.push_back(x);
            }
        }
        proof {
            broadcast use vstd::multiset::group_multiset_axioms;

            if take_a {
                lemma_move_front(was_out, was_a);
                assert(a@ == was_a.skip(1) && out@ == was_out.push(was_a[0]));
            } else {
                lemma_move_front(was_out, was_b);
                assert(b@ == was_b.skip(1) && out@ == was_out.push(was_b[0]));
                assert(out@.to_multiset().add(a@.to_multiset()).add(b@.to_multiset())
                    =~= out@.to_multiset().add(b@.to_multiset()).add(a@.to_multiset()));
            }
            assert(out@.to_multiset().add(a@.to_multiset()).add(b@.to_multiset()) =~= total);
        }
    }
    proof {
        assert(a@.len() == 0 ==> a@.to_multiset() =~= vstd::multiset::Multiset::empty());
        assert(b@.len() == 0 ==> b@.to_multiset() =~= vstd::multiset::Multiset::empty());
        vstd::seq_lib::lemma_multiset_commutative(out@, a@);
        vstd::seq_lib::lemma_multiset_commutative(out@ + a@, b@);
    }
    out.append(&mut a);
    out.append(&mut b);
    out
}

proof fn lemma_same_members(a: Seq<Keyed>, b: Seq<Keyed>, i: int) -> (k: int)
    requires
        a.to_multiset() == b.to_multiset(),
        0 <= i < a.len(),
    ensures
        0 <= k < b.len(),
        b[k] == a[i],
{
    broadcast use vstd::seq_lib::group_to_multiset_ensures;

    assert(a.contains(a[i]));
    assert(a.to_multiset().count(a[i]) > 0);
    assert(b.contains(a[i]));
    choose|k: int| 0 <= k < b.len() && b[k] == a[i]
}

proof fn lemma_sorted_halves(
    front: Seq<Keyed>,
    back: Seq<Keyed>,
    a: Seq<Keyed>,
    b: Seq<Keyed>,
    column: SortColumn,
)
    requires
        all_keyed(front + back, column),
        distinct_places(front + back),
        a.to_multiset() == front.to_multiset(),
        b.to_multiset() == back.to_multiset(),
    ensures
        all_keyed(a, column),
        all_keyed(b, column),
        apart(a, b),
{
    let whole = front + back;
    assert forall|i: int| 0 <= i < a.len() implies keyed(#[trigger] a[i], column) by {
        let k = lemma_same_members(a, front, i);
        assert(whole[k] == a[i]);
    }
    assert forall|i: int| 0 <= i < b.len() implies keyed(#[trigger] b[i], column) by {
        let k = lemma_same_members(b, back, i);
        assert(whole[front.len() + k] == b[i]);
    }
    assert forall|i: int, j: int| 0 <= i < a.len() && 0 <= j < b.len() implies (
    #[trigger] a[i]).position != (#[trigger] b[j]).position by {
        let k = lemma_same_members(a, front, i);
        let m = lemma_same_members(b, back, j);
        assert(whole[k] == a[i]);
        assert(whole[front.len() + m] == b[j]);
    }
}

fn merge_sort(v: VecDeque<Keyed>, column: SortColumn, ascending: bool) -> (out: VecDeque<Keyed>)
    requires
        all_keyed(v@, column),
        distinct_places(v@),
    ensures
        in_order(out@, column, ascending),
        out@.to_multiset() == v@.to_multiset(),
    decreases v@.len(),
{
    let n: usize = v.len();
    if n <= 1 {
        return v;
    }
    let mut front = v;
    let back = front.split_off(n / 2);
    let ghost (f, b) = (front@, back@);
    proof {
        assert(f + b == v@);
        assert forall|i: int, j: int| 0 <= i < j < f.len() implies (#[trigger] f[i]).position != (
        #[trigger] f[j]).position by {
            assert(f[i] == v@[i] && f[j] == v@[j]);
        }
        assert forall|i: int, j: int| 0 <= i < j < b.len() implies (#[trigger] b[i]).position != (
        #[trigger] b[j]).position by {
            assert(b[i] == v@[f.len() + i] && b[j] == v@[f.len() + j]);
        }
        assert forall|i: int| 0 <= i < f.len() implies keyed(#[trigger] f[i], column) by {
            assert(f[i] == v@[i]);
        }
        assert forall|i: int| 0 <= i < b.len() implies keyed(#[trigger] b[i], column) by {
            assert(b[i] == v@[f.len() + i]);
        }
    }
    let first = merge_sort(front, column, ascending);
    let second = merge_sort(back, column, ascending);
    proof {
        lemma_sorted_halves(f, b, first@, second@, column);
        vstd::seq_lib::lemma_multiset_commutative(f, b);
    }
    merge(first, second, column, ascending)
}

proof fn lemma_order_found(
    entries: Seq<FileEntry>,
    queue: Seq<Keyed>,
    sorted: Seq<Keyed>,
    column: SortColumn,
    ascending: bool,
)
    requires
        queue.len() == entries.len(),
        forall|i: int|
            0 <= i < queue.len() ==> (#[trigger] queue[i]).entry == entries[i]
                && queue[i].position == i,
        sorted.to_multiset() == queue.to_multiset(),
        in_order(sorted, column, ascending),
    ensures
        is_order_of(
            entries,
            sorted.map_values(|k: Keyed| k.entry),
            sorted.map_values(|k: Keyed| k.position as int),
            column,
            ascending,
        ),
{
    let out = sorted.map_values(|k: Keyed| k.entry);
    let from = sorted.map_values(|k: Keyed| k.position as int);
    assert(sorted.len() == queue.len()) by {
        vstd::seq_lib::to_multiset_len(sorted);
        vstd::seq_lib::to_multiset_len(queue);
    }
    assert forall|i: int| #![trigger sorted[i]] 0 <= i < sorted.len() implies 0
        <= sorted[i].position < entries.len() && sorted[i] == queue[sorted[i].position as int] by {
        let k = lemma_same_members(sorted, queue, i);
    }
    assert forall|i: int, j: int|
        0 <= i < from.len() && 0 <= j < from.len() && i != j implies from[i] != from[j] by {
        if from[i] == from[j] {
            assert(sorted[i] == sorted[j]);
            lemma_goes_first(sorted[i], sorted[i], sorted[i], column, ascending);
        }
    }
    assert forall|i: int| #![trigger from[i]] 0 <= i < from.len() implies 0 <= from[i]
        < entries.len() by {
        assert(sorted[i].position == from[i]);
    }
    assert forall|i: int| #![trigger out[i]] 0 <= i < out.len() implies out[i]
        == entries[from[i]] by {
        assert(sorted[i].entry == out[i]);
    }
}

/// Puts the entries of a listing into their order.
pub fn sort_entries(entries: Vec<FileEntry>, column: SortColumn, ascending: bool) -> (sorted: Vec<
    FileEntry,
>)
    ensures
        exists|from: Seq<int>| is_order_of(entries@, sorted@, from, column, ascending),
{
    let ghost all = entries@;
    let mut rest = entries;
    let mut queue: VecDeque<Keyed> = VecDeque::new();
    while rest.len() > 0
        invariant
            rest@ == all.take(rest@.len() as int),
            rest@.len() + queue@.len() == all.len(),
            forall|i: int|
                0 <= i < queue@.len() ==> (#[trigger] queue@[i]).entry == all[rest@.len() + i]
                    && queue@[i].position == rest@.len() + i && keyed(queue@[i], column),
        decreases rest.len(),
    {
        let ghost (was_rest, was_queue) = (rest@, queue@);
        if let Some(entry) = rest.pop() {
            let lowered: Vec<char> = match column {
                SortColumn::Name => lower_chars(entry.name.as_str()),
                _ => Vec::new(),
            };
            queue.push_front(Keyed { entry, lowered, position: rest.len() });
            assert forall|i: int| 0 <= i < queue@.len() implies (#[trigger] queue@[i]).entry
                == all[rest@.len() + i] && queue@[i].position == rest@.len() + i && keyed(
                queue@[i],
                column,
            ) by {
                if i > 0 {
                    assert(queue@[i] == was_queue[i - 1]);
                }
            }
        }
    }
    let ghost waiting = queue@;
    let mut ordered = merge_sort(queue, column, ascending);
    let ghost keys = ordered@;
    proof {
        lemma_order_found(all, waiting, keys, column, ascending);
    }
    let mut sorted: Vec<FileEntry> = Vec::new();
    while ordered.len() > 0
        invariant
            sorted@.len() + ordered@.len() == keys.len(),
            ordered@ == keys.skip(sorted@.len() as int),
            sorted@ == keys.take(sorted@.len() as int).map_values(|k: Keyed| k.entry),
        decreases ordered.len(),
    {
        let ghost n = sorted@.len() as int;
        if let Some(k) = ordered.pop_front() {
            assert(k == keys[n]);
            sorted.push(k.entry);
            assert(sorted@ == keys.take(n + 1).map_values(|k: Keyed| k.entry));
        }
    }
    assert(keys.take(keys.len() as int) == keys);
    sorted
}

proof fn lemma_every_place_occurs(from: Seq<int>, x: int) -> (k: int)
    requires
        from.no_duplicates(),
        forall|i: int| #![trigger from[i]] 0 <= i < from.len() ==> 0 <= from[i] < from.len(),
        0 <= x < from.len(),
    ensures
        0 <= k < from.len(),
        from[k] == x,
{
    let n = from.len() as int;
    let all = vstd::set_lib::set_int_range(0, n);
    from.unique_seq_to_set();
    vstd::set_lib::lemma_int_range(0, n);
    vstd::seq_lib::seq_to_set_is_finite(from);
    assert(from.to_set().subset_of(all));
    vstd::set_lib::lemma_subset_equality(from.to_set(), all);
    assert(from.to_set().contains(x));
    choose|k: int| 0 <= k < from.len() && from[k] == x
}

/// Ordering loses no entry: every entry of the list stands somewhere in the order.
pub proof fn no_entry_is_lost(
    entries: Seq<FileEntry>,
    sorted: Seq<FileEntry>,
    from: Seq<int>,
    column: SortColumn,
    ascending: bool,
    x: int,
) -> (k: int)
    requires
        is_order_of(entries, sorted, from, column, ascending),
        0 <= x < entries.len(),
    ensures
        0 <= k < sorted.len(),
        from[k] == x,
        sorted[k] == entries[x],
{
    let k = lemma_every_place_occurs(from, x);
    assert(sorted[k] == entries[from[k]]);
    k
}

/// Directories stand above files, whatever orders the list.
pub proof fn directories_come_first(
    entries: Seq<FileEntry>,
    sorted: Seq<FileEntry>,
    from: Seq<int>,
    column: SortColumn,
    ascending: bool,
    i: int,
    j: int,
)
    requires
        is_order_of(entries, sorted, from, column, ascending),
        0 <= i < j < sorted.len(),
        sorted[j].is_dir,
    ensures
        sorted[i].is_dir,
{
}

/// Turning the direction round turns the order of two entries round, unless one is a
/// directory and the other is not: then the directory stays above.
pub proof fn direction_turns_the_column_round(a: FileEntry, b: FileEntry, column: SortColumn)
    ensures
        a.is_dir == b.is_dir ==> listed_before(a, b, column, true) == listed_before(
            b,
            a,
            column,
            false,
        ),
        a.is_dir && !b.is_dir ==> listed_before(a, b, column, true) && listed_before(
            a,
            b,
            column,
            false,
        ),
{
}

/// Names that are equal but for their case share a place in the order by name; which
/// of them comes first is up to where they stood before.
pub proof fn name_order_ignores_case(a: FileEntry, b: FileEntry, ascending: bool)
    requires
        a.is_dir == b.is_dir,
        lowercase(a.name@) == lowercase(b.name@),
    ensures
        !listed_before(a, b, SortColumn::Name, ascending),
        !listed_before(b, a, SortColumn::Name, ascending),
{
    lemma_text_order(lowercase(a.name@), lowercase(b.name@), lowercase(a.name@));
}

proof fn lemma_same_from(
    entries: Seq<FileEntry>,
    one: Seq<FileEntry>,
    from_one: Seq<int>,
    two: Seq<FileEntry>,
    from_two: Seq<int>,
    column: SortColumn,
    ascending: bool,
    n: int,
)
    requires
        is_order_of(entries, one, from_one, column, ascending),
        is_order_of(entries, two, from_two, column, ascending),
        0 <= n <= entries.len(),
    ensures
        forall|i: int| 0 <= i < n ==> from_one[i] == from_two[i],
    decreases n,
{
    if n > 0 {
        let i = n - 1;
        lemma_same_from(entries, one, from_one, two, from_two, column, ascending, i);
        let (x, y) = (from_one[i], from_two[i]);
        if x != y {
            let k = lemma_every_place_occurs(from_one, y);
            let m = lemma_every_place_occurs(from_two, x);
            assert(k > i);
            assert(m > i);
            assert(one[i] == entries[x] && one[k] == entries[y]);
            assert(two[i] == entries[y] && two[m] == entries[x]);
            lemma_listed_order(entries[x], entries[y], entries[x], column, ascending);
        }
    }
}

/// A list has one order only: whatever arrangement meets the rules is the same list.
pub proof fn order_is_unique(
    entries: Seq<FileEntry>,
    one: Seq<FileEntry>,
    from_one: Seq<int>,
    two: Seq<FileEntry>,
    from_two: Seq<int>,
    column: SortColumn,
    ascending: bool,
)
    requires
        is_order_of(entries, one, from_one, column, ascending),
        is_order_of(entries, two, from_two, column, ascending),
    ensures
        one == two,
        from_one == from_two,
{
    lemma_same_from(entries, one, from_one, two, from_two, column, ascending, entries.len() as int);
    assert(from_one == from_two);
    assert(one == two);
}

/// Of two texts that agree up to a position and differ there, the one with the smaller
/// character, by its number, stands before the other. A text stands before its own
/// continuations, and never before itself.
pub proof fn texts_go_by_their_first_difference(a: Seq<char>, b: Seq<char>, k: int)
    requires
        0 <= k <= a.len(),
        k <= b.len(),
        forall|i: int| 0 <= i < k ==> #[trigger] a[i] == b[i],
    ensures
        k < a.len() && k < b.len() && a[k] != b[k] ==> text_before(a, b) == ((a[k] as int) < (
        b[k] as int)),
        k == a.len() ==> text_before(a, b) == (a.len() < b.len()),
        k == b.len() ==> !text_before(a, b),
    decreases k,
{
    if k > 0 {
        let (x, y) = (a.drop_first(), b.drop_first());
        assert(a[0] == b[0]);
        assert forall|i: int| 0 <= i < k - 1 implies #[trigger] x[i] == y[i] by {
            assert(a[i + 1] == b[i + 1]);
        }
        texts_go_by_their_first_difference(x, y, k - 1);
    }
}

proof fn lemma_first_difference(a: Seq<char>, b: Seq<char>) -> (k: int)
    ensures
        0 <= k <= a.len(),
        k <= b.len(),
        forall|i: int| 0 <= i < k ==> #[trigger] a[i] == b[i],
        k == a.len() || k == b.len() || a[k] != b[k],
    decreases a.len(),
{
    if a.len() == 0 || b.len() == 0 || a[0] != b[0] {
        0
    } else {
        let (x, y) = (a.drop_first(), b.drop_first());
        let k = lemma_first_difference(x, y);
        assert forall|i: int| 0 <= i < k + 1 implies #[trigger] a[i] == b[i] by {
            if i > 0 {
                assert(x[i - 1] == y[i - 1]);
            }
        }
        k + 1
    }
}

/// In the order by name, of two files or two directories the lower one has the greater
/// lowered name, or the same one and came later. Downwards the names go the other way.
pub proof fn order_by_name_goes_down_the_alphabet(
    entries: Seq<FileEntry>,
    sorted: Seq<FileEntry>,
    from: Seq<int>,
    ascending: bool,
    i: int,
    j: int,
)
    requires
        is_order_of(entries, sorted, from, SortColumn::Name, ascending),
        0 <= i < j < sorted.len(),
        sorted[i].is_dir == sorted[j].is_dir,
    ensures
        ({
            let (a, b) = (lowercase(sorted[i].name@), lowercase(sorted[j].name@));
            &&& a == b ==> from[i] < from[j]
            &&& a != b && ascending ==> exists|k: int|
                0 <= k <= a.len() && k < b.len() && a.take(k) == #[trigger] b.take(k) && (k
                    == a.len() || (a[k] as int) < (b[k] as int))
            &&& a != b && !ascending ==> exists|k: int|
                0 <= k <= b.len() && k < a.len() && b.take(k) == #[trigger] a.take(k) && (k
                    == b.len() || (b[k] as int) < (a[k] as int))
        }),
{
    let (a, b) = (lowercase(sorted[i].name@), lowercase(sorted[j].name@));
    let k = lemma_first_difference(a, b);
    assert(a.take(k) == b.take(k));
    assert(forall|x: int| 0 <= x < k ==> #[trigger] b[x] == a[x]);
    texts_go_by_their_first_difference(a, b, k);
    texts_go_by_their_first_difference(b, a, k);
    if k == a.len() && k == b.len() {
        assert(a =~= b);
    }
    assert(sorted[i] == sorted[i] && sorted[j] == sorted[j]);
}

/// In the order by size, of two files or two directories the lower one is the greater, or
/// as great and came later. Downwards it is the smaller.
pub proof fn order_by_size_goes_by_the_bytes(
    entries: Seq<FileEntry>,
    sorted: Seq<FileEntry>,
    from: Seq<int>,
    ascending: bool,
    i: int,
    j: int,
)
    requires
        is_order_of(entries, sorted, from, SortColumn::Size, ascending),
        0 <= i < j < sorted.len(),
        sorted[i].is_dir == sorted[j].is_dir,
    ensures
        ascending ==> sorted[i].size <= sorted[j].size,
        !ascending ==> sorted[i].size >= sorted[j].size,
        sorted[i].size == sorted[j].size ==> from[i] < from[j],
{
}

/// In the order by time, of two files or two directories the lower one changed later, or at
/// the same time and came later. What has no time comes before what has one. Downwards all
/// of it goes the other way, but that what came later stays below.
pub proof fn order_by_time_goes_by_the_clock(
    entries: Seq<FileEntry>,
    sorted: Seq<FileEntry>,
    from: Seq<int>,
    ascending: bool,
    i: int,
    j: int,
)
    requires
        is_order_of(entries, sorted, from, SortColumn::Modified, ascending),
        0 <= i < j < sorted.len(),
        sorted[i].is_dir == sorted[j].is_dir,
    ensures
        ({
            let (early, late) = if ascending {
                (sorted[i].modified, sorted[j].modified)
            } else {
                (sorted[j].modified, sorted[i].modified)
            };
            &&& late is None ==> early is None
            &&& early is Some ==> late is Some && early->0 <= late->0
        }),
        sorted[i].modified == sorted[j].modified ==> from[i] < from[j],
{
}

/// An order has the entries of the list and no others, each as often as the list has it.
pub proof fn order_is_a_rearrangement(
    entries: Seq<FileEntry>,
    sorted: Seq<FileEntry>,
    from: Seq<int>,
    column: SortColumn,
    ascending: bool,
    i: int,
    j: int,
)
    requires
        is_order_of(entries, sorted, from, column, ascending),
        0 <= i < sorted.len(),
        0 <= j < sorted.len(),
    ensures
        sorted.len() == entries.len(),
        0 <= from[i] < entries.len(),
        sorted[i] == entries[from[i]],
        i != j ==> from[i] != from[j],
{
    assert(sorted[i] == sorted[i]);
}

} // verus!
