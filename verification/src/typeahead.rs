//! Jumping to an entry by typing the beginning of its name.
use crate::app_state::{time_between, whole_millis, AppState};
use crate::fs::entry::FileEntry;
use crate::text::{ascii_lower_char, has_prefix, lower_chars, lowercase};
use std::time::Instant;
use vstd::prelude::*;
use vstd::string::*;
use vstd::utf8::is_ascii_chars;

verus! {

/// A pause of this many milliseconds ends what was typed.
pub const TYPEAHEAD_TIMEOUT_MILLIS: u128 = 500;

/// Does the name begin with the text, without regard to case?
pub open spec fn begins_with(name: Seq<char>, text: Seq<char>) -> bool {
    lowercase(text).is_prefix_of(lowercase(name))
}

/// Was the one character `ch` typed over and over, and nothing else?
pub open spec fn is_repetition(typed: Seq<char>, ch: Seq<char>) -> bool {
    forall|i: int|
        0 <= i < lowercase(typed).len() ==> seq![#[trigger] lowercase(typed)[i]] == lowercase(ch)
}

/// How many steps down a list of `total` rows it takes from row `start` to row `i`, where
/// the first row follows the last.
pub open spec fn steps(start: int, i: int, total: int) -> int {
    if i >= start {
        i - start
    } else {
        i - start + total
    }
}

/// Is `hit` the first row from `start` on, going round, whose name begins with the
/// text? `None` stands for no such row.
pub open spec fn is_next_hit(
    names: Seq<Seq<char>>,
    text: Seq<char>,
    start: int,
    hit: Option<usize>,
) -> bool {
    match hit {
        Some(i) => {
            &&& i < names.len()
            &&& begins_with(names[i as int], text)
            &&& forall|j: int|
                0 <= j < names.len() && steps(start, j, names.len() as int) < steps(
                    start,
                    i as int,
                    names.len() as int,
                ) ==> !begins_with(#[trigger] names[j], text)
        },
        None => forall|j: int| 0 <= j < names.len() ==> !begins_with(#[trigger] names[j], text),
    }
}

/// The row from which the search for a repeated character starts: the one behind the
/// selected row, or the first where none is selected.
pub open spec fn row_after(selected: int, total: int) -> int {
    if selected >= 0 && total > 0 {
        (selected + 1) % total
    } else {
        0
    }
}

/// Is `hit` the row to jump to, when `typed` has been typed and `ch` came last?
///
/// A character that is repeated goes from one name that begins with it to the next.
/// Anything else leads to the first name that begins with all that was typed.
pub open spec fn is_jump(
    names: Seq<Seq<char>>,
    typed: Seq<char>,
    ch: Seq<char>,
    selected: int,
    hit: Option<usize>,
) -> bool {
    if is_repetition(typed, ch) {
        is_next_hit(names, ch, row_after(selected, names.len() as int), hit)
    } else {
        is_next_hit(names, typed, 0, hit)
    }
}

/// The names of the entries.
pub open spec fn names_of(entries: Seq<FileEntry>) -> Seq<Seq<char>> {
    entries.map_values(|e: FileEntry| e.name@)
}

/// Does typing `ch` in state `before` lead to `hit` and to state `after`, given whether the
/// pause before it was long enough to end what was typed?
///
/// Only the buffer changes, and the time of the last character. A character that
/// leads nowhere does not stay in the buffer.
pub open spec fn typing_leads_to<W>(
    before: AppState<W>,
    after: AppState<W>,
    paused: bool,
    ch: Seq<char>,
    selected: int,
    hit: Option<usize>,
) -> bool {
    let kept = if paused {
        Seq::empty()
    } else {
        before.typeahead_buffer@
    };
    &&& is_jump(names_of(before.visible()), kept + ch, ch, selected, hit)
    &&& after.typeahead_buffer@ == (if hit is Some {
        kept + ch
    } else {
        kept
    })
    &&& same_but_typing(before, after)
}

/// Do the two states differ in nothing but what was typed and when?
pub open spec fn same_but_typing<W>(before: AppState<W>, after: AppState<W>) -> bool {
    &&& after.current_dir == before.current_dir
    &&& after.entries == before.entries
    &&& after.filter == before.filter
    &&& after.watcher == before.watcher
    &&& after.sort_column == before.sort_column
    &&& after.sort_ascending == before.sort_ascending
    &&& after.history_back == before.history_back
    &&& after.history_forward == before.history_forward
}

fn repeats(typed: &Vec<char>, ch: &Vec<char>) -> (res: bool)
    ensures
        res == (forall|i: int| 0 <= i < typed@.len() ==> seq![#[trigger] typed@[i]] == ch@),
{
    for i in 0..typed.len()
        invariant
            forall|k: int| 0 <= k < i ==> seq![#[trigger] typed@[k]] == ch@,
    {
        if ch.len() != 1 || typed[i] != ch[0] {
            assert(seq![typed@[i as int]].len() == 1);
            assert(seq![typed@[i as int]][0] == typed@[i as int]);
            assert(seq![typed@[i as int]] != ch@);
            return false;
        }
        assert(seq![typed@[i as int]] == ch@);
    }
    true
}

fn next_hit(shown: &Vec<&FileEntry>, text: &str, start: usize) -> (hit: Option<usize>)
    requires
        start < shown.len() || shown.len() == 0,
    ensures
        is_next_hit(names_of(shown@.unref()), text@, start as int, hit),
{
    let prefix: Vec<char> = lower_chars(text);
    let ghost names = names_of(shown@.unref());
    let total: usize = shown.len();
    for offset in 0..total
        invariant
            total == shown.len(),
            start < total || total == 0,
            names == names_of(shown@.unref()),
            prefix@ == lowercase(text@),
            forall|j: int|
                0 <= j < total && steps(start as int, j, total as int) < offset ==> !begins_with(
                    #[trigger] names[j],
                    text@,
                ),
    {
        let i: usize = if offset < total - start {
            start + offset
        } else {
            offset - (total - start)
        };
        assert(names[i as int] == shown@[i as int].name@);
        assert(steps(start as int, i as int, total as int) == offset);
        if has_prefix(&lower_chars(shown[i].name.as_str()), &prefix) {
            return Some(i);
        }
    }
    None
}

impl<W> AppState<W> {
    /// Takes a character that was typed `elapsed_millis` after the one before it, and
    /// says which row of the list to jump to.
    ///
    /// After a pause the typing starts afresh. Where nothing begins with what was
    /// typed the answer is `None` and the character is forgotten.
    pub fn typeahead_after(
        &mut self,
        elapsed_millis: u128,
        ch: &str,
        current_selected: i32,
    ) -> (hit: Option<usize>)
        ensures
            typing_leads_to(
                *old(self),
                *final(self),
                elapsed_millis >= TYPEAHEAD_TIMEOUT_MILLIS,
                ch@,
                current_selected as int,
                hit,
            ),
            final(self).typeahead_last == old(self).typeahead_last,
            hit is Some ==> hit->0 < old(self).visible().len(),
            elapsed_millis >= 500 ==> final(self).typeahead_buffer@ == (if hit is Some {
                ch@
            } else {
                Seq::empty()
            }),
            elapsed_millis < 500 ==> final(self).typeahead_buffer@ == (if hit is Some {
                old(self).typeahead_buffer@ + ch@
            } else {
                old(self).typeahead_buffer@
            }),
    {
        if elapsed_millis >= TYPEAHEAD_TIMEOUT_MILLIS {
            self.typeahead_buffer = String::new();
        }
        let ghost kept = self.typeahead_buffer@;
        let mut typed: String = self.typeahead_buffer.clone();
        typed.append(ch);
        let repeated: bool = repeats(&lower_chars(typed.as_str()), &lower_chars(ch));
        let shown = self.visible_entries();
        let total: usize = shown.len();
        let hit: Option<usize> = if repeated {
            let start: usize = if current_selected >= 0 && total > 0 {
                (current_selected as usize + 1) % total
            } else {
                0
            };
            next_hit(&shown, ch, start)
        } else {
            next_hit(&shown, typed.as_str(), 0)
        };
        if hit.is_some() {
            self.typeahead_buffer = typed;
        }
        assert(Seq::<char>::empty() + ch@ == ch@);
        hit
    }

    /// Takes a character that was typed at the moment `now` and says which row of the list to
    /// jump to. The moment is kept as that of the last character, and the pause is the time
    /// from the one kept before: half a second ends what was typed.
    pub fn typeahead_at(&mut self, now: Instant, ch: &str, current_selected: i32) -> (hit: Option<
        usize,
    >)
        ensures
            final(self).typeahead_last == now,
            typing_leads_to(
                *old(self),
                *final(self),
                whole_millis(time_between(now, old(self).typeahead_last))
                    >= TYPEAHEAD_TIMEOUT_MILLIS,
                ch@,
                current_selected as int,
                hit,
            ),
    {
        let elapsed: u128 = now.duration_since(self.typeahead_last).as_millis();
        self.typeahead_last = now;
        self.typeahead_after(elapsed, ch, current_selected)
    }

    /// Takes a character that was typed just now and says which row of the list to jump
    /// to. `current_selected` is the selected row, or negative where none is.
    ///
    /// Which moment it is only the clock knows; [`AppState::typeahead_at`] says what
    /// follows for each.
    pub fn typeahead_match(&mut self, ch: &str, current_selected: i32) -> (hit: Option<usize>)
        ensures
            typing_leads_to(
                *old(self),
                *final(self),
                whole_millis(time_between(final(self).typeahead_last, old(self).typeahead_last))
                    >= TYPEAHEAD_TIMEOUT_MILLIS,
                ch@,
                current_selected as int,
                hit,
            ),
            call_ensures(Instant::now, (), final(self).typeahead_last),
    {
        self.typeahead_at(Instant::now(), ch, current_selected)
    }
}

/// While a character is repeated, the jumps visit every name that begins with it: from
/// whatever row, each jump either lands on a given one of them or comes closer to it.
pub proof fn repetition_reaches_every_name(
    names: Seq<Seq<char>>,
    ch: Seq<char>,
    selected: int,
    hit: Option<usize>,
    wanted: int,
)
    requires
        is_next_hit(names, ch, row_after(selected, names.len() as int), hit),
        -1 <= selected < names.len(),
        0 <= wanted < names.len(),
        begins_with(names[wanted], ch),
    ensures
        hit is Some,
        hit->0 < names.len(),
        begins_with(names[hit->0 as int], ch),
        hit->0 == wanted || steps(
            row_after(hit->0 as int, names.len() as int),
            wanted,
            names.len() as int,
        ) < steps(row_after(selected, names.len() as int), wanted, names.len() as int),
{
    let total = names.len() as int;
    let start = row_after(selected, total);
    assert(names[wanted] == names[wanted]);
    if hit is Some {
        let h = hit->0 as int;
        assert((h + 1) % total == (if h + 1 == total {
            0
        } else {
            h + 1
        })) by {
            if h + 1 < total {
                vstd::arithmetic::div_mod::lemma_small_mod((h + 1) as nat, total as nat);
            } else {
                vstd::arithmetic::div_mod::lemma_mod_self_0(total);
            }
        }
        assert(0 <= start < total) by {
            vstd::arithmetic::div_mod::lemma_mod_bound(selected + 1, total);
        }
    }
}

/// The rows whose names begin with the text, from the top down.
pub open spec fn rows_beginning_with(names: Seq<Seq<char>>, text: Seq<char>) -> Seq<int>
    decreases names.len(),
{
    if names.len() == 0 {
        Seq::empty()
    } else {
        let before = rows_beginning_with(names.drop_last(), text);
        if begins_with(names.last(), text) {
            before.push(names.len() - 1)
        } else {
            before
        }
    }
}

/// The rows whose names begin with a text are just that: they go down, each of them
/// begins with the text, and every row that does is among them.
pub proof fn rows_beginning_with_are_the_hits(names: Seq<Seq<char>>, text: Seq<char>)
    ensures
        forall|x: int, y: int|
            #![trigger rows_beginning_with(names, text)[x], rows_beginning_with(names, text)[y]]
            0 <= x < y < rows_beginning_with(names, text).len() ==> rows_beginning_with(
                names,
                text,
            )[x] < rows_beginning_with(names, text)[y],
        forall|j: int|
            rows_beginning_with(names, text).contains(j) <==> 0 <= j < names.len() && begins_with(
                names[j],
                text,
            ),
    decreases names.len(),
{
    let rows = rows_beginning_with(names, text);
    if names.len() > 0 {
        let front = names.drop_last();
        let before = rows_beginning_with(front, text);
        rows_beginning_with_are_the_hits(front, text);
        assert forall|j: int| rows.contains(j) <==> 0 <= j < names.len() && begins_with(
            names[j],
            text,
        ) by {
            assert(before.contains(j) <==> 0 <= j < front.len() && begins_with(front[j], text));
            if rows.contains(j) {
                let x = choose|x: int| 0 <= x < rows.len() && rows[x] == j;
                if x < before.len() {
                    assert(before[x] == j);
                }
            }
            if before.contains(j) {
                let x = choose|x: int| 0 <= x < before.len() && before[x] == j;
                assert(rows[x] == j);
            }
            if j == front.len() && begins_with(names[j], text) {
                assert(rows[before.len() as int] == j);
            }
        }
        assert forall|x: int, y: int| 0 <= x < y < rows.len() implies #[trigger] rows[x]
            < #[trigger] rows[y] by {
            assert(rows[x] == before[x]);
            assert(before.contains(before[x]));
            if y < before.len() {
                assert(rows[y] == before[y]);
            }
        }
    }
}

proof fn lemma_next_of_rows(
    names: Seq<Seq<char>>,
    ch: Seq<char>,
    at: int,
    hit: Option<usize>,
)
    requires
        rows_beginning_with(names, ch).len() > 0,
        -1 <= at < rows_beginning_with(names, ch).len(),
        is_next_hit(
            names,
            ch,
            row_after(
                if at < 0 {
                    -1
                } else {
                    rows_beginning_with(names, ch)[at]
                },
                names.len() as int,
            ),
            hit,
        ),
    ensures
        hit is Some,
        hit->0 == rows_beginning_with(names, ch)[if at + 1 == rows_beginning_with(names, ch).len() {
            0
        } else {
            at + 1
        }],
{
    let rows = rows_beginning_with(names, ch);
    let total = names.len() as int;
    let next = if at + 1 == rows.len() {
        0
    } else {
        at + 1
    };
    rows_beginning_with_are_the_hits(names, ch);
    assert(rows.contains(rows[next]));
    assert(begins_with(names[rows[next]], ch));
    assert(hit is Some);
    let h = hit->0 as int;
    assert(rows.contains(h));
    let q = choose|q: int| 0 <= q < rows.len() && rows[q] == h;
    if at >= 0 {
        assert(rows.contains(rows[at]));
        let r = rows[at];
        if r + 1 < total {
            vstd::arithmetic::div_mod::lemma_small_mod((r + 1) as nat, total as nat);
        } else {
            vstd::arithmetic::div_mod::lemma_mod_self_0(total);
        }
    }
    assert(q != next ==> rows[q] != rows[next]);
    assert(q < next ==> rows[q] < rows[next]);
    assert(q > next ==> rows[q] > rows[next]);
    if at >= 0 {
        assert(q < at ==> rows[q] < rows[at]);
        assert(q > at ==> rows[q] > rows[at]);
        assert(next > at ==> rows[next] > rows[at]);
        assert(next < at ==> rows[next] < rows[at]);
    }
}

/// The row that is selected at press `k`: the one that the press before led to, and none
/// at first.
pub open spec fn selected_at(hits: Seq<Option<usize>>, k: int) -> int {
    if k == 0 {
        -1
    } else {
        hits[k - 1]->0 as int
    }
}

/// Is `hits` where one press of `ch` after the other leads, each from the row that the one
/// before it led to? `states` are the states before, between and after the presses,
/// `paused` says before which of them the pause was long enough to end what was typed.
pub open spec fn are_presses<W>(
    states: Seq<AppState<W>>,
    paused: Seq<bool>,
    ch: Seq<char>,
    hits: Seq<Option<usize>>,
) -> bool {
    &&& states.len() == hits.len() + 1
    &&& paused.len() == hits.len()
    &&& forall|k: int|
        0 <= k < hits.len() ==> typing_leads_to(
            states[k],
            states[k + 1],
            paused[k],
            ch,
            selected_at(hits, k),
            #[trigger] hits[k],
        )
}

spec fn all_are(text: Seq<char>, c: char) -> bool {
    forall|i: int| 0 <= i < text.len() ==> #[trigger] text[i] == c
}

proof fn lemma_repeated_ascii(typed: Seq<char>, ch: Seq<char>)
    requires
        ch.len() == 1,
        is_ascii_chars(ch),
        all_are(typed, ch[0]),
    ensures
        is_repetition(typed, ch),
{
    assert(is_ascii_chars(typed));
    assert forall|i: int| 0 <= i < lowercase(typed).len() implies seq![
        #[trigger] lowercase(typed)[i],
    ] == lowercase(ch) by {
        assert(typed[i] == ch[0]);
        assert(lowercase(typed)[i] == ascii_lower_char(ch[0]));
        assert(lowercase(ch)[0] == ascii_lower_char(ch[0]));
        assert(seq![lowercase(typed)[i]] =~= lowercase(ch));
    }
}

proof fn lemma_round(k: int, m: int)
    requires
        k >= 0,
        m > 0,
    ensures
        0 <= k % m < m,
        (k + 1) % m == (if k % m + 1 == m {
            0
        } else {
            k % m + 1
        }),
{
    vstd::arithmetic::div_mod::lemma_mod_bound(k, m);
    vstd::arithmetic::div_mod::lemma_add_mod_noop(k, 1, m);
    if m > 1 {
        vstd::arithmetic::div_mod::lemma_small_mod(1, m as nat);
        if k % m + 1 == m {
            vstd::arithmetic::div_mod::lemma_mod_self_0(m);
        } else {
            vstd::arithmetic::div_mod::lemma_small_mod((k % m + 1) as nat, m as nat);
        }
    } else {
        vstd::arithmetic::div_mod::lemma_mod_bound(k + 1, m);
    }
}

proof fn lemma_press<W>(
    before: AppState<W>,
    after: AppState<W>,
    paused: bool,
    ch: Seq<char>,
    selected: int,
    hit: Option<usize>,
)
    requires
        typing_leads_to(before, after, paused, ch, selected, hit),
        ch.len() == 1,
        is_ascii_chars(ch),
        all_are(before.typeahead_buffer@, ch[0]),
    ensures
        all_are(after.typeahead_buffer@, ch[0]),
        after.visible() == before.visible(),
        is_next_hit(
            names_of(before.visible()),
            ch,
            row_after(selected, names_of(before.visible()).len() as int),
            hit,
        ),
{
    let kept = if paused {
        Seq::empty()
    } else {
        before.typeahead_buffer@
    };
    assert(all_are(kept, ch[0]));
    assert(all_are(kept + ch, ch[0]));
    lemma_repeated_ascii(kept + ch, ch);
}

#[verifier::opaque]
spec fn run_of_presses<W>(
    states: Seq<AppState<W>>,
    paused: Seq<bool>,
    ch: Seq<char>,
    hits: Seq<Option<usize>>,
) -> bool {
    &&& are_presses(states, paused, ch, hits)
    &&& ch.len() == 1
    &&& is_ascii_chars(ch)
    &&& states[0].typeahead_buffer@.len() == 0
    &&& rows_beginning_with(names_of(states[0].visible()), ch).len() > 0
}

proof fn lemma_press_leads_round(
    names: Seq<Seq<char>>,
    ch: Seq<char>,
    hits: Seq<Option<usize>>,
    k: int,
)
    requires
        0 <= k < hits.len(),
        rows_beginning_with(names, ch).len() > 0,
        is_next_hit(names, ch, row_after(selected_at(hits, k), names.len() as int), hits[k]),
        k > 0 ==> leads_round(rows_beginning_with(names, ch), k - 1, hits[k - 1]),
    ensures
        leads_round(rows_beginning_with(names, ch), k, hits[k]),
{
    let m = rows_beginning_with(names, ch).len() as int;
    if k == 0 {
        lemma_next_of_rows(names, ch, -1, hits[k]);
        vstd::arithmetic::div_mod::lemma_small_mod(0, m as nat);
    } else {
        lemma_round(k - 1, m);
        lemma_next_of_rows(names, ch, (k - 1) % m, hits[k]);
    }
}

proof fn lemma_one_more_press<W>(
    states: Seq<AppState<W>>,
    paused: Seq<bool>,
    ch: Seq<char>,
    hits: Seq<Option<usize>>,
    k: int,
)
    requires
        run_of_presses(states, paused, ch, hits),
        0 <= k < hits.len(),
        all_are(states[k].typeahead_buffer@, ch[0]),
        states[k].visible() == states[0].visible(),
        k > 0 ==> leads_round(
            rows_beginning_with(names_of(states[0].visible()), ch),
            k - 1,
            hits[k - 1],
        ),
    ensures
        all_are(states[k + 1].typeahead_buffer@, ch[0]),
        states[k + 1].visible() == states[0].visible(),
        leads_round(rows_beginning_with(names_of(states[0].visible()), ch), k, hits[k]),
{
    reveal(run_of_presses);
    lemma_press(states[k], states[k + 1], paused[k], ch, selected_at(hits, k), hits[k]);
    lemma_press_leads_round(names_of(states[0].visible()), ch, hits, k);
}

proof fn lemma_presses<W>(
    states: Seq<AppState<W>>,
    paused: Seq<bool>,
    ch: Seq<char>,
    hits: Seq<Option<usize>>,
    n: int,
)
    requires
        run_of_presses(states, paused, ch, hits),
        0 <= n <= hits.len(),
    ensures
        all_are(states[n].typeahead_buffer@, ch[0]),
        states[n].visible() == states[0].visible(),
        forall|k: int|
            0 <= k < n ==> leads_round(
                rows_beginning_with(names_of(states[0].visible()), ch),
                k,
                #[trigger] hits[k],
            ),
    decreases n,
{
    if n > 0 {
        lemma_presses(states, paused, ch, hits, n - 1);
        lemma_one_more_press(states, paused, ch, hits, n - 1);
    } else {
        reveal(run_of_presses);
    }
}

/// Is `hit` the row to which press `k` leads, when the presses go through `rows` from the
/// top down and then begin with the first again?
pub open spec fn leads_round(rows: Seq<int>, k: int, hit: Option<usize>) -> bool {
    hit is Some && hit->0 == rows[k % rows.len() as int]
}

/// Pressing one key again and again goes through all names that begin with it, from the
/// top down, and then begins with the first again: the presses lead to the first of
/// them, the second and so on to the last, each once, and so round and round, however
/// long the pauses in between are.
pub proof fn repetition_goes_round<W>(
    states: Seq<AppState<W>>,
    paused: Seq<bool>,
    ch: Seq<char>,
    hits: Seq<Option<usize>>,
)
    requires
        are_presses(states, paused, ch, hits),
        ch.len() == 1,
        is_ascii_chars(ch),
        states[0].typeahead_buffer@.len() == 0,
        rows_beginning_with(names_of(states[0].visible()), ch).len() > 0,
    ensures
        forall|k: int|
            0 <= k < hits.len() ==> leads_round(
                rows_beginning_with(names_of(states[0].visible()), ch),
                k,
                #[trigger] hits[k],
            ),
{
    reveal(run_of_presses);
    lemma_presses(states, paused, ch, hits, hits.len() as int);
}

/// The single name that begins with a repeated character is found again and again.
pub proof fn lone_name_is_found_again(
    names: Seq<Seq<char>>,
    ch: Seq<char>,
    selected: int,
    hit: Option<usize>,
    only: int,
)
    requires
        is_next_hit(names, ch, row_after(selected, names.len() as int), hit),
        0 <= only < names.len(),
        begins_with(names[only], ch),
        forall|j: int|
            0 <= j < names.len() && j != only ==> !begins_with(#[trigger] names[j], ch),
    ensures
        hit is Some,
        hit->0 == only,
{
}

/// Where a jump leads does not depend on anything but the names, what was typed, and
/// the selected row: there is only one.
pub proof fn jump_is_unique(
    names: Seq<Seq<char>>,
    typed: Seq<char>,
    ch: Seq<char>,
    selected: int,
    one: Option<usize>,
    two: Option<usize>,
)
    requires
        is_jump(names, typed, ch, selected, one),
        is_jump(names, typed, ch, selected, two),
    ensures
        one == two,
{
    let total = names.len() as int;
    if total > 0 {
        vstd::arithmetic::div_mod::lemma_mod_bound(selected + 1, total);
    }
}

/// Capitals make no difference to where typing leads.
pub proof fn typing_ignores_case(
    names: Seq<Seq<char>>,
    typed: Seq<char>,
    ch: Seq<char>,
    typed_too: Seq<char>,
    ch_too: Seq<char>,
    selected: int,
    hit: Option<usize>,
)
    requires
        lowercase(typed) == lowercase(typed_too),
        lowercase(ch) == lowercase(ch_too),
        is_jump(names, typed, ch, selected, hit),
    ensures
        is_jump(names, typed_too, ch_too, selected, hit),
{
    assert forall|j: int| 0 <= j < names.len() implies begins_with(#[trigger] names[j], typed)
        == begins_with(names[j], typed_too) && begins_with(names[j], ch) == begins_with(
        names[j],
        ch_too,
    ) by {
    }
}

/// The first character of all counts as repeated, and so does one that only follows
/// itself; two different characters never do.
pub proof fn repetition_is_of_one_character(typed: Seq<char>, ch: Seq<char>, c: char)
    requires
        lowercase(ch) == seq![c],
    ensures
        is_repetition(typed, ch) <==> (forall|i: int|
            0 <= i < lowercase(typed).len() ==> #[trigger] lowercase(typed)[i] == c),
        is_repetition(ch, ch),
{
    let low = lowercase(typed);
    assert forall|i: int| 0 <= i < low.len() implies (seq![#[trigger] low[i]] == seq![c]) == (low[i]
        == c) by {
        assert(seq![low[i]][0] == low[i]);
        assert(seq![c][0] == c);
    }
}

/// Where nothing has been typed yet, the pause before a character is irrelevant.
pub proof fn pause_is_irrelevant_at_first<W>(
    before: AppState<W>,
    after: AppState<W>,
    ch: Seq<char>,
    selected: int,
    hit: Option<usize>,
)
    requires
        before.typeahead_buffer@.len() == 0,
    ensures
        typing_leads_to(before, after, true, ch, selected, hit) == typing_leads_to(
            before,
            after,
            false,
            ch,
            selected,
            hit,
        ),
{
    assert(before.typeahead_buffer@ == Seq::<char>::empty());
}

/// What was typed leads to the first name in the list that begins with it, whatever row is
/// selected, as soon as it is more than one character over and over: no row above the hit
/// begins with it, and where there is no hit no row at all does.
pub proof fn several_characters_lead_to_the_first_name<W>(
    before: AppState<W>,
    after: AppState<W>,
    paused: bool,
    ch: Seq<char>,
    selected: int,
    hit: Option<usize>,
    typed: Seq<char>,
    i: int,
    j: int,
)
    requires
        typing_leads_to(before, after, paused, ch, selected, hit),
        paused ==> typed == ch,
        !paused ==> typed == before.typeahead_buffer@ + ch,
        0 <= i < lowercase(typed).len(),
        seq![lowercase(typed)[i]] != lowercase(ch),
        0 <= j < before.visible().len(),
    ensures
        hit is Some ==> hit->0 < before.visible().len() && lowercase(typed).is_prefix_of(
            lowercase(before.visible()[hit->0 as int].name@),
        ),
        lowercase(typed).is_prefix_of(lowercase(before.visible()[j].name@)) ==> hit is Some
            && hit->0 <= j,
{
    let names = names_of(before.visible());
    assert(Seq::<char>::empty() + ch == ch);
    assert(!is_repetition(typed, ch));
    assert(names[j] == before.visible()[j].name@);
    if hit is Some {
        assert(names[hit->0 as int] == before.visible()[hit->0 as int].name@);
    }
}

/// One character over and over leads to the next name that begins with it: the first one
/// from the row behind the selected one down, or, if there is none, the first one from the
/// top. Where no row is selected it is the first one from the top.
pub proof fn repeated_character_leads_to_the_next_name<W>(
    before: AppState<W>,
    after: AppState<W>,
    paused: bool,
    ch: Seq<char>,
    selected: int,
    hit: Option<usize>,
    typed: Seq<char>,
    j: int,
)
    requires
        typing_leads_to(before, after, paused, ch, selected, hit),
        paused ==> typed == ch,
        !paused ==> typed == before.typeahead_buffer@ + ch,
        forall|i: int|
            0 <= i < lowercase(typed).len() ==> seq![#[trigger] lowercase(typed)[i]] == lowercase(
                ch,
            ),
        selected < before.visible().len(),
        0 <= j < before.visible().len(),
    ensures
        hit is Some ==> hit->0 < before.visible().len() && lowercase(ch).is_prefix_of(
            lowercase(before.visible()[hit->0 as int].name@),
        ),
        lowercase(ch).is_prefix_of(lowercase(before.visible()[j].name@)) ==> hit is Some,
        lowercase(ch).is_prefix_of(lowercase(before.visible()[j].name@)) && j > selected ==> hit->0
            > selected && hit->0 <= j,
        lowercase(ch).is_prefix_of(lowercase(before.visible()[j].name@)) && j <= selected
            ==> hit->0 > selected || hit->0 <= j,
{
    let names = names_of(before.visible());
    let total = names.len() as int;
    assert(Seq::<char>::empty() + ch == ch);
    assert(is_repetition(typed, ch));
    assert(is_next_hit(names, ch, row_after(selected, total), hit));
    assert(names[j] == before.visible()[j].name@);
    if hit is Some {
        assert(names[hit->0 as int] == before.visible()[hit->0 as int].name@);
    }
    if selected >= 0 {
        if selected + 1 < total {
            vstd::arithmetic::div_mod::lemma_small_mod((selected + 1) as nat, total as nat);
        } else {
            vstd::arithmetic::div_mod::lemma_mod_self_0(total);
        }
    }
}

/// A character that leads somewhere is kept behind what was typed before, or alone after a
/// pause; one that leads nowhere is not kept. Nothing else changes.
pub proof fn only_what_leads_somewhere_is_kept<W>(
    before: AppState<W>,
    after: AppState<W>,
    paused: bool,
    ch: Seq<char>,
    selected: int,
    hit: Option<usize>,
)
    requires
        typing_leads_to(before, after, paused, ch, selected, hit),
    ensures
        paused && hit is Some ==> after.typeahead_buffer@ == ch,
        paused && hit is None ==> after.typeahead_buffer@ == Seq::<char>::empty(),
        !paused && hit is Some ==> after.typeahead_buffer@ == before.typeahead_buffer@ + ch,
        !paused && hit is None ==> after.typeahead_buffer@ == before.typeahead_buffer@,
        after.entries == before.entries,
        after.filter == before.filter,
        after.current_dir == before.current_dir,
        after.watcher == before.watcher,
        after.sort_column == before.sort_column,
        after.sort_ascending == before.sort_ascending,
        after.history_back == before.history_back,
        after.history_forward == before.history_forward,
{
    assert(Seq::<char>::empty() + ch == ch);
}

/// A selection beyond the list counts round: one list length less changes nothing.
pub proof fn selection_counts_round(
    names: Seq<Seq<char>>,
    typed: Seq<char>,
    ch: Seq<char>,
    selected: int,
    hit: Option<usize>,
)
    requires
        names.len() > 0,
        selected >= names.len(),
    ensures
        is_jump(names, typed, ch, selected, hit) == is_jump(
            names,
            typed,
            ch,
            selected - names.len(),
            hit,
        ),
{
    vstd::arithmetic::div_mod::lemma_mod_sub_multiples_vanish(selected + 1, names.len() as int);
    assert(-1 * names.len() + (selected + 1) == selected - names.len() + 1);
}

} // verus!
