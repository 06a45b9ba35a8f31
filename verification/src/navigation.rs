//! Going from directory to directory, and back and forward again.
use crate::app_state::AppState;
use crate::breadcrumb::{build_path_from_components, segment_path};
use crate::path::{parent_path, same_path, DirPath, Part, PathView};
use crate::spelling::{is_path_of, lemma_dot, read_path};
use vstd::prelude::*;
use vstd::string::*;

verus! {

/// Where the window is: the open directory, those to go back to and those to go
/// forward to, the nearest last in both.
pub ghost struct Place {
    pub dir: PathView,
    pub back: Seq<PathView>,
    pub forward: Seq<PathView>,
}

/// The paths that a vector holds.
pub open spec fn paths(v: Seq<DirPath>) -> Seq<PathView> {
    v.map_values(|p: DirPath| p@)
}

/// The place after going to a directory. The directory that is left becomes the
/// nearest to go back to, and there is nothing to go forward to any more; unless no
/// directory was open yet, or it is the same one.
pub open spec fn went_to(place: Place, path: PathView) -> Place {
    if place.dir.parts.len() > 0 && !same_path(place.dir, path) {
        Place { dir: path, back: place.back.push(place.dir), forward: Seq::empty() }
    } else {
        Place { dir: path, ..place }
    }
}

/// The place after going back, if there is a directory to go back to.
pub open spec fn went_back(place: Place) -> Option<Place> {
    if place.back.len() == 0 {
        None
    } else {
        Some(
            Place {
                dir: place.back.last(),
                back: place.back.drop_last(),
                forward: place.forward.push(place.dir),
            },
        )
    }
}

/// The place after going forward, if there is a directory to go forward to.
pub open spec fn went_forward(place: Place) -> Option<Place> {
    if place.forward.len() == 0 {
        None
    } else {
        Some(
            Place {
                dir: place.forward.last(),
                back: place.back.push(place.dir),
                forward: place.forward.drop_last(),
            },
        )
    }
}

/// Do the two states differ in nothing but the place and the filter?
pub open spec fn same_but_place<W>(before: AppState<W>, after: AppState<W>) -> bool {
    &&& after.entries == before.entries
    &&& after.watcher == before.watcher
    &&& after.sort_column == before.sort_column
    &&& after.sort_ascending == before.sort_ascending
    &&& after.typeahead_buffer == before.typeahead_buffer
    &&& after.typeahead_last == before.typeahead_last
}

impl<W> AppState<W> {
    /// Where the window is.
    pub open spec fn place(&self) -> Place {
        Place {
            dir: self.current_dir@,
            back: paths(self.history_back@),
            forward: paths(self.history_forward@),
        }
    }

    /// Records a directory that is left. What there was to go forward to is forgotten.
    pub fn push_history(&mut self, dir: DirPath)
        ensures
            final(self).place() == (Place {
                dir: old(self).place().dir,
                back: old(self).place().back.push(dir@),
                forward: Seq::empty(),
            }),
            same_but_place(*old(self), *final(self)),
            final(self).filter == old(self).filter,
            final(self).current_dir == old(self).current_dir,
    {
        let ghost back = self.history_back@;
        self.history_back.push(dir);
        self.history_forward.clear();
        assert(paths(self.history_back@) == paths(back).push(dir@));
        assert(paths(self.history_forward@) == Seq::<PathView>::empty());
    }

    /// Takes the nearest directory to go back to, and records the open one as the
    /// nearest to go forward to. The open directory itself stays.
    pub fn pop_back(&mut self) -> (dest: Option<DirPath>)
        ensures
            match went_back(old(self).place()) {
                Some(there) => {
                    &&& dest is Some
                    &&& dest->0@ == there.dir
                    &&& final(self).place() == (Place { dir: old(self).place().dir, ..there })
                },
                None => dest is None && final(self).place() == old(self).place(),
            },
            same_but_place(*old(self), *final(self)),
            final(self).filter == old(self).filter,
            final(self).current_dir == old(self).current_dir,
    {
        let ghost (back, forward) = (self.history_back@, self.history_forward@);
        assert(paths(back).len() == back.len());
        let dest = self.history_back.pop();
        if dest.is_some() {
            let here = self.current_dir.clone();
            self.history_forward.push(here);
            assert(paths(self.history_back@) == paths(back).drop_last());
            assert(paths(self.history_forward@) == paths(forward).push(self.current_dir@));
        }
        dest
    }

    /// Takes the nearest directory to go forward to, and records the open one as the
    /// nearest to go back to. The open directory itself stays.
    pub fn pop_forward(&mut self) -> (dest: Option<DirPath>)
        ensures
            match went_forward(old(self).place()) {
                Some(there) => {
                    &&& dest is Some
                    &&& dest->0@ == there.dir
                    &&& final(self).place() == (Place { dir: old(self).place().dir, ..there })
                },
                None => dest is None && final(self).place() == old(self).place(),
            },
            same_but_place(*old(self), *final(self)),
            final(self).filter == old(self).filter,
            final(self).current_dir == old(self).current_dir,
    {
        let ghost (back, forward) = (self.history_back@, self.history_forward@);
        assert(paths(forward).len() == forward.len());
        let dest = self.history_forward.pop();
        if dest.is_some() {
            let here = self.current_dir.clone();
            self.history_back.push(here);
            assert(paths(self.history_forward@) == paths(forward).drop_last());
            assert(paths(self.history_back@) == paths(back).push(self.current_dir@));
        }
        dest
    }
}

/// What the window has to do after the place changed.
#[derive(Debug)]
pub struct Navigation {
    /// The directory to read.
    pub path: DirPath,
    /// The text for the search bar.
    pub filter_text: String,
    /// Does the address bar show an error?
    pub address_error: bool,
    /// Is there a directory to go back to?
    pub can_go_back: bool,
    /// Is there a directory to go forward to?
    pub can_go_forward: bool,
    /// Is the directory to be watched from now on?
    pub install_watcher: bool,
}

/// Is this what the window has to do to show the place? The directory is read and
/// watched, the search bar is emptied, and the address bar shows no error.
pub open spec fn shows_place(nav: Navigation, place: Place) -> bool {
    &&& nav.path@ == place.dir
    &&& nav.filter_text@ == Seq::<char>::empty()
    &&& !nav.address_error
    &&& nav.can_go_back == (place.back.len() > 0)
    &&& nav.can_go_forward == (place.forward.len() > 0)
    &&& nav.install_watcher
}

/// Which of the two buttons "back" and "forward" are enabled: each as long as there is
/// a directory to go to.
pub fn update_history_buttons<W>(state: &AppState<W>) -> (enabled: (bool, bool))
    ensures
        enabled.0 == (went_back(state.place()) is Some),
        enabled.1 == (went_forward(state.place()) is Some),
        enabled.0 == (state.history_back@.len() > 0),
        enabled.1 == (state.history_forward@.len() > 0),
{
    (!state.history_back.is_empty(), !state.history_forward.is_empty())
}

fn arrive<W>(state: &mut AppState<W>, path: DirPath) -> (nav: Navigation)
    ensures
        final(state).place() == (Place { dir: path@, ..old(state).place() }),
        final(state).filter@ == Seq::<char>::empty(),
        same_but_place(*old(state), *final(state)),
        shows_place(nav, final(state).place()),
{
    state.current_dir = path.clone();
    state.filter = String::new();
    let (can_go_back, can_go_forward) = update_history_buttons(state);
    Navigation {
        path,
        filter_text: String::new(),
        address_error: false,
        can_go_back,
        can_go_forward,
        install_watcher: true,
    }
}

/// Goes to a directory. Its whole content is shown: the filter is not taken along.
pub fn navigate_to<W>(state: &mut AppState<W>, path: DirPath) -> (nav: Navigation)
    ensures
        final(state).place() == went_to(old(state).place(), path@),
        final(state).filter@ == Seq::<char>::empty(),
        same_but_place(*old(state), *final(state)),
        shows_place(nav, final(state).place()),
{
    if !state.current_dir.is_empty() && !state.current_dir.same(&path) {
        let left = state.current_dir.clone();
        state.push_history(left);
    }
    arrive(state, path)
}

/// Goes back to the directory before, if there is one.
pub fn navigate_back<W>(state: &mut AppState<W>) -> (nav: Option<Navigation>)
    ensures
        match went_back(old(state).place()) {
            Some(there) => {
                &&& nav is Some
                &&& final(state).place() == there
                &&& final(state).filter@ == Seq::<char>::empty()
                &&& same_but_place(*old(state), *final(state))
                &&& shows_place(nav->0, there)
            },
            None => {
                &&& nav is None
                &&& final(state).place() == old(state).place()
                &&& final(state).filter == old(state).filter
                &&& same_but_place(*old(state), *final(state))
            },
        },
{
    match state.pop_back() {
        Some(path) => Some(arrive(state, path)),
        None => None,
    }
}

/// Goes forward again after going back, if there is a directory to go to.
pub fn navigate_forward<W>(state: &mut AppState<W>) -> (nav: Option<Navigation>)
    ensures
        match went_forward(old(state).place()) {
            Some(there) => {
                &&& nav is Some
                &&& final(state).place() == there
                &&& final(state).filter@ == Seq::<char>::empty()
                &&& same_but_place(*old(state), *final(state))
                &&& shows_place(nav->0, there)
            },
            None => {
                &&& nav is None
                &&& final(state).place() == old(state).place()
                &&& final(state).filter == old(state).filter
                &&& same_but_place(*old(state), *final(state))
            },
        },
{
    match state.pop_forward() {
        Some(path) => Some(arrive(state, path)),
        None => None,
    }
}

/// The directory above the open one; `None` at a root.
pub fn go_up<W>(state: &AppState<W>) -> (target: Option<DirPath>)
    ensures
        (target is Some) == (parent_path(state.current_dir@) is Some),
        target is Some ==> target->0@ == parent_path(state.current_dir@)->0,
{
    state.current_dir.parent()
}

/// The directory that a segment of the breadcrumb bar stands for.
pub fn segment_clicked<W>(state: &AppState<W>, index: i32) -> (target: Option<DirPath>)
    ensures
        (target is Some) == (segment_path(state.current_dir@, index as int) is Some),
        target is Some ==> target->0@ == segment_path(state.current_dir@, index as int)->0,
{
    if index < 0 {
        None
    } else {
        build_path_from_components(&state.current_dir, index as usize)
    }
}

/// What a double click or the enter key does to a row.
#[derive(Debug)]
pub enum Activation {
    /// There is no such row.
    Nothing,
    /// Go to the directory.
    Enter(DirPath),
    /// Open the file with its application.
    Open(DirPath),
}

/// Finds out what is to be done with a row: a directory is gone to, a file is opened.
pub fn activate_row<W>(state: &AppState<W>, index: i32) -> (activation: Activation)
    ensures
        if 0 <= index < state.visible().len() {
            let entry = state.visible()[index as int];
            if entry.is_dir {
                activation is Enter && activation->Enter_0@ == entry.path@
            } else {
                activation is Open && activation->Open_0@ == entry.path@
            }
        } else {
            activation is Nothing
        },
{
    if index < 0 {
        return Activation::Nothing;
    }
    match state.entry_at(index as usize) {
        Some(entry) => {
            if entry.is_dir {
                Activation::Enter(entry.path.clone())
            } else {
                Activation::Open(entry.path.clone())
            }
        },
        None => Activation::Nothing,
    }
}

/// The directory to start in: the home directory, else the working directory, else
/// `.`.
pub fn start_dir(home: Option<DirPath>, working: Option<DirPath>) -> (dir: DirPath)
    ensures
        match (home, working) {
            (Some(h), _) => dir == h,
            (None, Some(w)) => dir == w,
            (None, None) => is_path_of(dir@, "."@) && dir@.parts == seq![Part::CurDir],
        },
{
    match home {
        Some(h) => h,
        None => match working {
            Some(w) => w,
            None => {
                let dir = read_path(".");
                proof {
                    lemma_dot();
                }
                dir
            },
        },
    }
}

/// Going back undoes going somewhere: the directory that was left is open again, and
/// the one that was gone to lies ahead.
pub proof fn back_returns_from_going(place: Place, path: PathView)
    requires
        place.dir.parts.len() > 0,
        !same_path(place.dir, path),
    ensures
        went_back(went_to(place, path)) == Some(
            Place { dir: place.dir, back: place.back, forward: seq![path] },
        ),
{
    assert(place.back.push(place.dir).drop_last() == place.back);
    assert(Seq::<PathView>::empty().push(path) == seq![path]);
}

/// Going forward undoes going back.
pub proof fn forward_undoes_back(place: Place)
    requires
        went_back(place) is Some,
    ensures
        went_forward(went_back(place)->0) == Some(place),
{
    assert(place.forward.push(place.dir).drop_last() == place.forward);
    assert(place.back.drop_last().push(place.back.last()) == place.back);
}

/// Going back undoes going forward.
pub proof fn back_undoes_forward(place: Place)
    requires
        went_forward(place) is Some,
    ensures
        went_back(went_forward(place)->0) == Some(place),
{
    assert(place.back.push(place.dir).drop_last() == place.back);
    assert(place.forward.drop_last().push(place.forward.last()) == place.forward);
}

/// Going to the directory that is open already leaves no trace; at most the letter of its
/// drive is written another way.
pub proof fn going_nowhere_leaves_no_trace(place: Place, path: PathView)
    requires
        same_path(place.dir, path),
    ensures
        went_to(place, path) == (Place { dir: path, ..place }),
        went_to(place, place.dir) == place,
{
}

/// From a directory that was newly gone to there is no way forward.
pub proof fn going_forgets_the_way_forward(place: Place, path: PathView)
    requires
        place.dir.parts.len() > 0,
        !same_path(place.dir, path),
    ensures
        went_forward(went_to(place, path)) is None,
        went_back(went_to(place, path)) is Some,
{
}

/// All directories of a place in a row: those behind, the open one, those ahead.
pub open spec fn trail(place: Place) -> Seq<PathView> {
    place.back.push(place.dir) + place.forward.reverse()
}

/// Are no two neighbours on the trail the same directory?
pub open spec fn no_repeats(trail: Seq<PathView>) -> bool {
    forall|i: int| 0 <= i < trail.len() - 1 ==> !same_path(#[trigger] trail[i], trail[i + 1])
}

/// Going back and going forward move along the trail and leave it as it is.
pub proof fn back_and_forward_keep_the_trail(place: Place)
    ensures
        went_back(place) is Some ==> trail(went_back(place)->0) == trail(place),
        went_forward(place) is Some ==> trail(went_forward(place)->0) == trail(place),
{
    if place.back.len() > 0 {
        let there = went_back(place)->0;
        assert(there.back.push(there.dir) == place.back);
        assert(there.forward.reverse() == seq![place.dir] + place.forward.reverse());
        assert(trail(there) == trail(place));
    }
    if place.forward.len() > 0 {
        let there = went_forward(place)->0;
        assert(place.forward.reverse() == seq![there.dir] + there.forward.reverse());
        assert(trail(there) == trail(place));
    }
}

/// No directory is recorded twice in a row, however one goes.
pub proof fn history_has_no_repeats(place: Place, path: PathView)
    requires
        no_repeats(trail(place)),
        place.dir.parts.len() == 0 ==> place.back.len() == 0 && place.forward.len() == 0,
    ensures
        no_repeats(trail(went_to(place, path))),
        went_back(place) is Some ==> no_repeats(trail(went_back(place)->0)),
        went_forward(place) is Some ==> no_repeats(trail(went_forward(place)->0)),
{
    back_and_forward_keep_the_trail(place);
    let there = went_to(place, path);
    let (t, u) = (trail(place), trail(there));
    if place.dir.parts.len() > 0 && !same_path(place.dir, path) {
        assert(u == place.back.push(place.dir).push(path));
        assert forall|i: int| 0 <= i < u.len() - 1 implies !same_path(
            #[trigger] u[i],
            u[i + 1],
        ) by {
            if i < place.back.len() {
                assert(u[i] == t[i] && u[i + 1] == t[i + 1]);
            }
        }
    } else if place.dir.parts.len() == 0 {
        assert(u == seq![path]);
    } else {
        assert forall|i: int| 0 <= i < u.len() - 1 implies !same_path(
            #[trigger] u[i],
            u[i + 1],
        ) by {
            assert(same_path(t[i], u[i]));
            assert(same_path(t[i + 1], u[i + 1]));
        }
    }
}

/// What was asked of one directory is not wanted any more once another one has been
/// gone to: the last directory wins.
pub proof fn last_directory_wins(place: Place, path: PathView, other: PathView)
    requires
        !same_path(path, other),
    ensures
        went_to(went_to(place, other), path).dir == path,
        !same_path(went_to(went_to(place, other), path).dir, other),
{
}

/// Before a first directory is open there is nothing to go back to: going somewhere then
/// records nothing.
pub proof fn first_directory_is_not_recorded(place: Place, path: PathView)
    requires
        place.dir.parts.len() == 0,
    ensures
        went_to(place, path).dir == path,
        went_to(place, path).back == place.back,
        went_to(place, path).forward == place.forward,
{
}

/// Going to another directory opens it, records the one that is left as the nearest to go
/// back to, keeps those recorded before, and forgets all that lay ahead.
pub proof fn going_records_what_is_left(place: Place, path: PathView)
    requires
        place.dir.parts.len() > 0,
        !same_path(place.dir, path),
    ensures
        went_to(place, path).dir == path,
        went_to(place, path).back.last() == place.dir,
        went_to(place, path).back.drop_last() == place.back,
        went_to(place, path).forward.len() == 0,
{
    assert(place.back.push(place.dir).drop_last() == place.back);
}

/// Going back opens the nearest directory behind and puts the open one nearest ahead; going
/// forward opens the nearest ahead and puts the open one nearest behind. Neither is possible
/// where there is nothing.
pub proof fn back_and_forward_open_the_nearest(place: Place)
    ensures
        went_back(place) is Some <==> place.back.len() > 0,
        went_back(place) is Some ==> {
            &&& went_back(place)->0.dir == place.back.last()
            &&& went_back(place)->0.back == place.back.drop_last()
            &&& went_back(place)->0.forward == place.forward.push(place.dir)
        },
        went_forward(place) is Some <==> place.forward.len() > 0,
        went_forward(place) is Some ==> {
            &&& went_forward(place)->0.dir == place.forward.last()
            &&& went_forward(place)->0.forward == place.forward.drop_last()
            &&& went_forward(place)->0.back == place.back.push(place.dir)
        },
{
}

/// The place of a state is its open directory and the two lists it keeps, in their order.
pub proof fn place_is_what_the_state_keeps<W>(state: AppState<W>, i: int)
    ensures
        state.place().dir == state.current_dir@,
        state.place().back.len() == state.history_back@.len(),
        state.place().forward.len() == state.history_forward@.len(),
        0 <= i < state.history_back@.len() ==> state.place().back[i] == state.history_back@[i]@,
        0 <= i < state.history_forward@.len() ==> state.place().forward[i]
            == state.history_forward@[i]@,
{
}

/// Going from directory to directory touches neither the entries nor the watcher, the order
/// or what was typed.
pub proof fn going_leaves_the_rest_alone<W>(before: AppState<W>, after: AppState<W>)
    requires
        same_but_place(before, after),
    ensures
        after.entries == before.entries,
        after.watcher == before.watcher,
        after.sort_column == before.sort_column,
        after.sort_ascending == before.sort_ascending,
        after.typeahead_buffer == before.typeahead_buffer,
        after.typeahead_last == before.typeahead_last,
{
}

/// To show a place the window reads its directory and watches it, empties the search bar,
/// shows no error in the address bar, and enables each button that has somewhere to lead.
pub proof fn window_follows_the_place(nav: Navigation, place: Place)
    requires
        shows_place(nav, place),
    ensures
        nav.path@ == place.dir,
        nav.filter_text@.len() == 0,
        !nav.address_error,
        nav.can_go_back <==> place.back.len() > 0,
        nav.can_go_forward <==> place.forward.len() > 0,
        nav.install_watcher,
{
}

} // verus!
