//! The breadcrumb bar: a path as a row of clickable segments.
use crate::names::{name_text, text_of_name};
use crate::path::{parts_in, well_formed, DirPath, Part, PathComponent, PathView};
use crate::spelling::{spelled, write_components};
use vstd::prelude::*;

verus! {

/// The texts of the segments of a path, from the root down, on a system with this
/// separator between names.
///
/// A prefix and a name are segments of their own. A root is one only where nothing
/// stands before it, and shows as `/`. `.` and `..` show nothing.
pub open spec fn segments_of(p: Seq<Part>, separator: char) -> Seq<Seq<char>>
    decreases p.len(),
{
    if p.len() == 0 {
        Seq::empty()
    } else {
        let before = segments_of(p.drop_last(), separator);
        match p.last() {
            Part::Prefix { name, .. } => before.push(name_text(name, separator)),
            Part::RootDir => if before.len() == 0 {
                before.push("/"@)
            } else {
                before
            },
            Part::Normal(name) => before.push(name_text(name, separator)),
            Part::CurDir => before,
            Part::ParentDir => before,
        }
    }
}

/// The texts that a vector of strings holds.
pub open spec fn texts(v: Seq<String>) -> Seq<Seq<char>> {
    v.map_values(|s: String| s@)
}

/// Takes a path apart into the texts of its segments.
pub fn path_to_segments(path: &DirPath) -> (segments: Vec<String>)
    ensures
        texts(segments@) == segments_of(path@.parts, path@.separator),
{
    let mut segments: Vec<String> = Vec::new();
    assert(texts(segments@) == segments_of(path@.parts.take(0), path.separator));
    for i in 0..path.components.len()
        invariant
            texts(segments@) == segments_of(path@.parts.take(i as int), path.separator),
    {
        let ghost before = segments@;
        let ghost upto = path@.parts.take(i as int + 1);
        proof {
            assert(upto.drop_last() == path@.parts.take(i as int));
            assert(upto.last() == path.components@[i as int]@);
            assert(texts(before).len() == before.len());
        }
        match &path.components[i] {
            PathComponent::Prefix { name, .. } => {
                segments.push(text_of_name(name, path.separator));
            },
            PathComponent::RootDir => {
                if segments.len() == 0 {
                    segments.push("/".to_string());
                }
            },
            PathComponent::Normal(name) => {
                segments.push(text_of_name(name, path.separator));
            },
            PathComponent::CurDir => {},
            PathComponent::ParentDir => {},
        }
        assert(texts(segments@) == segments_of(upto, path.separator));
    }
    assert(path@.parts.take(path@.parts.len() as int) == path@.parts);
    segments
}

/// The components of a path in groups, one for each segment: a prefix takes the
/// root that follows it along, `.` and `..` belong to none.
pub open spec fn groups_of(p: Seq<Part>) -> Seq<Seq<Part>>
    decreases p.len(),
{
    if p.len() == 0 {
        Seq::empty()
    } else {
        let before = groups_of(p.drop_last());
        match p.last() {
            Part::CurDir => before,
            Part::ParentDir => before,
            Part::RootDir => if p.len() >= 2 && p[p.len() - 2] is Prefix {
                before.drop_last().push(before.last().push(Part::RootDir))
            } else {
                before.push(seq![Part::RootDir])
            },
            other => before.push(seq![other]),
        }
    }
}

/// The components of the path that the segment with the given index stands for.
pub open spec fn path_at_segment(p: Seq<Part>, index: int) -> Option<Seq<Part>> {
    if 0 <= index < groups_of(p).len() {
        Some(groups_of(p).take(index + 1).flatten())
    } else {
        None
    }
}

/// The path that the segment with the given index stands for, and how it is written.
pub open spec fn segment_path(p: PathView, index: int) -> Option<PathView> {
    match path_at_segment(p.parts, index) {
        Some(parts) => Some(
            PathView { separator: p.separator, text: spelled(parts, p.separator), parts },
        ),
        None => None,
    }
}

proof fn lemma_prefix_group(p: Seq<Part>)
    requires
        p.len() > 0,
        p.last() is Prefix,
    ensures
        groups_of(p).len() > 0,
        groups_of(p).last() == seq![p.last()],
{
}

proof fn lemma_extend_last_group(groups: Seq<Seq<Part>>, part: Part)
    requires
        groups.len() > 0,
    ensures
        groups.drop_last().push(groups.last().push(part)).flatten() == groups.flatten().push(part),
{
    let front = groups.drop_last();
    front.lemma_flatten_push(groups.last().push(part));
    front.lemma_flatten_push(groups.last());
    assert(front.push(groups.last()) == groups);
    assert(front.flatten() + groups.last().push(part) == (front.flatten() + groups.last()).push(
        part,
    ));
}

/// Builds the path that the segment with the given index stands for: the components
/// of this segment and of all before it. `None` if there is no such segment.
pub fn build_path_from_components(current_dir: &DirPath, index: usize) -> (res: Option<DirPath>)
    ensures
        (res is Some) == (segment_path(current_dir@, index as int) is Some),
        res is Some ==> res->0@ == segment_path(current_dir@, index as int)->0,
{
    let ghost p = current_dir@.parts;
    let mut count: usize = 0;
    let mut components: Vec<PathComponent> = Vec::new();
    let ghost mut built: Seq<Part> = Seq::empty();
    proof {
        assert(groups_of(p.take(0)).take(0) == Seq::<Seq<Part>>::empty());
        assert(Seq::<Seq<Part>>::empty().flatten() == Seq::<Part>::empty());
    }
    for i in 0..current_dir.components.len()
        invariant
            p == current_dir@.parts,
            count <= i,
            count == groups_of(p.take(i as int)).len(),
            built == components@.map_values(|c: PathComponent| c@),
            built == groups_of(p.take(i as int)).take(reached(count, index)).flatten(),
    {
        let part = &current_dir.components[i];
        let ghost before = groups_of(p.take(i as int));
        let ghost upto = p.take(i as int + 1);
        let ghost was = reached(count, index);
        proof {
            assert(upto.drop_last() == p.take(i as int));
            assert(upto.last() == part@);
            assert(i > 0 ==> upto[upto.len() - 2] == current_dir.components@[i - 1]@);
        }
        let after_prefix: bool = i > 0 && (match &current_dir.components[i - 1] {
            PathComponent::Prefix { .. } => true,
            _ => false,
        });
        let counted: bool = match part {
            PathComponent::CurDir => false,
            PathComponent::ParentDir => false,
            _ => true,
        };
        let joins: bool = after_prefix && (match part {
            PathComponent::RootDir => true,
            _ => false,
        });
        if joins {
            proof {
                lemma_prefix_group(p.take(i as int));
            }
            if count - 1 <= index {
                proof {
                    assert(before.take(was) == before);
                    lemma_extend_last_group(before, part@);
                    built = built.push(part@);
                    let now = groups_of(upto);
                    assert(now.take(reached(count, index)) == now);
                }
                components.push(part.clone());
            } else {
                assert(groups_of(upto).take(was) == before.take(was));
            }
        } else if counted {
            if count <= index {
                proof {
                    assert(before.take(was) == before);
                    before.lemma_flatten_push(seq![part@]);
                    assert(before.flatten() + seq![part@] == before.flatten().push(part@));
                    built = built.push(part@);
                    let now = groups_of(upto);
                    assert(now.take(now.len() as int) == now);
                }
                components.push(part.clone());
            } else {
                assert(groups_of(upto).take(was) == before.take(was));
            }
            count = count + 1;
        }
        assert(built =~= components@.map_values(|c: PathComponent| c@));
    }
    assert(p.take(p.len() as int) == p);
    if index < count {
        let text: String = write_components(&components, current_dir.separator);
        assert(parts_in(components@) == built);
        Some(DirPath { separator: current_dir.separator, text, components })
    } else {
        None
    }
}

/// How many of `count` groups lie at or before the index.
spec fn reached(count: usize, index: usize) -> int {
    if count <= index {
        count as int
    } else {
        index + 1
    }
}

/// The bar shows as many segments as there are paths to go to: every segment that
/// [`path_to_segments`] shows has a path, and no path lacks a segment.
pub proof fn segment_count_agrees(p: Seq<Part>, separator: char)
    requires
        well_formed(p),
    ensures
        segments_of(p, separator).len() == groups_of(p).len(),
        forall|index: int|
            (path_at_segment(p, index) is Some) <==> 0 <= index < segments_of(p, separator).len(),
    decreases p.len(),
{
    if p.len() > 0 {
        segment_count_agrees(p.drop_last(), separator);
        if p.last() is RootDir && p.len() == 2 {
            assert(p[1] is RootDir);
            let front = p.drop_last();
            assert(front.last() is Prefix);
            lemma_prefix_group(front);
            assert(front.drop_last().len() == 0);
            assert(groups_of(front.drop_last()).len() == 0);
        } else if p.last() is RootDir {
            assert(p.len() == 1);
            assert(segments_of(p.drop_last(), separator).len() == 0);
        }
    }
}

/// A click on a segment leads to the directory of that segment: the path it stands
/// for shows exactly the segments up to and including the one clicked on.
pub proof fn segment_leads_to_its_path(p: Seq<Part>, separator: char, index: int)
    requires
        well_formed(p),
        0 <= index < segments_of(p, separator).len(),
    ensures
        path_at_segment(p, index) is Some,
        segments_of(path_at_segment(p, index)->0, separator) == segments_of(p, separator).take(index + 1),
    decreases p.len(),
{
    segment_count_agrees(p, separator);
    let front = p.drop_last();
    let before = groups_of(front);
    let groups = groups_of(p);
    segment_count_agrees(front, separator);
    match p.last() {
        Part::CurDir => {
            segment_leads_to_its_path(front, separator, index);
        },
        Part::ParentDir => {
            segment_leads_to_its_path(front, separator, index);
        },
        Part::Normal(_) => {
            if index < before.len() {
                segment_leads_to_its_path(front, separator, index);
                assert(groups.take(index + 1) == before.take(index + 1));
                assert(segments_of(p, separator).take(index + 1) == segments_of(front, separator).take(index + 1));
            } else {
                if before.len() > 0 {
                    segment_leads_to_its_path(front, separator, index - 1);
                    assert(before.take(before.len() as int) == before);
                    assert(segments_of(front, separator).take(before.len() as int) == segments_of(front, separator));
                } else {
                    assert(before == Seq::<Seq<Part>>::empty());
                    assert(before.flatten() == Seq::<Part>::empty());
                }
                assert(groups.take(index + 1) == before.push(seq![p.last()]));
                before.lemma_flatten_push(seq![p.last()]);
                let built = before.flatten().push(p.last());
                assert(before.flatten() + seq![p.last()] == built);
                assert(built.drop_last() == before.flatten());
                assert(index == before.len());
                assert(path_at_segment(p, index)->0 == built);
                assert(segments_of(before.flatten(), separator) == segments_of(front, separator));
                assert(segments_of(built, separator) == segments_of(p, separator));
                assert(segments_of(p, separator).take(index + 1) == segments_of(p, separator));
            }
        },
        Part::Prefix { .. } => {
            assert(p.len() == 1);
            lemma_single_group(p, separator);
        },
        Part::RootDir => {
            if p.len() == 1 {
                lemma_single_group(p, separator);
            } else {
                assert(p[1] is RootDir);
                assert(front.last() is Prefix);
                assert(front.drop_last().len() == 0);
                assert(groups_of(front.drop_last()).len() == 0);
                assert(before == seq![seq![p[0]]]);
                assert(groups == seq![p]) by {
                    assert(seq![p[0]].push(Part::RootDir) == p);
                }
                assert(groups.take(1) == groups);
                groups.lemma_flatten_one_element();
                assert(groups.len() == 1 && index == 0);
                assert(path_at_segment(p, index)->0 == p);
                assert(segments_of(p, separator).take(1) == segments_of(p, separator));
            }
        },
    }
}

proof fn lemma_groups_cover(p: Seq<Part>)
    requires
        forall|i: int| 0 <= i < p.len() ==> !(#[trigger] p[i] is CurDir || p[i] is ParentDir),
    ensures
        groups_of(p).flatten() == p,
        p.len() > 0 ==> groups_of(p).len() > 0,
    decreases p.len(),
{
    if p.len() == 0 {
        assert(groups_of(p).flatten() == p);
    } else {
        let front = p.drop_last();
        let before = groups_of(front);
        assert forall|i: int| 0 <= i < front.len() implies !(#[trigger] front[i] is CurDir
            || front[i] is ParentDir) by {
            assert(front[i] == p[i]);
        }
        lemma_groups_cover(front);
        assert(front.push(p.last()) == p);
        assert(p[p.len() - 1] == p.last());
        if p.last() is RootDir && p.len() >= 2 && p[p.len() - 2] is Prefix {
            lemma_prefix_group(front);
            lemma_extend_last_group(before, p.last());
        } else {
            before.lemma_flatten_push(seq![p.last()]);
            assert(before.flatten() + seq![p.last()] == front.push(p.last()));
        }
    }
}

/// The last segment of a path without `.` and `..` stands for the path itself, so a
/// click on it stays in the directory.
pub proof fn last_segment_is_the_path(p: Seq<Part>, separator: char)
    requires
        well_formed(p),
        p.len() > 0,
        forall|i: int| 0 <= i < p.len() ==> !(#[trigger] p[i] is CurDir || p[i] is ParentDir),
    ensures
        path_at_segment(p, segments_of(p, separator).len() - 1) == Some(p),
{
    segment_count_agrees(p, separator);
    lemma_groups_cover(p);
    let groups = groups_of(p);
    assert(groups.take(groups.len() as int) == groups);
}

proof fn lemma_single_group(p: Seq<Part>, separator: char)
    requires
        p.len() == 1,
        p[0] is Prefix || p[0] is RootDir,
    ensures
        groups_of(p).len() == 1,
        groups_of(p).take(1).flatten() == p,
        segments_of(p, separator).take(1) == segments_of(p, separator),
{
    assert(p.drop_last().len() == 0);
    assert(groups_of(p.drop_last()).len() == 0);
    assert(segments_of(p.drop_last(), separator).len() == 0);
    assert(groups_of(p).take(1) == seq![p]) by {
        assert(seq![p.last()] == p);
    }
    seq![p].lemma_flatten_one_element();
    assert(segments_of(p, separator).take(1) == segments_of(p, separator));
}

/// Each name and each prefix adds its text to the bar, `.` and `..` add nothing, and a root
/// adds `/` where it stands alone and nothing behind a segment.
pub proof fn each_name_is_a_segment(p: Seq<Part>, separator: char, name: Seq<u8>, verbatim: bool)
    ensures
        segments_of(Seq::empty(), separator) == Seq::<Seq<char>>::empty(),
        segments_of(p.push(Part::Normal(name)), separator) == segments_of(p, separator).push(
            name_text(name, separator),
        ),
        segments_of(p.push(Part::Prefix { name, verbatim }), separator) == segments_of(
            p,
            separator,
        ).push(name_text(name, separator)),
        segments_of(p.push(Part::CurDir), separator) == segments_of(p, separator),
        segments_of(p.push(Part::ParentDir), separator) == segments_of(p, separator),
        segments_of(seq![Part::RootDir], separator) == seq![seq!['/']],
        segments_of(p, separator).len() > 0 ==> segments_of(p.push(Part::RootDir), separator)
            == segments_of(p, separator),
{
    reveal_strlit("/");
    assert("/"@ == seq!['/']);
    assert(p.push(Part::Normal(name)).drop_last() == p);
    assert(p.push(Part::Prefix { name, verbatim }).drop_last() == p);
    assert(p.push(Part::CurDir).drop_last() == p);
    assert(p.push(Part::ParentDir).drop_last() == p);
    assert(p.push(Part::RootDir).drop_last() == p);
    assert(seq![Part::RootDir].drop_last() == Seq::<Part>::empty());
    assert(segments_of(Seq::empty(), separator) == Seq::<Seq<char>>::empty());
    assert(segments_of(seq![Part::RootDir], separator) == seq![seq!['/']]);
}

/// The components of a path but for `.` and `..`.
spec fn steps_of(p: Seq<Part>) -> Seq<Part> {
    p.filter(|part: Part| !(part is CurDir) && !(part is ParentDir))
}

proof fn lemma_groups_are_the_steps(p: Seq<Part>)
    requires
        well_formed(p),
    ensures
        groups_of(p).flatten() == steps_of(p),
        forall|i: int|
            0 <= i < groups_of(p).len() ==> (#[trigger] groups_of(p)[i]).len() > 0 && (i > 0
                ==> !(groups_of(p)[i][0] is RootDir)),
    decreases p.len(),
{
    if p.len() == 0 {
        assert(groups_of(p).flatten() == Seq::<Part>::empty());
        assert(steps_of(p) == Seq::<Part>::empty()) by {
            reveal(Seq::filter);
        }
    } else {
        let front = p.drop_last();
        assert(well_formed(front)) by {
            assert(forall|i: int| 0 <= i < front.len() ==> #[trigger] front[i] == p[i]);
        }
        lemma_groups_are_the_steps(front);
        let (before, now) = (groups_of(front), groups_of(p));
        let last = p.last();
        assert(front.push(last) == p);
        assert(p[p.len() - 1] == last);
        front.lemma_filter_push(last, |part: Part| !(part is CurDir) && !(part is ParentDir));
        if last is CurDir || last is ParentDir {
        } else if last is RootDir && p.len() >= 2 && p[p.len() - 2] is Prefix {
            lemma_prefix_group(front);
            lemma_extend_last_group(before, last);
            assert forall|i: int| 0 <= i < now.len() implies (#[trigger] now[i]).len() > 0 && (i > 0
                ==> !(now[i][0] is RootDir)) by {
                if i < before.len() - 1 {
                    assert(now[i] == before[i]);
                } else {
                    assert(before[before.len() - 1].len() > 0);
                    assert(now[i][0] == before[before.len() - 1][0]);
                }
            }
        } else {
            before.lemma_flatten_push(seq![last]);
            assert(before.flatten() + seq![last] == before.flatten().push(last));
            if last is RootDir {
                assert(p.len() == 1);
                assert(before.len() == 0);
            }
            assert forall|i: int| 0 <= i < now.len() implies (#[trigger] now[i]).len() > 0 && (i > 0
                ==> !(now[i][0] is RootDir)) by {
                if i < before.len() {
                    assert(now[i] == before[i]);
                }
            }
        }
    }
}

/// The path of a segment is the front part of the components of the whole path, without `.`
/// and `..`, and it goes as far as the segment does: it ends where the next segment begins,
/// or where the path ends, and never between a prefix and its root.
pub proof fn segment_path_is_the_front_of_the_path(p: Seq<Part>, index: int)
    requires
        well_formed(p),
        path_at_segment(p, index) is Some,
    ensures
        ({
            let steps = p.filter(|part: Part| !(part is CurDir) && !(part is ParentDir));
            let front = path_at_segment(p, index)->0;
            &&& front.len() > 0
            &&& front.is_prefix_of(steps)
            &&& front.len() < steps.len() ==> !(steps[front.len() as int] is RootDir)
            &&& index + 1 == groups_of(p).len() ==> front == steps
        }),
{
    lemma_groups_are_the_steps(p);
    let groups = groups_of(p);
    let (x, y) = (groups.take(index + 1), groups.skip(index + 1));
    assert(x + y == groups);
    vstd::seq_lib::lemma_flatten_concat(x, y);
    let front = x.flatten();
    assert(groups[0].len() > 0);
    assert(x[0] == groups[0]);
    x.lemma_flatten_length_ge_single_element_length(0);
    if y.len() > 0 {
        assert(y[0] == groups[index + 1]);
        assert(groups[index + 1].len() > 0);
        assert(y.flatten() == y.first() + y.drop_first().flatten());
        assert(y.flatten()[0] == groups[index + 1][0]);
        assert(groups.flatten()[front.len() as int] == y.flatten()[0]);
    } else {
        assert(y == Seq::<Seq<Part>>::empty());
        assert(y.flatten() == Seq::<Part>::empty());
        assert(front + y.flatten() == front);
    }
}

/// The texts of strings are those of each string, in their order.
pub proof fn texts_are_those_of_the_strings(v: Seq<String>, i: int)
    ensures
        texts(v).len() == v.len(),
        0 <= i < v.len() ==> texts(v)[i] == v[i]@,
{
}

} // verus!
