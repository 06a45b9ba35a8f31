//! The address bar: what a typed path leads to.
use crate::path::{
    parent_of, parent_path, parts_in, well_formed, DirPath, Part, PathComponent, PathView,
};
use crate::spelling::{
    backslash_parts, begins_with_two_separators, is_path_of, is_read_from, joined_path, read_path,
    slash_parts, write_joined,
};
use vstd::prelude::*;
use vstd::string::*;

verus! {

/// A character with the Unicode property `White_Space`.
pub open spec fn is_white_space(c: char) -> bool {
    let v = c as u32;
    ||| 0x9 <= v <= 0xd
    ||| v == 0x20 || v == 0x85 || v == 0xa0 || v == 0x1680
    ||| 0x2000 <= v <= 0x200a
    ||| v == 0x2028 || v == 0x2029 || v == 0x202f || v == 0x205f || v == 0x3000
}

/// The text from its first character that is not white space on.
pub open spec fn trim_front(s: Seq<char>) -> Seq<char>
    decreases s.len(),
{
    if s.len() > 0 && is_white_space(s[0]) {
        trim_front(s.drop_first())
    } else {
        s
    }
}

/// The text up to its last character that is not white space.
pub open spec fn trim_back(s: Seq<char>) -> Seq<char>
    decreases s.len(),
{
    if s.len() > 0 && is_white_space(s.last()) {
        trim_back(s.drop_last())
    } else {
        s
    }
}

/// `str::trim` of std: the text without the white space at both of its ends, where
/// white space is what has the Unicode property `White_Space`.
pub assume_specification[ str::trim ](s: &str) -> (res: &str)
    ensures
        res@ == trim_back(trim_front(s@)),
;

/// The path that was typed into the address bar: the text without the white space
/// around it, or nothing at all if that leaves nothing.
pub fn typed_path(text: &str) -> (res: Option<String>)
    ensures
        (res is Some) == (trim_back(trim_front(text@)).len() > 0),
        res is Some ==> res->0@ == trim_back(trim_front(text@)),
{
    let input = text.trim();
    if input.is_empty() {
        None
    } else {
        Some(input.to_string())
    }
}

/// One step of joining a path to one with a verbatim prefix: `.` and `..` are
/// resolved at once.
pub open spec fn verbatim_step(base: Seq<Part>, part: Part) -> Seq<Part> {
    match part {
        Part::RootDir => base.take(1).push(part),
        Part::CurDir => base,
        Part::ParentDir => if base.len() > 0 && base.last() is Normal {
            base.drop_last()
        } else {
            base
        },
        _ => base.push(part),
    }
}

/// All components of `p` joined to one with a verbatim prefix, one after the other.
pub open spec fn verbatim_joined(base: Seq<Part>, p: Seq<Part>) -> Seq<Part>
    decreases p.len(),
{
    if p.len() == 0 {
        base
    } else {
        verbatim_step(verbatim_joined(base, p.drop_last()), p.last())
    }
}

/// Does `.` at the front of a path stay a component when the path is joined to `base`?
/// Only where nothing but a prefix comes before it.
pub open spec fn keeps_leading_dot(base: Seq<Part>) -> bool {
    base.len() == 0 || (base.len() == 1 && base[0] is Prefix)
}

/// `base` joined with `p`, as `Path::join` does it.
pub open spec fn joined(base: Seq<Part>, p: Seq<Part>) -> Seq<Part> {
    if p.len() == 0 {
        base
    } else if p[0] is Prefix {
        p
    } else if base.len() > 0 && (base[0] matches Part::Prefix { verbatim, .. } && verbatim) {
        verbatim_joined(base, p)
    } else if p[0] is RootDir {
        if base.len() > 0 && base[0] is Prefix {
            seq![base[0]] + p
        } else {
            p
        }
    } else if p[0] is CurDir && !keeps_leading_dot(base) {
        base + p.skip(1)
    } else {
        base + p
    }
}

fn append_from(out: &mut Vec<PathComponent>, p: &DirPath, from: usize)
    requires
        from <= p.components.len(),
    ensures
        parts_in(final(out)@) == parts_in(old(out)@) + p@.parts.skip(from as int),
{
    let ghost before = parts_in(out@);
    let ghost q = p@.parts;
    for i in from..p.components.len()
        invariant
            from <= p.components.len(),
            q == p@.parts,
            parts_in(out@) == before + q.subrange(from as int, i as int),
    {
        let ghost was = out@;
        out.push(p.components[i].clone());
        assert(parts_in(out@) == parts_in(was).push(q[i as int]));
        assert(q.subrange(from as int, i as int + 1) == q.subrange(from as int, i as int).push(
            q[i as int],
        ));
        assert(parts_in(out@) == before + q.subrange(from as int, i as int + 1));
    }
    assert(q.subrange(from as int, q.len() as int) == q.skip(from as int));
}

fn verbatim_join(base: &DirPath, p: &DirPath) -> (components: Vec<PathComponent>)
    requires
        base@.parts.len() > 0,
        base@.parts[0] is Prefix,
    ensures
        parts_in(components@) == verbatim_joined(base@.parts, p@.parts),
{
    let mut components: Vec<PathComponent> = base.clone().components;
    let ghost q = p@.parts;
    assert(parts_in(components@) == verbatim_joined(base@.parts, q.take(0)));
    for i in 0..p.components.len()
        invariant
            q == p@.parts,
            parts_in(components@) == verbatim_joined(base@.parts, q.take(i as int)),
            parts_in(components@).len() > 0,
            parts_in(components@)[0] is Prefix,
    {
        let ghost before = parts_in(components@);
        let ghost upto = q.take(i as int + 1);
        proof {
            assert(upto.drop_last() == q.take(i as int));
            assert(upto.last() == p.components@[i as int]@);
        }
        let n: usize = components.len();
        match &p.components[i] {
            PathComponent::RootDir => {
                components.truncate(1);
                components.push(PathComponent::RootDir);
            },
            PathComponent::CurDir => {},
            PathComponent::ParentDir => {
                let named: bool = n > 0 && (match &components[n - 1] {
                    PathComponent::Normal(_) => true,
                    _ => false,
                });
                if named {
                    components.truncate(n - 1);
                }
            },
            part => {
                components.push(part.clone());
            },
        }
        assert(parts_in(components@) == verbatim_step(before, upto.last()));
    }
    assert(q.take(q.len() as int) == q);
    components
}

fn join_components(base: &DirPath, input: &DirPath) -> (components: Vec<PathComponent>)
    ensures
        parts_in(components@) == joined(base@.parts, input@.parts),
{
    if input.components.len() == 0 {
        return base.clone().components;
    }
    let n: usize = base.components.len();
    assert(input@.parts[0] == input.components@[0]@);
    assert(n > 0 ==> base@.parts[0] == base.components@[0]@);
    assert(input@.parts.skip(0) == input@.parts);
    assert(base@.parts.skip(0) == base@.parts);
    let prefixed: bool = match &input.components[0] {
        PathComponent::Prefix { .. } => true,
        _ => false,
    };
    if prefixed {
        return input.clone().components;
    }
    let (drive, verbatim): (bool, bool) = if n == 0 {
        (false, false)
    } else {
        match &base.components[0] {
            PathComponent::Prefix { verbatim, .. } => (true, *verbatim),
            _ => (false, false),
        }
    };
    if verbatim {
        return verbatim_join(base, input);
    }
    let mut components: Vec<PathComponent> = Vec::new();
    assert(parts_in(components@) == Seq::<Part>::empty());
    match &input.components[0] {
        PathComponent::RootDir => {
            if drive {
                components.push(base.components[0].clone());
                assert(parts_in(components@) == seq![base@.parts[0]]);
            }
            append_from(&mut components, input, 0);
        },
        PathComponent::CurDir => {
            append_from(&mut components, base, 0);
            if n == 0 || (n == 1 && drive) {
                append_from(&mut components, input, 0);
            } else {
                append_from(&mut components, input, 1);
            }
        },
        _ => {
            append_from(&mut components, base, 0);
            append_from(&mut components, input, 0);
        },
    }
    components
}

/// The path that an input names, seen from the directory `base`. A relative input
/// starts there; an absolute one stands for itself.
pub fn resolve_input(base: &DirPath, input: &DirPath) -> (res: DirPath)
    ensures
        res@ == joined_path(base@, input@),
{
    let components = join_components(base, input);
    let text: String = write_joined(base, input, &components);
    DirPath { separator: input.separator, text, components }
}

/// The path that a typed text names, seen from the directory `base`.
///
/// The separator of the result tells on which system the text was read, and so what the
/// text names. [`resolve_input`] says what follows for each path.
pub fn resolve_text(base: &DirPath, input: &str) -> (res: DirPath)
    ensures
        exists|p: PathView| is_path_of(p, input@) && res@ == #[trigger] joined_path(base@, p),
        exists|p: DirPath| #[trigger] is_read_from(p, input) && res@ == joined_path(base@, p@),
        res@.separator == '/' ==> res@ == joined_path(
            base@,
            PathView { separator: '/', text: input@, parts: slash_parts(input@) },
        ),
        res@.separator == '\\' && !begins_with_two_separators(input@) ==> res@ == joined_path(
            base@,
            PathView { separator: '\\', text: input@, parts: backslash_parts(input@) },
        ),
        res@.separator == '/' || res@.separator == '\\',
{
    let p = read_path(input);
    resolve_input(base, &p)
}

/// What the file system has under a path.
#[derive(Clone, Copy, PartialEq, Eq, Structural, Debug)]
pub enum PathKind {
    Directory,
    File,
    Missing,
}

/// The directory to go to for a resolved input: the directory itself, or the one that
/// a file lies in. `None` stands for an input that leads nowhere.
pub fn address_target(resolved: DirPath, kind: PathKind) -> (res: Option<DirPath>)
    ensures
        match kind {
            PathKind::Directory => res == Some(resolved),
            PathKind::File => {
                &&& (res is Some) == (parent_path(resolved@) is Some)
                &&& res is Some ==> res->0@ == parent_path(resolved@)->0
            },
            PathKind::Missing => res is None,
        },
{
    match kind {
        PathKind::Directory => Some(resolved),
        PathKind::File => resolved.parent(),
        PathKind::Missing => None,
    }
}

/// An absolute input stands for itself, whatever directory is open.
pub proof fn absolute_input_stands_alone(base: Seq<Part>, p: Seq<Part>)
    requires
        p.len() > 0,
        p[0] is Prefix || (p[0] is RootDir && !(base.len() > 0 && base[0] is Prefix)),
    ensures
        joined(base, p) == p,
{
}

proof fn lemma_verbatim_well_formed(base: Seq<Part>, p: Seq<Part>)
    requires
        well_formed(base),
        well_formed(p),
        base.len() > 0,
        base[0] is Prefix,
        p.len() > 0 ==> !(p[0] is Prefix),
    ensures
        well_formed(verbatim_joined(base, p)),
        verbatim_joined(base, p).len() > 0,
        verbatim_joined(base, p)[0] is Prefix,
    decreases p.len(),
{
    if p.len() > 0 {
        let front = p.drop_last();
        assert(well_formed(front)) by {
            assert(forall|i: int| 0 <= i < front.len() ==> #[trigger] front[i] == p[i]);
        }
        lemma_verbatim_well_formed(base, front);
        assert(p[p.len() - 1] == p.last());
        let (was, now) = (verbatim_joined(base, front), verbatim_joined(base, p));
        assert(now[0] == was[0]);
    }
}

/// Seen from a path that is well formed, an input that is well formed names one that is.
pub proof fn resolved_path_is_well_formed(base: Seq<Part>, p: Seq<Part>)
    requires
        well_formed(base),
        well_formed(p),
    ensures
        well_formed(joined(base, p)),
{
    if p.len() > 0 && !(p[0] is Prefix) {
        if base.len() > 0 && base[0] is Prefix {
            lemma_verbatim_well_formed(base, p);
        }
        let res = joined(base, p);
        let rest = p.skip(1);
        assert(forall|i: int| 0 <= i < rest.len() ==> rest[i] == p[i + 1]);
    }
}

/// A name that is typed alone is looked up in the open directory, and that directory
/// is its parent.
pub proof fn plain_name_lies_in_base(base: Seq<Part>, name: Seq<u8>)
    ensures
        joined(base, seq![Part::Normal(name)]) == base.push(Part::Normal(name)),
        parent_of(joined(base, seq![Part::Normal(name)])) == Some(base),
{
    let p = seq![Part::Normal(name)];
    assert(p.drop_last() == Seq::<Part>::empty());
    assert(verbatim_joined(base, p.drop_last()) == base);
    assert(base + p == base.push(Part::Normal(name)));
    assert(base.push(Part::Normal(name)).drop_last() == base);
}

proof fn lemma_trim_front(s: Seq<char>) -> (k: int)
    ensures
        0 <= k <= s.len(),
        trim_front(s) == s.skip(k),
        forall|i: int| 0 <= i < k ==> is_white_space(#[trigger] s[i]),
        k < s.len() ==> !is_white_space(s[k]),
    decreases s.len(),
{
    if s.len() > 0 && is_white_space(s[0]) {
        let rest = s.drop_first();
        let k = lemma_trim_front(rest);
        assert(rest.skip(k) == s.skip(k + 1));
        assert forall|i: int| 0 <= i < k + 1 implies is_white_space(#[trigger] s[i]) by {
            if i > 0 {
                assert(s[i] == rest[i - 1]);
            }
        }
        k + 1
    } else {
        assert(s.skip(0) == s);
        0
    }
}

proof fn lemma_trim_back(s: Seq<char>) -> (k: int)
    ensures
        0 <= k <= s.len(),
        trim_back(s) == s.take(k),
        forall|i: int| k <= i < s.len() ==> is_white_space(#[trigger] s[i]),
        k > 0 ==> !is_white_space(s[k - 1]),
    decreases s.len(),
{
    if s.len() > 0 && is_white_space(s.last()) {
        let rest = s.drop_last();
        let k = lemma_trim_back(rest);
        assert(rest.take(k) == s.take(k));
        assert forall|i: int| k <= i < s.len() implies is_white_space(#[trigger] s[i]) by {
            if i < rest.len() {
                assert(s[i] == rest[i]);
            }
        }
        k
    } else {
        assert(s.take(s.len() as int) == s);
        s.len() as int
    }
}

/// What is left of a typed text is the text itself but for white space before it and behind
/// it, and it neither begins nor ends with white space.
pub proof fn typed_text_loses_only_white_space_around_it(text: Seq<char>)
    ensures
        ({
            let left = trim_back(trim_front(text));
            &&& exists|a: Seq<char>, b: Seq<char>|
                {
                    &&& text == #[trigger] (a + left + b)
                    &&& forall|i: int| 0 <= i < a.len() ==> is_white_space(#[trigger] a[i])
                    &&& forall|i: int| 0 <= i < b.len() ==> is_white_space(#[trigger] b[i])
                }
            &&& left.len() > 0 ==> !is_white_space(left[0]) && !is_white_space(left.last())
        }),
{
    let k = lemma_trim_front(text);
    let rest = trim_front(text);
    let m = lemma_trim_back(rest);
    let left = trim_back(rest);
    let (a, b) = (text.take(k), rest.skip(m));
    assert(text == a + left + b);
    assert forall|i: int| 0 <= i < a.len() implies is_white_space(#[trigger] a[i]) by {
        assert(a[i] == text[i]);
    }
    assert forall|i: int| 0 <= i < b.len() implies is_white_space(#[trigger] b[i]) by {
        assert(b[i] == rest[m + i]);
    }
    if left.len() > 0 {
        assert(left[0] == text[k]);
        assert(left.last() == rest[m - 1]);
    }
}

/// A relative input has its components behind those of the open directory, one for one. A
/// `.` in front of it goes, unless nothing but a drive stands before it.
pub proof fn relative_input_starts_at_the_open_directory(base: Seq<Part>, p: Seq<Part>)
    requires
        p.len() > 0,
        base.len() > 0 ==> !(base[0] is Prefix),
    ensures
        p[0] is Normal || p[0] is ParentDir ==> joined(base, p) == base + p,
        p[0] is CurDir && base.len() > 0 ==> joined(base, p) == base + p.skip(1),
        p[0] is CurDir && base.len() == 0 ==> joined(base, p) == p,
        joined(base, Seq::empty()) == base,
{
    if base.len() == 0 {
        assert(base + p == p);
    }
}

/// On a drive an input with a root but no drive starts at the root of the drive, and any
/// other starts at the open directory.
pub proof fn input_without_drive_stays_on_the_drive(base: Seq<Part>, p: Seq<Part>)
    requires
        p.len() > 0,
        base.len() > 0,
        base[0] is Prefix,
        !(base[0]->Prefix_verbatim),
    ensures
        p[0] is RootDir ==> joined(base, p) == seq![base[0]] + p,
        p[0] is Normal || p[0] is ParentDir ==> joined(base, p) == base + p,
        p[0] is CurDir && base.len() > 1 ==> joined(base, p) == base + p.skip(1),
        p[0] is CurDir && base.len() == 1 ==> joined(base, p) == base + p,
{
}

/// Behind a verbatim prefix the components of an input are taken one by one: a name goes to
/// the end, `.` does nothing, `..` takes the last name away, a root takes all but the prefix.
pub proof fn verbatim_paths_resolve_dots_at_once(base: Seq<Part>, p: Seq<Part>, part: Part)
    requires
        base.len() > 0,
        base[0] is Prefix,
        base[0]->Prefix_verbatim,
        p.len() > 0,
        !(p[0] is Prefix),
    ensures
        ({
            let before = joined(base, p);
            let after = joined(base, p.push(part));
            &&& part is Normal ==> after == before.push(part)
            &&& part is CurDir ==> after == before
            &&& part is RootDir ==> after == before.take(1).push(part)
            &&& part is ParentDir && before.len() > 0 && before.last() is Normal ==> after
                == before.drop_last()
            &&& part is ParentDir && !(before.len() > 0 && before.last() is Normal) ==> after
                == before
        }),
{
    assert(p.push(part).drop_last() == p);
    assert(p.push(part)[0] == p[0]);
}

} // verus!
