//! Paths: their components, and how they are written.
//!
//! A path is held in the form into which `std::path::Path::components` takes it apart,
//! together with the text in which it was written. Two paths are the same path exactly if
//! their components are equal, where it makes no difference whether a drive letter is a
//! capital. A name is kept as the bytes of its encoded form (see [`crate::names`]), so
//! that a name that is no valid text survives too.
use crate::spelling::{parent_text, write_parent};
use vstd::prelude::*;
use vstd::string::*;

verus! {

/// One component of a path, as `std::path::Component` tells them apart.
#[derive(Debug)]
pub enum PathComponent {
    /// A Windows prefix such as `C:`, and whether it is a verbatim one (`\\?\C:`).
    Prefix { name: Vec<u8>, verbatim: bool },
    /// The root directory, which follows a prefix or starts the path.
    RootDir,
    /// The current directory, `.`.
    CurDir,
    /// The parent directory, `..`.
    ParentDir,
    /// A directory or file name.
    Normal(Vec<u8>),
}

/// The mathematical value of a [`PathComponent`].
pub ghost enum Part {
    Prefix { name: Seq<u8>, verbatim: bool },
    RootDir,
    CurDir,
    ParentDir,
    Normal(Seq<u8>),
}

impl View for PathComponent {
    type V = Part;

    open spec fn view(&self) -> Part {
        match self {
            PathComponent::Prefix { name, verbatim } => Part::Prefix {
                name: name@,
                verbatim: *verbatim,
            },
            PathComponent::RootDir => Part::RootDir,
            PathComponent::CurDir => Part::CurDir,
            PathComponent::ParentDir => Part::ParentDir,
            PathComponent::Normal(name) => Part::Normal(name@),
        }
    }
}

impl Clone for PathComponent {
    fn clone(&self) -> (res: PathComponent)
        ensures
            res@ == self@,
    {
        match self {
            PathComponent::Prefix { name, verbatim } => {
                let copy: Vec<u8> = name.clone();
                assert(copy@ == name@);
                PathComponent::Prefix { name: copy, verbatim: *verbatim }
            },
            PathComponent::RootDir => PathComponent::RootDir,
            PathComponent::CurDir => PathComponent::CurDir,
            PathComponent::ParentDir => PathComponent::ParentDir,
            PathComponent::Normal(name) => {
                let copy: Vec<u8> = name.clone();
                assert(copy@ == name@);
                PathComponent::Normal(copy)
            },
        }
    }
}

impl PathComponent {
    /// Are the two components the same?
    pub fn same(&self, other: &PathComponent) -> (res: bool)
        ensures
            res == (part_key(self@) == part_key(other@)),
    {
        match (self, other) {
            (
                PathComponent::Prefix { name: a, verbatim: v },
                PathComponent::Prefix { name: b, verbatim: w },
            ) => *v == *w && same_prefix(a, b, *v),
            (PathComponent::RootDir, PathComponent::RootDir) => true,
            (PathComponent::CurDir, PathComponent::CurDir) => true,
            (PathComponent::ParentDir, PathComponent::ParentDir) => true,
            (PathComponent::Normal(a), PathComponent::Normal(b)) => same_bytes(a, b),
            _ => false,
        }
    }
}

/// Is the prefix a drive, such as `C:` or `\\?\C:`?
pub open spec fn is_drive(name: Seq<u8>, verbatim: bool) -> bool {
    let n = name.len();
    &&& n == (if verbatim {
        6int
    } else {
        2
    })
    &&& name[n - 1] == ':' as u8
    &&& (65 <= name[n - 2] <= 90 || 97 <= name[n - 2] <= 122)
}

/// A byte of a prefix in the form in which prefixes are compared: the letter of a drive
/// as a capital, and one of the two separators of a prefix that is not verbatim.
pub open spec fn prefix_byte_key(b: u8, drive: bool, verbatim: bool) -> u8 {
    if drive && 97 <= b <= 122 {
        (b - 32) as u8
    } else if !verbatim && b == '/' as u8 {
        92
    } else {
        b
    }
}

/// A prefix in the form in which prefixes are compared.
pub open spec fn prefix_key(name: Seq<u8>, verbatim: bool) -> Seq<u8> {
    name.map_values(|b: u8| prefix_byte_key(b, is_drive(name, verbatim), verbatim))
}

/// A component in the form in which components are compared.
pub open spec fn part_key(part: Part) -> Part {
    match part {
        Part::Prefix { name, verbatim } => Part::Prefix {
            name: prefix_key(name, verbatim),
            verbatim,
        },
        other => other,
    }
}

/// The components of a path in the form in which paths are compared.
pub open spec fn path_key(p: Seq<Part>) -> Seq<Part> {
    p.map_values(|part: Part| part_key(part))
}

/// Are the two paths the same? They are if their components are equal, as `Path` of std
/// compares them.
pub open spec fn same_path(p: PathView, q: PathView) -> bool {
    path_key(p.parts) == path_key(q.parts)
}

pub(crate) fn names_drive(name: &Vec<u8>, verbatim: bool) -> (res: bool)
    ensures
        res == is_drive(name@, verbatim),
{
    let n: usize = name.len();
    let length: usize = if verbatim {
        6
    } else {
        2
    };
    n == length && name[n - 1] == ':' as u8 && ((65 <= name[n - 2] && name[n - 2] <= 90) || (97
        <= name[n - 2] && name[n - 2] <= 122))
}

fn compared_byte(b: u8, drive: bool, verbatim: bool) -> (res: u8)
    ensures
        res == prefix_byte_key(b, drive, verbatim),
{
    if drive && 97 <= b && b <= 122 {
        b - 32
    } else if !verbatim && b == '/' as u8 {
        92
    } else {
        b
    }
}

fn same_prefix(a: &Vec<u8>, b: &Vec<u8>, verbatim: bool) -> (res: bool)
    ensures
        res == (prefix_key(a@, verbatim) == prefix_key(b@, verbatim)),
{
    let ghost (x, y) = (prefix_key(a@, verbatim), prefix_key(b@, verbatim));
    if a.len() != b.len() {
        assert(x.len() != y.len());
        return false;
    }
    let (a_drive, b_drive): (bool, bool) = (names_drive(a, verbatim), names_drive(b, verbatim));
    for i in 0..a.len()
        invariant
            a.len() == b.len(),
            x == prefix_key(a@, verbatim),
            y == prefix_key(b@, verbatim),
            a_drive == is_drive(a@, verbatim),
            b_drive == is_drive(b@, verbatim),
            forall|k: int| 0 <= k < i ==> x[k] == y[k],
    {
        if compared_byte(a[i], a_drive, verbatim) != compared_byte(b[i], b_drive, verbatim) {
            assert(x[i as int] != y[i as int]);
            return false;
        }
    }
    assert(x =~= y);
    true
}

fn same_bytes(a: &Vec<u8>, b: &Vec<u8>) -> (res: bool)
    ensures
        res == (a@ == b@),
{
    let res: bool = *a == *b;
    assert(res ==> a@ =~= b@);
    res
}

/// A path: its components, of which the empty path has none, and the text in which it is
/// written and shown.
#[derive(Debug)]
pub struct DirPath {
    /// What the system puts between names, `/` or `\`.
    pub separator: char,
    /// The path as it is written, `/home//user/` for instance.
    pub text: String,
    pub components: Vec<PathComponent>,
}

/// The mathematical value of a [`DirPath`].
#[verifier::ext_equal]
pub ghost struct PathView {
    pub separator: char,
    pub text: Seq<char>,
    pub parts: Seq<Part>,
}

/// The components that a vector holds.
pub open spec fn parts_in(v: Seq<PathComponent>) -> Seq<Part> {
    v.map_values(|c: PathComponent| c@)
}

impl View for DirPath {
    type V = PathView;

    open spec fn view(&self) -> PathView {
        PathView {
            separator: self.separator,
            text: self.text@,
            parts: parts_in(self.components@),
        }
    }
}

impl Clone for DirPath {
    fn clone(&self) -> (res: DirPath)
        ensures
            res@ == self@,
    {
        let components = self.first(self.components.len());
        assert(self@.parts.take(self@.parts.len() as int) == self@.parts);
        DirPath { separator: self.separator, text: self.text.clone(), components }
    }
}

impl DirPath {
    /// The path without components.
    pub fn empty() -> (res: DirPath)
        ensures
            res@ == (PathView { separator: '/', text: Seq::empty(), parts: Seq::empty() }),
    {
        let res = DirPath { separator: '/', text: String::new(), components: Vec::new() };
        assert(res@.parts == Seq::<Part>::empty());
        res
    }

    /// Is this the path without components?
    pub fn is_empty(&self) -> (res: bool)
        ensures
            res == (self@.parts.len() == 0),
    {
        self.components.len() == 0
    }

    /// Are the two paths the same?
    pub fn same(&self, other: &DirPath) -> (res: bool)
        ensures
            res == same_path(self@, other@),
    {
        let ghost (x, y) = (path_key(self@.parts), path_key(other@.parts));
        if self.components.len() != other.components.len() {
            assert(x.len() != y.len());
            return false;
        }
        for i in 0..self.components.len()
            invariant
                self.components.len() == other.components.len(),
                x == path_key(self@.parts),
                y == path_key(other@.parts),
                forall|k: int| 0 <= k < i ==> x[k] == y[k],
        {
            assert(self@.parts[i as int] == self.components@[i as int]@);
            assert(other@.parts[i as int] == other.components@[i as int]@);
            if !self.components[i].same(&other.components[i]) {
                assert(x[i as int] != y[i as int]);
                return false;
            }
        }
        assert(x =~= y);
        true
    }

    /// The path without its last component, as `Path::parent` gives it: `None` for
    /// the empty path and for one that ends in a root or a prefix.
    pub fn parent(&self) -> (res: Option<DirPath>)
        ensures
            (res is Some) == (parent_path(self@) is Some),
            res is Some ==> res->0@ == parent_path(self@)->0,
    {
        let n: usize = self.components.len();
        if n == 0 {
            return None;
        }
        assert(self@.parts.last() == self.components@[n - 1]@);
        let above: bool = match &self.components[n - 1] {
            PathComponent::Prefix { .. } => false,
            PathComponent::RootDir => false,
            _ => true,
        };
        if above {
            let components = self.first(n - 1);
            assert(self@.parts.take(n - 1) == self@.parts.drop_last());
            Some(DirPath { separator: self.separator, text: write_parent(self), components })
        } else {
            None
        }
    }

    fn first(&self, n: usize) -> (components: Vec<PathComponent>)
        requires
            n <= self.components.len(),
        ensures
            parts_in(components@) == self@.parts.take(n as int),
    {
        let mut components: Vec<PathComponent> = Vec::new();
        for i in 0..n
            invariant
                n <= self.components.len(),
                components@.len() == i,
                forall|k: int| 0 <= k < i ==> components@[k]@ == self.components@[k]@,
        {
            components.push(self.components[i].clone());
        }
        assert(parts_in(components@) == self@.parts.take(n as int));
        components
    }
}

/// What holds of the components of every path: a prefix stands only at the front, a
/// root only at the front or behind a prefix there.
pub open spec fn well_formed(p: Seq<Part>) -> bool {
    &&& forall|i: int| 0 < i < p.len() ==> !(#[trigger] p[i] is Prefix)
    &&& forall|i: int|
        0 < i < p.len() && #[trigger] p[i] is RootDir ==> i == 1 && p[0] is Prefix
}

/// The components of the path above `p`, where there is one.
pub open spec fn parent_of(p: Seq<Part>) -> Option<Seq<Part>> {
    if p.len() == 0 || p.last() is RootDir || p.last() is Prefix {
        None
    } else {
        Some(p.drop_last())
    }
}

/// The path above a path, where there is one, and how it is written.
pub open spec fn parent_path(p: PathView) -> Option<PathView> {
    match parent_of(p.parts) {
        Some(parts) => Some(PathView { separator: p.separator, text: parent_text(p), parts }),
        None => None,
    }
}

/// The position of the last dot in a name.
pub open spec fn last_dot(name: Seq<u8>) -> Option<int>
    decreases name.len(),
{
    if name.len() == 0 {
        None
    } else if name.last() == '.' as u8 {
        Some(name.len() - 1)
    } else {
        last_dot(name.drop_last())
    }
}

/// The extension of a file name, as `Path::extension` gives it: what follows the last
/// dot, unless there is no dot or only one at the very front.
pub open spec fn extension_of_name(name: Seq<u8>) -> Option<Seq<u8>> {
    match last_dot(name) {
        Some(i) => if i > 0 {
            Some(name.skip(i + 1))
        } else {
            None
        },
        None => None,
    }
}

/// The extension of the last component of a path, where that is a name.
pub open spec fn extension_of(p: Seq<Part>) -> Option<Seq<u8>> {
    if p.len() == 0 {
        None
    } else {
        match p.last() {
            Part::Normal(name) => extension_of_name(name),
            _ => None,
        }
    }
}

fn name_extension(name: &Vec<u8>) -> (res: Option<Vec<u8>>)
    ensures
        (res is Some) == (extension_of_name(name@) is Some),
        res is Some ==> res->0@ == extension_of_name(name@)->0,
{
    let mut end: usize = name.len();
    assert(name@.take(end as int) == name@);
    while end > 0
        invariant
            end <= name.len(),
            last_dot(name@) == last_dot(name@.take(end as int)),
        decreases end,
    {
        assert(name@.take(end as int).drop_last() == name@.take(end - 1));
        if name[end - 1] == '.' as u8 {
            assert(last_dot(name@) == Some(end - 1));
            if end == 1 {
                return None;
            }
            let mut rest: Vec<u8> = Vec::new();
            for i in end..name.len()
                invariant
                    end <= name.len(),
                    rest@ == name@.subrange(end as int, i as int),
            {
                assert(name@.subrange(end as int, i as int + 1) == name@.subrange(
                    end as int,
                    i as int,
                ).push(name@[i as int]));
                rest.push(name[i]);
            }
            assert(rest@ == name@.skip(end as int));
            return Some(rest);
        }
        end = end - 1;
    }
    None
}

impl DirPath {
    /// The extension of the file that the path names.
    pub fn extension(&self) -> (res: Option<Vec<u8>>)
        ensures
            (res is Some) == (extension_of(self@.parts) is Some),
            res is Some ==> res->0@ == extension_of(self@.parts)->0,
    {
        let n: usize = self.components.len();
        if n == 0 {
            return None;
        }
        assert(self@.parts.last() == self.components@[n - 1]@);
        match &self.components[n - 1] {
            PathComponent::Normal(name) => name_extension(name),
            _ => None,
        }
    }
}

/// Paths without a prefix are the same exactly if their components are equal, one for one.
pub proof fn paths_without_prefix_go_by_their_components(p: PathView, q: PathView)
    requires
        forall|i: int| 0 <= i < p.parts.len() ==> !(#[trigger] p.parts[i] is Prefix),
        forall|i: int| 0 <= i < q.parts.len() ==> !(#[trigger] q.parts[i] is Prefix),
    ensures
        same_path(p, q) <==> p.parts == q.parts,
{
    assert(path_key(p.parts) =~= p.parts);
    assert(path_key(q.parts) =~= q.parts);
}

/// Paths that differ in their length or in a component that is no prefix are not the same.
pub proof fn different_components_make_different_paths(p: PathView, q: PathView, i: int)
    requires
        p.parts.len() != q.parts.len() || (0 <= i < p.parts.len() && p.parts[i] != q.parts[i] && !(
        p.parts[i] is Prefix && q.parts[i] is Prefix)),
    ensures
        !same_path(p, q),
{
    let (x, y) = (path_key(p.parts), path_key(q.parts));
    assert(x.len() == p.parts.len() && y.len() == q.parts.len());
    if p.parts.len() == q.parts.len() {
        assert(x[i] == part_key(p.parts[i]) && y[i] == part_key(q.parts[i]));
        assert(x[i] != y[i]);
    }
}

/// Two drives are the same exactly if they have the same letter, as a capital or not. Two
/// verbatim prefixes that are no drives are the same exactly if they are written alike.
pub proof fn drives_go_by_their_letter(a: Seq<u8>, b: Seq<u8>, verbatim: bool)
    ensures
        !verbatim && is_drive(a, verbatim) && is_drive(b, verbatim) ==> (part_key(
            Part::Prefix { name: a, verbatim },
        ) == part_key(Part::Prefix { name: b, verbatim }) <==> a[0] == b[0] || a[0] == b[0] + 32
            || b[0] == a[0] + 32),
        verbatim && !is_drive(a, verbatim) && !is_drive(b, verbatim) ==> (part_key(
            Part::Prefix { name: a, verbatim },
        ) == part_key(Part::Prefix { name: b, verbatim }) <==> a == b),
        part_key(Part::Prefix { name: a, verbatim: true }) != part_key(
            Part::Prefix { name: b, verbatim: false },
        ),
        is_drive(a, false) <==> a.len() == 2 && a[1] == 58 && (65 <= a[0] <= 90 || 97 <= a[0]
            <= 122),
{
    let (x, y) = (prefix_key(a, verbatim), prefix_key(b, verbatim));
    if !verbatim && is_drive(a, verbatim) && is_drive(b, verbatim) {
        assert(x[1] == y[1]);
        assert(x[0] == prefix_byte_key(a[0], true, false));
        assert(y[0] == prefix_byte_key(b[0], true, false));
        if x[0] == y[0] {
            assert(x =~= y);
        }
    }
    if verbatim && !is_drive(a, verbatim) && !is_drive(b, verbatim) {
        assert(x =~= a);
        assert(y =~= b);
    }
}

/// The path above a path lacks its last component, whatever that is. Nothing lies above a
/// root or a prefix that ends a path, nor above the empty path.
pub proof fn path_above_lacks_the_last_component(front: Seq<Part>, part: Part)
    ensures
        parent_of(Seq::empty()) is None,
        part is RootDir || part is Prefix ==> parent_of(front.push(part)) is None,
        part is Normal || part is CurDir || part is ParentDir ==> parent_of(front.push(part))
            == Some(front),
{
    assert(front.push(part).drop_last() == front);
}

proof fn lemma_no_dot(name: Seq<u8>)
    requires
        !name.contains(46u8),
    ensures
        last_dot(name) is None,
    decreases name.len(),
{
    if name.len() > 0 {
        assert(name.contains(name.last()));
        let front = name.drop_last();
        assert forall|i: int| 0 <= i < front.len() implies front[i] != 46 by {
            assert(name.contains(name[i]));
        }
        lemma_no_dot(front);
    }
}

proof fn lemma_last_dot(stem: Seq<u8>, extension: Seq<u8>)
    requires
        !extension.contains(46u8),
    ensures
        last_dot(stem.push(46u8) + extension) == Some(stem.len() as int),
    decreases extension.len(),
{
    let name = stem.push(46u8) + extension;
    if extension.len() == 0 {
        assert(name == stem.push(46u8));
    } else {
        let front = extension.drop_last();
        assert(extension.contains(extension.last()));
        assert forall|i: int| 0 <= i < front.len() implies front[i] != 46 by {
            assert(extension.contains(extension[i]));
        }
        lemma_last_dot(stem, front);
        assert(name.drop_last() == stem.push(46u8) + front);
        assert(name.last() == extension.last());
    }
}

/// The extension of a name is what stands behind its last dot, if anything stands before
/// that dot. A name without a dot has none. Only a path that ends in a name has one.
pub proof fn extension_stands_behind_the_last_dot(
    front: Seq<Part>,
    stem: Seq<u8>,
    extension: Seq<u8>,
)
    requires
        !extension.contains(46u8),
    ensures
        stem.len() > 0 ==> extension_of(front.push(Part::Normal(stem.push(46u8) + extension)))
            == Some(extension),
        stem.len() == 0 ==> extension_of(front.push(Part::Normal(stem.push(46u8) + extension)))
            is None,
        extension_of(front.push(Part::Normal(extension))) is None,
        extension_of(front.push(Part::RootDir)) is None,
        extension_of(front.push(Part::CurDir)) is None,
        extension_of(front.push(Part::ParentDir)) is None,
        extension_of(Seq::empty()) is None,
{
    let name = stem.push(46u8) + extension;
    lemma_last_dot(stem, extension);
    lemma_no_dot(extension);
    assert(name.skip(stem.len() as int + 1) == extension);
}

} // verus!
