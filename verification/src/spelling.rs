//! How paths are written: what a text names, and how the text of a path comes about.
use crate::address::{joined, verbatim_joined};
use crate::names::{name_text, text_of_name};
use crate::path::{is_drive, names_drive, parts_in, well_formed, DirPath, Part, PathComponent, PathView};
use crate::text::chars_of;
use std::path::{Component, Path};
use vstd::prelude::*;
use vstd::string::*;
use vstd::utf8::encode_utf8;

verus! {

/// A text cut at every `/`.
pub open spec fn pieces(text: Seq<char>) -> Seq<Seq<char>>
    decreases text.len(),
{
    if text.len() == 0 {
        seq![Seq::empty()]
    } else {
        let before = pieces(text.drop_last());
        if text.last() == '/' {
            before.push(Seq::empty())
        } else {
            before.drop_last().push(before.last().push(text.last()))
        }
    }
}

/// The components that the pieces between separators stand for. An empty piece is none;
/// `.` is one only at the very front.
pub open spec fn parts_of_pieces(pieces: Seq<Seq<char>>) -> Seq<Part>
    decreases pieces.len(),
{
    if pieces.len() == 0 {
        Seq::empty()
    } else {
        let before = parts_of_pieces(pieces.drop_last());
        let piece = pieces.last();
        if piece.len() == 0 {
            before
        } else if piece == "."@ {
            if pieces.len() == 1 {
                before.push(Part::CurDir)
            } else {
                before
            }
        } else if piece == ".."@ {
            before.push(Part::ParentDir)
        } else {
            before.push(Part::Normal(encode_utf8(piece)))
        }
    }
}

/// The components of a path in which `/` separates the names: a root, if the text begins
/// with one, and then the pieces.
pub open spec fn slash_parts(text: Seq<char>) -> Seq<Part> {
    if text.len() > 0 && text[0] == '/' {
        seq![Part::RootDir] + parts_of_pieces(pieces(text))
    } else {
        parts_of_pieces(pieces(text))
    }
}

/// The text with `/` in the place of every `\`.
pub open spec fn slashed(text: Seq<char>) -> Seq<char> {
    text.map_values(
        |c: char|
            if c == '\\' {
                '/'
            } else {
                c
            },
    )
}

/// Does the text begin with a letter and `:`?
pub open spec fn begins_with_drive(text: Seq<char>) -> bool {
    text.len() >= 2 && text[1] == ':' && ('a' <= text[0] <= 'z' || 'A' <= text[0] <= 'Z')
}

/// The components of a path on a system where both `/` and `\` separate the names and a
/// letter with `:` at the front is a drive.
pub open spec fn backslash_parts(text: Seq<char>) -> Seq<Part> {
    if begins_with_drive(text) {
        seq![Part::Prefix { name: encode_utf8(text.take(2)), verbatim: false }] + slash_parts(
            slashed(text.skip(2)),
        )
    } else {
        slash_parts(slashed(text))
    }
}

/// Does the text begin with two separators, of whatever kind? Where `\` is one, more than
/// a drive may be meant then, such as a share on another machine.
pub open spec fn begins_with_two_separators(text: Seq<char>) -> bool {
    text.len() >= 2 && (text[0] == '/' || text[0] == '\\') && (text[1] == '/' || text[1] == '\\')
}

/// Is this the path that a text names? The separator tells which system it is read on.
pub open spec fn is_path_of(p: PathView, text: Seq<char>) -> bool {
    &&& p.text == text
    &&& p.separator == '/' || p.separator == '\\'
    &&& well_formed(p.parts)
    &&& p.separator == '/' ==> p.parts == slash_parts(text)
    &&& p.separator == '\\' ==> p.parts == backslash_parts(text) || (begins_with_two_separators(
        text,
    ) && p.parts.len() > 0 && p.parts[0] is Prefix)
}

/// `Path::components` of std, on a path that is given as text, and `MAIN_SEPARATOR`, which
/// tells the system. On Unix `/` separates the names; empty pieces are skipped, and so
/// is `.` but at the front. On Windows `\` separates them too, and a letter with `:` at the
/// front is a drive. What a text that begins with two separators means there is left
/// open, but that it may name a prefix.
#[verifier::external_body]
pub(crate) fn path_of_text(text: &str) -> (res: DirPath)
    ensures
        is_path_of(res@, text@),
{
    let components = Path::new(text).components().map(|component| match component {
        Component::Prefix(prefix) => PathComponent::Prefix {
            name: prefix.as_os_str().as_encoded_bytes().to_vec(),
            verbatim: prefix.kind().is_verbatim(),
        },
        Component::RootDir => PathComponent::RootDir,
        Component::CurDir => PathComponent::CurDir,
        Component::ParentDir => PathComponent::ParentDir,
        Component::Normal(name) => PathComponent::Normal(name.as_encoded_bytes().to_vec()),
    }).collect();
    DirPath { separator: std::path::MAIN_SEPARATOR, text: text.to_string(), components }
}

/// Is this what the system reads out of the text? It is if `path_of_text` may return it.
pub closed spec fn is_read_from(p: DirPath, text: &str) -> bool {
    call_ensures(path_of_text, (text,), p)
}

/// Reads the path that a text names.
pub fn read_path(text: &str) -> (res: DirPath)
    ensures
        is_path_of(res@, text@),
        is_read_from(res, text),
{
    path_of_text(text)
}

/// What the system reads out of a text is what the call for it returns, and names the text.
pub(crate) proof fn system_reads_the_text(p: DirPath, text: &str)
    requires
        is_read_from(p, text),
    ensures
        call_ensures(path_of_text, (text,), p),
        is_path_of(p@, text@),
{
}

pub(crate) proof fn lemma_dot()
    ensures
        slash_parts("."@) == seq![Part::CurDir],
        backslash_parts("."@) == seq![Part::CurDir],
        !begins_with_two_separators("."@),
{
    reveal_strlit(".");
    let dot = "."@;
    assert(dot.drop_last() == Seq::<char>::empty());
    assert(pieces(dot.drop_last()) == seq![Seq::<char>::empty()]);
    assert(seq![Seq::<char>::empty()].drop_last() == Seq::<Seq<char>>::empty());
    assert(Seq::<char>::empty().push('.') == dot);
    assert(pieces(dot) == seq![dot]);
    assert(seq![dot].drop_last() == Seq::<Seq<char>>::empty());
    assert(parts_of_pieces(Seq::<Seq<char>>::empty()) == Seq::<Part>::empty());
    assert(parts_of_pieces(pieces(dot)) == seq![Part::CurDir]);
    assert(slashed(dot) == dot);
}

/// Does the character separate names? Behind a verbatim prefix only `\` does.
pub open spec fn is_separator(c: char, separator: char, verbatim: bool) -> bool {
    if verbatim {
        c == '\\'
    } else {
        c == '/' || c == separator
    }
}

/// Does the path have a verbatim prefix?
pub open spec fn is_verbatim(parts: Seq<Part>) -> bool {
    parts.len() > 0 && (parts[0] matches Part::Prefix { verbatim, .. } && verbatim)
}

/// Is the component a drive such as `C:`?
pub open spec fn is_plain_drive(part: Part) -> bool {
    part matches Part::Prefix { name, verbatim } && !verbatim && is_drive(name, verbatim)
}

/// The number of characters that the prefix of a path takes up in its text.
pub open spec fn prefix_length(p: PathView) -> int {
    if p.parts.len() > 0 && p.parts[0] is Prefix {
        let n = name_text(p.parts[0]->Prefix_name, p.separator).len() as int;
        if n <= p.text.len() {
            n
        } else {
            p.text.len() as int
        }
    } else {
        0
    }
}

/// The number of characters in front of the names: those of the prefix, and of the root or
/// of a `.` that takes its place.
pub open spec fn lead_length(p: PathView) -> int {
    let n = prefix_length(p);
    let verbatim = is_verbatim(p.parts);
    if n >= p.text.len() {
        n
    } else if is_separator(p.text[n], p.separator, verbatim) {
        n + 1
    } else if p.text[n] == '.' && (n + 1 == p.text.len() || is_separator(
        p.text[n + 1],
        p.separator,
        verbatim,
    )) && (n == 0 || is_plain_drive(p.parts[0])) {
        n + 1
    } else {
        n
    }
}

/// Where the last piece of a text begins: behind its last separator, or behind the lead.
pub open spec fn last_piece_start(
    text: Seq<char>,
    lead: int,
    separator: char,
    verbatim: bool,
) -> int
    decreases text.len(),
{
    if text.len() == 0 || text.len() <= lead {
        lead
    } else if is_separator(text.last(), separator, verbatim) {
        text.len() as int
    } else {
        last_piece_start(text.drop_last(), lead, separator, verbatim)
    }
}

/// How much of a text is left without its last piece and the separator before it.
pub open spec fn length_without_piece(
    text: Seq<char>,
    lead: int,
    separator: char,
    verbatim: bool,
) -> int {
    let start = last_piece_start(text, lead, separator, verbatim);
    if start > lead {
        start - 1
    } else {
        lead
    }
}

/// A text that is longer than its lead has a last piece behind the lead.
pub proof fn lemma_last_piece_start(text: Seq<char>, lead: int, separator: char, verbatim: bool)
    requires
        0 <= lead < text.len(),
    ensures
        lead <= last_piece_start(text, lead, separator, verbatim) <= text.len(),
        lead <= length_without_piece(text, lead, separator, verbatim) < text.len(),
    decreases text.len(),
{
    let front = text.drop_last();
    if front.len() > lead {
        lemma_last_piece_start(front, lead, separator, verbatim);
    } else {
        assert(last_piece_start(front, lead, separator, verbatim) == lead);
    }
}

/// The text without the pieces at its end that are no components: empty ones and `.`.
pub open spec fn without_idle_end(
    text: Seq<char>,
    lead: int,
    separator: char,
    verbatim: bool,
) -> Seq<char>
    decreases text.len(),
{
    if lead < 0 || text.len() <= lead {
        text
    } else {
        proof {
            lemma_last_piece_start(text, lead, separator, verbatim);
        }
        let piece = text.skip(last_piece_start(text, lead, separator, verbatim));
        if piece.len() == 0 || (piece == "."@ && !verbatim) {
            without_idle_end(
                text.take(length_without_piece(text, lead, separator, verbatim)),
                lead,
                separator,
                verbatim,
            )
        } else {
            text
        }
    }
}

/// How the path above a path is written, as `Path::parent` gives it: the text up to the
/// component before the last.
pub open spec fn parent_text(p: PathView) -> Seq<char> {
    let (lead, verbatim) = (lead_length(p), is_verbatim(p.parts));
    let text = without_idle_end(p.text, lead, p.separator, verbatim);
    if text.len() <= lead {
        p.text.take(prefix_length(p))
    } else {
        without_idle_end(
            text.take(length_without_piece(text, lead, p.separator, verbatim)),
            lead,
            p.separator,
            verbatim,
        )
    }
}

/// How a component is written.
pub open spec fn part_text(part: Part, separator: char) -> Seq<char> {
    match part {
        Part::Prefix { name, .. } => name_text(name, separator),
        Part::RootDir => seq![separator],
        Part::CurDir => "."@,
        Part::ParentDir => ".."@,
        Part::Normal(name) => name_text(name, separator),
    }
}

/// Does a separator come between this component and a name behind it?
pub open spec fn wants_separator(part: Part) -> bool {
    !(part is RootDir) && !is_plain_drive(part)
}

/// How components are written one after the other, as `PathBuf::push` puts them together.
pub open spec fn spelled(parts: Seq<Part>, separator: char) -> Seq<char>
    decreases parts.len(),
{
    if parts.len() == 0 {
        Seq::empty()
    } else {
        let front = parts.drop_last();
        let before = spelled(front, separator);
        if front.len() > 0 && wants_separator(front.last()) && !(parts.last() is RootDir) {
            before.push(separator) + part_text(parts.last(), separator)
        } else {
            before + part_text(parts.last(), separator)
        }
    }
}

/// How `base` joined with `p` is written, as `Path::join` does it.
pub open spec fn joined_text(base: PathView, p: PathView) -> Seq<char> {
    if p.parts.len() > 0 && p.parts[0] is Prefix {
        p.text
    } else if is_verbatim(base.parts) && p.text.len() > 0 {
        spelled(verbatim_joined(base.parts, p.parts), p.separator)
    } else if p.parts.len() > 0 && p.parts[0] is RootDir {
        base.text.take(prefix_length(base)) + p.text
    } else if base.text.len() == 0 || is_separator(base.text.last(), p.separator, false) || (
    base.parts.len() > 0 && is_plain_drive(base.parts[0]) && prefix_length(base)
        == base.text.len()) {
        base.text + p.text
    } else {
        base.text.push(p.separator) + p.text
    }
}

/// `base` joined with `p`, as `Path::join` does it.
pub open spec fn joined_path(base: PathView, p: PathView) -> PathView {
    PathView {
        separator: p.separator,
        text: joined_text(base, p),
        parts: joined(base.parts, p.parts),
    }
}

fn separates(c: char, separator: char, verbatim: bool) -> (res: bool)
    ensures
        res == is_separator(c, separator, verbatim),
{
    if verbatim {
        c == '\\'
    } else {
        c == '/' || c == separator
    }
}

fn has_verbatim_prefix(p: &DirPath) -> (res: bool)
    ensures
        res == is_verbatim(p@.parts),
{
    if p.components.len() == 0 {
        return false;
    }
    assert(p@.parts[0] == p.components@[0]@);
    match &p.components[0] {
        PathComponent::Prefix { verbatim, .. } => *verbatim,
        _ => false,
    }
}

fn names_plain_drive(c: &PathComponent) -> (res: bool)
    ensures
        res == is_plain_drive(c@),
{
    match c {
        PathComponent::Prefix { name, verbatim } => !*verbatim && names_drive(name, *verbatim),
        _ => false,
    }
}

fn find_prefix(p: &DirPath, length: usize) -> (res: usize)
    requires
        length == p@.text.len(),
    ensures
        res == prefix_length(p@),
        res <= length,
{
    if p.components.len() == 0 {
        return 0;
    }
    assert(p@.parts[0] == p.components@[0]@);
    match &p.components[0] {
        PathComponent::Prefix { name, .. } => {
            let n: usize = chars_of(text_of_name(name, p.separator).as_str()).len();
            if n <= length {
                n
            } else {
                length
            }
        },
        _ => 0,
    }
}

fn find_lead(p: &DirPath, chars: &Vec<char>, prefix: usize) -> (res: usize)
    requires
        chars@ == p@.text,
        prefix == prefix_length(p@),
        prefix <= chars.len(),
    ensures
        res == lead_length(p@),
        res <= chars.len(),
{
    let verbatim: bool = has_verbatim_prefix(p);
    let n: usize = prefix;
    if n >= chars.len() {
        return n;
    }
    assert(n > 0 ==> p@.parts.len() > 0 && p@.parts[0] == p.components@[0]@);
    if separates(chars[n], p.separator, verbatim) {
        n + 1
    } else if chars[n] == '.' && (n + 1 == chars.len() || separates(
        chars[n + 1],
        p.separator,
        verbatim,
    )) && (n == 0 || names_plain_drive(&p.components[0])) {
        n + 1
    } else {
        n
    }
}

fn find_last_piece(
    chars: &Vec<char>,
    end: usize,
    lead: usize,
    separator: char,
    verbatim: bool,
) -> (start: usize)
    requires
        lead < end <= chars.len(),
    ensures
        start == last_piece_start(chars@.take(end as int), lead as int, separator, verbatim),
        lead <= start <= end,
{
    let mut i: usize = end;
    while i > lead
        invariant
            lead <= i <= end <= chars.len(),
            last_piece_start(chars@.take(end as int), lead as int, separator, verbatim)
                == last_piece_start(chars@.take(i as int), lead as int, separator, verbatim),
        decreases i,
    {
        assert(chars@.take(i as int).last() == chars@[i - 1]);
        assert(chars@.take(i as int).drop_last() == chars@.take(i - 1));
        if separates(chars[i - 1], separator, verbatim) {
            return i;
        }
        i = i - 1;
    }
    lead
}

fn end_without_piece(
    chars: &Vec<char>,
    end: usize,
    lead: usize,
    separator: char,
    verbatim: bool,
) -> (res: usize)
    requires
        lead < end <= chars.len(),
    ensures
        res == length_without_piece(chars@.take(end as int), lead as int, separator, verbatim),
        lead <= res < end,
{
    proof {
        lemma_last_piece_start(chars@.take(end as int), lead as int, separator, verbatim);
    }
    let start: usize = find_last_piece(chars, end, lead, separator, verbatim);
    if start > lead {
        start - 1
    } else {
        lead
    }
}

fn end_without_idle(
    chars: &Vec<char>,
    end: usize,
    lead: usize,
    separator: char,
    verbatim: bool,
) -> (res: usize)
    requires
        lead <= chars.len(),
        end <= chars.len(),
    ensures
        res <= end,
        chars@.take(res as int) == without_idle_end(
            chars@.take(end as int),
            lead as int,
            separator,
            verbatim,
        ),
    decreases end,
{
    if end <= lead {
        return end;
    }
    let ghost text = chars@.take(end as int);
    let start: usize = find_last_piece(chars, end, lead, separator, verbatim);
    let ghost piece = text.skip(start as int);
    proof {
        reveal_strlit(".");
        assert(piece.len() == end - start);
        assert(piece == "."@ <==> end - start == 1 && chars@[start as int] == '.') by {
            if end - start == 1 {
                assert(piece[0] == chars@[start as int]);
                assert(chars@[start as int] == '.' ==> piece =~= "."@);
            }
        }
    }
    if start == end || (end - start == 1 && chars[start] == '.' && !verbatim) {
        let less: usize = end_without_piece(chars, end, lead, separator, verbatim);
        assert(text.take(less as int) == chars@.take(less as int));
        end_without_idle(chars, less, lead, separator, verbatim)
    } else {
        end
    }
}

fn text_up_to(chars: &Vec<char>, end: usize) -> (res: String)
    requires
        end <= chars.len(),
    ensures
        res@ == chars@.take(end as int),
{
    let mut res: String = String::new();
    for i in 0..end
        invariant
            end <= chars.len(),
            res@ == chars@.take(i as int),
    {
        res.push(chars[i]);
        assert(chars@.take(i as int).push(chars@[i as int]) == chars@.take(i as int + 1));
    }
    res
}

/// Writes the path above a path.
pub fn write_parent(p: &DirPath) -> (res: String)
    ensures
        res@ == parent_text(p@),
{
    let chars: Vec<char> = chars_of(p.text.as_str());
    let verbatim: bool = has_verbatim_prefix(p);
    let prefix: usize = find_prefix(p, chars.len());
    let lead: usize = find_lead(p, &chars, prefix);
    assert(chars@.take(chars@.len() as int) == chars@);
    let end: usize = end_without_idle(&chars, chars.len(), lead, p.separator, verbatim);
    if end <= lead {
        return text_up_to(&chars, prefix);
    }
    let less: usize = end_without_piece(&chars, end, lead, p.separator, verbatim);
    assert(chars@.take(end as int).take(less as int) == chars@.take(less as int));
    let rest: usize = end_without_idle(&chars, less, lead, p.separator, verbatim);
    text_up_to(&chars, rest)
}

fn write_part(out: &mut String, part: &PathComponent, separator: char)
    ensures
        final(out)@ == old(out)@ + part_text(part@, separator),
{
    match part {
        PathComponent::Prefix { name, .. } => {
            out.append(text_of_name(name, separator).as_str());
        },
        PathComponent::RootDir => {
            out.push(separator);
        },
        PathComponent::CurDir => {
            out.append(".");
        },
        PathComponent::ParentDir => {
            out.append("..");
        },
        PathComponent::Normal(name) => {
            out.append(text_of_name(name, separator).as_str());
        },
    }
    assert(final(out)@ == old(out)@ + part_text(part@, separator));
}

/// Writes components one after the other.
pub fn write_components(components: &Vec<PathComponent>, separator: char) -> (res: String)
    ensures
        res@ == spelled(parts_in(components@), separator),
{
    let mut res: String = String::new();
    let ghost parts = parts_in(components@);
    for i in 0..components.len()
        invariant
            parts == parts_in(components@),
            res@ == spelled(parts.take(i as int), separator),
    {
        let ghost upto = parts.take(i as int + 1);
        proof {
            assert(upto.drop_last() == parts.take(i as int));
            assert(upto.last() == components@[i as int]@);
            assert(i > 0 ==> parts.take(i as int).last() == components@[i - 1]@);
        }
        let is_root: bool = match &components[i] {
            PathComponent::RootDir => true,
            _ => false,
        };
        if i > 0 && !is_root {
            let after_root: bool = match &components[i - 1] {
                PathComponent::RootDir => true,
                _ => false,
            };
            if !after_root && !names_plain_drive(&components[i - 1]) {
                res.push(separator);
            }
        }
        write_part(&mut res, &components[i], separator);
        assert(res@ == spelled(upto, separator));
    }
    assert(parts.take(parts.len() as int) == parts);
    res
}

/// Writes `base` joined with `p`, given the components of the result.
pub fn write_joined(base: &DirPath, p: &DirPath, components: &Vec<PathComponent>) -> (res: String)
    requires
        parts_in(components@) == joined(base@.parts, p@.parts),
    ensures
        res@ == joined_text(base@, p@),
{
    assert(p@.parts.len() > 0 ==> p@.parts[0] == p.components@[0]@);
    assert(base@.parts.len() > 0 ==> base@.parts[0] == base.components@[0]@);
    let (prefixed, rooted): (bool, bool) = if p.components.len() == 0 {
        (false, false)
    } else {
        match &p.components[0] {
            PathComponent::Prefix { .. } => (true, false),
            PathComponent::RootDir => (false, true),
            _ => (false, false),
        }
    };
    if prefixed {
        return p.text.clone();
    }
    let verbatim: bool = has_verbatim_prefix(base);
    if verbatim && !p.text.as_str().is_empty() {
        assert(p@.parts.len() == 0 ==> verbatim_joined(base@.parts, p@.parts) == base@.parts);
        return write_components(components, p.separator);
    }
    let chars: Vec<char> = chars_of(base.text.as_str());
    let n: usize = chars.len();
    let prefix: usize = find_prefix(base, n);
    let mut res: String = if rooted {
        text_up_to(&chars, prefix)
    } else {
        base.text.clone()
    };
    if !rooted && n > 0 && !separates(chars[n - 1], p.separator, false) && !(
    base.components.len() > 0 && names_plain_drive(&base.components[0]) && prefix == n) {
        res.push(p.separator);
    }
    res.append(p.text.as_str());
    res
}

/// A relative input is written behind the text of the open directory as it stands, with one
/// separator between the two unless the directory ends in one or has no text. An input that
/// starts at the root is written as it stands.
pub proof fn joined_text_keeps_both_texts(base: PathView, p: PathView)
    requires
        base.parts.len() > 0 ==> !(base.parts[0] is Prefix),
        p.parts.len() > 0,
        !(p.parts[0] is Prefix),
        p.separator == '/',
    ensures
        p.parts[0] is RootDir ==> joined_text(base, p) == p.text,
        !(p.parts[0] is RootDir) && base.text.len() == 0 ==> joined_text(base, p) == p.text,
        !(p.parts[0] is RootDir) && base.text.len() > 0 && base.text.last() == '/' ==> joined_text(
            base,
            p,
        ) == base.text + p.text,
        !(p.parts[0] is RootDir) && base.text.len() > 0 && base.text.last() != '/' ==> joined_text(
            base,
            p,
        ) == base.text + seq!['/'] + p.text,
{
    assert(base.text.take(0) + p.text == p.text);
    if base.text.len() == 0 {
        assert(base.text + p.text == p.text);
    }
    assert(base.text.push('/') == base.text + seq!['/']);
}

proof fn lemma_idle_end_is_a_front(text: Seq<char>, lead: int, separator: char, verbatim: bool)
    requires
        0 <= lead,
    ensures
        without_idle_end(text, lead, separator, verbatim).is_prefix_of(text),
    decreases text.len(),
{
    if text.len() > lead {
        lemma_last_piece_start(text, lead, separator, verbatim);
        let less = text.take(length_without_piece(text, lead, separator, verbatim));
        lemma_idle_end_is_a_front(less, lead, separator, verbatim);
        let rest = without_idle_end(less, lead, separator, verbatim);
        assert(rest == less.take(rest.len() as int));
        assert(rest == text.take(rest.len() as int)) by {
            assert(less.take(rest.len() as int) == text.take(rest.len() as int));
        }
    }
}

/// The path above a path is written as the front part of its text: nothing is rewritten.
pub proof fn parent_text_is_a_front_of_the_text(p: PathView)
    ensures
        parent_text(p).is_prefix_of(p.text),
{
    let (lead, verbatim) = (lead_length(p), is_verbatim(p.parts));
    let text = without_idle_end(p.text, lead, p.separator, verbatim);
    lemma_idle_end_is_a_front(p.text, lead, p.separator, verbatim);
    if text.len() > lead {
        lemma_last_piece_start(text, lead, p.separator, verbatim);
        let less = text.take(length_without_piece(text, lead, p.separator, verbatim));
        lemma_idle_end_is_a_front(less, lead, p.separator, verbatim);
        let rest = parent_text(p);
        assert(rest == less.take(rest.len() as int));
        assert(less.take(rest.len() as int) == p.text.take(rest.len() as int));
    }
}

/// A name is written behind the components before it with one separator between, but
/// directly behind a root or a drive. A root adds just the separator.
pub proof fn names_are_written_with_separators_between(
    parts: Seq<Part>,
    separator: char,
    name: Seq<u8>,
)
    ensures
        spelled(Seq::empty(), separator) == Seq::<char>::empty(),
        spelled(seq![Part::Normal(name)], separator) == name_text(name, separator),
        parts.len() > 0 && (parts.last() is RootDir || is_plain_drive(parts.last())) ==> spelled(
            parts.push(Part::Normal(name)),
            separator,
        ) == spelled(parts, separator) + name_text(name, separator),
        parts.len() > 0 && !(parts.last() is RootDir || is_plain_drive(parts.last())) ==> spelled(
            parts.push(Part::Normal(name)),
            separator,
        ) == spelled(parts, separator) + seq![separator] + name_text(name, separator),
        spelled(parts.push(Part::RootDir), separator) == spelled(parts, separator) + seq![separator],
        parts.len() == 0 ==> spelled(
            parts.push(Part::Prefix { name, verbatim: false }),
            separator,
        ) == name_text(name, separator),
        is_plain_drive(Part::Prefix { name, verbatim: false }) <==> name.len() == 2 && name[1] == 58
            && (65 <= name[0] <= 90 || 97 <= name[0] <= 122),
{
    let empty = Seq::<Part>::empty();
    assert(seq![Part::Normal(name)].drop_last() == empty);
    assert(spelled(empty, separator) == Seq::<char>::empty());
    assert(Seq::<char>::empty() + name_text(name, separator) == name_text(name, separator));
    assert(parts.push(Part::Normal(name)).drop_last() == parts);
    assert(parts.push(Part::RootDir).drop_last() == parts);
    let prefixed = parts.push(Part::Prefix { name, verbatim: false });
    assert(prefixed.drop_last() == parts);
    assert(spelled(parts, separator).push(separator) == spelled(parts, separator) + seq![separator]);
}

/// Where `\` separates names, an input with a drive is written as it stands; one that starts
/// at the root is written behind the drive of the open directory; any other behind its text,
/// with one `\` between unless the text ends in a separator or is just the drive.
pub proof fn joined_text_keeps_the_drive(base: PathView, p: PathView)
    requires
        p.separator == '\\',
        p.parts.len() > 0,
        base.text.len() > 0,
        base.parts.len() > 0 && base.parts[0] is Prefix ==> !(base.parts[0]->Prefix_verbatim)
            && name_text(base.parts[0]->Prefix_name, base.separator).is_prefix_of(base.text),
    ensures
        p.parts[0] is Prefix ==> joined_text(base, p) == p.text,
        p.parts[0] is RootDir && base.parts.len() > 0 && base.parts[0] is Prefix ==> joined_text(
            base,
            p,
        ) == name_text(base.parts[0]->Prefix_name, base.separator) + p.text,
        p.parts[0] is RootDir && !(base.parts.len() > 0 && base.parts[0] is Prefix) ==> joined_text(
            base,
            p,
        ) == p.text,
        p.parts[0] is Normal && (base.text.last() == '/' || base.text.last() == '\\')
            ==> joined_text(base, p) == base.text + p.text,
        p.parts[0] is Normal && base.text.last() != '/' && base.text.last() != '\\' && !(
        base.parts.len() == 1 && is_plain_drive(base.parts[0])) && !(base.parts.len() > 0
            && is_plain_drive(base.parts[0]) && base.text == name_text(
            base.parts[0]->Prefix_name,
            base.separator,
        )) ==> joined_text(base, p) == base.text + seq!['\\'] + p.text,
{
    assert(base.text.push('\\') == base.text + seq!['\\']);
    assert(base.text.take(0) + p.text == p.text);
    if base.parts.len() > 0 && base.parts[0] is Prefix {
        let name = name_text(base.parts[0]->Prefix_name, base.separator);
        assert(base.text.take(name.len() as int) == name);
        if name.len() == base.text.len() {
            assert(base.text.take(name.len() as int) == base.text);
        }
    }
}

/// Where `\` separates names, it is read like `/`, and a letter with `:` at the front is a
/// drive whose path is read behind it.
pub proof fn backslash_is_read_like_a_slash(text: Seq<char>, drive: char, i: int)
    ensures
        slashed(text).len() == text.len(),
        0 <= i < text.len() ==> slashed(text)[i] == (if text[i] == '\\' {
            '/'
        } else {
            text[i]
        }),
        'a' <= drive <= 'z' || 'A' <= drive <= 'Z' ==> backslash_parts(seq![drive, ':'] + text)
            == seq![Part::Prefix { name: encode_utf8(seq![drive, ':']), verbatim: false }]
            + slash_parts(slashed(text)),
        text.len() < 2 || text[1] != ':' || !('a' <= text[0] <= 'z' || 'A' <= text[0] <= 'Z')
            ==> backslash_parts(text) == slash_parts(slashed(text)),
{
    let whole = seq![drive, ':'] + text;
    assert(whole.take(2) == seq![drive, ':']);
    assert(whole.skip(2) == text);
}

} // verus!
