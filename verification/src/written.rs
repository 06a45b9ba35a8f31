//! The text of a path names the path: joining, going up and going to a segment keep the two
//! in step.
//!
//! All of this is about systems where `/` separates names.
use crate::address::joined;
use crate::breadcrumb::{groups_of, segment_path};
use crate::path::{parent_path, Part, PathView};
use crate::spelling::{
    joined_path, joined_text, last_piece_start, lead_length, lemma_dot, lemma_last_piece_start,
    length_without_piece, parent_text, part_text, parts_of_pieces, pieces, prefix_length, slash_parts, spelled,
    without_idle_end,
};
use vstd::prelude::*;
use vstd::utf8::{decode_utf8, encode_utf8, valid_utf8};

verus! {

/// Does the text of the path name its components?
pub open spec fn names_itself(p: PathView) -> bool {
    p.separator == '/' && p.parts == slash_parts(p.text)
}

proof fn lemma_pieces_exist(text: Seq<char>)
    ensures
        pieces(text).len() >= 1,
    decreases text.len(),
{
    if text.len() > 0 {
        lemma_pieces_exist(text.drop_last());
    }
}

proof fn lemma_pieces_of_joined(a: Seq<char>, b: Seq<char>)
    ensures
        pieces(a.push('/') + b) == pieces(a) + pieces(b),
    decreases b.len(),
{
    let whole = a.push('/') + b;
    lemma_pieces_exist(b);
    if b.len() == 0 {
        assert(whole == a.push('/'));
        assert(whole.drop_last() == a);
        assert(pieces(whole) == pieces(a) + pieces(b));
    } else {
        let front = b.drop_last();
        lemma_pieces_of_joined(a, front);
        lemma_pieces_exist(front);
        assert(whole.drop_last() == a.push('/') + front);
        assert(whole.last() == b.last());
        let (x, y) = (pieces(a), pieces(front));
        assert((x + y).last() == y.last());
        assert((x + y).drop_last() == x + y.drop_last());
        assert(pieces(whole) == pieces(a) + pieces(b));
    }
}

proof fn lemma_whole_piece(text: Seq<char>)
    requires
        !text.contains('/'),
    ensures
        pieces(text) == seq![text],
    decreases text.len(),
{
    if text.len() > 0 {
        let front = text.drop_last();
        assert forall|i: int| 0 <= i < front.len() implies front[i] != '/' by {
            assert(front[i] == text[i]);
            assert(text.contains(text[i]));
        }
        assert(text.contains(text.last()));
        lemma_whole_piece(front);
        assert(front.push(text.last()) == text);
        assert(pieces(text) == seq![text]);
    } else {
        assert(text == Seq::<char>::empty());
    }
}

proof fn lemma_first_piece(text: Seq<char>)
    ensures
        pieces(text).len() >= 1,
        text.len() > 0 && text[0] == '/' ==> pieces(text).len() >= 2,
        (pieces(text)[0].len() > 0) == (text.len() > 0 && text[0] != '/'),
    decreases text.len(),
{
    if text.len() > 0 {
        let front = text.drop_last();
        lemma_first_piece(front);
        assert(front.len() > 0 ==> front[0] == text[0]);
    }
}

proof fn lemma_empty_piece()
    ensures
        pieces(Seq::empty()) == seq![Seq::<char>::empty()],
        parts_of_pieces(seq![Seq::<char>::empty()]) == Seq::<Part>::empty(),
        inner_parts(seq![Seq::<char>::empty()]) == Seq::<Part>::empty(),
{
    reveal_strlit(".");
    let single = seq![Seq::<char>::empty()];
    assert(single.drop_last() == Seq::<Seq<char>>::empty());
    assert(parts_of_pieces(single.drop_last()) == Seq::<Part>::empty());
    assert(single.last() == Seq::<char>::empty());
}

proof fn lemma_parts_of_pieces(y: Seq<Seq<char>>)
    ensures
        forall|i: int|
            0 <= i < parts_of_pieces(y).len() ==> !(#[trigger] parts_of_pieces(y)[i] is RootDir)
                && !(parts_of_pieces(y)[i] is Prefix) && (parts_of_pieces(y)[i] is CurDir ==> i == 0
                && y[0] == "."@),
        y.len() > 0 && y[0] == "."@ ==> parts_of_pieces(y).len() > 0 && parts_of_pieces(
            y,
        )[0] is CurDir,
        y.len() > 0 && y[0].len() > 0 ==> parts_of_pieces(y).len() > 0,
    decreases y.len(),
{
    reveal_strlit(".");
    if y.len() > 0 {
        let front = y.drop_last();
        lemma_parts_of_pieces(front);
        assert(front.len() > 0 ==> front[0] == y[0]);
        assert(front.len() == 0 ==> y.last() == y[0]);
        let (before, now) = (parts_of_pieces(front), parts_of_pieces(y));
        assert forall|i: int| 0 <= i < now.len() implies !(#[trigger] now[i] is RootDir) && !(
        now[i] is Prefix) && (now[i] is CurDir ==> i == 0 && y[0] == "."@) by {
            if i < before.len() {
                assert(now[i] == before[i]);
            }
        }
    }
}

/// The components of pieces that do not stand at the front of a path.
spec fn inner_parts(y: Seq<Seq<char>>) -> Seq<Part> {
    if y.len() > 0 && y[0] == "."@ {
        parts_of_pieces(y).skip(1)
    } else {
        parts_of_pieces(y)
    }
}

proof fn lemma_parts_of_joined(x: Seq<Seq<char>>, y: Seq<Seq<char>>)
    requires
        x.len() > 0,
    ensures
        parts_of_pieces(x + y) == parts_of_pieces(x) + inner_parts(y),
    decreases y.len(),
{
    reveal_strlit(".");
    if y.len() == 0 {
        assert(x + y == x);
        assert(parts_of_pieces(x + y) == parts_of_pieces(x) + inner_parts(y));
    } else {
        let front = y.drop_last();
        let piece = y.last();
        lemma_parts_of_joined(x, front);
        lemma_parts_of_pieces(front);
        assert((x + y).drop_last() == x + front);
        assert((x + y).last() == piece);
        if front.len() == 0 {
            assert(y[0] == piece);
            assert(parts_of_pieces(front) == Seq::<Part>::empty());
            assert(inner_parts(front) == Seq::<Part>::empty());
            if piece == "."@ {
                assert(inner_parts(y) == Seq::<Part>::empty());
            }
        } else {
            assert(y[0] == front[0]);
        }
        let (p, q) = (parts_of_pieces(front), parts_of_pieces(y));
        if y[0] == "."@ && front.len() > 0 {
            assert(q == p || q == p.push(q.last()));
            assert(q == p.push(q.last()) ==> q.skip(1) == p.skip(1).push(q.last()));
        }
        assert(parts_of_pieces(x + y) == parts_of_pieces(x) + inner_parts(y));
    }
}

proof fn lemma_slash_parts(text: Seq<char>)
    ensures
        slash_parts(text).len() == 0 <==> text.len() == 0,
        text.len() > 0 ==> (slash_parts(text)[0] is RootDir) == (text[0] == '/'),
        text.len() > 0 ==> !(slash_parts(text)[0] is Prefix),
{
    lemma_first_piece(text);
    lemma_parts_of_pieces(pieces(text));
    if text.len() == 0 {
        lemma_empty_piece();
        assert(text == Seq::<char>::empty());
    }
}

proof fn lemma_append(front: Seq<char>, p: Seq<char>)
    requires
        p.len() == 0 || p[0] != '/',
    ensures
        front.len() > 0 ==> slash_parts(front.push('/')) == slash_parts(front),
        slash_parts(front.push('/') + p) == slash_parts(front.push('/')) + inner_parts(pieces(p)),
{
    let whole = front.push('/') + p;
    let empty = Seq::<char>::empty();
    lemma_pieces_exist(front);
    lemma_pieces_of_joined(front, p);
    lemma_pieces_of_joined(front, empty);
    assert(front.push('/') + empty == front.push('/'));
    lemma_empty_piece();
    lemma_parts_of_joined(pieces(front), pieces(p));
    lemma_parts_of_joined(pieces(front), seq![empty]);
    assert(whole[0] == front.push('/')[0]);
    assert(slash_parts(whole) == slash_parts(front.push('/')) + inner_parts(pieces(p)));
}

/// What is joined to a path is written so that the text names the joined path.
pub proof fn joined_path_names_itself(base: PathView, p: PathView)
    requires
        names_itself(base),
        names_itself(p),
    ensures
        names_itself(joined_path(base, p)),
{
    let (b, t) = (base.text, p.text);
    lemma_slash_parts(b);
    lemma_slash_parts(t);
    lemma_parts_of_pieces(pieces(t));
    lemma_first_piece(t);
    let text = joined_text(base, p);
    if t.len() > 0 && t[0] == '/' {
        assert(b.take(0) + t == t);
    } else if b.len() == 0 {
        assert(b + t == t);
        assert(joined(base.parts, p.parts) == p.parts);
    } else {
        let front = if b.last() == '/' {
            b.drop_last()
        } else {
            b
        };
        assert(b.last() == '/' ==> front.push('/') == b);
        lemma_append(front, t);
        assert(text == front.push('/') + t);
        assert(slash_parts(front.push('/')) == base.parts);
        if t.len() == 0 {
            lemma_empty_piece();
            assert(t == Seq::<char>::empty());
            assert(inner_parts(pieces(t)) == p.parts);
            assert(base.parts + p.parts == base.parts);
        } else {
            assert(p.parts == parts_of_pieces(pieces(t)));
            assert(joined(base.parts, p.parts) == base.parts + inner_parts(pieces(t)));
        }
    }
}

/// Is `lead` the number of characters in front of the names of the text?
spec fn leads(text: Seq<char>, lead: int) -> bool {
    if text.len() > 0 && (text[0] == '/' || (text[0] == '.' && (text.len() == 1 || text[1] == '/'))) {
        lead == 1
    } else {
        lead == 0
    }
}

proof fn lemma_last_piece(text: Seq<char>, lead: int)
    requires
        0 <= lead < text.len(),
    ensures
        ({
            let start = last_piece_start(text, lead, '/', false);
            &&& lead <= start <= text.len()
            &&& start > lead ==> text[start - 1] == '/'
            &&& !text.skip(start).contains('/')
        }),
    decreases text.len(),
{
    let start = last_piece_start(text, lead, '/', false);
    lemma_last_piece_start(text, lead, '/', false);
    if text.last() != '/' {
        let front = text.drop_last();
        if front.len() > lead {
            lemma_last_piece(front, lead);
            assert(start > lead ==> text[start - 1] == front[start - 1]);
        } else {
            assert(last_piece_start(front, lead, '/', false) == lead);
        }
        let (rest, most) = (text.skip(start), front.skip(start));
        assert forall|i: int| 0 <= i < rest.len() implies rest[i] != '/' by {
            if i < most.len() {
                assert(most[i] == rest[i]);
                assert(most.contains(most[i]));
            }
        }
    }
}

proof fn lemma_cut(text: Seq<char>, lead: int)
    requires
        leads(text, lead),
        lead < text.len(),
    ensures
        ({
            let start = last_piece_start(text, lead, '/', false);
            let rest = text.take(length_without_piece(text, lead, '/', false));
            let piece = text.skip(start);
            &&& lead <= rest.len() < text.len()
            &&& leads(rest, lead)
            &&& piece.len() == 0 || piece == "."@ ==> slash_parts(text) == slash_parts(rest)
            &&& !(piece.len() == 0 || piece == "."@) ==> slash_parts(text).len() > 0 && !(
            slash_parts(text).last() is RootDir) && slash_parts(text).drop_last() == slash_parts(
                rest,
            )
        }),
{
    reveal_strlit(".");
    let start = last_piece_start(text, lead, '/', false);
    let n = length_without_piece(text, lead, '/', false);
    let rest = text.take(n);
    let piece = text.skip(start);
    lemma_last_piece(text, lead);
    lemma_last_piece_start(text, lead, '/', false);
    lemma_whole_piece(piece);
    assert(seq![piece].drop_last() == Seq::<Seq<char>>::empty());
    assert(parts_of_pieces(Seq::<Seq<char>>::empty()) == Seq::<Part>::empty());
    let whole = parts_of_pieces(seq![piece]);
    if start > lead {
        assert(text == rest.push('/') + piece);
        assert(piece.len() > 0 ==> piece[0] != '/') by {
            assert(piece.len() > 0 ==> piece.contains(piece[0]));
        }
        assert(rest.len() > 0);
        lemma_append(rest, piece);
        assert(slash_parts(text) == slash_parts(rest) + inner_parts(seq![piece]));
        assert(rest[0] == text[0]);
        assert(text[n] == '/');
        assert(rest.len() >= 2 ==> rest[1] == text[1]);
        if piece == "."@ {
            assert(inner_parts(seq![piece]) == Seq::<Part>::empty());
        }
        if piece.len() == 0 {
            assert(inner_parts(seq![piece]) == Seq::<Part>::empty());
        }
        assert(slash_parts(rest) + Seq::<Part>::empty() == slash_parts(rest));
        if piece.len() > 0 && piece != "."@ {
            assert(inner_parts(seq![piece]) == whole && whole.len() == 1);
            assert((slash_parts(rest) + whole).drop_last() == slash_parts(rest));
        }
    } else {
        if lead == 0 {
            assert(piece == text);
            assert(piece.len() == 1 ==> piece == seq![text[0]]);
            assert(piece != "."@);
            lemma_slash_parts(rest);
            assert(slash_parts(text) == whole);
            assert(whole.drop_last() == Seq::<Part>::empty());
            assert(slash_parts(rest) == Seq::<Part>::empty());
        } else {
            assert(text[1] == piece[0]);
            assert(piece.contains(piece[0]));
            assert(text[0] == '/');
            assert(rest == seq!['/']);
            let empty = Seq::<char>::empty();
            assert(text == empty.push('/') + piece);
            assert(rest == empty.push('/'));
            lemma_append(empty, piece);
            assert(slash_parts(text) == slash_parts(rest) + inner_parts(seq![piece]));
            if piece == "."@ {
                assert(inner_parts(seq![piece]) == Seq::<Part>::empty());
                assert(slash_parts(rest) + Seq::<Part>::empty() == slash_parts(rest));
            } else {
                assert(inner_parts(seq![piece]) == whole && whole.len() == 1);
                assert((slash_parts(rest) + whole).drop_last() == slash_parts(rest));
            }
        }
    }
}

proof fn lemma_idle_end(text: Seq<char>, lead: int)
    requires
        leads(text, lead),
        lead <= text.len(),
    ensures
        ({
            let rest = without_idle_end(text, lead, '/', false);
            &&& leads(rest, lead)
            &&& lead <= rest.len() <= text.len()
            &&& slash_parts(rest) == slash_parts(text)
            &&& rest.len() > lead ==> ({
                let piece = rest.skip(last_piece_start(rest, lead, '/', false));
                piece.len() > 0 && piece != "."@
            })
        }),
    decreases text.len(),
{
    if lead < text.len() {
        lemma_cut(text, lead);
        let piece = text.skip(last_piece_start(text, lead, '/', false));
        if piece.len() == 0 || piece == "."@ {
            lemma_idle_end(text.take(length_without_piece(text, lead, '/', false)), lead);
        }
    }
}

/// The path above a path is written so that the text names it.
pub proof fn parent_path_names_itself(p: PathView)
    requires
        names_itself(p),
        parent_path(p) is Some,
    ensures
        names_itself(parent_path(p)->0),
{
    let lead = lead_length(p);
    lemma_slash_parts(p.text);
    assert(prefix_length(p) == 0);
    assert(leads(p.text, lead));
    lemma_idle_end(p.text, lead);
    let text = without_idle_end(p.text, lead, '/', false);
    if text.len() <= lead {
        lemma_slash_parts(text);
        if lead == 1 && text[0] == '/' {
            let empty = Seq::<char>::empty();
            assert(text == empty.push('/') + empty);
            lemma_pieces_of_joined(empty, empty);
            lemma_empty_piece();
            lemma_parts_of_joined(seq![empty], seq![empty]);
            assert(slash_parts(text) == seq![Part::RootDir]);
        } else if lead == 1 {
            reveal_strlit(".");
            assert(text == "."@);
            lemma_dot();
            lemma_slash_parts(p.text.take(0));
            assert(p.parts.drop_last() == slash_parts(p.text.take(0)));
        }
    } else {
        lemma_cut(text, lead);
        lemma_idle_end(text.take(length_without_piece(text, lead, '/', false)), lead);
    }
}

/// Is the text a name that can stand between two separators?
pub open spec fn is_plain_name(q: Seq<char>) -> bool {
    q.len() > 0 && !q.contains('/') && q != "."@ && q != ".."@
}

/// Is the component a name that is valid text?
pub open spec fn is_named(part: Part) -> bool {
    part matches Part::Normal(name) && valid_utf8(name) && is_plain_name(decode_utf8(name))
}

/// Are the components names that are valid text, with a root before them or none?
pub open spec fn are_named(parts: Seq<Part>) -> bool {
    forall|i: int|
        0 <= i < parts.len() ==> (#[trigger] parts[i] is RootDir && i == 0) || is_named(parts[i])
}

proof fn lemma_single_name(q: Seq<char>)
    requires
        is_plain_name(q),
    ensures
        pieces(q) == seq![q],
        parts_of_pieces(seq![q]) == seq![Part::Normal(encode_utf8(q))],
        inner_parts(seq![q]) == seq![Part::Normal(encode_utf8(q))],
{
    lemma_whole_piece(q);
    assert(seq![q].drop_last() == Seq::<Seq<char>>::empty());
    assert(parts_of_pieces(Seq::<Seq<char>>::empty()) == Seq::<Part>::empty());
    assert(parts_of_pieces(seq![q]) == seq![Part::Normal(encode_utf8(q))]);
}

/// A path that is put together from names is written so that the text names it.
pub proof fn spelled_path_names_itself(parts: Seq<Part>)
    requires
        are_named(parts),
    ensures
        slash_parts(spelled(parts, '/')) == parts,
    decreases parts.len(),
{
    broadcast use vstd::utf8::decode_utf8_encode_utf8;

    let text = spelled(parts, '/');
    lemma_slash_parts(text);
    if parts.len() > 0 {
        let front = parts.drop_last();
        let before = spelled(front, '/');
        assert forall|i: int| 0 <= i < front.len() implies (#[trigger] front[i] is RootDir && i
            == 0) || is_named(front[i]) by {
            assert(front[i] == parts[i]);
        }
        spelled_path_names_itself(front);
        lemma_slash_parts(before);
        assert(parts[parts.len() - 1] == parts.last());
        let empty = Seq::<char>::empty();
        if parts.last() is RootDir {
            assert(before == empty);
            assert(text == empty.push('/') + empty);
            lemma_append(empty, empty);
            lemma_pieces_of_joined(empty, empty);
            lemma_empty_piece();
            lemma_parts_of_joined(seq![empty], seq![empty]);
            assert(slash_parts(text) == seq![Part::RootDir]);
            assert(parts == seq![Part::RootDir]);
        } else {
            let name = parts.last()->Normal_0;
            let q = decode_utf8(name);
            assert(part_text(parts.last(), '/') == q);
            assert(encode_utf8(q) == name);
            lemma_single_name(q);
            assert(q.contains(q[0]));
            assert(front.push(parts.last()) == parts);
            if front.len() == 0 {
                assert(text == q);
            } else if front.last() is RootDir {
                assert(front[front.len() - 1] is RootDir);
                assert(front == seq![Part::RootDir]);
                assert(spelled(front.drop_last(), '/') == empty);
                assert(before == empty.push('/'));
                assert(text == empty.push('/') + q);
                lemma_append(empty, q);
            } else {
                assert(front[front.len() - 1] == front.last());
                assert(text == before.push('/') + q);
                lemma_append(before, q);
            }
            assert(slash_parts(text) == front + seq![parts.last()]);
            assert(front + seq![parts.last()] == parts);
        }
    }
}

proof fn lemma_pieces_hold_no_slash(text: Seq<char>)
    ensures
        forall|i: int| 0 <= i < pieces(text).len() ==> !(#[trigger] pieces(text)[i]).contains('/'),
    decreases text.len(),
{
    if text.len() > 0 {
        let front = text.drop_last();
        lemma_pieces_hold_no_slash(front);
        lemma_pieces_exist(front);
        let (before, now) = (pieces(front), pieces(text));
        assert forall|i: int| 0 <= i < now.len() implies !(#[trigger] now[i]).contains('/') by {
            if i < before.len() - 1 || (i < before.len() && text.last() == '/') {
                assert(now[i] == before[i]);
            } else if text.last() != '/' {
                let last = before[before.len() - 1];
                assert(!last.contains('/'));
                assert(now[i] == last.push(text.last()));
                assert forall|k: int| 0 <= k < now[i].len() implies now[i][k] != '/' by {
                    if k < last.len() {
                        assert(last.contains(last[k]));
                    }
                }
            }
        }
    }
}

proof fn lemma_names_of_pieces(y: Seq<Seq<char>>)
    requires
        forall|i: int| 0 <= i < y.len() ==> !(#[trigger] y[i]).contains('/'),
    ensures
        forall|i: int|
            0 <= i < parts_of_pieces(y).len() && #[trigger] parts_of_pieces(y)[i] is Normal
                ==> is_named(parts_of_pieces(y)[i]),
    decreases y.len(),
{
    broadcast use vstd::utf8::encode_utf8_valid_utf8;
    broadcast use vstd::utf8::encode_utf8_decode_utf8;

    if y.len() > 0 {
        let front = y.drop_last();
        assert forall|i: int| 0 <= i < front.len() implies !(#[trigger] front[i]).contains('/') by {
            assert(front[i] == y[i]);
        }
        lemma_names_of_pieces(front);
        assert(y[y.len() - 1] == y.last());
        let (before, now) = (parts_of_pieces(front), parts_of_pieces(y));
        assert forall|i: int| 0 <= i < now.len() && #[trigger] now[i] is Normal implies is_named(
            now[i],
        ) by {
            if i < before.len() {
                assert(now[i] == before[i]);
            } else {
                assert(decode_utf8(encode_utf8(y.last())) == y.last());
                assert(valid_utf8(encode_utf8(y.last())));
            }
        }
    }
}

spec fn slash_like(p: Seq<Part>) -> bool {
    forall|i: int|
        0 <= i < p.len() ==> !(#[trigger] p[i] is Prefix) && (p[i] is RootDir ==> i == 0) && (
        p[i] is Normal ==> is_named(p[i]))
}

proof fn lemma_segments_are_named(p: Seq<Part>, n: int)
    requires
        slash_like(p),
        0 <= n <= groups_of(p).len(),
    ensures
        are_named(groups_of(p).take(n).flatten()),
    decreases p.len(),
{
    let groups = groups_of(p);
    if p.len() == 0 {
        assert(groups.take(n) == Seq::<Seq<Part>>::empty());
    } else {
        let front = p.drop_last();
        let before = groups_of(front);
        assert forall|i: int| 0 <= i < front.len() implies !(#[trigger] front[i] is Prefix) && (
        front[i] is RootDir ==> i == 0) && (front[i] is Normal ==> is_named(front[i])) by {
            assert(front[i] == p[i]);
        }
        assert(p[p.len() - 1] == p.last());
        assert(p.len() >= 2 ==> !(p[p.len() - 2] is Prefix));
        if n <= before.len() {
            lemma_segments_are_named(front, n);
            assert(groups.take(n) == before.take(n));
        } else {
            lemma_segments_are_named(front, before.len() as int);
            assert(before.take(before.len() as int) == before);
            assert(groups.take(n) == before.push(seq![p.last()]));
            before.lemma_flatten_push(seq![p.last()]);
            let (was, now) = (before.flatten(), groups.take(n).flatten());
            assert(now == was.push(p.last()));
            if p.last() is RootDir {
                assert(front.len() == 0);
                assert(before == Seq::<Seq<Part>>::empty());
                assert(was == Seq::<Part>::empty());
            }
            assert forall|i: int| 0 <= i < now.len() implies (#[trigger] now[i] is RootDir && i
                == 0) || is_named(now[i]) by {
                if i < was.len() {
                    assert(now[i] == was[i]);
                }
            }
        }
    }
}

/// The path that a segment of a path stands for is written so that the text names it.
pub proof fn segment_path_names_itself(p: PathView, index: int)
    requires
        names_itself(p),
        segment_path(p, index) is Some,
    ensures
        names_itself(segment_path(p, index)->0),
{
    lemma_pieces_hold_no_slash(p.text);
    lemma_names_of_pieces(pieces(p.text));
    lemma_parts_of_pieces(pieces(p.text));
    let inner = parts_of_pieces(pieces(p.text));
    assert forall|i: int| 0 <= i < p.parts.len() implies !(#[trigger] p.parts[i] is Prefix) && (
    p.parts[i] is RootDir ==> i == 0) && (p.parts[i] is Normal ==> is_named(p.parts[i])) by {
        if p.text.len() > 0 && p.text[0] == '/' {
            assert(i > 0 ==> p.parts[i] == inner[i - 1]);
        } else {
            assert(p.parts[i] == inner[i]);
        }
    }
    lemma_segments_are_named(p.parts, index + 1);
    spelled_path_names_itself(segment_path(p, index)->0.parts);
}

/// A text is cut at every `/`. A name behind one is one more component, `..` is one for the
/// directory above, `.` and nothing at all are none. A text that begins with `/` begins with
/// the root; `.` alone is the open directory.
pub proof fn text_is_cut_at_every_slash(text: Seq<char>, q: Seq<char>)
    requires
        is_plain_name(q),
    ensures
        slash_parts(Seq::empty()) == Seq::<Part>::empty(),
        slash_parts(q) == seq![Part::Normal(encode_utf8(q))],
        slash_parts(seq!['/']) == seq![Part::RootDir],
        slash_parts(seq!['.']) == seq![Part::CurDir],
        slash_parts(seq!['.', '.']) == seq![Part::ParentDir],
        text.len() > 0 ==> slash_parts(text + seq!['/']) == slash_parts(text),
        text.len() > 0 ==> slash_parts(text + seq!['/', '.']) == slash_parts(text),
        text.len() > 0 ==> slash_parts(text + seq!['/', '.', '.']) == slash_parts(text).push(
            Part::ParentDir,
        ),
        text.len() > 0 ==> slash_parts(text + seq!['/'] + q) == slash_parts(text).push(
            Part::Normal(encode_utf8(q)),
        ),
        slash_parts(seq!['/'] + q) == seq![Part::RootDir, Part::Normal(encode_utf8(q))],
{
    reveal_strlit(".");
    reveal_strlit("..");
    let empty = Seq::<char>::empty();
    let (dot, dots) = (seq!['.'], seq!['.', '.']);
    assert("."@ == dot);
    assert(".."@ == dots);
    lemma_dot();
    lemma_empty_piece();
    lemma_single_name(q);
    assert(q.contains(q[0]));
    assert(!dot.contains('/'));
    assert(!dots.contains('/'));
    lemma_whole_piece(dot);
    lemma_whole_piece(dots);
    let none = Seq::<Seq<char>>::empty();
    assert(seq![dot].drop_last() == none && seq![dots].drop_last() == none);
    assert(parts_of_pieces(none) == Seq::<Part>::empty());
    assert(parts_of_pieces(seq![dots]) == seq![Part::ParentDir]);
    assert(parts_of_pieces(seq![dot]) == seq![Part::CurDir]);
    assert(inner_parts(seq![dot]) == Seq::<Part>::empty());
    assert(inner_parts(seq![dots]) == seq![Part::ParentDir]);
    assert(text.push('/') + empty == text + seq!['/']);
    assert(text.push('/') + dot == text + seq!['/', '.']);
    assert(text.push('/') + dots == text + seq!['/', '.', '.']);
    assert(text.push('/') + q == text + seq!['/'] + q);
    assert(text.push('/') == text + seq!['/']);
    lemma_append(text, empty);
    lemma_append(text, dot);
    lemma_append(text, dots);
    lemma_append(text, q);
    assert(slash_parts(text) + Seq::<Part>::empty() == slash_parts(text));
    lemma_append(empty, q);
    lemma_pieces_of_joined(empty, empty);
    lemma_parts_of_joined(seq![empty], seq![empty]);
    assert(empty.push('/') == seq!['/']);
    assert(empty.push('/') + empty == seq!['/']);
    assert(seq!['/'] + q == empty.push('/') + q);
    assert(slash_parts(seq!['/']) == seq![Part::RootDir]);
    if text.len() > 0 {
        assert(slash_parts(text + seq!['/', '.', '.']) == slash_parts(text) + seq![Part::ParentDir]);
        assert(slash_parts(text + seq!['/'] + q) == slash_parts(text) + seq![
            Part::Normal(encode_utf8(q)),
        ]);
    }
    assert(slash_parts(seq!['/'] + q) == seq![Part::RootDir] + seq![Part::Normal(encode_utf8(q))]);
}

/// The text of the path above ends in a name: no separator and no `.` is left at its end, but
/// for a root or a `.` that is all of it.
pub proof fn parent_text_ends_in_a_name(p: PathView)
    requires
        names_itself(p),
        parent_path(p) is Some,
        parent_text(p).len() > 1,
    ensures
        parent_text(p).last() != '/',
        !(parent_text(p).last() == '.' && parent_text(p)[parent_text(p).len() - 2] == '/'),
{
    reveal_strlit(".");
    let lead = lead_length(p);
    lemma_slash_parts(p.text);
    assert(prefix_length(p) == 0);
    assert(leads(p.text, lead));
    lemma_idle_end(p.text, lead);
    let text = without_idle_end(p.text, lead, '/', false);
    assert(text.len() > lead);
    lemma_cut(text, lead);
    lemma_idle_end(text.take(length_without_piece(text, lead, '/', false)), lead);
    let rest = parent_text(p);
    let start = last_piece_start(rest, lead, '/', false);
    lemma_last_piece(rest, lead);
    let piece = rest.skip(start);
    assert(piece.last() == rest.last());
    assert(piece.contains(piece.last()));
    if rest.last() == '.' && rest[rest.len() - 2] == '/' {
        if piece.len() > 1 {
            assert(piece[piece.len() - 2] == '/');
            assert(piece.contains(piece[piece.len() - 2]));
        }
        assert(piece == seq!['.']);
        assert(piece == "."@);
    }
}

} // verus!
