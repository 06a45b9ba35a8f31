//! Names of files as text.
//!
//! A name is kept as the bytes of its encoded form (`OsStr::as_encoded_bytes`). On
//! systems that separate names with `/` these may be any bytes. On those that separate
//! them with `\` they are the UTF-8 of the name, with lone surrogates encoded like
//! other characters.
use vstd::prelude::*;
use vstd::string::*;
use vstd::utf8::{
    codepoint_width_3, decode_utf8, length_of_first_scalar, pop_first_scalar, valid_utf8,
};

verus! {

/// What `String::from_utf8_lossy` makes of bytes that are not valid UTF-8.
pub uninterp spec fn lossy_text(bytes: Seq<u8>) -> Seq<char>;

/// Bytes as text: decoded if they are valid UTF-8, and as far as possible otherwise.
pub open spec fn bytes_text(bytes: Seq<u8>) -> Seq<char> {
    if valid_utf8(bytes) {
        decode_utf8(bytes)
    } else {
        lossy_text(bytes)
    }
}

/// `String::from_utf8_lossy` of std: valid UTF-8 is decoded as it is. What becomes
/// of other bytes depends on them alone and goes by the name [`lossy_text`].
#[verifier::external_body]
fn text_of_bytes(bytes: &Vec<u8>) -> (res: String)
    ensures
        res@ == (if valid_utf8(bytes@) {
            decode_utf8(bytes@)
        } else {
            lossy_text(bytes@)
        }),
{
    String::from_utf8_lossy(bytes).into_owned()
}

/// Do the bytes begin with an encoded surrogate?
pub open spec fn begins_with_surrogate(bytes: Seq<u8>) -> bool {
    bytes.len() >= 3 && bytes[0] == 0xed && 0xa0 <= bytes[1] <= 0xbf && 0x80 <= bytes[2] <= 0xbf
}

/// The bytes with the replacement character U+FFFD in the place of every encoded
/// surrogate.
pub open spec fn without_surrogates(bytes: Seq<u8>) -> Seq<u8>
    decreases bytes.len(),
{
    if bytes.len() == 0 {
        bytes
    } else if begins_with_surrogate(bytes) {
        seq![0xefu8, 0xbf, 0xbd] + without_surrogates(bytes.skip(3))
    } else {
        seq![bytes[0]] + without_surrogates(bytes.skip(1))
    }
}

/// The text under which a name is shown, as `OsStr::to_string_lossy` gives it on a system
/// with this separator between names.
pub open spec fn name_text(name: Seq<u8>, separator: char) -> Seq<char> {
    if separator == '\\' {
        bytes_text(without_surrogates(name))
    } else {
        bytes_text(name)
    }
}

fn replace_surrogates(bytes: &Vec<u8>) -> (res: Vec<u8>)
    ensures
        res@ == without_surrogates(bytes@),
{
    let mut res: Vec<u8> = Vec::new();
    let mut i: usize = 0;
    let n: usize = bytes.len();
    assert(bytes@.skip(0) == bytes@);
    while i < n
        invariant
            i <= n,
            n == bytes.len(),
            res@ + without_surrogates(bytes@.skip(i as int)) == without_surrogates(bytes@),
        decreases n - i,
    {
        let ghost rest = bytes@.skip(i as int);
        let ghost was = res@;
        if n - i >= 3 && bytes[i] == 0xed && 0xa0 <= bytes[i + 1] && bytes[i + 1] <= 0xbf && 0x80
            <= bytes[i + 2] && bytes[i + 2] <= 0xbf {
            assert(begins_with_surrogate(rest));
            assert(rest.skip(3) == bytes@.skip(i as int + 3));
            res.push(0xef);
            res.push(0xbf);
            res.push(0xbd);
            assert(res@ == was + seq![0xefu8, 0xbf, 0xbd]);
            i = i + 3;
        } else {
            assert(!begins_with_surrogate(rest));
            assert(rest.skip(1) == bytes@.skip(i as int + 1));
            res.push(bytes[i]);
            assert(res@ == was + seq![rest[0]]);
            i = i + 1;
        }
        assert(res@ + without_surrogates(bytes@.skip(i as int)) == was + without_surrogates(rest));
    }
    res
}

/// The text under which a name is shown on a system with this separator between names.
pub fn text_of_name(name: &Vec<u8>, separator: char) -> (res: String)
    ensures
        res@ == name_text(name@, separator),
{
    if separator == '\\' {
        text_of_bytes(&replace_surrogates(name))
    } else {
        text_of_bytes(name)
    }
}

proof fn lemma_plain_front(bytes: Seq<u8>, n: int)
    requires
        0 <= n <= bytes.len(),
        n > 0 ==> !begins_with_surrogate(bytes),
        forall|i: int| 1 <= i < n ==> #[trigger] bytes[i] != 0xed,
    ensures
        without_surrogates(bytes) == bytes.take(n) + without_surrogates(bytes.skip(n)),
    decreases n,
{
    if n > 0 {
        let rest = bytes.skip(1);
        assert forall|i: int| 1 <= i < n - 1 implies #[trigger] rest[i] != 0xed by {
            assert(rest[i] == bytes[i + 1]);
        }
        if n > 1 {
            assert(rest[0] == bytes[1]);
        }
        lemma_plain_front(rest, n - 1);
        assert(rest.skip(n - 1) == bytes.skip(n));
        assert(bytes.take(n) == seq![bytes[0]] + rest.take(n - 1));
        assert(without_surrogates(bytes) == bytes.take(n) + without_surrogates(bytes.skip(n)));
    } else {
        assert(bytes.skip(0) == bytes);
    }
}

proof fn lemma_first_is_no_surrogate(bytes: Seq<u8>)
    requires
        bytes.len() > 0,
        valid_utf8(bytes),
    ensures
        !begins_with_surrogate(bytes),
        bytes[0] == 0xed ==> bytes.len() >= 3,
        1 <= length_of_first_scalar(bytes) <= bytes.len(),
        forall|i: int| 1 <= i < length_of_first_scalar(bytes) ==> #[trigger] bytes[i] != 0xed,
{
    let (b0, b1, b2) = (bytes[0], bytes[1], bytes[2]);
    if begins_with_surrogate(bytes) {
        assert(0xd800 <= codepoint_width_3(b0, b1, b2) <= 0xdfff) by {
            assert(0xd800 <= (((b0 & 0x0f) as u32) << 12) | (((b1 & 0x3f) as u32) << 6) | ((b2
                & 0x3f) as u32) <= 0xdfff) by (bit_vector)
                requires
                    b0 == 0xed,
                    0xa0 <= b1 <= 0xbf,
                    0x80 <= b2 <= 0xbf,
            ;
        }
    }
}

proof fn lemma_valid_has_no_surrogates(bytes: Seq<u8>)
    requires
        valid_utf8(bytes),
    ensures
        without_surrogates(bytes) == bytes,
    decreases bytes.len(),
{
    if bytes.len() > 0 {
        let n = length_of_first_scalar(bytes);
        lemma_first_is_no_surrogate(bytes);
        lemma_plain_front(bytes, n);
        assert(pop_first_scalar(bytes) == bytes.skip(n));
        lemma_valid_has_no_surrogates(pop_first_scalar(bytes));
        assert(bytes.take(n) + bytes.skip(n) == bytes);
    }
}

/// A name that is valid text shows as that text on every system.
pub proof fn valid_name_shows_as_it_is(name: Seq<u8>, separator: char)
    requires
        valid_utf8(name),
    ensures
        name_text(name, separator) == decode_utf8(name),
{
    lemma_valid_has_no_surrogates(name);
}

/// Where names may hold lone surrogates, each of them becomes one replacement character and
/// all around it stays as it is.
pub proof fn lone_surrogate_is_replaced(a: Seq<u8>, s: Seq<u8>, b: Seq<u8>)
    requires
        valid_utf8(a),
        s.len() == 3,
        s[0] == 0xed,
        0xa0 <= s[1] <= 0xbf,
        0x80 <= s[2] <= 0xbf,
    ensures
        without_surrogates(a + s + b) == a + seq![0xefu8, 0xbf, 0xbd] + without_surrogates(b),
    decreases a.len(),
{
    let whole = a + s + b;
    if a.len() == 0 {
        assert(whole == s + b);
        assert(begins_with_surrogate(whole));
        assert(whole.skip(3) == b);
        assert(a + seq![0xefu8, 0xbf, 0xbd] == seq![0xefu8, 0xbf, 0xbd]);
    } else {
        let n = length_of_first_scalar(a);
        let rest = pop_first_scalar(a);
        lemma_first_is_no_surrogate(a);
        assert(rest == a.skip(n));
        lone_surrogate_is_replaced(rest, s, b);
        assert(!begins_with_surrogate(whole)) by {
            assert(whole[0] == a[0]);
            if a.len() >= 3 {
                assert(whole[1] == a[1] && whole[2] == a[2]);
            }
        }
        assert forall|i: int| 1 <= i < n implies #[trigger] whole[i] != 0xed by {
            assert(whole[i] == a[i]);
        }
        lemma_plain_front(whole, n);
        assert(whole.take(n) == a.take(n));
        assert(whole.skip(n) == rest + s + b);
        assert(a.take(n) + (rest + seq![0xefu8, 0xbf, 0xbd] + without_surrogates(b)) == a + seq![
            0xefu8,
            0xbf,
            0xbd,
        ] + without_surrogates(b));
    }
}

/// Bytes that are no valid text show as they are decoded with losses, and on systems with
/// `/` between names nothing is done to them before.
pub proof fn undecodable_name_shows_with_losses(name: Seq<u8>)
    requires
        !valid_utf8(name),
    ensures
        name_text(name, '/') == lossy_text(name),
{
}

} // verus!
