//! Characters and strings: lower case, prefixes, substrings, decimal numbers.
use vstd::prelude::*;
use vstd::string::*;
use vstd::utf8::is_ascii_chars;

verus! {

/// The lower case of a string that holds a character outside ASCII, as
/// `str::to_lowercase` computes it from the Unicode tables.
pub uninterp spec fn unicode_lowercase(s: Seq<char>) -> Seq<char>;

/// `str::to_lowercase` of std. ASCII text is lowered letter by letter; the result
/// for any other text depends on that text alone and goes by the name
/// [`unicode_lowercase`].
pub assume_specification[ str::to_lowercase ](s: &str) -> (res: String)
    ensures
        res@ == (if is_ascii_chars(s@) {
            ascii_lowercase(s@)
        } else {
            unicode_lowercase(s@)
        }),
;

/// `String::push` of std: the character goes to the end.
pub assume_specification[ String::push ](s: &mut String, c: char)
    ensures
        final(s)@ == old(s)@.push(c),
;

/// The lower case of one ASCII character; every other character stays.
pub open spec fn ascii_lower_char(c: char) -> char {
    if 'A' <= c <= 'Z' {
        (c as u32 + 32) as char
    } else {
        c
    }
}

/// The text with every ASCII capital letter lowered.
pub open spec fn ascii_lowercase(s: Seq<char>) -> Seq<char> {
    s.map_values(|c: char| ascii_lower_char(c))
}

/// The lower case of a string, the form in which names are compared.
pub open spec fn lowercase(s: Seq<char>) -> Seq<char> {
    if is_ascii_chars(s) {
        ascii_lowercase(s)
    } else {
        unicode_lowercase(s)
    }
}

/// `needle` stands in `text` from position `at` on.
pub open spec fn occurs_at(text: Seq<char>, needle: Seq<char>, at: int) -> bool {
    &&& 0 <= at
    &&& at + needle.len() <= text.len()
    &&& text.subrange(at, at + needle.len()) == needle
}

/// `needle` stands somewhere in `text`.
pub open spec fn occurs_in(text: Seq<char>, needle: Seq<char>) -> bool {
    exists|at: int| occurs_at(text, needle, at)
}

/// The decimal digit with the value `d`.
pub open spec fn digit(d: int) -> char
    recommends
        0 <= d < 10,
{
    (d + 48) as char
}

/// The decimal notation of `n`, without leading zeros.
pub open spec fn decimal(n: nat) -> Seq<char>
    decreases n,
{
    if n < 10 {
        seq![digit(n as int)]
    } else {
        decimal(n / 10).push(digit((n % 10) as int))
    }
}

/// The characters of a string, for access by index.
pub fn chars_of(s: &str) -> (res: Vec<char>)
    ensures
        res@ == s@,
{
    let mut res: Vec<char> = Vec::new();
    for c in it: s.chars()
        invariant
            it.seq() == s@,
            res@ == s@.take(it.index() as int),
    {
        assert(s@.take(it.index() as int).push(c) == s@.take(it.index() as int + 1));
        res.push(c);
    }
    assert(s@.take(s@.len() as int) == s@);
    res
}

/// Lowers a string and spreads it out into characters.
pub fn lower_chars(s: &str) -> (res: Vec<char>)
    ensures
        res@ == lowercase(s@),
{
    chars_of(s.to_lowercase().as_str())
}

fn stands_at(text: &Vec<char>, needle: &Vec<char>, at: usize) -> (res: bool)
    requires
        at + needle.len() <= text.len(),
    ensures
        res == occurs_at(text@, needle@, at as int),
{
    for i in 0..needle.len()
        invariant
            at + needle.len() <= text.len(),
            forall|k: int| 0 <= k < i ==> text@[at + k] == needle@[k],
    {
        if text[at + i] != needle[i] {
            assert(text@.subrange(at as int, at + needle@.len())[i as int] != needle@[i as int]);
            return false;
        }
    }
    assert(text@.subrange(at as int, at + needle@.len()) == needle@);
    true
}

/// Does `text` begin with `prefix`?
pub fn has_prefix(text: &Vec<char>, prefix: &Vec<char>) -> (res: bool)
    ensures
        res == prefix@.is_prefix_of(text@),
{
    if prefix.len() > text.len() {
        return false;
    }
    stands_at(text, prefix, 0)
}

/// Does `needle` stand somewhere in `text`?
pub fn has_substring(text: &Vec<char>, needle: &Vec<char>) -> (res: bool)
    ensures
        res == occurs_in(text@, needle@),
{
    if needle.len() > text.len() {
        return false;
    }
    let last: usize = text.len() - needle.len();
    for at in 0..last
        invariant
            last + needle.len() == text.len(),
            forall|k: int| 0 <= k < at ==> !occurs_at(text@, needle@, k),
    {
        if stands_at(text, needle, at) {
            return true;
        }
    }
    let res: bool = stands_at(text, needle, last);
    assert(forall|k: int| k > last ==> !occurs_at(text@, needle@, k));
    res
}

/// Appends the decimal notation of `n`.
pub fn push_decimal(out: &mut String, n: u64)
    ensures
        final(out)@ == old(out)@ + decimal(n as nat),
    decreases n,
{
    if n >= 10 {
        push_decimal(out, n / 10);
    }
    let d: u8 = (n % 10) as u8;
    out.push((48 + d) as char);
    assert(final(out)@ == old(out)@ + decimal(n as nat));
}

/// The lower case of ASCII text is a fixed point: lowering it again changes nothing.
pub proof fn ascii_lowercase_idempotent(s: Seq<char>)
    ensures
        ascii_lowercase(ascii_lowercase(s)) == ascii_lowercase(s),
{
}

/// Lowering ASCII text turns each capital letter into the small one and leaves every other
/// character alone, in its place.
pub proof fn lowering_turns_capitals_small(s: Seq<char>, i: int)
    requires
        is_ascii_chars(s),
        0 <= i < s.len(),
    ensures
        lowercase(s).len() == s.len(),
        65 <= s[i] as u32 <= 90 ==> lowercase(s)[i] as u32 == s[i] as u32 + 32,
        !(65 <= s[i] as u32 <= 90) ==> lowercase(s)[i] == s[i],
{
}

/// Text that holds a character outside ASCII is lowered as the Unicode tables say.
pub proof fn other_text_is_lowered_by_the_tables(s: Seq<char>)
    requires
        !is_ascii_chars(s),
    ensures
        lowercase(s) == unicode_lowercase(s),
{
}

/// A text holds another one exactly if it is that one with something before it and
/// something behind it.
pub proof fn held_text_has_something_around_it(text: Seq<char>, needle: Seq<char>)
    ensures
        occurs_in(text, needle) <==> (exists|a: Seq<char>, b: Seq<char>| text == #[trigger] (a
            + needle + b)),
        forall|at: int|
            #[trigger] occurs_at(text, needle, at) <==> 0 <= at && at + needle.len() <= text.len()
                && (forall|i: int| 0 <= i < needle.len() ==> #[trigger] needle[i] == text[at + i]),
{
    if occurs_in(text, needle) {
        let at = choose|at: int| occurs_at(text, needle, at);
        let (a, b) = (text.take(at), text.skip(at + needle.len()));
        assert(text.subrange(at, at + needle.len()) == needle);
        assert(text == a + needle + b);
    }
    if exists|a: Seq<char>, b: Seq<char>| text == #[trigger] (a + needle + b) {
        let (a, b) = choose|a: Seq<char>, b: Seq<char>| text == #[trigger] (a + needle + b);
        assert(text.subrange(a.len() as int, a.len() as int + needle.len()) == needle);
        assert(occurs_at(text, needle, a.len() as int));
    }
    assert forall|at: int| #[trigger] occurs_at(text, needle, at) <==> 0 <= at && at + needle.len()
        <= text.len() && (forall|i: int| 0 <= i < needle.len() ==> #[trigger] needle[i] == text[at
        + i]) by {
        if 0 <= at && at + needle.len() <= text.len() {
            let part = text.subrange(at, at + needle.len());
            assert(forall|i: int| 0 <= i < needle.len() ==> part[i] == text[at + i]);
            if forall|i: int| 0 <= i < needle.len() ==> #[trigger] needle[i] == text[at + i] {
                assert(part =~= needle);
            }
        }
    }
}

/// The decimal notation of a number below ten is its digit. That of any other number is
/// the notation of its tenth part with the digit of what is left over behind it.
pub proof fn decimal_goes_by_tens(n: nat)
    ensures
        n < 10 ==> decimal(n) == seq![(48 + n) as char],
        n >= 10 ==> decimal(n).drop_last() == decimal(n / 10) && decimal(n).last() as int == 48 + n
            % 10,
        decimal(n).len() > 0,
        n > 0 ==> decimal(n)[0] != '0',
    decreases n,
{
    if n >= 10 {
        decimal_goes_by_tens(n / 10);
        assert(decimal(n).drop_last() == decimal(n / 10));
    }
}

} // verus!
