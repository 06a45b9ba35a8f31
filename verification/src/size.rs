//! Byte counts in a form that people read.
use crate::text::{decimal, digit, push_decimal};
use vstd::prelude::*;
use vstd::string::*;

verus! {

/// `n / d` rounded to the nearest whole number, a tie to the even one.
pub open spec fn nearest_even(n: nat, d: nat) -> nat
    recommends
        d > 0,
{
    let q = n / d;
    let r = n % d;
    if 2 * r < d || (2 * r == d && q % 2 == 0) {
        q
    } else {
        q + 1
    }
}

/// The power of two between neighbouring numbers with 53 significant bits around `n`.
pub open spec fn grain(n: nat) -> nat
    decreases n,
{
    if n < 0x20_0000_0000_0000 {
        1
    } else {
        2 * grain(n / 2)
    }
}

/// `n` rounded to 53 significant bits, the precision in which sizes are scaled.
pub open spec fn rounded(n: nat) -> nat {
    nearest_even(n, grain(n)) * grain(n)
}

/// How many times a byte count is divided by 1024: until less than 1024 is left, but
/// at most four times, which is terabytes.
pub open spec fn unit_of(bytes: nat) -> int {
    if bytes < 1024 {
        0
    } else if bytes < 0x10_0000 {
        1
    } else if bytes < 0x4000_0000 {
        2
    } else if bytes < 0x100_0000_0000 {
        3
    } else {
        4
    }
}

/// The bytes in one of a unit.
pub open spec fn unit_bytes(unit: int) -> nat {
    if unit == 0 {
        1
    } else if unit == 1 {
        1024
    } else if unit == 2 {
        0x10_0000
    } else if unit == 3 {
        0x4000_0000
    } else {
        0x100_0000_0000
    }
}

/// The abbreviation of a unit.
pub open spec fn unit_name(unit: int) -> Seq<char> {
    if unit == 0 {
        "B"@
    } else if unit == 1 {
        "KB"@
    } else if unit == 2 {
        "MB"@
    } else if unit == 3 {
        "GB"@
    } else {
        "TB"@
    }
}

/// The tenths of its unit that a byte count comes to.
pub open spec fn size_tenths(bytes: nat) -> nat {
    nearest_even(10 * rounded(bytes), unit_bytes(unit_of(bytes)))
}

/// The text that shows a byte count: whole bytes below 1024, one decimal above.
pub open spec fn size_text(bytes: nat) -> Seq<char> {
    if bytes < 1024 {
        decimal(bytes) + " "@ + "B"@
    } else {
        let tenths = size_tenths(bytes);
        decimal(tenths / 10) + "."@ + seq![digit((tenths % 10) as int)] + " "@ + unit_name(
            unit_of(bytes),
        )
    }
}

fn divide_nearest_even(n: u128, d: u128) -> (res: u128)
    requires
        0 < d < 0x8000_0000_0000_0000,
    ensures
        res == nearest_even(n as nat, d as nat),
{
    let q: u128 = n / d;
    let r: u128 = n % d;
    if 2 * r < d || (2 * r == d && q % 2 == 0) {
        q
    } else {
        assert(q < u128::MAX) by (nonlinear_arith)
            requires
                q == n / d,
                r == n % d,
                0 < d,
                2 * r >= d,
                n <= u128::MAX,
        ;
        q + 1
    }
}

fn exec_grain(n: u64) -> (res: u64)
    ensures
        res == grain(n as nat),
        1 <= res <= 2048,
    decreases n,
{
    proof {
        lemma_grain_bound(n as nat);
    }
    if n < 0x20_0000_0000_0000 {
        1
    } else {
        2 * exec_grain(n / 2)
    }
}

proof fn lemma_grain_bound(n: nat)
    requires
        n < 0x1_0000_0000_0000_0000,
    ensures
        1 <= grain(n) <= 2048,
        2048nat % grain(n) == 0,
{
    reveal_with_fuel(grain, 13);
    let g = grain(n);
    assert(2048nat % g == 0) by (nonlinear_arith)
        requires
            g == 1 || g == 2 || g == 4 || g == 8 || g == 16 || g == 32 || g == 64 || g == 128 || g
                == 256 || g == 512 || g == 1024 || g == 2048,
    ;
}

proof fn lemma_nearest_even_near(n: nat, d: nat)
    requires
        d > 0,
    ensures
        2 * (nearest_even(n, d) * d - n) <= d,
        2 * (n - nearest_even(n, d) * d) <= d,
{
    let q = n / d;
    let r = n % d;
    vstd::arithmetic::div_mod::lemma_fundamental_div_mod(n as int, d as int);
    assert(d * q == q * d) by (nonlinear_arith);
    assert((q + 1) * d == q * d + d) by (nonlinear_arith);
}

fn round_to_precision(n: u64) -> (res: u128)
    ensures
        res == rounded(n as nat),
        res <= 2 * 0x1_0000_0000_0000_0000,
{
    let g: u64 = exec_grain(n);
    let steps: u128 = divide_nearest_even(n as u128, g as u128);
    proof {
        lemma_nearest_even_near(n as nat, g as nat);
    }
    steps * (g as u128)
}

/// Shows a byte count in the largest unit of which there is at least one, with one
/// decimal; below 1024 in whole bytes.
pub fn format_size(bytes: u64) -> (res: String)
    ensures
        res@ == size_text(bytes as nat),
{
    let mut res: String = String::new();
    if bytes < 1024 {
        push_decimal(&mut res, bytes);
        res.append(" ");
        res.append("B");
        assert(res@ == size_text(bytes as nat));
        return res;
    }
    let (scale, name): (u128, &str) = if bytes < 0x10_0000 {
        (1024, "KB")
    } else if bytes < 0x4000_0000 {
        (0x10_0000, "MB")
    } else if bytes < 0x100_0000_0000 {
        (0x4000_0000, "GB")
    } else {
        (0x100_0000_0000, "TB")
    };
    let scaled: u128 = 10 * round_to_precision(bytes);
    let tenths: u128 = divide_nearest_even(scaled, scale);
    proof {
        lemma_nearest_even_near(scaled as nat, scale as nat);
        assert(tenths <= 0xffff_ffff_ffff_ffff) by (nonlinear_arith)
            requires
                2 * (tenths * scale - scaled) <= scale,
                scaled <= 20 * 0x1_0000_0000_0000_0000,
                scale >= 1024,
        ;
    }
    push_decimal(&mut res, (tenths / 10) as u64);
    res.append(".");
    push_decimal(&mut res, (tenths % 10) as u64);
    res.append(" ");
    res.append(name);
    assert(res@ == size_text(bytes as nat));
    res
}

proof fn lemma_exact_division(n: nat, d: nat)
    requires
        d > 0,
        n % d == 0,
    ensures
        nearest_even(n, d) == n / d,
        nearest_even(n, d) * d == n,
{
    vstd::arithmetic::div_mod::lemma_fundamental_div_mod(n as int, d as int);
    assert(d * (n / d) == (n / d) * d) by (nonlinear_arith);
}

proof fn lemma_small_is_exact(n: nat)
    requires
        n < 0x20_0000_0000_0000,
    ensures
        rounded(n) == n,
{
    lemma_exact_division(n, 1);
}

/// A whole number of units shows as that number with `.0`. In terabytes this holds
/// for every number, in the smaller units as long as the next one is not reached.
pub proof fn whole_units_show_point_zero(count: nat, unit: int)
    requires
        1 <= unit <= 4,
        count >= 1,
        count * unit_bytes(unit) < 0x1_0000_0000_0000_0000,
        unit < 4 ==> count < 1024,
    ensures
        unit_of(count * unit_bytes(unit)) == unit,
        size_text(count * unit_bytes(unit)) == decimal(count) + "."@ + seq![digit(0)] + " "@
            + unit_name(unit),
{
    let scale = unit_bytes(unit);
    let bytes = count * scale;
    assert(bytes >= scale && (count < 1024 ==> bytes < 1024 * scale)) by (nonlinear_arith)
        requires
            bytes == count * scale,
            count >= 1,
            scale >= 1,
    ;
    if bytes < 0x20_0000_0000_0000 {
        lemma_small_is_exact(bytes);
    } else {
        assert(unit == 4);
        lemma_grain_bound(bytes);
        let g = grain(bytes);
        assert(bytes % g == 0) by {
            vstd::arithmetic::div_mod::lemma_fundamental_div_mod(2048, g as int);
            let k = 2048nat / g;
            assert(bytes == (count * 0x2000_0000 * k) * g) by (nonlinear_arith)
                requires
                    bytes == count * 0x100_0000_0000,
                    2048 == g * k,
            ;
            vstd::arithmetic::div_mod::lemma_mod_multiples_basic(
                (count * 0x2000_0000 * k) as int,
                g as int,
            );
        }
        lemma_exact_division(bytes, g);
    }
    assert(rounded(bytes) == bytes);
    assert(10 * bytes == (10 * count) * scale) by (nonlinear_arith)
        requires
            bytes == count * scale,
    ;
    vstd::arithmetic::div_mod::lemma_mod_multiples_basic((10 * count) as int, scale as int);
    vstd::arithmetic::div_mod::lemma_div_multiples_vanish((10 * count) as int, scale as int);
    assert(scale * (10 * count) == (10 * count) * scale) by (nonlinear_arith);
    lemma_exact_division(10 * bytes, scale);
}

/// The number shown is within half a tenth of its unit of the true size, for every
/// size below 8 PB, the largest that fits the precision.
pub proof fn shown_size_is_near(bytes: nat)
    requires
        1024 <= bytes < 0x20_0000_0000_0000,
    ensures
        2 * (size_tenths(bytes) * unit_bytes(unit_of(bytes)) - 10 * bytes) <= unit_bytes(
            unit_of(bytes),
        ),
        2 * (10 * bytes - size_tenths(bytes) * unit_bytes(unit_of(bytes))) <= unit_bytes(
            unit_of(bytes),
        ),
{
    lemma_small_is_exact(bytes);
    lemma_nearest_even_near(10 * rounded(bytes), unit_bytes(unit_of(bytes)));
}

/// Below a terabyte the number shown lies between 1.0 and 1024.0; in terabytes it is
/// at least 1.0 and grows without a larger unit.
pub proof fn shown_number_fits_its_unit(bytes: nat)
    requires
        1024 <= bytes < 0x1_0000_0000_0000_0000,
    ensures
        size_tenths(bytes) >= 10,
        unit_of(bytes) < 4 ==> size_tenths(bytes) <= 10240,
        bytes >= 0x100_0000_0000 ==> unit_name(unit_of(bytes)) == "TB"@,
{
    let scale = unit_bytes(unit_of(bytes));
    let tenths = size_tenths(bytes);
    lemma_nearest_even_near(10 * rounded(bytes), scale);
    if bytes < 0x20_0000_0000_0000 {
        lemma_small_is_exact(bytes);
    } else {
        lemma_grain_bound(bytes);
        lemma_nearest_even_near(bytes, grain(bytes));
        assert(rounded(bytes) + 1024 >= bytes);
    }
    assert(tenths >= 10) by (nonlinear_arith)
        requires
            2 * (10 * rounded(bytes) - tenths * scale) <= scale,
            rounded(bytes) >= scale,
            scale >= 1,
    ;
    if unit_of(bytes) < 4 {
        assert(tenths <= 10240) by (nonlinear_arith)
            requires
                2 * (tenths * scale - 10 * rounded(bytes)) <= scale,
                rounded(bytes) < 1024 * scale,
                scale >= 1,
        ;
    }
}

/// Numbers with at most 53 significant bits are kept. Any other number goes to the nearest
/// one that has 53, and of two that are as near to the one with the even last bit. `step` is
/// the distance between such numbers where `n` lies.
pub proof fn numbers_keep_their_first_bits(n: nat, step: nat)
    requires
        step == 2 || step == 4 || step == 8 || step == 16 || step == 32 || step == 64 || step == 128
            || step == 256 || step == 512 || step == 1024 || step == 2048,
        step * 0x10_0000_0000_0000 <= n < step * 0x20_0000_0000_0000,
    ensures
        rounded(n) % step == 0,
        2 * (rounded(n) - n) <= step,
        2 * (n - rounded(n)) <= step,
        2 * (rounded(n) - n) == step || 2 * (n - rounded(n)) == step ==> rounded(n) / step % 2 == 0,
        forall|small: nat| small < 0x20_0000_0000_0000 ==> #[trigger] rounded(small) == small,
{
    reveal_with_fuel(grain, 13);
    assert(grain(n) == step);
    lemma_nearest_even_near(n, step);
    lemma_nearest_even_tie(n, step);
    let q = nearest_even(n, step);
    vstd::arithmetic::div_mod::lemma_mod_multiples_basic(q as int, step as int);
    vstd::arithmetic::div_mod::lemma_div_multiples_vanish(q as int, step as int);
    assert(q * step == step * q) by (nonlinear_arith);
    assert forall|small: nat| small < 0x20_0000_0000_0000 implies #[trigger] rounded(small)
        == small by {
        lemma_small_is_exact(small);
    }
}

proof fn lemma_nearest_even_tie(n: nat, d: nat)
    requires
        d > 0,
    ensures
        2 * (nearest_even(n, d) * d - n) == d || 2 * (n - nearest_even(n, d) * d) == d
            ==> nearest_even(n, d) % 2 == 0,
{
    let q = n / d;
    let r = n % d;
    vstd::arithmetic::div_mod::lemma_fundamental_div_mod(n as int, d as int);
    vstd::arithmetic::div_mod::lemma_mod_bound(n as int, d as int);
    assert(d * q == q * d) by (nonlinear_arith);
    assert((q + 1) * d == q * d + d) by (nonlinear_arith);
}

/// A size below 1024 shows as its number of bytes. Any other shows in the largest unit of
/// which there is at least one, but none beyond terabytes: a whole part, a point, one more
/// digit, a space and the unit. Those are the tenths of the unit that are nearest to the
/// size in 53 bits, and of two that are as near the even one.
pub proof fn size_shows_the_nearest_tenth(bytes: nat, unit: nat, name: Seq<char>)
    requires
        (unit == 1024 && name == seq!['K', 'B']) || (unit == 1024 * 1024 && name == seq!['M', 'B'])
            || (unit == 1024 * 1024 * 1024 && name == seq!['G', 'B']) || (unit == 1024 * 1024 * 1024
            * 1024 && name == seq!['T', 'B']),
        unit <= bytes,
        bytes < 1024 * unit || unit == 1024 * 1024 * 1024 * 1024,
    ensures
        exists|tenths: nat|
            {
                &&& size_text(bytes) == #[trigger] decimal(tenths / 10) + seq![
                    '.',
                    (48 + tenths % 10) as char,
                    ' ',
                ] + name
                &&& 2 * (tenths * unit - 10 * rounded(bytes)) <= unit
                &&& 2 * (10 * rounded(bytes) - tenths * unit) <= unit
                &&& 2 * (tenths * unit - 10 * rounded(bytes)) == unit || 2 * (10 * rounded(bytes)
                    - tenths * unit) == unit ==> tenths % 2 == 0
            },
{
    reveal_strlit(".");
    reveal_strlit(" ");
    reveal_strlit("KB");
    reveal_strlit("MB");
    reveal_strlit("GB");
    reveal_strlit("TB");
    let tenths = size_tenths(bytes);
    assert(unit_bytes(unit_of(bytes)) == unit);
    assert(unit_name(unit_of(bytes)) == name);
    lemma_nearest_even_near(10 * rounded(bytes), unit);
    lemma_nearest_even_tie(10 * rounded(bytes), unit);
    assert(size_text(bytes) == decimal(tenths / 10) + seq![
        '.',
        (48 + tenths % 10) as char,
        ' ',
    ] + name);
}

/// A size below 1024 shows as its number of bytes.
pub proof fn small_size_shows_its_bytes(bytes: nat)
    requires
        bytes < 1024,
    ensures
        size_text(bytes) == decimal(bytes) + seq![' ', 'B'],
{
    reveal_strlit(" ");
    reveal_strlit("B");
    assert(size_text(bytes) == decimal(bytes) + seq![' ', 'B']);
}

} // verus!
