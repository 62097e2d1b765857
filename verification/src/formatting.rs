//! Sizes and widths shown by the viewer.
use vstd::prelude::*;
use crate::text::{decimal, digit, digit_char, push_char, push_decimal};

verus! {

/// Number of rows fetched for one preview page.
pub const PAGE_SIZE: u64 = 1000;

/// Narrowest width a table column starts with.
pub const MIN_INITIAL_COLUMN_WIDTH: i32 = 140;

/// Width assumed for a table that is narrower than this (or not laid out yet).
pub const FALLBACK_TABLE_WIDTH: i32 = 960;

/// Integers below this bound are exact as `f64` (2^53).
pub open spec fn f64_exact_bound() -> nat {
    0x20_0000_0000_0000
}

/// The power of two by which `b` is scaled to fit the 53-bit significand of an
/// `f64`: 1 for `b < 2^53`, else the least `p` with `b / p < 2^53`.
pub open spec fn f64_scale(b: nat) -> nat
    decreases b,
{
    if b < f64_exact_bound() {
        1
    } else {
        2 * f64_scale(b / 2)
    }
}

/// The value of `b as f64`: `b` rounded to 53 significant bits, ties to even.
pub open spec fn f64_value(b: nat) -> nat {
    let p = f64_scale(b);
    let q = b / p;
    let r = b % p;
    if 2 * r > p || (2 * r == p && q % 2 == 1) {
        (q + 1) * p
    } else {
        q * p
    }
}

/// 1024 to the power `k`, for the units up to TB.
pub open spec fn unit_divisor(k: nat) -> nat {
    if k == 0 {
        1
    } else if k == 1 {
        1024
    } else if k == 2 {
        1024 * 1024
    } else if k == 3 {
        1024 * 1024 * 1024
    } else {
        1024 * 1024 * 1024 * 1024
    }
}

/// The unit a size of `m` bytes is shown in, counting from `k`: the next unit
/// is taken while the size in the current one is at least 1024, up to TB.
pub open spec fn unit_from(m: nat, k: nat) -> nat
    decreases 4 - k,
{
    if k < 4 && m >= unit_divisor(k + 1) {
        unit_from(m, k + 1)
    } else {
        k
    }
}

/// The size `m / 1024^k` in tenths, rounded to the nearest tenth, ties to even.
pub open spec fn size_tenths(m: nat, k: nat) -> nat {
    let d = unit_divisor(k);
    let n = (m * 10) / d;
    let rem = (m * 10) % d;
    if 2 * rem > d || (2 * rem == d && n % 2 == 1) {
        n + 1
    } else {
        n
    }
}

/// The name of unit `k`: B, KB, MB, GB or TB.
pub open spec fn unit_name(k: nat) -> Seq<char> {
    if k == 0 {
        seq!['B']
    } else if k == 1 {
        seq!['K', 'B']
    } else if k == 2 {
        seq!['M', 'B']
    } else if k == 3 {
        seq!['G', 'B']
    } else {
        seq!['T', 'B']
    }
}

/// A byte count as a size with one decimal in the largest unit, up to TB, in
/// which it is at least 1 (`0.0 B`, `512.0 B`, `1.5 KB`).
pub open spec fn human_size_text(bytes: nat) -> Seq<char> {
    let m = f64_value(bytes);
    let k = unit_from(m, 0);
    let t = size_tenths(m, k);
    decimal(t / 10) + seq!['.', digit(t % 10), ' '] + unit_name(k)
}

/// The width a column starts with: the table width (at least the fallback
/// width) shared among the columns (at least one, at most `i32::MAX`), but
/// never below the minimum column width.
pub open spec fn column_width_of(table_width: int, column_count: int) -> int {
    let count = if column_count > i32::MAX { i32::MAX as int } else { column_count };
    let count = if count < 1 { 1 } else { count };
    let width = if table_width < FALLBACK_TABLE_WIDTH { FALLBACK_TABLE_WIDTH as int } else { table_width };
    let share = width / count;
    if share < MIN_INITIAL_COLUMN_WIDTH { MIN_INITIAL_COLUMN_WIDTH as int } else { share }
}

fn unit_divisor_exec(k: u64) -> (d: u128)
    requires
        k <= 4,
    ensures
        d == unit_divisor(k as nat),
{
    if k == 0 {
        1
    } else if k == 1 {
        1024
    } else if k == 2 {
        1024 * 1024
    } else if k == 3 {
        1024 * 1024 * 1024
    } else {
        1024 * 1024 * 1024 * 1024
    }
}

/// The value of `bytes as f64`, computed without floating point.
fn f64_value_exec(bytes: u64) -> (m: u128)
    ensures
        m == f64_value(bytes as nat),
        m <= 0x2_0000_0000_0000_0000,
{
    let mut q: u64 = bytes;
    let mut p: u64 = 1;
    while q >= 0x20_0000_0000_0000
        invariant
            1 <= p < 4096,
            q == bytes / p,
            f64_scale(bytes as nat) == p * f64_scale(q as nat),
        decreases q,
    {
        proof {
            let x = f64_scale((q / 2) as nat);
            assert(f64_scale(q as nat) == 2 * x);
            assert(p * (2 * x) == (2 * p) * x) by (nonlinear_arith);
            vstd::arithmetic::div_mod::lemma_div_denominator(bytes as int, p as int, 2);
            vstd::arithmetic::div_mod::lemma_fundamental_div_mod(bytes as int, p as int);
            assert(p * q <= bytes);
            assert(p * 0x20_0000_0000_0000 <= p * q) by (nonlinear_arith)
                requires
                    q >= 0x20_0000_0000_0000,
                    p >= 1,
            ;
            assert(p < 2048);
        }
        q = q / 2;
        p = p * 2;
    }
    assert(f64_scale(q as nat) == 1);
    assert(p * 1 == p);
    assert(f64_scale(bytes as nat) == p);
    let r = bytes % p;
    let m: u128 = if 2 * (r as u128) > p as u128 || (2 * (r as u128) == p as u128 && q % 2 == 1) {
        assert((q + 1) * p <= 0x20_0000_0000_0000 * 4096) by (nonlinear_arith)
            requires
                q < 0x20_0000_0000_0000,
                p < 4096,
        ;
        (q as u128 + 1) * (p as u128)
    } else {
        assert(q * p <= 0x20_0000_0000_0000 * 4096) by (nonlinear_arith)
            requires
                q < 0x20_0000_0000_0000,
                p < 4096,
        ;
        (q as u128) * (p as u128)
    };
    m
}

/// The unit index of a size of `m` bytes.
fn unit_index(m: u128) -> (k: u64)
    ensures
        k <= 4,
        k == unit_from(m as nat, 0),
        k < 4 ==> m < unit_divisor((k + 1) as nat),
{
    let mut k: u64 = 0;
    while k < 4 && m >= unit_divisor_exec(k + 1)
        invariant
            k <= 4,
            unit_from(m as nat, 0) == unit_from(m as nat, k as nat),
        decreases 4 - k,
    {
        k = k + 1;
    }
    k
}

/// The size of `m` bytes in unit `k`, in rounded tenths.
fn tenths_in_unit(m: u128, k: u64) -> (t: u64)
    requires
        m <= 0x2_0000_0000_0000_0000,
        k <= 4,
        k < 4 ==> m < unit_divisor((k + 1) as nat),
    ensures
        t == size_tenths(m as nat, k as nat),
{
    let d = unit_divisor_exec(k);
    let n = (m * 10) / d;
    let rem = (m * 10) % d;
    proof {
        if k < 4 {
            assert(m < 1024 * d);
            assert(n < 10240) by (nonlinear_arith)
                requires
                    m < 1024 * d,
                    d >= 1,
                    n == (m * 10) / (d as int),
            ;
        } else {
            assert(d == 0x100_0000_0000);
            assert(n <= 335544320) by (nonlinear_arith)
                requires
                    m <= 0x2_0000_0000_0000_0000,
                    d == 0x100_0000_0000,
                    n == (m * 10) / (d as int),
            ;
        }
        assert(n < 0x1_0000_0000);
        assert(n == (m as nat * 10) / unit_divisor(k as nat));
        assert(rem == (m as nat * 10) % unit_divisor(k as nat));
    }
    if 2 * rem > d || (2 * rem == d && n % 2 == 1) {
        (n + 1) as u64
    } else {
        n as u64
    }
}

/// Appends the name of unit `k`.
fn push_unit_name(out: &mut String, k: u64)
    requires
        k <= 4,
    ensures
        final(out)@ == old(out)@ + unit_name(k as nat),
{
    let ghost start = out@;
    if k == 1 {
        push_char(out, 'K');
    } else if k == 2 {
        push_char(out, 'M');
    } else if k == 3 {
        push_char(out, 'G');
    } else if k == 4 {
        push_char(out, 'T');
    }
    push_char(out, 'B');
    assert(out@ =~= start + unit_name(k as nat));
}

/// Formats a byte count with one decimal in the largest unit, up to TB, in
/// which it is at least 1; the count is first taken as an `f64`, and the
/// decimal is rounded to nearest, ties to even.
pub fn human_size(bytes: u64) -> (r: String)
    ensures
        r@ == human_size_text(bytes as nat),
{
    let m = f64_value_exec(bytes);
    let k = unit_index(m);
    let t = tenths_in_unit(m, k);
    let mut out = String::new();
    push_decimal(&mut out, t / 10);
    push_char(&mut out, '.');
    push_char(&mut out, digit_char(t % 10));
    push_char(&mut out, ' ');
    push_unit_name(&mut out, k);
    assert(out@ =~= human_size_text(bytes as nat));
    out
}

/// The width a table column starts with, for a table of `table_width` pixels
/// showing `column_count` columns.
pub fn initial_column_width(table_width: i32, column_count: usize) -> (w: i32)
    ensures
        w == column_width_of(table_width as int, column_count as int),
        w >= MIN_INITIAL_COLUMN_WIDTH,
{
    let count: i32 = if column_count > 2147483647usize {
        i32::MAX
    } else {
        column_count as i32
    };
    let count: i32 = if count < 1 { 1 } else { count };
    let width: i32 = if table_width < FALLBACK_TABLE_WIDTH { FALLBACK_TABLE_WIDTH } else { table_width };
    let share: i32 = width / count;
    if share < MIN_INITIAL_COLUMN_WIDTH {
        MIN_INITIAL_COLUMN_WIDTH
    } else {
        share
    }
}

/// A size below 1024 bytes is shown as the byte count itself, in B.
pub proof fn lemma_small_size_in_bytes(bytes: nat)
    requires
        bytes < 1024,
    ensures
        human_size_text(bytes) == decimal(bytes) + seq!['.', '0', ' ', 'B'],
{
    assert(f64_scale(bytes) == 1);
    assert(f64_value(bytes) == bytes);
    assert(unit_from(bytes, 0) == 0);
    assert(size_tenths(bytes, 0) == bytes * 10);
    assert((bytes * 10) / 10 == bytes);
    assert((bytes * 10) % 10 == 0);
    assert(digit(0) == '0');
}


/// Where the table is wide enough and the share of each column is at least the
/// minimum, each column starts with its share of the table width.
pub proof fn lemma_column_width_is_share(table_width: int, column_count: int)
    requires
        FALLBACK_TABLE_WIDTH <= table_width,
        1 <= column_count <= i32::MAX,
        table_width / column_count >= MIN_INITIAL_COLUMN_WIDTH,
    ensures
        column_width_of(table_width, column_count) == table_width / column_count,
{
}

/// A column never starts narrower than the minimum, and a narrow table is
/// laid out as if it had the fallback width.
pub proof fn lemma_column_width_bounds(table_width: int, column_count: int)
    ensures
        column_width_of(table_width, column_count) >= MIN_INITIAL_COLUMN_WIDTH,
        table_width < FALLBACK_TABLE_WIDTH ==> column_width_of(table_width, column_count)
            == column_width_of(FALLBACK_TABLE_WIDTH as int, column_count),
        column_count <= 1 ==> column_width_of(table_width, column_count) == column_width_of(
            table_width,
            1,
        ),
{
}


/// A whole number `n` of a unit, from 1 to 1023, is shown as `n.0` in that
/// unit: `n` KB, MB, GB or TB for `k` = 1, 2, 3 or 4.
pub proof fn lemma_whole_units(n: nat, k: nat)
    requires
        1 <= n < 1024,
        1 <= k <= 4,
    ensures
        human_size_text(n * unit_divisor(k)) == decimal(n) + seq!['.', '0', ' '] + if k == 1 {
            seq!['K', 'B']
        } else if k == 2 {
            seq!['M', 'B']
        } else if k == 3 {
            seq!['G', 'B']
        } else {
            seq!['T', 'B']
        },
{
    let d = unit_divisor(k);
    let b = n * d;
    assert(d <= 0x100_0000_0000);
    assert(b < 1024 * 0x100_0000_0000) by (nonlinear_arith)
        requires
            n < 1024,
            d <= 0x100_0000_0000,
            b == n * d,
    ;
    assert(b >= d) by (nonlinear_arith)
        requires
            n >= 1,
            b == n * d,
            d >= 0,
    ;
    assert(f64_scale(b) == 1);
    assert(b / 1 == b && b % 1 == 0);
    assert(f64_value(b) == b);
    if k < 4 {
        assert(b < unit_divisor(k + 1)) by (nonlinear_arith)
            requires
                n < 1024,
                b == n * d,
                unit_divisor(k + 1) == 1024 * d,
        ;
    }
    if k == 1 {
        assert(unit_from(b, 1) == 1);
        assert(unit_from(b, 0) == 1);
    } else if k == 2 {
        assert(unit_from(b, 2) == 2);
        assert(unit_from(b, 1) == 2);
        assert(unit_from(b, 0) == 2);
    } else if k == 3 {
        assert(unit_from(b, 3) == 3);
        assert(unit_from(b, 2) == 3);
        assert(unit_from(b, 1) == 3);
        assert(unit_from(b, 0) == 3);
    } else {
        assert(unit_from(b, 4) == 4);
        assert(unit_from(b, 3) == 4);
        assert(unit_from(b, 2) == 4);
        assert(unit_from(b, 1) == 4);
        assert(unit_from(b, 0) == 4);
    }
    assert((b * 10) / d == n * 10 && (b * 10) % d == 0) by (nonlinear_arith)
        requires
            b == n * d,
            d > 0,
    ;
    assert(size_tenths(b, k) == n * 10);
    assert((n * 10) / 10 == n && (n * 10) % 10 == 0);
}

} // verus!
