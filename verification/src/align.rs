//! Rounding an offset up to a power-of-two alignment.
use vstd::prelude::*;

verus! {

/// `a` is a power of two (`1, 2, 4, ...`).
pub open spec fn is_power_of_two(a: nat) -> bool
    decreases a,
{
    if a <= 1 {
        a == 1
    } else {
        a % 2 == 0 && is_power_of_two(a / 2)
    }
}

/// `align` is a power of two, as every Rust alignment is.
pub open spec fn is_alignment(align: usize) -> bool {
    is_power_of_two(align as nat)
}

/// The smallest multiple of `align` that is at least `offset`.
pub open spec fn round_up(offset: nat, align: nat) -> nat
    recommends
        align > 0,
{
    if offset % align == 0 {
        offset
    } else {
        (offset + align - offset % align) as nat
    }
}

proof fn lemma_and_split_low_bit(x: usize, m: usize)
    by (bit_vector)
    ensures
        x & m == ((x / 2) & (m / 2)) * 2 + ((x % 2) & (m % 2)),
{
}

proof fn lemma_and_one(x: usize)
    by (bit_vector)
    ensures
        (x % 2) & 1 == x % 2,
        x & 0 == 0,
{
}

proof fn lemma_and_not_is_sub(x: usize, m: usize)
    by (bit_vector)
    ensures
        x & !m == x - (x & m),
{
}

/// With a power of two `a`, masking the low bits is taking the remainder.
proof fn lemma_low_mask_is_mod(x: usize, a: usize)
    requires
        is_power_of_two(a as nat),
    ensures
        x & ((a - 1) as usize) == x % a,
    decreases a,
{
    lemma_and_one(x);
    if a > 1 {
        let h = (a / 2) as usize;
        lemma_low_mask_is_mod(x / 2, h);
        let m = (a - 1) as usize;
        assert(m / 2 == h - 1 && m % 2 == 1);
        lemma_and_split_low_bit(x, m);
        vstd::arithmetic::div_mod::lemma_mod_breakdown(x as int, 2, h as int);
        assert(2 * h == a);
    }
}

proof fn lemma_mask_is_round_down(x: usize, a: usize)
    requires
        is_power_of_two(a as nat),
    ensures
        x & !((a - 1) as usize) == x - x % a,
{
    lemma_low_mask_is_mod(x, a);
    lemma_and_not_is_sub(x, (a - 1) as usize);
}

/// Rounding up lands on a multiple of `align` less than `align` above `offset`.
pub proof fn lemma_round_up(offset: nat, align: nat)
    requires
        align > 0,
    ensures
        round_up(offset, align) % align == 0,
        offset <= round_up(offset, align) < offset + align,
{
    let q = offset / align;
    let r = offset % align;
    vstd::arithmetic::div_mod::lemma_fundamental_div_mod(offset as int, align as int);
    if r != 0 {
        assert(round_up(offset, align) == align * (q + 1)) by (nonlinear_arith)
            requires
                offset == align * q + r,
                round_up(offset, align) == offset + align - r,
        ;
        vstd::arithmetic::div_mod::lemma_mod_multiples_basic((q + 1) as int, align as int);
        assert(((q + 1) * align) == align * (q + 1)) by (nonlinear_arith);
    }
}

/// `(offset + align - 1) & !(align - 1)`: `offset` rounded up to `align`.
pub fn align_up(offset: usize, align: usize) -> (start: usize)
    requires
        is_alignment(align),
        offset + align - 1 <= usize::MAX,
    ensures
        start as nat == round_up(offset as nat, align as nat),
        start % align == 0,
        offset <= start < offset + align,
{
    let x = offset + (align - 1);
    let start = x & !(align - 1);
    proof {
        lemma_mask_is_round_down(x, align);
        assert(start == x - x % align);
        lemma_round_up(offset as nat, align as nat);
        let r = offset % align;
        if r == 0 {
            assert(x % align == align - 1) by {
                vstd::arithmetic::div_mod::lemma_fundamental_div_mod(offset as int, align as int);
                vstd::arithmetic::div_mod::lemma_mod_multiples_vanish((offset / align) as int, (align - 1) as int, align as int);
                vstd::arithmetic::div_mod::lemma_small_mod((align - 1) as nat, align as nat);
            }
        } else {
            assert(x % align == r - 1) by {
                vstd::arithmetic::div_mod::lemma_fundamental_div_mod(offset as int, align as int);
                vstd::arithmetic::div_mod::lemma_mod_multiples_vanish((offset / align + 1) as int, (r - 1) as int, align as int);
                vstd::arithmetic::div_mod::lemma_small_mod((r - 1) as nat, align as nat);
                assert(x == align * (offset / align + 1) + (r - 1)) by (nonlinear_arith)
                    requires
                        x == offset + align - 1,
                        offset == align * (offset / align) + r,
                ;
            }
        }
    }
    start
}

/// Whether `align` is a power of two.
pub fn check_alignment(align: usize) -> (b: bool)
    ensures
        b == is_alignment(align),
{
    let mut a = align;
    while a > 1 && a % 2 == 0
        invariant
            is_power_of_two(a as nat) == is_power_of_two(align as nat),
        decreases a,
    {
        a = a / 2;
    }
    a == 1
}

} // verus!
