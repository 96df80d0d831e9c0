//! The two position counters of a ring, and where a position falls in the
//! data region.
//!
//! A counter says how many bytes were ever written, or ever read. It only
//! grows, and wraps at 2^64. The byte at position `p` is stored at offset
//! `p % capacity`; because the capacity is a power of two, and so divides
//! 2^64, that offset is the same whether or not the counter has wrapped.

use vstd::arithmetic::div_mod::{
    lemma_fundamental_div_mod, lemma_fundamental_div_mod_converse, lemma_mod_multiples_basic,
};
use vstd::prelude::*;

verus! {

/// `n` is 1, 2, 4, 8, ...
pub open spec fn is_power_of_two(n: int) -> bool
    decreases n,
{
    n == 1 || (n > 1 && n % 2 == 0 && is_power_of_two(n / 2))
}

/// The value at which a position counter wraps: 2^64.
pub open spec fn counter_modulus() -> int {
    0x1_0000_0000_0000_0000
}

/// The position `bytes` further on than `pos`, as the counter holds it.
pub open spec fn advance(pos: u64, bytes: int) -> u64 {
    ((pos + bytes) % counter_modulus()) as u64
}

/// How many bytes were written and not yet read.
pub open spec fn used_bytes(read_pos: u64, write_pos: u64) -> int {
    (write_pos - read_pos) % counter_modulus()
}

/// The offset that lies `i` bytes after offset `start` in a region of `n`
/// bytes, going round at the end.
pub open spec fn slot(n: int, start: int, i: int) -> int {
    if start + i < n {
        start + i
    } else {
        start + i - n
    }
}

/// A power of two divides every power of two that is not smaller.
pub proof fn lemma_power_of_two_divides(n: int, m: int)
    requires
        is_power_of_two(n),
        is_power_of_two(m),
        n <= m,
    ensures
        m % n == 0,
    decreases n,
{
    if n > 1 {
        lemma_power_of_two_divides(n / 2, m / 2);
        let half_n = n / 2;
        let half_m = m / 2;
        let q = half_m / half_n;
        lemma_fundamental_div_mod(half_m, half_n);
        assert(half_m == half_n * q);
        assert(m == q * n) by (nonlinear_arith)
            requires
                m == 2 * half_m,
                n == 2 * half_n,
                half_m == half_n * q,
        ;
        lemma_mod_multiples_basic(q, n);
    }
}

/// 2^64 is a power of two.
pub proof fn lemma_counter_modulus_is_power_of_two()
    ensures
        is_power_of_two(counter_modulus()),
{
    reveal_with_fuel(is_power_of_two, 66);
}

/// Where a position falls in the region does not depend on whether the
/// counter has wrapped.
pub proof fn lemma_wrapped_offset(n: int, pos: int)
    requires
        is_power_of_two(n),
        n <= counter_modulus(),
        0 <= pos,
    ensures
        (pos % counter_modulus()) % n == pos % n,
{
    lemma_counter_modulus_is_power_of_two();
    lemma_power_of_two_divides(n, counter_modulus());
    let big = counter_modulus();
    let k = big / n;
    lemma_fundamental_div_mod(big, n);
    assert(big == n * k);
    let q = pos / big;
    let r = pos % big;
    lemma_fundamental_div_mod(pos, big);
    let q2 = r / n;
    let r2 = r % n;
    lemma_fundamental_div_mod(r, n);
    assert(pos == (q * k + q2) * n + r2) by (nonlinear_arith)
        requires
            pos == big * q + r,
            big == n * k,
            r == n * q2 + r2,
    ;
    lemma_fundamental_div_mod_converse(pos, n, q * k + q2, r2);
}

/// Going `i` bytes on from a position lands on the slot `i` after the
/// position's own.
pub proof fn lemma_position_slot(n: int, pos: int, i: int)
    requires
        0 < n,
        0 <= pos,
        0 <= i <= n,
    ensures
        (pos + i) % n == slot(n, pos % n, i),
        0 <= slot(n, pos % n, i) < n,
{
    let q = pos / n;
    let r = pos % n;
    lemma_fundamental_div_mod(pos, n);
    if r + i < n {
        assert(pos + i == q * n + (r + i)) by (nonlinear_arith)
            requires
                pos == n * q + r,
        ;
        lemma_fundamental_div_mod_converse(pos + i, n, q, r + i);
    } else {
        assert(pos + i == (q + 1) * n + (r + i - n)) by (nonlinear_arith)
            requires
                pos == n * q + r,
        ;
        lemma_fundamental_div_mod_converse(pos + i, n, q + 1, r + i - n);
    }
}

/// Two positions that agree as counters fall on the same offset.
pub proof fn lemma_same_offset(n: int, a: int, b: int)
    requires
        is_power_of_two(n),
        n <= counter_modulus(),
        0 <= a,
        0 <= b,
        a % counter_modulus() == b % counter_modulus(),
    ensures
        a % n == b % n,
{
    lemma_wrapped_offset(n, a);
    lemma_wrapped_offset(n, b);
}

/// Writing `bytes` more moves the write counter on and leaves the read
/// counter that far behind.
pub proof fn lemma_used_after_write(read_pos: u64, write_pos: u64, bytes: int)
    requires
        0 <= bytes,
        used_bytes(read_pos, write_pos) + bytes < counter_modulus(),
    ensures
        used_bytes(read_pos, advance(write_pos, bytes)) == used_bytes(read_pos, write_pos) + bytes,
{
}

/// Reading `bytes` moves the read counter on and brings it that much
/// closer to the write counter.
pub proof fn lemma_used_after_read(read_pos: u64, write_pos: u64, bytes: int)
    requires
        0 <= bytes <= used_bytes(read_pos, write_pos),
    ensures
        used_bytes(advance(read_pos, bytes), write_pos) == used_bytes(read_pos, write_pos) - bytes,
{
}

/// The byte `i` places after a position that lies `behind` bytes after the
/// read position is stored on the slot `behind + i` after the read
/// position's own, also where a counter has wrapped.
pub proof fn lemma_offset_from_read(n: int, read_pos: u64, pos: u64, behind: int, i: int)
    requires
        is_power_of_two(n),
        n <= counter_modulus(),
        0 <= behind,
        0 <= i,
        behind + i <= n,
        pos == advance(read_pos, behind),
    ensures
        (pos + i) % n == slot(n, read_pos as int % n, behind + i),
        0 <= (pos + i) % n < n,
{
    assert((pos + i) % counter_modulus() == (read_pos + behind + i) % counter_modulus());
    lemma_same_offset(n, pos + i, read_pos + behind + i);
    lemma_position_slot(n, read_pos as int, behind + i);
}

/// Tells whether `n` is a power of two.
pub fn check_power_of_two(n: usize) -> (b: bool)
    ensures
        b == is_power_of_two(n as int),
{
    if n == 0 {
        return false;
    }
    let mut m: usize = n;
    while m % 2 == 0
        invariant
            m > 0,
            is_power_of_two(m as int) == is_power_of_two(n as int),
        decreases m,
    {
        m = m / 2;
    }
    m == 1
}

} // verus!
