//! The index side of a radix-2 transform: which entries change places, and which entries each
//! butterfly combines. The host does the arithmetic on the entries.

use vstd::arithmetic::power2::{lemma_pow2_pos, lemma_pow2_unfold, pow2};
use vstd::prelude::*;

verus! {

/// `n` is a power of two.
pub open spec fn power_of_two(n: nat) -> bool {
    exists|bits: nat| n == #[trigger] pow2(bits)
}

/// The lowest `bits` bits of `i`, in reverse order.
pub open spec fn reversed(i: nat, bits: nat) -> nat
    decreases bits,
{
    if bits == 0 {
        0
    } else {
        (i % 2) * pow2((bits - 1) as nat) + reversed(i / 2, (bits - 1) as nat)
    }
}

proof fn lemma_reversed_bound(i: nat, bits: nat)
    ensures
        reversed(i, bits) < pow2(bits),
    decreases bits,
{
    lemma_pow2_pos(bits);
    if bits > 0 {
        lemma_reversed_bound(i / 2, (bits - 1) as nat);
        lemma_pow2_unfold(bits);
        let half = pow2((bits - 1) as nat);
        assert((i % 2) * half <= half) by (nonlinear_arith)
            requires
                i % 2 <= 1,
        ;
    }
}

/// The reversal of a number whose lowest bit is split off at the other end.
proof fn lemma_reversed_high(i: nat, top: nat, bits: nat)
    requires
        i < pow2(bits),
        top <= 1,
    ensures
        reversed((top * pow2(bits) + i) as nat, bits + 1) == 2 * reversed(i, bits) + top,
    decreases bits,
{
    lemma_pow2_pos(bits);
    reveal_with_fuel(reversed, 2);
    if bits == 0 {
        lemma2_small();
        assert(top * pow2(0) == top) by (nonlinear_arith)
            requires
                pow2(0) == 1,
        ;
        assert((top % 2) * pow2(0) == top) by (nonlinear_arith)
            requires
                pow2(0) == 1,
                top % 2 == top,
        ;
        assert(reversed(top, 1) == (top % 2) * pow2(0) + reversed(top / 2, 0));
    } else {
        lemma_pow2_unfold(bits);
        let low = pow2((bits - 1) as nat);
        let whole = (top * pow2(bits) + i) as nat;
        assert(whole == 2 * (top * low) + i) by (nonlinear_arith)
            requires
                whole == top * pow2(bits) + i,
                pow2(bits) == 2 * low,
        ;
        assert(whole % 2 == i % 2);
        assert(whole / 2 == top * low + i / 2);
        lemma_reversed_high(i / 2, top, (bits - 1) as nat);
        assert(reversed(whole, bits + 1) == (whole % 2) * pow2(bits) + reversed(whole / 2, bits));
        assert((i % 2) * pow2(bits) == 2 * ((i % 2) * low)) by (nonlinear_arith)
            requires
                pow2(bits) == 2 * low,
        ;
    }
}

proof fn lemma2_small()
    ensures
        pow2(0) == 1,
{
    vstd::arithmetic::power2::lemma2_to64();
}

/// Reversing twice gives the number back, so that exchanging each entry with its reversed partner,
/// once per pair, puts every entry where the reversal says.
pub proof fn reversal_is_undone_by_itself(i: nat, bits: nat)
    requires
        i < pow2(bits),
    ensures
        reversed(reversed(i, bits), bits) == i,
        reversed(i, bits) < pow2(bits),
    decreases bits,
{
    lemma_reversed_bound(i, bits);
    if bits == 0 {
        lemma2_small();
    } else {
        let b = (bits - 1) as nat;
        lemma_pow2_unfold(bits);
        reversal_is_undone_by_itself(i / 2, b);
        lemma_reversed_high(reversed(i / 2, b), i % 2, b);
    }
}

/// The number of bits of the power of two `n`.
fn bits_of(n: usize) -> (r: u32)
    requires
        power_of_two(n as nat),
    ensures
        n == pow2(r as nat),
        r < 64,
{
    let ghost bits = choose|bits: nat| n == #[trigger] pow2(bits);
    let mut m: usize = n;
    let mut r: u32 = 0;
    proof {
        lemma_pow2_pos(bits);
        lemma2_small();
        assert(m * pow2(0) == n) by (nonlinear_arith)
            requires
                pow2(0) == 1,
                m == n,
        ;
    }
    while m > 1
        invariant
            r <= bits,
            n == pow2(bits),
            m == pow2((bits - r) as nat),
            r + (if m > 1 { 1int } else { 0int }) <= 64,
            m * pow2(r as nat) <= usize::MAX,
            m >= 1,
            m * pow2(r as nat) == n,
            r < 64,
        decreases m,
    {
        proof {
            lemma2_small();
            lemma_pow2_unfold((bits - r) as nat);
            lemma_pow2_unfold((r + 1) as nat);
            let p = pow2(r as nat);
            assert((m / 2) * (2 * p) == m * p) by (nonlinear_arith)
                requires
                    m % 2 == 0,
            ;
            vstd::arithmetic::power2::lemma2_to64();
            if r + 1 >= 64 {
                lemma_pow2_grows(64, (r + 1) as nat);
                assert((m / 2) * pow2((r + 1) as nat) >= pow2((r + 1) as nat)) by (nonlinear_arith)
                    requires
                        m / 2 >= 1,
                ;
            }
        }
        m = m / 2;
        r = r + 1;
    }
    proof {
        lemma2_small();
        if bits - r > 0 {
            lemma_pow2_unfold((bits - r) as nat);
            lemma_pow2_pos((bits - r - 1) as nat);
        }
    }
    r
}

proof fn lemma_pow2_grows(a: nat, b: nat)
    requires
        a <= b,
    ensures
        pow2(a) <= pow2(b),
    decreases b - a,
{
    if a < b {
        lemma_pow2_grows(a, (b - 1) as nat);
        lemma_pow2_unfold(b);
    }
}

fn reverse(i: usize, bits: u32) -> (r: usize)
    requires
        bits < 64,
        pow2(bits as nat) <= usize::MAX,
    ensures
        r == reversed(i as nat, bits as nat),
    decreases bits,
{
    if bits == 0 {
        return 0;
    }
    proof {
        lemma_pow2_unfold(bits as nat);
        lemma_reversed_bound(i as nat, bits as nat);
        lemma_pow2_pos((bits - 1) as nat);
    }
    let rest: usize = reverse(i / 2, bits - 1);
    if i % 2 == 0 {
        assert((i as nat % 2) * pow2((bits - 1) as nat) == 0) by (nonlinear_arith)
            requires
                i as nat % 2 == 0,
        ;
        rest
    } else {
        assert((i as nat % 2) * pow2((bits - 1) as nat) == pow2((bits - 1) as nat)) by (nonlinear_arith)
            requires
                i as nat % 2 == 1,
        ;
        let half: usize = power(bits - 1);
        half + rest
    }
}

fn power(bits: u32) -> (r: usize)
    requires
        pow2(bits as nat) <= usize::MAX,
    ensures
        r == pow2(bits as nat),
    decreases bits,
{
    if bits == 0 {
        proof {
            lemma2_small();
        }
        return 1;
    }
    proof {
        lemma_pow2_unfold(bits as nat);
    }
    2 * power(bits - 1)
}

/// Where each entry of a transform of `n` entries goes: the bits of its index in reverse order.
pub fn bit_reversal(n: usize) -> (r: Vec<usize>)
    requires
        power_of_two(n as nat),
    ensures
        r@.len() == n,
        exists|bits: nat|
            n == #[trigger] pow2(bits) && forall|i: int|
                0 <= i < n ==> #[trigger] r@[i] == reversed(i as nat, bits) && r@[i] < n,
{
    let bits: u32 = bits_of(n);
    let mut out: Vec<usize> = Vec::new();
    let mut i: usize = 0;
    while i < n
        invariant
            i <= n,
            n == pow2(bits as nat),
            bits < 64,
            out@.len() == i,
            forall|k: int|
                0 <= k < i ==> #[trigger] out@[k] == reversed(k as nat, bits as nat) && out@[k] < n,
        decreases n - i,
    {
        proof {
            lemma_reversed_bound(i as nat, bits as nat);
        }
        out.push(reverse(i, bits));
        i = i + 1;
    }
    out
}

/// One butterfly: the two entries that it combines, and the place of its factor in a table of half
/// as many factors as there are entries.
#[derive(Clone, Copy, Debug, PartialEq, Eq, Structural)]
pub struct Butterfly {
    pub a: usize,
    pub b: usize,
    pub twiddle: usize,
}

/// Butterfly `i` of the stage that combines blocks of `2 * half` entries, of `n` in all.
pub open spec fn butterfly(n: nat, half: nat, i: nat) -> (int, int, int) {
    let a = 2 * half * (i / half) + i % half;
    (a as int, (a + half) as int, ((i % half) * (n / (2 * half))) as int)
}

/// The butterflies of one stage.
pub fn stage(n: usize, half: usize) -> (r: Vec<Butterfly>)
    requires
        half > 0,
        n > 0,
        n % ((2 * half) as usize) == 0,
        2 * half <= n,
    ensures
        r@.len() == n / 2,
        forall|i: int|
            0 <= i < r@.len() ==> {
                let f = #[trigger] r@[i];
                &&& (f.a as int, f.b as int, f.twiddle as int) == butterfly(n as nat, half as nat, i as nat)
                &&& f.a < f.b < n
                &&& f.twiddle < n / 2
            },
{
    let len: usize = 2 * half;
    let step: usize = n / len;
    let mut out: Vec<Butterfly> = Vec::new();
    let mut start: usize = 0;
    let mut block: usize = 0;
    proof {
        assert(n == len * step) by (nonlinear_arith)
            requires
                n % len == 0,
                len > 0,
                step == n / len,
        ;
        assert(half * step * 2 == n) by (nonlinear_arith)
            requires
                n == len * step,
                len == 2 * half,
        ;
    }
    while block < step
        invariant
            block <= step,
            len == 2 * half,
            half > 0,
            n == len * step,
            half * step * 2 == n,
            step == n / len,
            start == len * block,
            start <= n,
            out@.len() == half * block,
            forall|i: int|
                0 <= i < out@.len() ==> {
                    let f = #[trigger] out@[i];
                    &&& (f.a as int, f.b as int, f.twiddle as int) == butterfly(
                        n as nat,
                        half as nat,
                        i as nat,
                    )
                    &&& f.a < f.b < n
                    &&& f.twiddle < n / 2
                },
        decreases step - block,
    {
        assert(len * (block + 1) == start + len && len * (block + 1) <= n) by (nonlinear_arith)
            requires
                start == len * block,
                block + 1 <= step,
                n == len * step,
        ;
        let mut k: usize = 0;
        while k < half
            invariant
                k <= half,
                block < step,
                len == 2 * half,
                half > 0,
                n == len * step,
                half * step * 2 == n,
                step == n / len,
                start == len * block,
                start + len <= n,
                out@.len() == half * block + k,
                forall|i: int|
                    0 <= i < out@.len() ==> {
                        let f = #[trigger] out@[i];
                        &&& (f.a as int, f.b as int, f.twiddle as int) == butterfly(
                            n as nat,
                            half as nat,
                            i as nat,
                        )
                        &&& f.a < f.b < n
                        &&& f.twiddle < n / 2
                    },
            decreases half - k,
        {
            proof {
                let i = half * block + k;
                assert(half * block == block * half) by (nonlinear_arith);
                vstd::arithmetic::div_mod::lemma_fundamental_div_mod_converse(
                    i as int,
                    half as int,
                    block as int,
                    k as int,
                );
                assert(k * step < half * step) by (nonlinear_arith)
                    requires
                        k < half,
                        step > 0,
                ;
                assert(2 * half * block == start) by (nonlinear_arith)
                    requires
                        start == len * block,
                        len == 2 * half,
                ;
            }
            out.push(Butterfly { a: start + k, b: start + k + half, twiddle: k * step });
            k = k + 1;
        }
        proof {
            assert(half * (block + 1) == half * block + half) by (nonlinear_arith);
        }
        start = start + len;
        block = block + 1;
    }
    proof {
        assert(half * step == n / 2);
    }
    out
}

/// In one stage every entry takes part in exactly one butterfly.
pub proof fn a_stage_touches_every_entry_once(n: nat, half: nat, e: nat)
    requires
        half > 0,
        n % (2 * half) == 0,
        e < n,
    ensures
        ({
            let i = half * (e / (2 * half)) + e % half;
            let (a, b, w) = butterfly(n, half, i);
            &&& i < n / 2
            &&& e == if e % (2 * half) < half { a } else { b }
        }),
{
    let len = 2 * half;
    let q = e / len;
    let r = e % len;
    let k = e % half;
    let i = (half * q + k) as nat;
    assert(e == len * q + r) by (nonlinear_arith)
        requires
            len > 0,
            q == e / len,
            r == e % len,
    ;
    assert(r < len) by (nonlinear_arith)
        requires
            r == e % len,
            len > 0,
    ;
    assert(len * q == (2 * q) * half && half * q == q * half) by (nonlinear_arith)
        requires
            len == 2 * half,
    ;
    if r < half {
        vstd::arithmetic::div_mod::lemma_fundamental_div_mod_converse(
            e as int,
            half as int,
            (2 * q) as int,
            r as int,
        );
    } else {
        assert((2 * q + 1) * half == (2 * q) * half + half) by (nonlinear_arith);
        vstd::arithmetic::div_mod::lemma_fundamental_div_mod_converse(
            e as int,
            half as int,
            (2 * q + 1) as int,
            r - half,
        );
    }
    assert(k < half) by (nonlinear_arith)
        requires
            k == e % half,
            half > 0,
    ;
    vstd::arithmetic::div_mod::lemma_fundamental_div_mod_converse(
        i as int,
        half as int,
        q as int,
        k as int,
    );
    let step = n / len;
    assert(n == len * step) by (nonlinear_arith)
        requires
            n % len == 0,
            len > 0,
            step == n / len,
    ;
    assert(q < step) by (nonlinear_arith)
        requires
            e == len * q + r,
            e < len * step,
            r >= 0,
            len > 0,
    ;
    assert(half * q + k < half * step && 2 * (half * step) == n) by (nonlinear_arith)
        requires
            q + 1 <= step,
            k < half,
            n == len * step,
            len == 2 * half,
    ;
}

/// The size of the transform that correlates a signal with one of `reference` entries: the least
/// power of two that holds the longer one, and at least two.
pub fn transform_size(reference: usize) -> (r: usize)
    requires
        reference <= usize::MAX / 2,
    ensures
        power_of_two(r as nat),
        r >= 2,
        r >= reference,
        r == 2 || r / 2 < reference,
{
    let mut size: usize = 2;
    let ghost mut bits: nat = 1;
    proof {
        vstd::arithmetic::power2::lemma2_to64();
    }
    while size < reference
        invariant
            size >= 2,
            size == pow2(bits),
            reference <= usize::MAX / 2,
            size == 2 || size / 2 < reference,
        decreases 2 * reference - size,
    {
        proof {
            lemma_pow2_unfold(bits + 1);
            bits = bits + 1;
        }
        size = 2 * size;
    }
    size
}

/// Bit `k` of a reversed number is the bit of the number that lies as far from the other end.
pub proof fn bits_come_out_in_reverse_order(i: nat, bits: nat, k: nat)
    requires
        k < bits,
    ensures
        reversed(i, bits) as int / pow2(k) as int % 2 == i as int / pow2((bits - 1 - k) as nat) as int % 2,
    decreases bits,
{
    let b = (bits - 1) as nat;
    let half = pow2(b);
    let rest = reversed(i / 2, b);
    lemma_pow2_pos(b);
    lemma_pow2_pos(k);
    lemma_reversed_bound(i / 2, b);
    lemma2_small();
    if k == b {
        assert(reversed(i, bits) as int / half as int == i as int % 2) by {
            let q = (i % 2) as int;
            assert(q * half == (i % 2) * half);
            vstd::arithmetic::div_mod::lemma_fundamental_div_mod_converse(
                reversed(i, bits) as int,
                half as int,
                q,
                rest as int,
            );
        }
        assert(i as int / 1 == i);
    } else {
        bits_come_out_in_reverse_order(i / 2, b, k);
        let step = pow2(k);
        // The top bit is a multiple of twice the step.
        let more = (b - k - 1) as nat;
        vstd::arithmetic::power2::lemma_pow2_adds((k + 1) as nat, more);
        lemma_pow2_unfold((k + 1) as nat);
        let m = (i % 2) * pow2(more);
        assert((i % 2) * half == step * (2 * m)) by (nonlinear_arith)
            requires
                half == (2 * step) * pow2(more),
                m == (i % 2) * pow2(more),
        ;
        vstd::arithmetic::div_mod::lemma_hoist_over_denominator(rest as int, 2 * m as int, step);
        assert(rest + (2 * m) * step == reversed(i, bits)) by (nonlinear_arith)
            requires
                reversed(i, bits) == (i % 2) * half + rest,
                (i % 2) * half == step * (2 * m),
        ;
        assert(reversed(i, bits) as int / step as int == rest as int / step as int + 2 * m);
        // One more halving of the number.
        lemma_pow2_unfold((bits - 1 - k) as nat);
        let low = pow2((b - 1 - k) as nat);
        lemma_pow2_pos((b - 1 - k) as nat);
        vstd::arithmetic::div_mod::lemma_div_denominator(i as int, 2, low as int);
    }
}

/// A butterfly joins an entry of the first half of its block with the one `half` places behind it,
/// and its factor stands as far into the table as the entry stands into the block, in proportion.
pub proof fn a_butterfly_joins_the_halves_of_its_block(n: nat, half: nat, i: nat)
    requires
        half > 0,
        n > 0,
        n % (2 * half) == 0,
        i < n / 2,
    ensures
        ({
            let (a, b, w) = butterfly(n, half, i);
            &&& b == a + half
            &&& a % (2 * half as int) < half
            &&& w * (2 * half) == (a % (2 * half as int)) * n
        }),
{
    let len = 2 * half as int;
    let (a, b, w) = butterfly(n, half, i);
    let q = (i / half) as int;
    let k = (i % half) as int;
    assert(0 <= k < half) by (nonlinear_arith)
        requires
            k == i % half,
            half > 0,
    ;
    assert(2 * half * (i / half) == q * len) by (nonlinear_arith)
        requires
            q == i / half,
            len == 2 * half,
    ;
    vstd::arithmetic::div_mod::lemma_fundamental_div_mod_converse(a, len, q, k);
    let step = n / (2 * half);
    assert(n == len * step) by (nonlinear_arith)
        requires
            n % (2 * half) == 0,
            half > 0,
            step == n / (2 * half),
            len == 2 * half,
    ;
    assert(w * (2 * half) == k * n) by (nonlinear_arith)
        requires
            w == k * step,
            n == len * step,
            len == 2 * half,
    ;
}

} // verus!
