//! Powers of two, logarithms and bit reversal.
use vstd::arithmetic::power2::*;
use vstd::bits::*;
use vstd::prelude::*;

verus! {

/// The base-two logarithm of `n`, rounded down; zero for zero.
pub open spec fn log2(n: nat) -> nat
    decreases n,
{
    if n <= 1 {
        0
    } else {
        1 + log2(n / 2)
    }
}

/// `n` is a power of two.
pub open spec fn is_power_of_two(n: nat) -> bool {
    n == pow2(log2(n))
}

/// The number whose `bits` low bits are those of `i` in reverse order.
pub open spec fn bit_reversed(i: nat, bits: nat) -> nat
    decreases bits,
{
    if bits == 0 {
        0
    } else {
        (i % 2) * pow2((bits - 1) as nat) + bit_reversed(i / 2, (bits - 1) as nat)
    }
}

/// The items of `s`, each moved to the reversal of its index.
pub open spec fn bit_reversed_seq<T>(s: Seq<T>) -> Seq<T> {
    Seq::new(s.len(), |i: int| s[bit_reversed(i as nat, log2(s.len())) as int])
}

/// The logarithm brackets its argument between two neighbouring powers of two.
pub proof fn lemma_log2_bounds(n: nat)
    requires
        n > 0,
    ensures
        pow2(log2(n)) <= n < 2 * pow2(log2(n)),
    decreases n,
{
    if n == 1 {
        lemma2_to64();
    } else {
        lemma_log2_bounds(n / 2);
        lemma_pow2_unfold(log2(n));
    }
}

/// The logarithm of a power of two is its exponent.
pub proof fn lemma_log2_of_pow2(k: nat)
    ensures
        log2(pow2(k)) == k,
        is_power_of_two(pow2(k)),
    decreases k,
{
    lemma_pow2_pos(k);
    if k == 0 {
        lemma2_to64();
    } else {
        lemma_log2_of_pow2((k - 1) as nat);
        lemma_pow2_unfold(k);
        lemma_pow2_pos((k - 1) as nat);
    }
}

/// A reversed index stays within the range of indices.
pub proof fn lemma_bit_reversed_bound(i: nat, bits: nat)
    ensures
        bit_reversed(i, bits) < pow2(bits),
    decreases bits,
{
    if bits == 0 {
        lemma2_to64();
    } else {
        lemma_bit_reversed_bound(i / 2, (bits - 1) as nat);
        lemma_pow2_unfold(bits);
        let half = pow2((bits - 1) as nat);
        assert((i % 2) * half == 0 || (i % 2) * half == half) by (nonlinear_arith)
            requires
                i % 2 == 0 || i % 2 == 1,
        ;
    }
}

/// The top bit of an index becomes the low bit of its reversal.
proof fn lemma_bit_reversed_top(top: nat, i: nat, bits: nat)
    requires
        top < 2,
        i < pow2(bits),
    ensures
        bit_reversed(top * pow2(bits) + i, bits + 1) == 2 * bit_reversed(i, bits) + top,
    decreases bits,
{
    lemma2_to64();
    if bits == 0 {
        assert(top * pow2(0) + i == top);
        assert(top % 2 == top);
        reveal_with_fuel(bit_reversed, 2);
        assert((top % 2) * pow2(0) == top);
    } else {
        let low = (bits - 1) as nat;
        lemma_pow2_unfold(bits);
        let half = pow2(low);
        let whole = top * pow2(bits) + i;
        assert(top * pow2(bits) == 2 * (top * half)) by (nonlinear_arith)
            requires
                pow2(bits) == 2 * half,
        ;
        assert(whole % 2 == i % 2 && whole / 2 == top * half + i / 2);
        lemma_bit_reversed_top(top, i / 2, low);
        assert((i % 2) * pow2(bits) == 2 * ((i % 2) * half)) by (nonlinear_arith)
            requires
                pow2(bits) == 2 * half,
        ;
        assert(bit_reversed(whole, bits + 1) == (whole % 2) * pow2(bits) + bit_reversed(
            whole / 2,
            bits,
        ));
    }
}

/// Reversing the bits of an index twice gives the index back.
pub proof fn lemma_bit_reversed_involution(i: nat, bits: nat)
    requires
        i < pow2(bits),
    ensures
        bit_reversed(bit_reversed(i, bits), bits) == i,
    decreases bits,
{
    if bits == 0 {
        lemma2_to64();
    } else {
        let low = (bits - 1) as nat;
        lemma_pow2_unfold(bits);
        lemma_bit_reversed_involution(i / 2, low);
        lemma_bit_reversed_bound(i / 2, low);
        lemma_bit_reversed_top(i % 2, bit_reversed(i / 2, low), low);
    }
}

/// Bit reversal undoes itself: reordering a sequence twice gives the sequence back.
pub proof fn law_bit_reversal_involution<T>(s: Seq<T>)
    requires
        is_power_of_two(s.len()),
    ensures
        bit_reversed_seq(bit_reversed_seq(s)) == s,
{
    let once = bit_reversed_seq(s);
    let bits = log2(s.len());
    assert forall|i: int| 0 <= i < s.len() implies bit_reversed_seq(once)[i] == s[i] by {
        lemma_bit_reversed_bound(i as nat, bits);
        lemma_bit_reversed_involution(i as nat, bits);
    }
}

/// A power of two that is a machine word has an exponent below the word's width.
pub proof fn lemma_pow2_fits(k: nat)
    requires
        pow2(k) <= usize::MAX,
    ensures
        k < usize::BITS,
{
    lemma_log2_of_pow2(k);
    lemma_pow2_pos(k);
    lemma_log2_below_bits(pow2(k) as usize);
}

/// `2^k` as a machine word.
pub fn pow2_usize(k: u32) -> (r: usize)
    requires
        k < usize::BITS,
    ensures
        r == pow2(k as nat),
        r > 0,
{
    proof {
        lemma_usize_pow2_no_overflow(k as nat);
        lemma_usize_shl_is_mul(1usize, k as usize);
        lemma_pow2_pos(k as nat);
    }
    1usize << (k as usize)
}

/// The base-two logarithm of a positive number, rounded down.
pub fn ilog2(n: usize) -> (r: u32)
    requires
        n > 0,
    ensures
        r == log2(n as nat),
        r < usize::BITS,
        pow2(r as nat) <= n < 2 * pow2(r as nat),
{
    let mut x: usize = n;
    let mut r: u32 = 0;
    proof {
        lemma_log2_bounds(n as nat);
        lemma_log2_below_bits(n);
    }
    while x > 1
        invariant
            x > 0,
            r + log2(x as nat) == log2(n as nat),
            log2(n as nat) < usize::BITS,
        decreases x,
    {
        x = x / 2;
        r = r + 1;
    }
    r
}

/// A machine word has fewer than `usize::BITS` binary digits after the first.
proof fn lemma_log2_below_bits(n: usize)
    requires
        n > 0,
    ensures
        log2(n as nat) < usize::BITS,
{
    lemma_log2_bounds(n as nat);
    lemma2_to64();
    lemma2_to64_rest();
    if log2(n as nat) >= usize::BITS {
        let bits = usize::BITS as nat;
        if log2(n as nat) > bits {
            lemma_pow2_strictly_increases(bits, log2(n as nat));
        }
        if usize::BITS == 32 {
        } else {
            lemma_pow2_unfold(64);
        }
        assert(usize::MAX < pow2(bits));
    }
}

/// Reverses the `log_size` low bits of an index.
pub fn bit_reverse_index(i: usize, log_size: u32) -> (r: usize)
    requires
        log_size < usize::BITS,
        i < pow2(log_size as nat),
    ensures
        r == bit_reversed(i as nat, log_size as nat),
        r < pow2(log_size as nat),
{
    let mut rest: usize = i;
    let mut r: usize = 0;
    let mut k: u32 = 0;
    proof {
        lemma2_to64();
        lemma_bit_reversed_bound(i as nat, log_size as nat);
    }
    while k < log_size
        invariant
            k <= log_size < usize::BITS,
            r < pow2(k as nat),
            bit_reversed(i as nat, log_size as nat) == r * pow2((log_size - k) as nat)
                + bit_reversed(rest as nat, (log_size - k) as nat),
        decreases log_size - k,
    {
        proof {
            let left = (log_size - k) as nat;
            let half = pow2((left - 1) as nat);
            lemma_pow2_unfold(left);
            lemma_pow2_unfold((k + 1) as nat);
            lemma_usize_pow2_no_overflow((k + 1) as nat);
            assert(r * pow2(left) + (rest % 2) * half == (2 * r + rest % 2) * half)
                by (nonlinear_arith)
                requires
                    pow2(left) == 2 * half,
            ;
        }
        r = 2 * r + rest % 2;
        rest = rest / 2;
        k = k + 1;
    }
    proof {
        lemma2_to64();
        assert(r * pow2(0) == r) by (nonlinear_arith)
            requires
                pow2(0) == 1,
        ;
    }
    r
}

/// Moves every item of `v` to the reversal of its index.
pub fn bit_reverse<T: Copy>(v: &mut [T])
    requires
        is_power_of_two(old(v)@.len()),
    ensures
        final(v)@ == bit_reversed_seq(old(v)@),
{
    let n: usize = v.len();
    proof {
        lemma_pow2_pos(log2(n as nat));
    }
    let log_size: u32 = ilog2(n);
    let ghost bits = log_size as nat;
    let ghost before = v@;
    let mut i: usize = 0;
    while i < n
        invariant
            i <= n,
            v@.len() == n,
            before.len() == n,
            n == pow2(bits),
            bits == log_size,
            log_size < usize::BITS,
            forall|k: int|
                0 <= k < n && (k < i || bit_reversed(k as nat, bits) < i) ==> #[trigger] v@[k]
                    == before[bit_reversed(k as nat, bits) as int],
            forall|k: int|
                0 <= k < n && !(k < i || bit_reversed(k as nat, bits) < i) ==> #[trigger] v@[k]
                    == before[k],
        decreases n - i,
    {
        let j: usize = bit_reverse_index(i, log_size);
        let ghost now = v@;
        proof {
            lemma_bit_reversed_involution(i as nat, bits);
        }
        if j > i {
            let t: T = v[i];
            v[i] = v[j];
            v[j] = t;
        }
        proof {
            assert forall|k: int|
                0 <= k < n && (k < i + 1 || bit_reversed(k as nat, bits) < i + 1) implies #[trigger] v@[k]
                == before[bit_reversed(k as nat, bits) as int] by {
                lemma_bit_reversed_bound(k as nat, bits);
                lemma_bit_reversed_involution(k as nat, bits);
                if k != i && k != j {
                    assert(v@[k] == now[k]);
                }
            }
            assert forall|k: int|
                0 <= k < n && !(k < i + 1 || bit_reversed(k as nat, bits) < i + 1) implies #[trigger] v@[k]
                == before[k] by {
                lemma_bit_reversed_involution(k as nat, bits);
                assert(k != i && k != j);
                assert(v@[k] == now[k]);
            }
        }
        i = i + 1;
    }
}

} // verus!
