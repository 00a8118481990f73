use vstd::prelude::*;
use vstd::arithmetic::div_mod::lemma_mod_multiples_basic;
use vstd::arithmetic::power2::{
    pow2, lemma2_to64, lemma_pow2_adds, lemma_pow2_pos, lemma_pow2_strictly_increases,
    lemma_pow2_unfold,
};

verus! {

/// Granularity that every capacity must be a multiple of: one page.
pub const MIN_LEN: usize = 4096;

/// Largest capacity whose doubled window still fits in `isize::MAX` bytes.
pub const MAX_LEN: usize = usize::MAX / 4;

/// `n` is `2^e` for some natural `e`.
pub open spec fn power_of_two(n: nat) -> bool {
    exists|e: nat| pow2(e) == n
}

/// A capacity is legal when it is positive, a power of two, and a multiple of
/// the granularity.
pub open spec fn valid_len(len: nat, granule: nat) -> bool {
    &&& len > 0
    &&& power_of_two(len)
    &&& len % granule == 0
}

/// Powers of two are ordered as their exponents.
pub proof fn lemma_pow2_order(a: nat, b: nat)
    ensures
        pow2(a) < pow2(b) <==> a < b,
        pow2(a) == pow2(b) <==> a == b,
{
    if a < b {
        lemma_pow2_strictly_increases(a, b);
    } else if b < a {
        lemma_pow2_strictly_increases(b, a);
    }
}

/// A power of two that fits in a `usize` has an exponent below the word size.
pub proof fn lemma_exponent_fits(e: nat)
    requires
        pow2(e) <= usize::MAX,
    ensures
        e < usize::BITS,
{
    lemma2_to64();
    lemma_pow2_order(e, usize::BITS as nat);
}

/// Decides whether `n` is a power of two.
pub fn is_power_of_two(n: usize) -> (r: bool)
    ensures
        r == power_of_two(n as nat),
{
    if n == 0 {
        proof {
            assert forall|e: nat| pow2(e) != 0 by {
                lemma_pow2_pos(e);
            }
        }
        return false;
    }
    let mut p: usize = 1;
    let ghost mut k: nat = 0;
    proof {
        lemma2_to64();
    }
    while p < n && p <= usize::MAX / 2
        invariant
            n > 0,
            p == pow2(k),
            p >= 1,
            k > 0 ==> pow2((k - 1) as nat) < n,
        decreases usize::MAX - p,
    {
        proof {
            lemma_pow2_unfold(k + 1);
        }
        p = p * 2;
        proof {
            k = k + 1;
        }
    }
    if p == n {
        return true;
    }
    proof {
        assert forall|e: nat| pow2(e) != n by {
            if pow2(e) == n {
                lemma_pow2_order(e, k);
                if p > n {
                    lemma_pow2_order(e, (k - 1) as nat);
                } else {
                    lemma_pow2_unfold(k + 1);
                    lemma_pow2_order(e, k + 1);
                }
            }
        }
    }
    false
}

/// The length rules: zero, one past the granularity, and the granularity times
/// a number that is not a power of two are all refused; the granularity times
/// any power of two is legal.
pub proof fn lemma_length_rules(k: nat, m: nat)
    ensures
        !valid_len(0, MIN_LEN as nat),
        !valid_len(MIN_LEN as nat + 1, MIN_LEN as nat),
        k > 0 && !power_of_two(k) ==> !valid_len(MIN_LEN as nat * k, MIN_LEN as nat),
        valid_len(MIN_LEN as nat * pow2(m), MIN_LEN as nat),
{
    lemma2_to64();
    assert forall|e: nat| pow2(e) != 4097 by {
        lemma_pow2_order(e, 12);
        lemma_pow2_order(e, 13);
    }
    if k > 0 && power_of_two(4096 * k) {
        let e = choose|e: nat| pow2(e) == 4096 * k;
        lemma_pow2_order(e, 12);
        lemma_pow2_adds(12, (e - 12) as nat);
        assert(pow2((e - 12) as nat) == k);
    }
    lemma_pow2_adds(12, m);
    lemma_pow2_pos(m);
    lemma_mod_multiples_basic(pow2(m) as int, 4096);
    assert(4096 * pow2(m) == pow2(12 + m));
}

} // verus!
