//! The logical addressing of a ring of `N` bytes, stated over its contents.
//! Offsets are taken modulo `N`, so offset `i` and offset `i + N` name the
//! same byte.
use vstd::prelude::*;
use vstd::arithmetic::div_mod::{
    lemma_add_mod_noop_right, lemma_mod_add_multiples_vanish, lemma_small_mod,
};

verus! {

/// The byte that logical offset `i` names in contents `c`.
pub open spec fn byte_at(c: Seq<u8>, i: int) -> u8 {
    c[i % (c.len() as int)]
}

/// The contents after writing `v` at logical offset `i`.
pub open spec fn with_byte(c: Seq<u8>, i: int, v: u8) -> Seq<u8> {
    c.update(i % (c.len() as int), v)
}

/// The `k` bytes at logical offsets `start`, `start + 1`, ..., `start + k - 1`.
pub open spec fn window(c: Seq<u8>, start: int, k: nat) -> Seq<u8> {
    Seq::new(k, |j: int| byte_at(c, start + j))
}

/// The contents after writing the bytes of `src`, in order, at logical offsets
/// `start`, `start + 1`, ...
pub open spec fn with_window(c: Seq<u8>, start: int, src: Seq<u8>) -> Seq<u8>
    decreases src.len(),
{
    if src.len() == 0 {
        c
    } else {
        with_byte(with_window(c, start, src.drop_last()), start + src.len() - 1, src.last())
    }
}

/// Writing bytes never changes the capacity.
pub proof fn lemma_with_window_len(c: Seq<u8>, start: int, src: Seq<u8>)
    requires
        c.len() > 0,
    ensures
        with_window(c, start, src).len() == c.len(),
    decreases src.len(),
{
    if src.len() > 0 {
        lemma_with_window_len(c, start, src.drop_last());
    }
}

/// A window is the same whether its start is given as is or reduced modulo
/// the capacity.
pub proof fn lemma_window_reduced(c: Seq<u8>, start: int, k: nat)
    requires
        c.len() > 0,
    ensures
        window(c, start % (c.len() as int), k) == window(c, start, k),
{
    let n = c.len() as int;
    assert forall|j: int| 0 <= j < k implies #[trigger] byte_at(c, start % n + j) == byte_at(c, start + j) by {
        lemma_add_mod_noop_right(j, start, n);
    }
    assert(window(c, start % n, k) =~= window(c, start, k));
}

/// Offsets `i` and `i + N` alias: a byte written at `i` reads back at `i`
/// and at `i + N`.
pub proof fn lemma_aliasing(c: Seq<u8>, i: int, v: u8)
    requires
        c.len() > 0,
    ensures
        byte_at(with_byte(c, i, v), i) == v,
        byte_at(with_byte(c, i, v), i + c.len()) == v,
{
    let n = c.len() as int;
    lemma_mod_add_multiples_vanish(i, n);
    assert((i + n) % n == i % n);
}

/// The window of `k` bytes from `s` has length `k`, and its `j`-th byte is
/// the single byte at logical offset `s + j`.
pub proof fn lemma_contiguity(c: Seq<u8>, s: int, k: nat)
    requires
        c.len() > 0,
    ensures
        window(c, s, k).len() == k,
        forall|j: int| 0 <= j < k ==> #[trigger] window(c, s, k)[j] == byte_at(c, s + j),
{
}

/// Two offsets less than `n` apart, but not equal, name different bytes.
proof fn lemma_distinct_offsets(i: int, d: int, n: int)
    requires
        n > 0,
        0 < d < n,
    ensures
        (i + d) % n != i % n,
{
    let a = i % n;
    lemma_add_mod_noop_right(d, i, n);
    if a + d < n {
        lemma_small_mod((a + d) as nat, n as nat);
    } else {
        lemma_mod_add_multiples_vanish(a + d - n, n);
        lemma_small_mod((a + d - n) as nat, n as nat);
    }
}

/// Bytes written from logical offset `s` read back, in order, from `s`, as
/// long as no more than `N` of them were written.
pub proof fn lemma_write_then_read(c: Seq<u8>, s: int, src: Seq<u8>)
    requires
        c.len() > 0,
        src.len() <= c.len(),
    ensures
        window(with_window(c, s, src), s, src.len()) == src,
    decreases src.len(),
{
    let n = c.len() as int;
    let w = with_window(c, s, src);
    if src.len() > 0 {
        let m = src.len() as int;
        let prev = with_window(c, s, src.drop_last());
        lemma_with_window_len(c, s, src.drop_last());
        lemma_write_then_read(c, s, src.drop_last());
        assert forall|j: int| 0 <= j < m implies #[trigger] byte_at(w, s + j) == src[j] by {
            if j < m - 1 {
                lemma_distinct_offsets(s + j, m - 1 - j, n);
                assert(byte_at(prev, s + j) == window(prev, s, (m - 1) as nat)[j]);
            }
        }
    }
    assert(window(w, s, src.len()) =~= src);
}

} // verus!
