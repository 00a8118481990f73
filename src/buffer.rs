//! The buffer: `N` bytes kept twice, back to back, in `2N` bytes of storage.
//! Every write goes to both copies, so the storage from offset `o < N` onward
//! always holds the logical bytes `o, o + 1, ...` for up to `N` of them, and
//! any such run is handed out as one contiguous slice.
use vstd::prelude::*;
use vstd::arithmetic::div_mod::{
    lemma_add_mod_noop_right, lemma_mod_add_multiples_vanish, lemma_small_mod,
};
use vstd::arithmetic::power2::pow2;
use vstd::bits::{low_bits_mask, lemma_usize_low_bits_mask_is_mod};
use crate::addressing::{
    byte_at, lemma_window_reduced, lemma_with_window_len, window, with_byte, with_window,
};
use crate::error::{BufferError, ErrorKind};
use crate::length::{
    is_power_of_two, lemma_exponent_fits, power_of_two, valid_len, MAX_LEN, MIN_LEN,
};

verus! {

/// `p`, the reduced start plus `j`, brought below `n`, is `(start + j) mod n`.
proof fn lemma_window_offset(start: int, j: int, n: int, p: int)
    requires
        n > 0,
        0 <= j < n,
        p == (if start % n + j >= n { start % n + j - n } else { start % n + j }),
    ensures
        p == (start + j) % n,
{
    lemma_add_mod_noop_right(j, start, n);
    if start % n + j >= n {
        lemma_mod_add_multiples_vanish(start % n + j - n, n);
        lemma_small_mod((start % n + j - n) as nat, n as nat);
    } else {
        lemma_small_mod((start % n + j) as nat, n as nat);
    }
}

/// A ring of `N` bytes in which any run of up to `N` bytes, from any logical
/// offset, is one contiguous slice.
#[derive(Debug)]
pub struct VoodooBuffer {
    data: Vec<u8>,
    len: usize,
    mask: usize,
}

impl View for VoodooBuffer {
    type V = Seq<u8>;

    /// The `N` bytes of the ring, at offsets `0..N`.
    closed spec fn view(&self) -> Seq<u8> {
        self.data@.subrange(0, self.len as int)
    }
}

impl VoodooBuffer {
    /// The capacity is a legal length, the mask is `N - 1`, and the upper half
    /// of the storage repeats the lower half.
    pub closed spec fn wf(&self) -> bool {
        &&& valid_len(self.len as nat, MIN_LEN as nat)
        &&& self.len <= MAX_LEN
        &&& self.mask == self.len - 1
        &&& self.data@.len() == 2 * self.len
        &&& forall|i: int|
            0 <= i < self.len ==> #[trigger] self.data@[i + self.len] == self.data@[i]
    }

    /// Creates a buffer of `len` bytes, all zero. Fails with `InvalidLength`
    /// when `len` is zero, not a power of two, or not a multiple of
    /// `min_len()`, and with `AddressReservationFailed` when a window of
    /// `2 * len` bytes cannot be addressed.
    pub fn new(len: usize) -> (r: Result<Self, BufferError>)
        ensures
            match r {
                Ok(b) => {
                    &&& valid_len(len as nat, MIN_LEN as nat)
                    &&& len <= MAX_LEN
                    &&& b.wf()
                    &&& b@ == Seq::new(len as nat, |i: int| 0u8)
                },
                Err(e) => {
                    &&& e.message_view().len() > 0
                    &&& if !valid_len(len as nat, MIN_LEN as nat) {
                        e.error_kind() == ErrorKind::InvalidLength
                    } else {
                        len > MAX_LEN && e.error_kind() == ErrorKind::AddressReservationFailed
                    }
                    &&& len == 0 ==> e.message_view() == "len must be greater than 0"@
                    &&& len > 0 && !power_of_two(len as nat) ==> e.message_view()
                        == "len must be power of two"@
                    &&& len > 0 && power_of_two(len as nat) && len % MIN_LEN != 0
                        ==> e.message_view() == "len must be page aligned, 4096"@
                    &&& valid_len(len as nat, MIN_LEN as nat) ==> e.message_view()
                        == "no window of twice len fits in the address space"@
                },
            },
    {
        proof {
            reveal_strlit("len must be greater than 0");
            reveal_strlit("len must be power of two");
            reveal_strlit("len must be page aligned, 4096");
            reveal_strlit("no window of twice len fits in the address space");
        }
        if len == 0 {
            return Err(BufferError::new(ErrorKind::InvalidLength, "len must be greater than 0"));
        }
        if !is_power_of_two(len) {
            return Err(BufferError::new(ErrorKind::InvalidLength, "len must be power of two"));
        }
        let min_len = Self::min_len();
        if len % min_len != 0 {
            return Err(BufferError::new(ErrorKind::InvalidLength, "len must be page aligned, 4096"));
        }
        if len > MAX_LEN {
            return Err(
                BufferError::new(
                    ErrorKind::AddressReservationFailed,
                    "no window of twice len fits in the address space",
                ),
            );
        }
        let data = vec![0u8; 2 * len];
        let b = VoodooBuffer { data, len, mask: len - 1, };
        assert(b@ =~= Seq::new(len as nat, |i: int| 0u8));
        Ok(b)
    }

    /// The granularity that every capacity must be a multiple of.
    pub fn min_len() -> (r: usize)
        ensures
            r == MIN_LEN,
    {
        MIN_LEN
    }

    /// The capacity `N`: a legal length, fixed for the buffer's lifetime.
    pub fn len(&self) -> (r: usize)
        requires
            self.wf(),
        ensures
            r == self@.len(),
            valid_len(r as nat, MIN_LEN as nat),
            r <= MAX_LEN,
    {
        self.len
    }

    /// Reduces an offset modulo the capacity, with the mask.
    pub fn fast_mod(&self, v: usize) -> (r: usize)
        requires
            self.wf(),
        ensures
            r == v as int % self@.len() as int,
    {
        proof {
            let k = choose|e: nat| pow2(e) == self.len;
            lemma_exponent_fits(k);
            lemma_usize_low_bits_mask_is_mod(v, k);
            assert(low_bits_mask(k) == self.mask);
        }
        v & self.mask
    }

    /// The `k` bytes of storage from offset `offset`, which are the logical
    /// bytes from `offset` on: any run that ends inside the `2N` storage.
    fn as_slice(&self, offset: usize, k: usize) -> (r: &[u8])
        requires
            self.wf(),
            offset + k <= 2 * self.len,
            k <= self.len,
        ensures
            r@ == window(self@, offset as int, k as nat),
    {
        let r = vstd::slice::slice_subrange(self.data.as_slice(), offset, offset + k);
        proof {
            let n = self.len as int;
            assert forall|j: int| 0 <= j < k implies #[trigger] r@[j] == byte_at(
                self@,
                offset + j,
            ) by {
                if offset + j < n {
                    lemma_small_mod((offset + j) as nat, n as nat);
                } else {
                    lemma_mod_add_multiples_vanish(offset + j - n, n);
                    lemma_small_mod((offset + j - n) as nat, n as nat);
                    assert(self.data@[(offset + j - n) + n] == self.data@[offset + j - n]);
                }
            }
            assert(r@ =~= window(self@, offset as int, k as nat));
        }
        r
    }

    /// Writes `v` at storage offset `p` of both copies.
    fn store(&mut self, p: usize, v: u8)
        requires
            old(self).wf(),
            p < old(self).len,
        ensures
            final(self).wf(),
            final(self).len == old(self).len,
            final(self)@ == old(self)@.update(p as int, v),
    {
        let n = self.len;
        self.data.set(p, v);
        self.data.set(p + n, v);
        assert(self@ =~= old(self)@.update(p as int, v));
    }

    /// The byte at logical offset `i`.
    pub fn get(&self, i: usize) -> (r: u8)
        requires
            self.wf(),
        ensures
            r == byte_at(self@, i as int),
    {
        let p = self.fast_mod(i);
        self.data[p]
    }

    /// Writes `v` at logical offset `i`; it then also reads back at `i + N`.
    pub fn set(&mut self, i: usize, v: u8)
        requires
            old(self).wf(),
        ensures
            final(self).wf(),
            final(self)@ == with_byte(old(self)@, i as int, v),
    {
        let p = self.fast_mod(i);
        self.store(p, v);
    }

    /// The bytes at logical offsets `start..end`, as one contiguous slice;
    /// empty when `start > end`. A range longer than the capacity is refused.
    pub fn range(&self, start: usize, end: usize) -> (r: &[u8])
        requires
            self.wf(),
            start > end || end - start <= self@.len(),
        ensures
            r@ == if start > end {
                Seq::<u8>::empty()
            } else {
                window(self@, start as int, (end - start) as nat)
            },
    {
        if start > end {
            let r = vstd::slice::slice_subrange(self.data.as_slice(), 0, 0);
            assert(r@ =~= Seq::<u8>::empty());
            return r;
        }
        let k = end - start;
        let offset = self.fast_mod(start);
        proof {
            lemma_window_reduced(self@, start as int, k as nat);
        }
        self.as_slice(offset, k)
    }

    /// The `N` bytes from logical offset `start` on.
    pub fn range_from(&self, start: usize) -> (r: &[u8])
        requires
            self.wf(),
        ensures
            r@ == window(self@, start as int, self@.len()),
    {
        let offset = self.fast_mod(start);
        proof {
            lemma_window_reduced(self@, start as int, self.len as nat);
        }
        self.as_slice(offset, self.len)
    }

    /// The `N` bytes that end just before logical offset `end`.
    pub fn range_to(&self, end: usize) -> (r: &[u8])
        requires
            self.wf(),
            end >= self@.len(),
        ensures
            r@ == window(self@, end - self@.len(), self@.len()),
    {
        let start = end - self.len;
        self.range_from(start)
    }

    /// The `N` bytes that end at logical offset `end`, inclusive.
    pub fn range_to_inclusive(&self, end: usize) -> (r: &[u8])
        requires
            self.wf(),
            end + 1 >= self@.len(),
        ensures
            r@ == window(self@, end + 1 - self@.len(), self@.len()),
    {
        let start = end - (self.len - 1);
        self.range_from(start)
    }

    /// All `N` bytes, from offset 0.
    pub fn range_full(&self) -> (r: &[u8])
        requires
            self.wf(),
        ensures
            r@ == self@,
    {
        let r = self.as_slice(0, self.len);
        assert forall|j: int| 0 <= j < self.len implies #[trigger] r@[j] == self@[j] by {
            lemma_small_mod(j as nat, self.len as nat);
        }
        assert(r@ =~= self@);
        r
    }

    /// Writes the bytes of `src`, in order, at logical offsets `start`,
    /// `start + 1`, ...: the mutable counterpart of the range reads. Both
    /// copies are written, so every later read sees the new bytes.
    pub fn write_range(&mut self, start: usize, src: &[u8])
        requires
            old(self).wf(),
            src@.len() <= old(self)@.len(),
        ensures
            final(self).wf(),
            final(self)@ == with_window(old(self)@, start as int, src@),
    {
        let n = self.len;
        let base = self.fast_mod(start);
        let mut j: usize = 0;
        while j < src.len()
            invariant
                self.wf(),
                self.len == n,
                old(self)@.len() == n,
                n > 0,
                base == start as int % n as int,
                src@.len() <= n,
                j <= src@.len(),
                self@ == with_window(old(self)@, start as int, src@.subrange(0, j as int)),
            decreases src@.len() - j,
        {
            let mut p = base + j;
            if p >= n {
                p = p - n;
            }
            proof {
                let ghost pre = src@.subrange(0, j as int);
                let ghost next = src@.subrange(0, j + 1);
                assert(next.drop_last() =~= pre);
                lemma_with_window_len(old(self)@, start as int, pre);
                lemma_window_offset(start as int, j as int, n as int, p as int);
            }
            self.store(p, src[j]);
            j = j + 1;
        }
        assert(src@.subrange(0, src@.len() as int) =~= src@);
    }
}

} // verus!
