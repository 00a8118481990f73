use voodoo_buffer::{ErrorKind, VoodooBuffer};

const N: usize = 65536;

#[test]
fn min_len_is_one_page() {
    assert_eq!(VoodooBuffer::min_len(), 4096);
}

#[test]
fn zero_len_is_invalid() {
    let e = VoodooBuffer::new(0).err().expect("zero must be refused");
    assert_eq!(e.kind(), ErrorKind::InvalidLength);
    assert_eq!(e.message(), "len must be greater than 0");
}

#[test]
fn one_past_granularity_is_invalid() {
    let g = VoodooBuffer::min_len();
    let e = VoodooBuffer::new(g + 1).err().expect("must be refused");
    assert_eq!(e.kind(), ErrorKind::InvalidLength);
    assert_eq!(e.message(), "len must be power of two");
}

#[test]
fn granularity_times_non_power_of_two_is_invalid() {
    let g = VoodooBuffer::min_len();
    for k in [3usize, 5, 6, 7, 12] {
        let e = VoodooBuffer::new(g * k).err().expect("must be refused");
        assert_eq!(e.kind(), ErrorKind::InvalidLength);
    }
}

#[test]
fn granularity_times_power_of_two_is_valid() {
    let g = VoodooBuffer::min_len();
    for m in 0..6 {
        let len = g << m;
        let buf = VoodooBuffer::new(len).expect("should allocate buffer");
        assert_eq!(buf.len(), len);
    }
}

#[test]
fn below_granularity_is_invalid() {
    let e = VoodooBuffer::new(256).err().expect("must be refused");
    assert_eq!(e.kind(), ErrorKind::InvalidLength);
    assert_eq!(e.message(), "len must be page aligned, 4096");
}

#[test]
fn not_power_of_two_is_invalid() {
    let e = VoodooBuffer::new(N + 5).err().expect("must be refused");
    assert_eq!(e.kind(), ErrorKind::InvalidLength);
}

#[test]
fn window_too_large_is_refused() {
    let len = usize::MAX / 2 + 1;
    let e = VoodooBuffer::new(len).err().expect("must be refused");
    assert_eq!(e.kind(), ErrorKind::AddressReservationFailed);
    assert_eq!(e.message(), "no window of twice len fits in the address space");
}

#[test]
fn new_buffer_is_zeroed() {
    let buf = VoodooBuffer::new(4096).expect("should allocate buffer");
    assert!(buf.range_full().iter().all(|b| *b == 0));
}

#[test]
fn fast_mod_reduces_by_capacity() {
    let buf = VoodooBuffer::new(N).expect("should allocate buffer");
    assert_eq!(buf.fast_mod(7), 7);
    assert_eq!(buf.fast_mod(N), 0);
    assert_eq!(buf.fast_mod(N + 7), 7);
    assert_eq!(buf.fast_mod(3 * N - 1), N - 1);
}

#[test]
fn write_is_visible_at_both_offsets() {
    let mut b = VoodooBuffer::new(N).expect("should allocate buffer");
    b.set(0, 0xAB);
    assert_eq!(b.get(N), 0xAB);
    b.set(65535, 0xCD);
    assert_eq!(b.get(131071), b.get(65535));
    assert_eq!(b.get(131071), 0xCD);
}

#[test]
fn aliasing_for_every_offset() {
    let mut b = VoodooBuffer::new(4096).expect("should allocate buffer");
    for i in 0..4096usize {
        let v = (i % 251) as u8;
        b.set(i, v);
        assert_eq!(b.get(i + 4096), v);
    }
}

#[test]
fn write_through_upper_offset_reads_at_lower() {
    let mut b = VoodooBuffer::new(4096).expect("should allocate buffer");
    b.set(4096 + 10, 42);
    assert_eq!(b.get(10), 42);
}

#[test]
fn wrapped_read_spans_the_seam() {
    let mut b = VoodooBuffer::new(N).expect("should allocate buffer");
    let src: Vec<u8> = (0..N).map(|i| (i % 256) as u8).collect();
    b.write_range(0, &src);
    let got = b.range(65000, 65000 + 600);
    let expected: Vec<u8> = (65000..N).chain(0..64).map(|i| (i % 256) as u8).collect();
    assert_eq!(got.len(), 600);
    assert_eq!(got, &expected[..]);
}

#[test]
fn range_agrees_with_single_reads() {
    let mut b = VoodooBuffer::new(4096).expect("should allocate buffer");
    for i in 0..4096usize {
        b.set(i, (i * 7 % 256) as u8);
    }
    for (s, k) in [(0usize, 4096usize), (100, 10), (4000, 200), (4095, 4096), (4095, 0)] {
        let r = b.range(s, s + k);
        assert_eq!(r.len(), k);
        for j in 0..k {
            assert_eq!(r[j], b.get(s + j));
        }
    }
}

#[test]
fn slice_from_one_starts_at_one() {
    let mut b = VoodooBuffer::new(N).expect("should allocate buffer");
    b.set(1, 0x11);
    b.set(0, 0x22);
    let slice = b.range_from(1);
    assert_eq!(slice.len(), N);
    assert_eq!(slice[0], b.get(1));
    assert_eq!(slice[0], 0x11);
    assert_eq!(slice[N - 1], 0x22);
}

#[test]
fn reversed_range_is_empty() {
    let b = VoodooBuffer::new(4096).expect("should allocate buffer");
    assert_eq!(b.range(10, 3).len(), 0);
    assert_eq!(b.range(usize::MAX, 0).len(), 0);
}

#[test]
fn full_shapes_have_capacity_length() {
    let b = VoodooBuffer::new(4096).expect("should allocate buffer");
    assert_eq!(b.range_full().len(), 4096);
    assert_eq!(b.range_to(4096).len(), 4096);
    assert_eq!(b.range_to(usize::MAX).len(), 4096);
    assert_eq!(b.range_to_inclusive(4095).len(), 4096);
    assert_eq!(b.range_to_inclusive(usize::MAX).len(), 4096);
    assert_eq!(b.range_from(usize::MAX).len(), 4096);
}

#[test]
fn range_to_ends_before_end() {
    let mut b = VoodooBuffer::new(4096).expect("should allocate buffer");
    b.set(4095, 1);
    b.set(0, 2);
    let r = b.range_to(4096 + 1);
    assert_eq!(r[0], 0);
    assert_eq!(r[4094], 1);
    assert_eq!(r[4095], 2);
    let r = b.range_to_inclusive(4096);
    assert_eq!(r[4095], 2);
    assert_eq!(r[4094], 1);
    let r = b.range_to_inclusive(4095);
    assert_eq!(r[0], 2);
    assert_eq!(r[4095], 1);
}

#[test]
fn write_range_wraps_around() {
    let mut b = VoodooBuffer::new(4096).expect("should allocate buffer");
    b.write_range(4094, &[1, 2, 3, 4]);
    assert_eq!(b.get(4094), 1);
    assert_eq!(b.get(4095), 2);
    assert_eq!(b.get(0), 3);
    assert_eq!(b.get(1), 4);
    assert_eq!(b.range(4094, 4098), &[1, 2, 3, 4]);
    assert_eq!(b.range(2, 4), &[0, 0]);
}

#[test]
fn buffers_are_independent() {
    let mut a = VoodooBuffer::new(4096).expect("should allocate buffer");
    let mut b = VoodooBuffer::new(4096).expect("should allocate buffer");
    a.set(5, 1);
    b.set(5, 2);
    assert_eq!(a.get(5), 1);
    assert_eq!(b.get(5), 2);
}

#[test]
fn many_buffers_in_succession() {
    for i in 0..1024usize {
        let mut b = VoodooBuffer::new(N).expect("should allocate buffer");
        b.set(i, 1);
        assert_eq!(b.get(i + N), 1);
    }
}
