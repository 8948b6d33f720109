use dsrs::layout::{Layout, LayoutError};
use dsrs::ptr::Metadata;
use std::alloc::Layout as Inner;

/// `Layout` methods agree with `std::alloc::Layout` on the same inputs.
#[test]
fn layout_equivalent_methods() {
    const MAX: usize = usize::MAX;

    type T1 = ();
    type T2 = String;
    let layout1 = Layout::new::<T1>();
    let layout2 = Layout::new::<T2>();

    assert_eq!(layout1.size(), Inner::new::<T1>().size());
    assert_eq!(layout1.align(), Inner::new::<T1>().align());
    assert_eq!(layout2.size(), Inner::new::<T2>().size());
    assert_eq!(layout2.align(), Inner::new::<T2>().align());

    let ours = Layout::from_size_align(10, 4).unwrap();
    let inner = Inner::from_size_align(10, 4).unwrap();
    assert_eq!((ours.size(), ours.align()), (inner.size(), inner.align()));
    assert!(Layout::from_size_align(13, 7).is_err());
    assert!(Inner::from_size_align(13, 7).is_err());
    assert!(Layout::from_size_align(MAX, 16).is_err());
    assert!(Inner::from_size_align(MAX, 16).is_err());

    let unchecked = Layout::from_size_align_unchecked(24, 8);
    assert_eq!(unchecked, Layout::from_size_align(24, 8).unwrap());

    let val = "string";
    let for_val = Layout::for_value(&val);
    let for_val_inner = Inner::for_value(&val);
    assert_eq!(for_val.size(), for_val_inner.size());
    assert_eq!(for_val.align(), for_val_inner.align());

    let len = layout2.size();
    let expected_pad = ((len + 256 - 1) / 256) * 256 - len;
    assert_eq!(layout2.padding_needed_for(256), expected_pad);

    let padded1 = layout1.pad_to_align();
    let padded1_inner = Inner::new::<T1>().pad_to_align();
    assert_eq!(padded1.size(), padded1_inner.size());
    assert_eq!(padded1.align(), padded1_inner.align());

    let (ext, off) = layout1.extend(layout2).unwrap();
    let (ext_inner, off_inner) = Inner::new::<T1>().extend(Inner::new::<T2>()).unwrap();
    assert_eq!(off, off_inner);
    assert_eq!(ext.size(), ext_inner.size());
    assert_eq!(ext.align(), ext_inner.align());

    let overflow = Layout::from_size_align(MAX - 4, 2).unwrap();
    assert!(layout2.extend(overflow).is_err());
}

/// A valid pair round-trips through the accessors unchanged.
#[test]
fn validated_round_trip() {
    let l = Layout::from_size_align(10, 4).unwrap();
    assert_eq!(l.size(), 10);
    assert_eq!(l.align(), 4);
    let zero = Layout::from_size_align(0, 1).unwrap();
    assert_eq!(zero.size(), 0);
    assert_eq!(zero.align(), 1);
    let big = Layout::from_size_align(usize::MAX - 15, 16).unwrap();
    assert_eq!(big.size(), usize::MAX - 15);
    assert_eq!(big.align(), 16);
}

/// Any alignment that is not a power of two is rejected, whatever the
/// size.
#[test]
fn non_power_of_two_alignment_rejected() {
    for align in [0usize, 3, 5, 6, 7, 12, 24, 100] {
        for size in [0usize, 1, 10, 4096, usize::MAX] {
            assert_eq!(
                Layout::from_size_align(size, align),
                Err(LayoutError::InvalidAlignment)
            );
        }
    }
}

/// A size too close to `usize::MAX` for its alignment is an overflow.
#[test]
fn oversized_layout_rejected() {
    assert_eq!(
        Layout::from_size_align(usize::MAX, 16),
        Err(LayoutError::Overflow)
    );
    assert_eq!(
        Layout::from_size_align(usize::MAX, 2),
        Err(LayoutError::Overflow)
    );
    assert!(Layout::from_size_align(usize::MAX, 1).is_ok());
}

/// Padding `(10, 4)` gives `(12, 4)`: the next multiple of 4 above 10.
#[test]
fn pad_to_align_scenario() {
    let l = Layout::from_size_align(10, 4).unwrap();
    let p = l.pad_to_align();
    assert_eq!(p.size(), 12);
    assert_eq!(p.align(), 4);
}

/// The empty layout is unchanged by padding to its own alignment.
#[test]
fn empty_is_stable_under_padding() {
    let e = Layout::empty();
    assert_eq!(e.size(), 0);
    assert_eq!(e.align(), 1);
    assert!(e.pad_to_align().eq(&e));
    assert_eq!(e.pad_to_align(), e);
}

/// Padding is idempotent on concrete descriptors.
#[test]
fn pad_to_align_idempotent() {
    for (size, align) in [(10usize, 4usize), (0, 8), (7, 1), (13, 16), (24, 8)] {
        let d = Layout::from_size_align(size, align).unwrap();
        assert_eq!(d.pad_to_align().pad_to_align(), d.pad_to_align());
    }
}

/// Extending `(4, 4)` with `(8, 8)` places the field at offset 8 and
/// yields the combined layout `(16, 8)`.
#[test]
fn extend_scenario() {
    let a = Layout::from_size_align(4, 4).unwrap();
    let b = Layout::from_size_align(8, 8).unwrap();
    let (combined, offset) = a.extend(b).unwrap();
    assert_eq!(offset, 8);
    assert_eq!(combined.size(), 16);
    assert_eq!(combined.align(), 8);
}

/// The offset `extend` returns is a multiple of the second alignment and
/// at least the first size.
#[test]
fn extend_offset_properties() {
    let pairs = [
        ((10usize, 4usize), (8usize, 8usize)),
        ((1, 1), (4, 4)),
        ((24, 8), (2, 2)),
        ((5, 1), (16, 16)),
    ];
    for ((s1, a1), (s2, a2)) in pairs {
        let d1 = Layout::from_size_align(s1, a1).unwrap();
        let d2 = Layout::from_size_align(s2, a2).unwrap();
        let (_, offset) = d1.extend(d2).unwrap();
        assert_eq!(offset % d2.align(), 0);
        assert!(offset >= d1.size());
    }
}

/// `extend` reports `Overflow` when the padded sum cannot fit.
#[test]
fn extend_overflow() {
    let a = Layout::from_size_align(usize::MAX - 15, 16).unwrap();
    let b = Layout::from_size_align(32, 8).unwrap();
    assert_eq!(a.extend(b), Err(LayoutError::Overflow));
}

/// `extend_many` from the empty layout equals folding `extend` by hand.
#[test]
fn extend_many_matches_manual_fold() {
    let fields = vec![
        Layout::new::<u32>(),
        Layout::new::<String>(),
        Layout::new::<u64>(),
    ];
    let (unpadded, offsets) = Layout::empty().extend_many(&fields).unwrap();

    let mut manual = Layout::empty();
    let mut manual_offsets = Vec::new();
    for field in &fields {
        let (next, off) = manual.extend(*field).unwrap();
        manual_offsets.push(off);
        manual = next;
    }
    assert_eq!(unpadded, manual);
    assert_eq!(offsets, manual_offsets);
    assert_eq!(offsets.len(), 3);
}

/// `extend_many` stops at the first overflowing field.
#[test]
fn extend_many_overflow() {
    let fields = vec![
        Layout::new::<u32>(),
        Layout::from_size_align(usize::MAX - 15, 16).unwrap(),
    ];
    assert_eq!(
        Layout::new::<u64>().extend_many(&fields),
        Err(LayoutError::Overflow)
    );
}

/// `extend_many` over no fields returns the start layout and no offsets.
#[test]
fn extend_many_empty_list() {
    let start = Layout::from_size_align(10, 4).unwrap();
    let (end, offsets) = start.extend_many(&Vec::new()).unwrap();
    assert_eq!(end, start);
    assert!(offsets.is_empty());
}

/// `is_aligned` is exactly divisibility of the address by the alignment.
#[test]
fn is_aligned_checks_remainder() {
    let l = Layout::from_size_align(10, 4).unwrap();
    assert!(l.is_aligned(0));
    assert!(l.is_aligned(4));
    assert!(l.is_aligned(4096));
    assert!(!l.is_aligned(1));
    assert!(!l.is_aligned(2));
    assert!(!l.is_aligned(4095));
    let byte = Layout::from_size_align(3, 1).unwrap();
    assert!(byte.is_aligned(17));
}

/// A dangling handle for a layout is thin, non-null and aligned: its
/// address is the alignment itself.
#[test]
fn dangling_is_aligned() {
    let l = Layout::from_size_align(10, 8).unwrap();
    let d = l.dangling();
    assert_eq!(d.as_ptr(), 8);
    assert_eq!(d.split(), None);
    assert_eq!(d.cast().as_ptr(), 8);
    assert!(!d.is_fat_pointer());
    assert!(l.is_aligned(d.as_ptr()));
}

/// `new` and `size_align` read the language's own layout for a type.
#[test]
fn layout_of_types() {
    assert_eq!(Layout::new::<u32>().size(), 4);
    assert_eq!(Layout::new::<u32>().align(), 4);
    assert_eq!(Layout::new::<()>().size(), 0);
    assert_eq!(Layout::new::<()>().align(), 1);
    let (size, align) = dsrs::layout::size_align::<u64>();
    assert_eq!(size, 8);
    assert_eq!(align, 8);
    assert_eq!(Layout::for_value(&7u16), Layout::new::<u16>());
}

/// `eq` is structural equality of size and align.
#[test]
fn eq_is_structural() {
    let a = Layout::from_size_align(8, 4).unwrap();
    let b = Layout::from_size_align(8, 4).unwrap();
    let c = Layout::from_size_align(8, 8).unwrap();
    assert!(a.eq(&b));
    assert!(!a.eq(&c));
    assert_eq!(a, b);
    assert_ne!(a, c);
}

/// `overflow_padded` flags exactly the sizes whose padded value leaves
/// `usize`.
#[test]
fn overflow_padded_boundary() {
    assert!(!dsrs::layout::overflow_padded(usize::MAX - 15, 16));
    assert!(dsrs::layout::overflow_padded(usize::MAX - 14, 16));
    assert!(!dsrs::layout::overflow_padded(usize::MAX, 1));
}

/// A thin metadata value never equals a wide one.
#[test]
fn metadata_distinguishes_shapes() {
    assert_ne!(Metadata::Thin, Metadata::Wide(0));
    assert_eq!(Metadata::Wide(4), Metadata::Wide(4));
    assert_ne!(Metadata::Wide(4), Metadata::Wide(5));
}
