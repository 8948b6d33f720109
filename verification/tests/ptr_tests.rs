use dsrs::ptr::{Metadata, NonNull};

/// The model handle behaves as `std::ptr::NonNull` does on the same
/// checks: a non-null address wraps and reads back, null does not wrap.
#[test]
fn nonnull_equivalent_methods() {
    let h = NonNull::new(0x1000, Metadata::Thin).unwrap();
    assert_eq!(h.as_ptr(), 0x1000);
    assert_eq!(NonNull::new(0, Metadata::Thin), None);
    assert_eq!(NonNull::new(0, Metadata::Wide(9)), None);

    let w = NonNull::new_unchecked(0x2000, Metadata::Wide(6));
    assert_eq!(NonNull::new(0x2000, Metadata::Wide(6)), Some(w));
    assert_eq!(w.as_ptr(), 0x2000);
    assert_eq!(w.clone(), w);
}

/// A null address yields the empty result; any other address yields a
/// handle whose address equals the input.
#[test]
fn from_raw_null_and_non_null() {
    assert!(NonNull::new(0, Metadata::Thin).is_none());
    for addr in [1usize, 2, 0x1000, usize::MAX] {
        let h = NonNull::new(addr, Metadata::Thin).unwrap();
        assert_eq!(h.as_ptr(), addr);
    }
}

/// Splitting a wide handle and reconstructing one from the two words
/// yields a handle equal to the original.
#[test]
fn split_then_reconstruct() {
    let original = NonNull::new_unchecked(0x4000, Metadata::Wide(17));
    let (addr, meta) = original.split().unwrap();
    assert_eq!(addr, 0x4000);
    assert_eq!(meta, 17);
    let rebuilt = NonNull::new_unchecked(addr, Metadata::Wide(meta));
    assert_eq!(rebuilt, original);
}

/// Replacing the metadata of a wide handle and reading it back yields
/// the new word; the address is untouched.
#[test]
fn update_metadata_round_trip() {
    let w = NonNull::new_unchecked(0x4000, Metadata::Wide(10));
    let updated = w.update_metadata(4).unwrap();
    assert_eq!(updated.as_ptr(), 0x4000);
    assert_eq!(updated.split().unwrap().1, 4);
    let again = w.update_metadata_unchecked(4);
    assert_eq!(Some(again), w.update_metadata(4));
}

/// Metadata operations against a thin handle yield the empty result.
#[test]
fn thin_handles_have_no_metadata() {
    let t = NonNull::new_unchecked(0x8, Metadata::Thin);
    assert_eq!(t.split(), None);
    assert_eq!(t.update_metadata(10), None);
    assert!(!t.is_fat_pointer());
}

/// A handle over a sequence of four 32-bit elements is wide with
/// metadata 4; casting it to a single-element handle keeps the address
/// and becomes thin.
#[test]
fn sequence_handle_classification() {
    let elements: usize = 4;
    let seq_handle = NonNull::new(0x1000, Metadata::Wide(elements)).unwrap();
    assert!(seq_handle.is_fat_pointer());
    assert_eq!(seq_handle.split().unwrap().1, 4);

    let scalar_handle = seq_handle.cast();
    assert_eq!(scalar_handle.as_ptr(), seq_handle.as_ptr());
    assert!(!scalar_handle.is_fat_pointer());
}

/// `update` re-points a handle at new storage while keeping its own
/// metadata word: a deliberately mismatched wide handle can be built.
#[test]
fn update_keeps_metadata() {
    let a = NonNull::new_unchecked(0x1000, Metadata::Wide(5));
    let b = NonNull::new_unchecked(0x2000, Metadata::Thin);
    let moved = a.update(b);
    assert_eq!(moved.as_ptr(), 0x2000);
    assert_eq!(moved.split().unwrap().1, 5);

    let thin_a = NonNull::new_unchecked(0x30, Metadata::Thin);
    let thin_moved = thin_a.update(b);
    assert_eq!(thin_moved, b.cast());
}

/// A dangling handle is non-null and carries no metadata.
#[test]
fn dangling_handle() {
    let d = NonNull::dangling(16);
    assert_eq!(d.as_ptr(), 16);
    assert!(!d.is_fat_pointer());
}
