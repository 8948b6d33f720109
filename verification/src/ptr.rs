//! Non-null pointer handles that preserve the metadata word of a wide
//! pointer across casts and updates.
//!
//! A wide pointer is represented explicitly as an address together with
//! its metadata word, rather than by reinterpreting a two-word in-memory
//! pointer representation; whether a handle is thin or wide is fixed when
//! the handle is built.
use vstd::prelude::*;

verus! {

/// The metadata a handle carries: nothing for a thin pointee shape, or
/// one machine word for a wide one (a sequence's element count, or a
/// reference to a dispatch table).
#[derive(Clone, Copy, Debug, PartialEq, Eq, Structural)]
pub enum Metadata {
    /// The pointee shape is statically sized: the handle is one word.
    Thin,
    /// The pointee shape is dynamically sized: the handle carries this
    /// extra word.
    Wide(usize),
}

/// A non-null address together with the metadata word of its pointee
/// shape, if that shape is wide. The handle never owns the memory it
/// addresses, and its address is never the null address, whatever casts
/// and updates are applied to it.
#[derive(Clone, Copy, Debug, PartialEq, Eq, Structural)]
pub struct NonNull {
    addr: usize,
    meta: Metadata,
}

impl NonNull {
    /// The address this handle wraps.
    pub closed spec fn spec_addr(&self) -> usize {
        self.addr
    }

    /// The metadata this handle carries.
    pub closed spec fn spec_meta(&self) -> Metadata {
        self.meta
    }

    /// The invariant every live handle keeps: the address is not null.
    #[verifier::type_invariant]
    pub open spec fn wf(self) -> bool {
        self.spec_addr() != 0
    }

    /// Whether this handle's representation is two words wide.
    pub open spec fn spec_is_fat(&self) -> bool {
        self.spec_meta() is Wide
    }

    /// Creates a new handle if `addr` is non-null, `None` otherwise.
    /// This is the only checked constructor.
    pub fn new(addr: usize, meta: Metadata) -> (r: Option<Self>)
        ensures
            addr == 0 <==> r is None,
            r matches Some(p) ==> p.spec_addr() == addr && p.spec_meta() == meta,
    {
        if addr != 0 {
            Some(NonNull { addr, meta })
        } else {
            None
        }
    }

    /// Creates a new handle from an address the caller has shown to be
    /// non-null.
    pub fn new_unchecked(addr: usize, meta: Metadata) -> (r: Self)
        requires
            addr != 0,
        ensures
            r.spec_addr() == addr,
            r.spec_meta() == meta,
    {
        NonNull { addr, meta }
    }

    /// Acquires the underlying address, for use outside the handle's
    /// safety envelope; it is never null.
    pub fn as_ptr(self) -> (r: usize)
        ensures
            r == self.spec_addr(),
            r != 0,
    {
        proof {
            use_type_invariant(self);
        }
        self.addr
    }

    /// Casts to a handle of a statically sized pointee shape: the
    /// address is kept and the metadata slot disappears.
    pub fn cast(self) -> (r: Self)
        ensures
            r.spec_addr() == self.spec_addr(),
            r.spec_meta() == Metadata::Thin,
    {
        proof {
            use_type_invariant(self);
        }
        NonNull { addr: self.addr, meta: Metadata::Thin }
    }

    /// True when this handle occupies two machine words: an address and
    /// a metadata word.
    pub fn is_fat_pointer(&self) -> (r: bool)
        ensures
            r == self.spec_is_fat(),
    {
        match self.meta {
            Metadata::Thin => false,
            Metadata::Wide(_) => true,
        }
    }

    /// Replaces the address with `data`'s address while keeping this
    /// handle's metadata untouched. This deliberately allows building a
    /// wide handle whose address and metadata describe unrelated
    /// objects; it is a power-user escape hatch for re-pointing a wide
    /// handle at new storage, never implicit.
    pub fn update(self, data: NonNull) -> (r: Self)
        ensures
            r.spec_addr() == data.spec_addr(),
            r.spec_meta() == self.spec_meta(),
    {
        proof {
            use_type_invariant(data);
        }
        NonNull { addr: data.addr, meta: self.meta }
    }

    /// Replaces the metadata word of a wide handle, returning `None`
    /// for a thin handle, where no metadata slot exists. Whether the new
    /// metadata is semantically sound is the caller's responsibility.
    /// Even when successful, the handle still points to the same
    /// address.
    pub fn update_metadata(self, metadata: usize) -> (r: Option<Self>)
        ensures
            self.spec_is_fat() <==> r is Some,
            r matches Some(p) ==> p.spec_addr() == self.spec_addr() && p.spec_meta()
                == Metadata::Wide(metadata),
    {
        if self.is_fat_pointer() {
            Some(self.update_metadata_unchecked(metadata))
        } else {
            None
        }
    }

    /// Replaces the metadata word of a handle the caller has shown to
    /// be wide.
    pub fn update_metadata_unchecked(self, metadata: usize) -> (r: Self)
        requires
            self.spec_is_fat(),
        ensures
            r.spec_addr() == self.spec_addr(),
            r.spec_meta() == Metadata::Wide(metadata),
    {
        proof {
            use_type_invariant(self);
        }
        NonNull { addr: self.addr, meta: Metadata::Wide(metadata) }
    }

    /// Decomposes a wide handle into its two constituent words, the
    /// address and the metadata; `None` for a thin handle.
    pub fn split(&self) -> (r: Option<(usize, usize)>)
        ensures
            self.spec_is_fat() <==> r is Some,
            r matches Some(p) ==> p.0 == self.spec_addr() && Metadata::Wide(p.1)
                == self.spec_meta(),
    {
        match self.meta {
            Metadata::Wide(word) => Some((self.addr, word)),
            Metadata::Thin => None,
        }
    }

    /// Creates a thin handle that is dangling, but non-null and
    /// well-aligned for `align`: the address is the alignment itself.
    /// The address may still represent a valid pointer, so it must not
    /// serve as a "not yet initialized" sentinel.
    pub fn dangling(align: usize) -> (r: Self)
        requires
            align >= 1,
        ensures
            r.spec_addr() == align,
            r.spec_meta() == Metadata::Thin,
    {
        NonNull { addr: align, meta: Metadata::Thin }
    }
}

/// Two handles that agree on the address and on the metadata are the
/// same handle. In particular, reconstructing a handle from the two
/// words that `split` hands out yields a handle equal to the original.
pub proof fn lemma_handle_extensional(p: NonNull, q: NonNull)
    requires
        p.spec_addr() == q.spec_addr(),
        p.spec_meta() == q.spec_meta(),
    ensures
        p == q,
{
}

} // verus!
