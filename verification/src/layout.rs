//! Layout descriptors: validated `(size, align)` pairs with overflow-safe
//! composition rules.
use vstd::arithmetic::div_mod::{
    lemma_add_mod_noop, lemma_fundamental_div_mod, lemma_mod_add_multiples_vanish,
    lemma_mod_multiples_basic, lemma_small_mod, lemma_sub_mod_noop,
};
use vstd::arithmetic::mul::{lemma_mul_inequality, lemma_mul_is_commutative};
use vstd::arithmetic::power::lemma_pow_increases;
use vstd::arithmetic::power2::{
    is_pow2, is_pow2_equiv, lemma2_to64, lemma_pow2, lemma_pow2_adds, pow2,
};
use vstd::layout::unsigned_int_max_values;
use vstd::prelude::*;

verus! {

/// The ways building or composing a layout can fail.
#[derive(Clone, Copy, Debug, PartialEq, Eq, Structural)]
pub enum LayoutError {
    /// The alignment is zero or not a power of two.
    InvalidAlignment,
    /// A size, once padded or extended, would exceed `usize::MAX`.
    Overflow,
}

/// `size` rounded up to the next multiple of `align`.
pub open spec fn round_up(size: int, align: int) -> int {
    ((size + align - 1) / align) * align
}

/// The larger of two integers.
pub open spec fn spec_max(a: int, b: int) -> int {
    if a >= b {
        a
    } else {
        b
    }
}

/// Whether a record of size `s1` and alignment `a1` can be extended by a
/// field of size `s2` and alignment `a2` without any sum leaving `usize`.
pub open spec fn step_ok(s1: int, a1: int, s2: int, a2: int) -> bool {
    round_up(s1, a2) + s2 + spec_max(a1, a2) - 1 <= usize::MAX
}

/// The result of repeatedly extending a record of size `s` and alignment
/// `a` by the descriptors of `rest`, in order: the final size and
/// alignment, and the byte offset at which each descriptor is placed, or
/// `None` if some step overflows.
pub open spec fn spec_extend_many(s: int, a: int, rest: Seq<Layout>) -> Option<
    ((int, int), Seq<int>),
>
    decreases rest.len(),
{
    if rest.len() == 0 {
        Some(((s, a), Seq::<int>::empty()))
    } else {
        let s2 = rest[0].spec_size() as int;
        let a2 = rest[0].spec_align() as int;
        if !step_ok(s, a, s2, a2) {
            None
        } else {
            match spec_extend_many(round_up(s, a2) + s2, spec_max(a, a2), rest.drop_first()) {
                None => None,
                Some(q) => Some((q.0, seq![round_up(s, a2)] + q.1)),
            }
        }
    }
}

/// Layout of a block of memory.
///
/// An instance of `Layout` describes a particular layout of memory:
/// a size in bytes and a power-of-two byte alignment. Values are built
/// by validated construction and are immutable; composition produces
/// new descriptors.
#[derive(Clone, Copy, Debug, PartialEq, Eq, Structural)]
pub struct Layout {
    size: usize,
    align: usize,
}

impl Layout {
    /// The size in bytes this descriptor records.
    pub closed spec fn spec_size(&self) -> usize {
        self.size
    }

    /// The alignment in bytes this descriptor records.
    pub closed spec fn spec_align(&self) -> usize {
        self.align
    }

    /// The invariant every live descriptor carries: the alignment is a
    /// power of two, and the size rounded up to that alignment still fits
    /// in `usize`.
    #[verifier::type_invariant]
    pub open spec fn wf(self) -> bool {
        &&& is_pow2(self.spec_align() as int)
        &&& self.spec_size() + self.spec_align() - 1 <= usize::MAX
    }

    /// The minimum size in bytes for a memory block of this layout.
    #[verifier::when_used_as_spec(spec_size)]
    pub fn size(&self) -> (r: usize)
        ensures
            r == self.spec_size(),
    {
        self.size
    }

    /// The minimum byte alignment for a memory block of this layout.
    #[verifier::when_used_as_spec(spec_align)]
    pub fn align(&self) -> (r: usize)
        ensures
            r == self.spec_align(),
            r >= 1,
    {
        proof {
            use_type_invariant(self);
            reveal(is_pow2);
        }
        self.align
    }

    /// Creates a layout, bypassing the validation of `from_size_align`;
    /// the caller proves the invariants instead.
    pub fn from_size_align_unchecked(size: usize, align: usize) -> (r: Self)
        requires
            is_pow2(align as int),
            size + align - 1 <= usize::MAX,
        ensures
            r.spec_size() == size,
            r.spec_align() == align,
    {
        Layout { size, align }
    }

    /// Constructs a `Layout` from a given `size` and `align`.
    ///
    /// Fails with `InvalidAlignment` if `align` is zero or not a power of
    /// two, and with `Overflow` if `size`, rounded up to the nearest
    /// multiple of `align`, would exceed `usize::MAX`.
    pub fn from_size_align(size: usize, align: usize) -> (r: Result<Self, LayoutError>)
        ensures
            !is_pow2(align as int) ==> r == Err::<Layout, LayoutError>(
                LayoutError::InvalidAlignment,
            ),
            is_pow2(align as int) && size + align - 1 > usize::MAX ==> r == Err::<
                Layout,
                LayoutError,
            >(LayoutError::Overflow),
            is_pow2(align as int) && size + align - 1 <= usize::MAX ==> (r matches Ok(l)
                && l.spec_size() == size && l.spec_align() == align),
    {
        if !is_power_of_two(align) {
            return Err(LayoutError::InvalidAlignment);
        }
        proof {
            reveal(is_pow2);
        }
        if overflow_padded(size, align) {
            return Err(LayoutError::Overflow);
        }
        Ok(Self::from_size_align_unchecked(size, align))
    }

    /// The layout of an empty, zero-sized value: size `0`, alignment `1`,
    /// the identity element for `extend`.
    pub fn empty() -> (r: Self)
        ensures
            r.spec_size() == 0,
            r.spec_align() == 1,
    {
        proof {
            reveal(is_pow2);
        }
        Layout { size: 0, align: 1 }
    }

    /// Constructs a `Layout` suitable for holding a value of type `T`;
    /// always succeeds because the language's own layout rules satisfy
    /// the invariants.
    pub fn new<T>() -> (r: Self)
        ensures
            r.spec_size() == vstd::layout::size_of::<T>(),
            r.spec_align() == vstd::layout::align_of::<T>(),
    {
        vstd::layout::layout_for_type_is_valid::<T>();
        let (size, align) = size_align::<T>();
        proof {
            lemma_valid_layout_wf(size, align);
        }
        Layout { size, align }
    }

    /// Produces the layout describing a record that could be used to
    /// hold the referenced value.
    pub fn for_value<T>(val: &T) -> (r: Self)
        ensures
            r.spec_size() == vstd::layout::size_of::<T>(),
            r.spec_align() == vstd::layout::align_of::<T>(),
    {
        let _ = val;
        Self::new::<T>()
    }

    /// Checks that an address is aligned for this layout.
    pub fn is_aligned(&self, addr: usize) -> (r: bool)
        ensures
            r == (addr as int % self.spec_align() as int == 0),
    {
        proof {
            use_type_invariant(self);
            reveal(is_pow2);
        }
        addr % self.align == 0
    }

    /// Creates a handle that is dangling, but non-null and well-aligned
    /// for this layout.
    pub fn dangling(&self) -> (r: crate::ptr::NonNull)
        ensures
            r.spec_addr() == self.spec_align(),
            r.spec_meta() == crate::ptr::Metadata::Thin,
    {
        crate::ptr::NonNull::dangling(self.align())
    }

    /// Structural equality of size and align.
    pub fn eq(&self, other: &Self) -> (r: bool)
        ensures
            r == (*self == *other),
    {
        self.size == other.size && self.align == other.align
    }

    /// Returns the amount of padding that must be inserted after `self`
    /// so that the following address satisfies `align` (in bytes): the
    /// distance from this size to the next multiple of `align`.
    pub fn padding_needed_for(&self, align: usize) -> (r: usize)
        requires
            align >= 1,
        ensures
            r == round_up(self.spec_size() as int, align as int) - self.spec_size(),
            r < align,
    {
        proof {
            lemma_round_up(self.spec_size() as int, align as int);
        }
        let rem = self.size % align;
        if rem == 0 {
            0
        } else {
            align - rem
        }
    }

    /// Whether `extend(next)` succeeds: no intermediate sum may leave
    /// `usize`.
    pub open spec fn extend_ok(&self, next: Layout) -> bool {
        step_ok(
            self.spec_size() as int,
            self.spec_align() as int,
            next.spec_size() as int,
            next.spec_align() as int,
        )
    }

    /// The byte offset at which `next` starts when placed directly after
    /// `self` with just enough padding for `next`'s alignment.
    pub open spec fn extend_offset(&self, next: Layout) -> int {
        round_up(self.spec_size() as int, next.spec_align() as int)
    }

    /// Creates a layout describing the record for `self` followed by
    /// `next`, with padding inserted only so that `next` is aligned and
    /// with no trailing padding. Returns the combined layout, whose
    /// alignment is the larger of the two, and the byte offset at which
    /// `next` begins. Fails with `Overflow` exactly when some sum in that
    /// computation leaves `usize`.
    pub fn extend(&self, next: Self) -> (r: Result<(Self, usize), LayoutError>)
        ensures
            self.extend_ok(next) ==> (r matches Ok(p) && p.0.spec_size() == self.extend_offset(
                next,
            ) + next.spec_size() && p.0.spec_align() == spec_max(
                self.spec_align() as int,
                next.spec_align() as int,
            ) && p.1 == self.extend_offset(next)),
            !self.extend_ok(next) ==> r == Err::<(Layout, usize), LayoutError>(
                LayoutError::Overflow,
            ),
    {
        proof {
            use_type_invariant(self);
            use_type_invariant(next);
            reveal(is_pow2);
            lemma_round_up(self.spec_size() as int, next.spec_align() as int);
        }
        let new_align = max(self.align, next.align);
        let pad = self.padding_needed_for(next.align);

        let offset = match self.size.checked_add(pad) {
            Some(offset) => offset,
            None => {
                return Err(LayoutError::Overflow);
            },
        };
        let new_size = match offset.checked_add(next.size) {
            Some(size) => size,
            None => {
                return Err(LayoutError::Overflow);
            },
        };

        match Self::from_size_align(new_size, new_align) {
            Err(err) => Err(err),
            Ok(layout) => Ok((layout, offset)),
        }
    }

    /// Repeatedly applies `extend`, threading the running layout forward
    /// through `layouts` in order and collecting the offset of each
    /// element; this is how a compound record's layout and per-field
    /// offsets are derived. Stops at the first `Overflow`.
    pub fn extend_many(&self, layouts: &Vec<Self>) -> (r: Result<(Self, Vec<usize>), LayoutError>)
        ensures
            match r {
                Ok(p) => spec_extend_many(
                    self.spec_size() as int,
                    self.spec_align() as int,
                    layouts@,
                ) matches Some(q) && q.0.0 == p.0.spec_size() && q.0.1 == p.0.spec_align()
                    && q.1.len() == p.1.len() && (forall|j: int|
                    0 <= j < q.1.len() ==> q.1[j] == #[trigger] (p.1@[j] as int)),
                Err(e) => e == LayoutError::Overflow && spec_extend_many(
                    self.spec_size() as int,
                    self.spec_align() as int,
                    layouts@,
                ) is None,
            },
    {
        let ghost s0 = self.spec_size() as int;
        let ghost a0 = self.spec_align() as int;
        let mut offsets: Vec<usize> = Vec::new();
        let mut layout: Layout = *self;

        proof {
            assert(layouts@.skip(0) =~= layouts@);
            match spec_extend_many(s0, a0, layouts@) {
                None => {},
                Some(q) => {
                    assert(offsets@.map_values(|o: usize| o as int) + q.1 =~= q.1);
                },
            }
        }
        let mut i: usize = 0;
        while i < layouts.len()
            invariant
                0 <= i <= layouts.len(),
                offsets.len() == i,
                s0 == self.spec_size() as int,
                a0 == self.spec_align() as int,
                match spec_extend_many(
                    layout.spec_size() as int,
                    layout.spec_align() as int,
                    layouts@.skip(i as int),
                ) {
                    None => spec_extend_many(s0, a0, layouts@) is None,
                    Some(q) => spec_extend_many(s0, a0, layouts@) == Some(
                        (q.0, offsets@.map_values(|o: usize| o as int) + q.1),
                    ),
                },
            decreases layouts.len() - i,
        {
            let ghost rest = layouts@.skip(i as int);
            proof {
                assert(rest.drop_first() =~= layouts@.skip(i as int + 1));
                assert(rest[0] == layouts@[i as int]);
            }
            let (new, offset) = match layout.extend(layouts[i]) {
                Ok(data) => data,
                Err(err) => {
                    proof {
                        assert(rest.len() != 0);
                        assert(spec_extend_many(
                            layout.spec_size() as int,
                            layout.spec_align() as int,
                            rest,
                        ) is None);
                    }
                    return Err(err);
                },
            };
            proof {
                let f = |o: usize| o as int;
                match spec_extend_many(
                    new.spec_size() as int,
                    new.spec_align() as int,
                    layouts@.skip(i as int + 1),
                ) {
                    None => {},
                    Some(q) => {
                        assert(offsets@.push(offset).map_values(f) + q.1 =~= offsets@.map_values(f)
                            + (seq![offset as int] + q.1));
                    },
                }
            }
            offsets.push(offset);
            layout = new;

            i += 1;
        }
        proof {
            assert(layouts@.skip(i as int) =~= Seq::<Layout>::empty());
            assert(offsets@.map_values(|o: usize| o as int) + Seq::<int>::empty()
                =~= offsets@.map_values(|o: usize| o as int));
        }
        Ok((layout, offsets))
    }

    /// Creates a layout by rounding this layout's size up to a multiple
    /// of its alignment, so that consecutive repetitions of the layout
    /// stay aligned.
    pub fn pad_to_align(&self) -> (r: Self)
        ensures
            r.spec_align() == self.spec_align(),
            r.spec_size() == round_up(self.spec_size() as int, self.spec_align() as int),
    {
        proof {
            use_type_invariant(self);
            reveal(is_pow2);
            lemma_round_up(self.spec_size() as int, self.spec_align() as int);
            lemma_aligned_fits(
                round_up(self.spec_size() as int, self.spec_align() as int),
                self.spec_align(),
            );
        }
        let pad = self.padding_needed_for(self.align);
        Layout { size: self.size + pad, align: self.align }
    }
}

/// Two descriptors that agree on size and alignment are the same
/// descriptor: a layout holds nothing else.
pub proof fn lemma_layout_extensional(a: Layout, b: Layout)
    requires
        a.spec_size() == b.spec_size(),
        a.spec_align() == b.spec_align(),
    ensures
        a == b,
{
}

/// Padding the empty descriptor to its alignment returns the empty
/// descriptor itself: the identity element is stable under its own
/// rounding rule.
pub proof fn lemma_empty_pad_to_align(e: Layout, p: Layout)
    requires
        e.spec_size() == 0,
        e.spec_align() == 1,
        p.spec_size() == round_up(e.spec_size() as int, e.spec_align() as int),
        p.spec_align() == e.spec_align(),
    ensures
        p == e,
{
    lemma_round_up(0, 1);
}

/// Padding to alignment is idempotent: if `p` is `d` padded to its
/// alignment, as `pad_to_align` returns it, and `q` is `p` padded in
/// the same way, then `q` equals `p`.
pub proof fn lemma_pad_to_align_idempotent(d: Layout, p: Layout, q: Layout)
    requires
        d.wf(),
        p.spec_size() == round_up(d.spec_size() as int, d.spec_align() as int),
        p.spec_align() == d.spec_align(),
        q.spec_size() == round_up(p.spec_size() as int, p.spec_align() as int),
        q.spec_align() == p.spec_align(),
    ensures
        q == p,
{
    reveal(is_pow2);
    lemma_round_up_idempotent(d.spec_size() as int, d.spec_align() as int);
}

/// How `round_up` behaves: the result is the smallest multiple of
/// `align` that is at least `size`, and the difference from `size` is
/// the remainder's complement.
pub proof fn lemma_round_up(size: int, align: int)
    requires
        align >= 1,
        size >= 0,
    ensures
        round_up(size, align) % align == 0,
        size <= round_up(size, align) <= size + align - 1,
        round_up(size, align) - size == (if size % align == 0 {
            0int
        } else {
            align - size % align
        }),
{
    let t = size + align - 1;
    let q = t / align;
    lemma_fundamental_div_mod(t, align);
    lemma_mul_is_commutative(q, align);
    lemma_mod_multiples_basic(q, align);
    assert(round_up(size, align) == t - t % align);
    lemma_add_mod_noop(size, align - 1, align);
    lemma_small_mod((align - 1) as nat, align as nat);
    if size % align == 0 {
        lemma_small_mod((align - 1) as nat, align as nat);
        assert(t % align == align - 1);
    } else {
        let rem = size % align;
        lemma_mod_add_multiples_vanish(rem - 1, align);
        lemma_small_mod((rem - 1) as nat, align as nat);
        assert(t % align == rem - 1);
    }
}

/// Rounding to a multiple of `align` is idempotent.
pub proof fn lemma_round_up_idempotent(size: int, align: int)
    requires
        align >= 1,
        size >= 0,
    ensures
        round_up(round_up(size, align), align) == round_up(size, align),
{
    lemma_round_up(size, align);
    lemma_round_up(round_up(size, align), align);
}

/// A power of two that fits in `usize` divides `usize::MAX + 1` and is
/// at most half of it.
proof fn lemma_pow2_divides_usize_range(a: usize)
    requires
        is_pow2(a as int),
    ensures
        a >= 1,
        (usize::MAX as int + 1) % (a as int) == 0,
        2 * (a as int) <= usize::MAX as int + 1,
{
    reveal(is_pow2);
    is_pow2_equiv(a as int);
    let i = choose|i: nat| vstd::arithmetic::power::pow(2, i) == a as int;
    lemma_pow2(i);
    assert(pow2(i) == a);
    unsigned_int_max_values();
    let bits = usize::BITS as nat;
    assert(usize::MAX as int + 1 == pow2(bits));
    lemma2_to64();
    if i >= bits {
        lemma_pow2(bits);
        lemma_pow_increases(2, bits, i);
        assert(pow2(bits) <= pow2(i));
        assert(false);
    }
    lemma_pow2_adds(i, (bits - i) as nat);
    assert(pow2(bits) == pow2(i) * pow2((bits - i) as nat));
    lemma_mul_is_commutative(pow2(i) as int, pow2((bits - i) as nat) as int);
    lemma_mod_multiples_basic(pow2((bits - i) as nat) as int, a as int);
    if (bits - i) as nat == 0 {
        assert(pow2(0) == 1);
        assert(false);
    }
    lemma_pow_increases(2, 1, (bits - i) as nat);
    assert(pow2(1) <= pow2((bits - i) as nat));
    lemma_mul_inequality(2, pow2((bits - i) as nat) as int, pow2(i) as int);
}

/// A multiple of a power-of-two alignment that fits in `usize` leaves
/// room for `align - 1` more bytes.
proof fn lemma_aligned_fits(m: int, align: usize)
    requires
        is_pow2(align as int),
        0 <= m <= usize::MAX,
        m % (align as int) == 0,
    ensures
        m + align - 1 <= usize::MAX,
{
    lemma_pow2_divides_usize_range(align);
    let bound = usize::MAX as int + 1;
    let a = align as int;
    lemma_sub_mod_noop(bound, m, a);
    lemma_small_mod(0nat, align as nat);
    assert((bound - m) % a == 0);
    if bound - m < a {
        lemma_small_mod((bound - m) as nat, align as nat);
        assert(false);
    }
}

/// `extend_many` over a list `[a, b, c]` yields the same final layout
/// and offsets as folding `extend` over it left-to-right by hand: each
/// step pads the running size up to the next field's alignment, places
/// the field there, and keeps the larger alignment.
pub proof fn lemma_extend_many_three(s: int, al: int, a: Layout, b: Layout, c: Layout)
    ensures
        spec_extend_many(s, al, seq![a, b, c]) == ({
            let sa = a.spec_size() as int;
            let aa = a.spec_align() as int;
            let sb = b.spec_size() as int;
            let ab = b.spec_align() as int;
            let sc = c.spec_size() as int;
            let ac = c.spec_align() as int;
            if !step_ok(s, al, sa, aa) {
                None::<((int, int), Seq<int>)>
            } else {
                let o1 = round_up(s, aa);
                let s1 = o1 + sa;
                let a1 = spec_max(al, aa);
                if !step_ok(s1, a1, sb, ab) {
                    None::<((int, int), Seq<int>)>
                } else {
                    let o2 = round_up(s1, ab);
                    let s2 = o2 + sb;
                    let a2 = spec_max(a1, ab);
                    if !step_ok(s2, a2, sc, ac) {
                        None::<((int, int), Seq<int>)>
                    } else {
                        let o3 = round_up(s2, ac);
                        Some(((o3 + sc, spec_max(a2, ac)), seq![o1, o2, o3]))
                    }
                }
            }
        }),
{
    reveal_with_fuel(spec_extend_many, 5);
    let rest0 = seq![a, b, c];
    assert(rest0.drop_first() =~= seq![b, c]);
    assert(seq![b, c].drop_first() =~= seq![c]);
    assert(seq![c].drop_first() =~= Seq::<Layout>::empty());
    let sa = a.spec_size() as int;
    let aa = a.spec_align() as int;
    let sb = b.spec_size() as int;
    let ab = b.spec_align() as int;
    let sc = c.spec_size() as int;
    let ac = c.spec_align() as int;
    if step_ok(s, al, sa, aa) {
        let o1 = round_up(s, aa);
        let s1 = o1 + sa;
        let a1 = spec_max(al, aa);
        if step_ok(s1, a1, sb, ab) {
            let o2 = round_up(s1, ab);
            let s2 = o2 + sb;
            let a2 = spec_max(a1, ab);
            if step_ok(s2, a2, sc, ac) {
                let o3 = round_up(s2, ac);
                assert(seq![o1] + (seq![o2] + (seq![o3] + Seq::<int>::empty())) =~= seq![
                    o1,
                    o2,
                    o3,
                ]);
            }
        }
    }
}

/// When `extend` succeeds, the offset it returns is a multiple of the
/// second descriptor's alignment and is at least the first descriptor's
/// size.
pub proof fn lemma_extend_offset_aligned(d1: Layout, d2: Layout)
    requires
        d1.wf(),
        d2.wf(),
    ensures
        d1.extend_offset(d2) % (d2.spec_align() as int) == 0,
        d1.extend_offset(d2) >= d1.spec_size(),
{
    reveal(is_pow2);
    lemma_round_up(d1.spec_size() as int, d2.spec_align() as int);
}

/// Get `(size, align)` for statically sized types.
pub fn size_align<T>() -> (r: (usize, usize))
    ensures
        r.0 as nat == vstd::layout::size_of::<T>(),
        r.1 as nat == vstd::layout::align_of::<T>(),
{
    (core::mem::size_of::<T>(), core::mem::align_of::<T>())
}

/// A `(size, align)` pair the language's layout rules produced is
/// well formed in this module's sense.
proof fn lemma_valid_layout_wf(size: usize, align: usize)
    requires
        vstd::layout::valid_layout(size, align),
    ensures
        is_pow2(align as int),
        size + align - 1 <= usize::MAX,
{
    broadcast use vstd::layout::layout_of_primitives;

    unsigned_int_max_values();
    vstd::layout::signed_int_min_max_values();
    lemma_pow2_divides_usize_range(align);
    assert(usize::MAX as int + 1 == 2 * (isize::MAX as int + 1) - 2 + 2);
    assert(align as int <= isize::MAX as int + 1);
}

/// Maximum of two `usize`s.
fn max(a: usize, b: usize) -> (r: usize)
    ensures
        r == spec_max(a as int, b as int),
{
    if a >= b {
        a
    } else {
        b
    }
}

/// Checks whether a size of `size` will exceed `usize::MAX` once padded
/// to a multiple of `align`.
pub fn overflow_padded(size: usize, align: usize) -> (r: bool)
    requires
        align >= 1,
    ensures
        r == (size + align - 1 > usize::MAX),
{
    size > usize::MAX - (align - 1)
}

/// Runtime check that `n` is a power of two, tied to the mathematical
/// definition.
fn is_power_of_two(n: usize) -> (r: bool)
    ensures
        r == is_pow2(n as int),
{
    if n == 0 {
        proof {
            reveal(is_pow2);
        }
        return false;
    }
    let mut m: usize = n;
    while m % 2 == 0
        invariant
            1 <= m,
            is_pow2(n as int) == is_pow2(m as int),
        decreases m,
    {
        proof {
            reveal(is_pow2);
            assert(is_pow2(m as int) == is_pow2((m / 2) as int));
        }
        m = m / 2;
    }
    proof {
        reveal(is_pow2);
        assert(is_pow2(m as int) == (m == 1));
    }
    m == 1
}

} // verus!
