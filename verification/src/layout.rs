//! Size and alignment of a block of memory, and the arithmetic that lays
//! blocks out one after another the way a C record lays out its fields.

use crate::alignment::{
    align, align_up, checked_align, lemma_align_up_bounds, lemma_align_up_by_remainder,
    lemma_align_up_coarser, lemma_align_up_is_least, lemma_pow2_divides, lemma_pow2_positive,
};
use vstd::arithmetic::power2::is_pow2;
use vstd::layout::{align_of, layout_for_type_is_valid, size_of};
use vstd::prelude::*;

verus! {

/// The larger of two integers.
pub open spec fn max_int(a: int, b: int) -> int {
    if a >= b {
        a
    } else {
        b
    }
}

/// Size and alignment of a block of memory as mathematical integers, free
/// of any machine limit.
pub struct Region {
    pub size: int,
    pub align: int,
}

impl Region {
    /// Whether a block of this shape can exist in memory: the alignment is a
    /// power of two, and the size still fits in an `isize` once it is
    /// rounded up to the alignment.
    pub open spec fn fits(self) -> bool {
        is_pow2(self.align) && 0 <= self.size && align_up(self.size, self.align) <= isize::MAX
    }

    /// The shape of a value of type `T`.
    pub open spec fn of<T>() -> Region {
        Region { size: size_of::<T>() as int, align: align_of::<T>() as int }
    }

    /// `count` blocks of this size, one directly after the other.
    pub open spec fn repeat(self, count: int) -> Region {
        Region { size: self.size * count, align: self.align }
    }

    /// Where `next` starts when it follows this block: at the first offset
    /// behind the block that `next` is aligned at.
    pub open spec fn offset_of(self, next: Region) -> int {
        align_up(self.size, next.align)
    }

    /// This block followed by `next`, with the padding between the two that
    /// `next` needs and none behind it.
    pub open spec fn extend(self, next: Region) -> Region {
        Region { size: self.offset_of(next) + next.size, align: max_int(self.align, next.align) }
    }

    /// This block with its size rounded up to its alignment.
    pub open spec fn pad_to_align(self) -> Region {
        Region { size: align_up(self.size, self.align), align: self.align }
    }

    /// The shape that a C compiler gives to a record of a header, a user
    /// header and `count` payload elements, in this order.
    pub open spec fn record(header: Region, user_header: Region, payload: Region, count: int)
        -> Region {
        header.extend(user_header).extend(payload.repeat(count)).pad_to_align()
    }
}

/// A block is no longer, padding included, than a block that covers it and
/// is aligned at least as strictly.
pub proof fn lemma_covered_block_is_shorter(part: Region, cover: Region)
    requires
        is_pow2(part.align),
        is_pow2(cover.align),
        part.align <= cover.align,
        0 <= part.size <= cover.size,
    ensures
        align_up(part.size, part.align) <= align_up(cover.size, cover.align),
        cover.fits() ==> part.fits(),
{
    lemma_pow2_divides(part.align, cover.align);
    lemma_align_up_coarser(cover.size, part.align, cover.align);
    lemma_align_up_bounds(cover.size, cover.align);
    lemma_align_up_is_least(part.size, part.align, align_up(cover.size, cover.align));
}

/// Padding a block to its alignment changes nothing about whether it fits,
/// and a padded block needs no more padding.
pub proof fn lemma_padding_keeps_fit(region: Region)
    requires
        is_pow2(region.align),
        0 <= region.size,
    ensures
        region.pad_to_align().fits() == region.fits(),
        region.pad_to_align().pad_to_align() == region.pad_to_align(),
        region.size <= region.pad_to_align().size,
{
    lemma_pow2_positive(region.align);
    lemma_align_up_bounds(region.size, region.align);
    lemma_align_up_by_remainder(align_up(region.size, region.align), region.align);
}

/// A record fits only if each of its parts fits, alone and together with
/// the parts before it.
pub proof fn lemma_record_parts_fit(
    header: Region,
    user_header: Region,
    payload: Region,
    count: int,
)
    requires
        is_pow2(header.align),
        is_pow2(user_header.align),
        is_pow2(payload.align),
        0 <= header.size,
        0 <= user_header.size,
        0 <= payload.size,
        0 <= count,
        Region::record(header, user_header, payload, count).fits(),
    ensures
        header.fits(),
        user_header.fits(),
        payload.repeat(count).fits(),
        header.extend(user_header).fits(),
        header.extend(user_header).extend(payload.repeat(count)).fits(),
{
    let array = payload.repeat(count);
    let prefix = header.extend(user_header);
    let whole = prefix.extend(array);
    assert(0 <= payload.size * count) by (nonlinear_arith)
        requires
            0 <= payload.size,
            0 <= count,
    ;
    lemma_pow2_positive(user_header.align);
    lemma_pow2_positive(payload.align);
    lemma_align_up_bounds(header.size, user_header.align);
    lemma_align_up_bounds(prefix.size, payload.align);
    lemma_padding_keeps_fit(whole);
    lemma_covered_block_is_shorter(header, whole);
    lemma_covered_block_is_shorter(user_header, whole);
    lemma_covered_block_is_shorter(array, whole);
    lemma_covered_block_is_shorter(prefix, whole);
}

/// Why a layout could not be computed.
#[derive(Debug, Clone, Copy, PartialEq, Eq, Hash)]
pub enum LayoutError {
    /// The block, padded to its alignment, would be longer than `isize::MAX`
    /// bytes.
    TooLarge,
}

/// Size and alignment of a block of memory.
#[derive(Debug, Clone, Copy, PartialEq, Eq, Hash)]
pub struct MemoryLayout {
    /// Length of the block in bytes.
    pub size: usize,
    /// Alignment that the start of the block needs, in bytes.
    pub align: usize,
}

impl View for MemoryLayout {
    type V = Region;

    open spec fn view(&self) -> Region {
        Region { size: self.size as int, align: self.align as int }
    }
}

impl MemoryLayout {
    /// The invariant of a layout: a block of this shape can exist.
    pub open spec fn wf(&self) -> bool {
        self@.fits()
    }

    /// Length of the block in bytes.
    pub fn size(&self) -> (size: usize)
        ensures
            size == self.size,
    {
        self.size
    }

    /// Alignment of the block in bytes.
    pub fn align(&self) -> (align: usize)
        ensures
            align == self.align,
    {
        self.align
    }

    /// The layout of `size` bytes aligned to `align`, if such a block fits.
    pub fn from_size_align(size: usize, align: usize) -> (layout: Result<
        MemoryLayout,
        LayoutError,
    >)
        requires
            is_pow2(align as int),
        ensures
            layout is Ok <==> (Region { size: size as int, align: align as int }).fits(),
            layout is Ok ==> layout->Ok_0 == (MemoryLayout { size, align }),
    {
        proof {
            lemma_pow2_positive(align as int);
        }
        match checked_align(size, align) {
            Some(padded) => {
                if padded <= isize::MAX as usize {
                    Ok(MemoryLayout { size, align })
                } else {
                    Err(LayoutError::TooLarge)
                }
            },
            None => Err(LayoutError::TooLarge),
        }
    }

    /// The layout of a value of type `T`.
    pub fn new<T>() -> (layout: MemoryLayout)
        ensures
            layout@ == Region::of::<T>(),
            layout.wf(),
    {
        layout_for_type_is_valid::<T>();
        let size = core::mem::size_of::<T>();
        let align = core::mem::align_of::<T>();
        proof {
            lemma_align_up_by_remainder(size as int, align as int);
        }
        MemoryLayout { size, align }
    }

    /// The layout of `count` blocks of `self.size` bytes each, one directly
    /// after the other, aligned as `self` is.
    pub fn repeat(&self, count: usize) -> (layout: Result<MemoryLayout, LayoutError>)
        requires
            is_pow2(self.align as int),
        ensures
            layout is Ok <==> self@.repeat(count as int).fits(),
            layout is Ok ==> layout->Ok_0@ == self@.repeat(count as int),
    {
        proof {
            assert(0 <= self.size * count) by (nonlinear_arith);
            lemma_pow2_positive(self.align as int);
            lemma_align_up_bounds(self.size * count, self.align as int);
        }
        match self.size.checked_mul(count) {
            Some(bytes) => MemoryLayout::from_size_align(bytes, self.align),
            None => Err(LayoutError::TooLarge),
        }
    }

    /// The layout of `[T; count]`.
    pub fn array<T>(count: usize) -> (layout: Result<MemoryLayout, LayoutError>)
        ensures
            layout is Ok <==> Region::of::<T>().repeat(count as int).fits(),
            layout is Ok ==> layout->Ok_0@ == Region::of::<T>().repeat(count as int),
    {
        let element = MemoryLayout::new::<T>();
        element.repeat(count)
    }

    /// The layout of `self` followed by `next`, with the padding between the
    /// two that `next` needs and none behind it, and the offset at which
    /// `next` starts. The alignment is the stricter of the two.
    pub fn extend(&self, next: MemoryLayout) -> (extended: Result<
        (MemoryLayout, usize),
        LayoutError,
    >)
        requires
            self.wf(),
            next.wf(),
        ensures
            extended is Ok <==> self@.extend(next@).fits(),
            extended matches Ok((layout, offset)) ==> {
                &&& layout@ == self@.extend(next@)
                &&& offset == self@.offset_of(next@)
            },
    {
        let align: usize = if self.align >= next.align {
            self.align
        } else {
            next.align
        };
        proof {
            lemma_pow2_positive(next.align as int);
            lemma_pow2_positive(align as int);
            lemma_align_up_bounds(self.size as int, next.align as int);
            lemma_align_up_bounds(self@.extend(next@).size, align as int);
        }
        let offset = match checked_align(self.size, next.align) {
            Some(offset) => offset,
            None => {
                return Err(LayoutError::TooLarge);
            },
        };
        let size = match offset.checked_add(next.size) {
            Some(size) => size,
            None => {
                return Err(LayoutError::TooLarge);
            },
        };
        match MemoryLayout::from_size_align(size, align) {
            Ok(layout) => Ok((layout, offset)),
            Err(error) => Err(error),
        }
    }

    /// The layout with its size rounded up to a multiple of its alignment.
    pub fn pad_to_align(&self) -> (padded: MemoryLayout)
        requires
            self.wf(),
        ensures
            padded@ == self@.pad_to_align(),
            padded.wf(),
    {
        proof {
            lemma_pow2_positive(self.align as int);
            lemma_padding_keeps_fit(self@);
        }
        let size = align(self.size, self.align);
        MemoryLayout { size, align: self.align }
    }
}

} // verus!
