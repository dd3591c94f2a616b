//! The description of a whole message, the places of its regions in a slot
//! of memory, the size of such a slot, and the rule that decides whether two
//! descriptions can share a channel.

use crate::alignment::{
    align_up, checked_align, lemma_align_up_bounds, lemma_align_up_by_remainder,
    lemma_align_up_is_least, lemma_align_up_shift, lemma_multiple_of_multiple,
    lemma_pow2_divides, lemma_pow2_positive,
};
use crate::layout::{
    lemma_covered_block_is_shorter, lemma_padding_keeps_fit, lemma_record_parts_fit, LayoutError,
    MemoryLayout, Region,
};
use crate::type_detail::{TypeDetail, TypeDetailView, TypeVariant};
use vstd::layout::{align_of, layout_for_type_is_valid, size_of};
use vstd::prelude::*;
use vstd::std_specs::cmp::PartialEqSpecImpl;

verus! {

/// What a [`MessageTypeDetails`] says, as mathematical values.
pub struct MessageTypeDetailsView {
    pub header: TypeDetailView,
    pub user_header: TypeDetailView,
    pub payload: TypeDetailView,
}

/// The types of the three regions of a message, in the order in which the
/// regions lie in memory.
#[derive(Debug, Clone, Eq, Hash)]
pub struct MessageTypeDetails {
    /// The header that every message starts with.
    pub header: TypeDetail,
    /// The header that the user defines. It follows the header.
    pub user_header: TypeDetail,
    /// The payload, the last region: one value or a slice of values.
    pub payload: TypeDetail,
}

impl View for MessageTypeDetails {
    type V = MessageTypeDetailsView;

    open spec fn view(&self) -> MessageTypeDetailsView {
        MessageTypeDetailsView {
            header: self.header@,
            user_header: self.user_header@,
            payload: self.payload@,
        }
    }
}

impl PartialEq for MessageTypeDetails {
    fn eq(&self, other: &MessageTypeDetails) -> (equal: bool) {
        self.header == other.header && self.user_header == other.user_header && self.payload
            == other.payload
    }
}

impl PartialEqSpecImpl for MessageTypeDetails {
    open spec fn obeys_eq_spec() -> bool {
        true
    }

    open spec fn eq_spec(&self, other: &MessageTypeDetails) -> bool {
        self@ == other@
    }
}

impl Default for MessageTypeDetails {
    /// Three placeholders: see the default of [`TypeDetail`].
    fn default() -> (details: MessageTypeDetails)
        ensures
            details.header@ == TypeDetail::default_view(),
            details.user_header@ == TypeDetail::default_view(),
            details.payload@ == TypeDetail::default_view(),
    {
        MessageTypeDetails {
            header: TypeDetail::default(),
            user_header: TypeDetail::default(),
            payload: TypeDetail::default(),
        }
    }
}

impl MessageTypeDetails {
    /// The invariant of a description: each region is well formed, and only
    /// the payload may be a slice.
    pub open spec fn wf(&self) -> bool {
        &&& self.header.wf()
        &&& self.user_header.wf()
        &&& self.payload.wf()
        &&& self.header.variant == TypeVariant::FixedSize
        &&& self.user_header.variant == TypeVariant::FixedSize
    }

    /// Address of the user header in a message whose header is at `header`.
    pub open spec fn user_header_offset(&self, header: int) -> int {
        align_up(header + self.header.size, self.user_header.alignment as int)
    }

    /// Address of the payload in a message whose header is at `header`.
    pub open spec fn payload_offset(&self, header: int) -> int {
        align_up(
            self.user_header_offset(header) + self.user_header.size,
            self.payload.alignment as int,
        )
    }

    /// Size and alignment of a slot that holds the header, the user header
    /// and `count` payload elements: those of the C record with these fields.
    pub open spec fn sample_region(&self, count: int) -> Region {
        Region::record(
            self.header.region(),
            self.user_header.region(),
            self.payload.region(),
            count,
        )
    }

    /// Size and alignment of `count` payload elements alone.
    pub open spec fn payload_region(&self, count: int) -> Region {
        self.payload.region().repeat(count)
    }

    /// Whether an endpoint that holds `self` may attach to a channel whose
    /// memory is laid out as `rhs` says. The headers agree in everything. The
    /// user headers and the payloads agree in name, variant and size, and
    /// `rhs` aligns each at least as strictly as `self` asks.
    pub open spec fn spec_is_compatible_to(&self, rhs: &MessageTypeDetails) -> bool {
        &&& self.header@ == rhs.header@
        &&& self.user_header.accepts(&rhs.user_header)
        &&& self.payload.accepts(&rhs.payload)
    }

    /// Whether the description is well formed.
    pub fn is_valid(&self) -> (valid: bool)
        ensures
            valid == self.wf(),
    {
        self.header.is_valid() && self.user_header.is_valid() && self.payload.is_valid()
            && self.header.variant == TypeVariant::FixedSize && self.user_header.variant
            == TypeVariant::FixedSize
    }

    /// Describes a message whose header, user header and payload element
    /// have the types `Header`, `UserHeader` and `Payload`, under the names
    /// given for them.
    pub fn from<Header, UserHeader, Payload>(
        payload_variant: TypeVariant,
        header_name: &str,
        user_header_name: &str,
        payload_name: &str,
    ) -> (details: MessageTypeDetails)
        ensures
            details.header@ == (TypeDetailView {
                variant: TypeVariant::FixedSize,
                name: header_name@,
                size: size_of::<Header>(),
                alignment: align_of::<Header>(),
            }),
            details.user_header@ == (TypeDetailView {
                variant: TypeVariant::FixedSize,
                name: user_header_name@,
                size: size_of::<UserHeader>(),
                alignment: align_of::<UserHeader>(),
            }),
            details.payload@ == (TypeDetailView {
                variant: payload_variant,
                name: payload_name@,
                size: size_of::<Payload>(),
                alignment: align_of::<Payload>(),
            }),
            details.wf(),
    {
        MessageTypeDetails {
            header: TypeDetail::__internal_new::<Header>(TypeVariant::FixedSize, header_name),
            user_header: TypeDetail::__internal_new::<UserHeader>(
                TypeVariant::FixedSize,
                user_header_name,
            ),
            payload: TypeDetail::__internal_new::<Payload>(payload_variant, payload_name),
        }
    }

    /// Address of the user header in a message whose header is at the
    /// address `header`, or `None` where that address is beyond the address
    /// space.
    pub fn user_header_ptr_from_header(&self, header: usize) -> (address: Option<usize>)
        requires
            self.wf(),
        ensures
            address is Some <==> self.user_header_offset(header as int) <= usize::MAX,
            address is Some ==> address->Some_0 == self.user_header_offset(header as int),
    {
        proof {
            lemma_pow2_positive(self.user_header.alignment as int);
            lemma_align_up_bounds(header + self.header.size, self.user_header.alignment as int);
        }
        match header.checked_add(self.header.size) {
            Some(end_of_header) => checked_align(end_of_header, self.user_header.alignment),
            None => None,
        }
    }

    /// Address of the payload in a message whose header is at the address
    /// `header`, or `None` where that address is beyond the address space.
    pub fn payload_ptr_from_header(&self, header: usize) -> (address: Option<usize>)
        requires
            self.wf(),
        ensures
            address is Some <==> self.payload_offset(header as int) <= usize::MAX,
            address is Some ==> address->Some_0 == self.payload_offset(header as int),
    {
        proof {
            lemma_pow2_positive(self.user_header.alignment as int);
            lemma_pow2_positive(self.payload.alignment as int);
            lemma_align_up_bounds(header + self.header.size, self.user_header.alignment as int);
            lemma_align_up_bounds(
                self.user_header_offset(header as int) + self.user_header.size,
                self.payload.alignment as int,
            );
        }
        let user_header = match self.user_header_ptr_from_header(header) {
            Some(user_header) => user_header,
            None => {
                return None;
            },
        };
        match user_header.checked_add(self.user_header.size) {
            Some(end_of_user_header) => checked_align(end_of_user_header, self.payload.alignment),
            None => None,
        }
    }

    /// Size and alignment of a slot for a message with `number_of_elements`
    /// payload elements, computed from the types themselves: the layout of
    /// the C record `{ Header, UserHeader, [Payload; number_of_elements] }`.
    pub fn sample_layout_genric<Header, UserHeader, Payload>(
        &self,
        number_of_elements: usize,
    ) -> (layout: Result<MemoryLayout, LayoutError>)
        ensures
            layout is Ok <==> Region::record(
                Region::of::<Header>(),
                Region::of::<UserHeader>(),
                Region::of::<Payload>(),
                number_of_elements as int,
            ).fits(),
            layout is Ok ==> layout->Ok_0@ == Region::record(
                Region::of::<Header>(),
                Region::of::<UserHeader>(),
                Region::of::<Payload>(),
                number_of_elements as int,
            ),
    {
        let layout_header = MemoryLayout::new::<Header>();
        let layout_user_header = MemoryLayout::new::<UserHeader>();
        layout_for_type_is_valid::<Payload>();
        proof {
            if Region::record(
                Region::of::<Header>(),
                Region::of::<UserHeader>(),
                Region::of::<Payload>(),
                number_of_elements as int,
            ).fits() {
                lemma_record_parts_fit(
                    Region::of::<Header>(),
                    Region::of::<UserHeader>(),
                    Region::of::<Payload>(),
                    number_of_elements as int,
                );
            }
        }
        let layout_array = MemoryLayout::array::<Payload>(number_of_elements)?;
        record_layout(layout_header, layout_user_header, layout_array)
    }

    /// Size and alignment of a slot for a message with `number_of_elements`
    /// payload elements: the layout of the C record of a header, a user
    /// header and that many payload elements. The size covers the three
    /// regions with the padding between them and is a multiple of the
    /// alignment of each, so that slots can follow one another.
    pub fn sample_layout(&self, number_of_elements: usize) -> (layout: Result<
        MemoryLayout,
        LayoutError,
    >)
        requires
            self.wf(),
        ensures
            layout is Ok <==> self.sample_region(number_of_elements as int).fits(),
            layout matches Ok(slot) ==> {
                &&& slot@ == self.sample_region(number_of_elements as int)
                &&& slot.size >= self.header.size + self.user_header.size + self.payload.size
                    * number_of_elements
                &&& slot.size % self.header.alignment == 0
                &&& slot.align % self.header.alignment == 0
            },
    {
        proof {
            lemma_sample_covers_regions(*self, number_of_elements as int);
            if self.sample_region(number_of_elements as int).fits() {
                lemma_record_parts_fit(
                    self.header.region(),
                    self.user_header.region(),
                    self.payload.region(),
                    number_of_elements as int,
                );
            }
        }
        let layout_header = MemoryLayout::from_size_align(self.header.size, self.header.alignment)?;
        let layout_user_header = MemoryLayout::from_size_align(
            self.user_header.size,
            self.user_header.alignment,
        )?;
        let layout_array = self.payload_layout(number_of_elements)?;
        record_layout(layout_header, layout_user_header, layout_array)
    }

    /// Size and alignment of `number_of_elements` payload elements alone,
    /// one directly after the other.
    pub fn payload_layout(&self, number_of_elements: usize) -> (layout: Result<
        MemoryLayout,
        LayoutError,
    >)
        requires
            self.payload.wf(),
        ensures
            layout is Ok <==> self.payload_region(number_of_elements as int).fits(),
            layout is Ok ==> layout->Ok_0@ == self.payload_region(number_of_elements as int),
    {
        let element = MemoryLayout { size: self.payload.size, align: self.payload.alignment };
        element.repeat(number_of_elements)
    }

    /// Whether an endpoint that holds `self` may attach to a channel whose
    /// memory is laid out as `rhs` says.
    #[verifier::when_used_as_spec(spec_is_compatible_to)]
    pub fn is_compatible_to(&self, rhs: &MessageTypeDetails) -> (compatible: bool)
        ensures
            compatible == self.spec_is_compatible_to(rhs),
    {
        self.header == rhs.header && self.user_header.name == rhs.user_header.name
            && self.user_header.variant == rhs.user_header.variant && self.user_header.size
            == rhs.user_header.size && self.user_header.alignment <= rhs.user_header.alignment
            && self.payload.name == rhs.payload.name && self.payload.variant
            == rhs.payload.variant && self.payload.size == rhs.payload.size
            && self.payload.alignment <= rhs.payload.alignment
    }
}

/// The layout of the record of a header, a user header and an array of
/// payload elements, each given by its own layout.
fn record_layout(header: MemoryLayout, user_header: MemoryLayout, array: MemoryLayout) -> (layout:
    Result<MemoryLayout, LayoutError>)
    requires
        header.wf(),
        user_header.wf(),
        array.wf(),
    ensures
        layout is Ok <==> header@.extend(user_header@).extend(array@).pad_to_align().fits(),
        layout is Ok ==> layout->Ok_0@ == header@.extend(user_header@).extend(
            array@,
        ).pad_to_align(),
{
    proof {
        let prefix = header@.extend(user_header@);
        let whole = prefix.extend(array@);
        lemma_pow2_positive(user_header.align as int);
        lemma_pow2_positive(array.align as int);
        lemma_align_up_bounds(header.size as int, user_header.align as int);
        lemma_align_up_bounds(prefix.size, array.align as int);
        lemma_padding_keeps_fit(whole);
        lemma_covered_block_is_shorter(prefix, whole);
    }
    let (prefix, _) = header.extend(user_header)?;
    let (whole, _) = prefix.extend(array)?;
    Ok(whole.pad_to_align())
}

/// A slot is at least as long as its three regions together, and both its
/// size and its alignment are multiples of the alignment of the header, as
/// they are of the alignment of the user header and of the payload: slots
/// that follow one another all start aligned.
pub proof fn lemma_sample_covers_regions(details: MessageTypeDetails, count: int)
    requires
        details.wf(),
        0 <= count,
    ensures
        details.sample_region(count).size >= details.header.size + details.user_header.size
            + details.payload.size * count,
        details.sample_region(count).size % (details.header.alignment as int) == 0,
        details.sample_region(count).align % (details.header.alignment as int) == 0,
        details.sample_region(count).size % (details.user_header.alignment as int) == 0,
        details.sample_region(count).size % (details.payload.alignment as int) == 0,
        details.sample_region(count).size % details.sample_region(count).align == 0,
        details.sample_region(count).align >= details.header.alignment,
{
    let header = details.header.region();
    let user_header = details.user_header.region();
    let array = details.payload.region().repeat(count);
    let prefix = header.extend(user_header);
    let whole = prefix.extend(array);
    let slot = details.sample_region(count);
    assert(0 <= details.payload.size * count) by (nonlinear_arith)
        requires
            0 <= count,
    ;
    lemma_pow2_positive(header.align);
    lemma_pow2_positive(user_header.align);
    lemma_pow2_positive(array.align);
    lemma_align_up_bounds(header.size, user_header.align);
    lemma_align_up_bounds(prefix.size, array.align);
    lemma_align_up_bounds(whole.size, whole.align);
    lemma_pow2_divides(header.align, whole.align);
    lemma_pow2_divides(user_header.align, whole.align);
    lemma_pow2_divides(array.align, whole.align);
    lemma_multiple_of_multiple(slot.size, whole.align, header.align);
    lemma_multiple_of_multiple(slot.size, whole.align, user_header.align);
    lemma_multiple_of_multiple(slot.size, whole.align, array.align);
}

/// The payload starts behind the user header, at a multiple of its own
/// alignment, and less than one alignment of padding lies between the two.
pub proof fn lemma_payload_follows_user_header(details: MessageTypeDetails, header: int)
    requires
        details.wf(),
        0 <= header,
    ensures
        details.payload_offset(header) - details.user_header_offset(header)
            >= details.user_header.size,
        details.payload_offset(header) % (details.payload.alignment as int) == 0,
        details.payload_offset(header) - (details.user_header_offset(header)
            + details.user_header.size) < details.payload.alignment,
        details.user_header_offset(header) >= header + details.header.size,
        details.user_header_offset(header) % (details.user_header.alignment as int) == 0,
{
    lemma_pow2_positive(details.user_header.alignment as int);
    lemma_pow2_positive(details.payload.alignment as int);
    lemma_align_up_bounds(header + details.header.size, details.user_header.alignment as int);
    lemma_align_up_bounds(
        details.user_header_offset(header) + details.user_header.size,
        details.payload.alignment as int,
    );
}

/// The padding in front of the payload is the least that aligns it: no
/// address that suits the payload lies between the end of the user header
/// and the address at which the payload starts.
pub proof fn lemma_payload_padding_is_minimal(
    details: MessageTypeDetails,
    header: int,
    address: int,
)
    requires
        details.wf(),
        0 <= header,
        details.user_header_offset(header) + details.user_header.size <= address,
        address % (details.payload.alignment as int) == 0,
    ensures
        details.payload_offset(header) <= address,
{
    lemma_pow2_positive(details.user_header.alignment as int);
    lemma_pow2_positive(details.payload.alignment as int);
    lemma_align_up_bounds(header + details.header.size, details.user_header.alignment as int);
    lemma_align_up_is_least(
        details.user_header_offset(header) + details.user_header.size,
        details.payload.alignment as int,
        address,
    );
}

/// No payload elements take no room, and their layout always exists.
pub proof fn lemma_empty_payload_takes_no_room(details: MessageTypeDetails)
    requires
        details.payload.wf(),
    ensures
        details.payload_region(0).size == 0,
        details.payload_region(0).fits(),
{
    lemma_pow2_positive(details.payload.alignment as int);
    lemma_align_up_by_remainder(0, details.payload.alignment as int);
}

/// The size of a payload layout is the number of elements times the size
/// of one, and more elements never fit where fewer do not.
pub proof fn lemma_payload_region_grows(details: MessageTypeDetails, fewer: int, more: int)
    requires
        details.payload.wf(),
        0 <= fewer <= more,
    ensures
        details.payload_region(fewer).size == details.payload.size * fewer,
        details.payload_region(more).fits() ==> details.payload_region(fewer).fits(),
{
    assert(0 <= details.payload.size * fewer <= details.payload.size * more)
        by (nonlinear_arith)
        requires
            0 <= fewer <= more,
    ;
    lemma_covered_block_is_shorter(details.payload_region(fewer), details.payload_region(more));
}

/// In a slot that starts at a multiple of its alignment, the regions lie
/// at the same offsets as in a slot at address zero, and the payload ends
/// inside the slot.
pub proof fn lemma_sample_holds_message(details: MessageTypeDetails, header: int, count: int)
    requires
        details.wf(),
        0 <= header,
        0 <= count,
        header % details.sample_region(count).align == 0,
    ensures
        details.user_header_offset(header) == header + details.user_header_offset(0),
        details.payload_offset(header) == header + details.payload_offset(0),
        details.payload_offset(header) + details.payload.size * count <= header
            + details.sample_region(count).size,
{
    let slot = details.sample_region(count);
    let user_header_align = details.user_header.alignment as int;
    let payload_align = details.payload.alignment as int;
    lemma_pow2_positive(details.header.alignment as int);
    lemma_pow2_positive(user_header_align);
    lemma_pow2_positive(payload_align);
    lemma_pow2_divides(user_header_align, slot.align);
    lemma_pow2_divides(payload_align, slot.align);
    lemma_multiple_of_multiple(header, slot.align, user_header_align);
    lemma_multiple_of_multiple(header, slot.align, payload_align);
    lemma_align_up_shift(header, details.header.size as int, user_header_align);
    lemma_align_up_bounds(details.header.size as int, user_header_align);
    lemma_align_up_shift(
        header,
        details.user_header_offset(0) + details.user_header.size,
        payload_align,
    );
    lemma_align_up_bounds(details.user_header_offset(0) + details.user_header.size, payload_align);
    assert(0 <= details.payload.size * count) by (nonlinear_arith)
        requires
            0 <= count,
    ;
    lemma_align_up_bounds(details.payload_offset(0) + details.payload.size * count, slot.align);
}

/// A description made from the types themselves has the slot layout that
/// the types have.
pub proof fn lemma_sample_region_of_types<Header, UserHeader, Payload>(
    details: MessageTypeDetails,
    count: int,
)
    requires
        details.header.region() == Region::of::<Header>(),
        details.user_header.region() == Region::of::<UserHeader>(),
        details.payload.region() == Region::of::<Payload>(),
    ensures
        details.sample_region(count) == Region::record(
            Region::of::<Header>(),
            Region::of::<UserHeader>(),
            Region::of::<Payload>(),
            count,
        ),
{
}

} // verus!
