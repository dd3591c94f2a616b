//! What makes two descriptions of a message incompatible, and the laws of
//! the compatibility rule.

use crate::message_type_details::{MessageTypeDetails, MessageTypeDetailsView};
use crate::type_detail::{TypeDetail, TypeDetailView, TypeVariant};
use vstd::prelude::*;

verus! {

/// One of the three regions of a message.
#[derive(Debug, Clone, Copy, PartialEq, Eq, Hash, Structural)]
pub enum MessagePart {
    Header,
    UserHeader,
    Payload,
}

/// The property in which two descriptions of a region disagree. `expected`
/// is what the channel holds, `actual` what the endpoint brought.
#[derive(Debug, Clone, PartialEq, Eq)]
pub enum Mismatch {
    Name { expected: String, actual: String },
    Variant { expected: TypeVariant, actual: TypeVariant },
    Size { expected: usize, actual: usize },
    Alignment { expected: usize, actual: usize },
}

/// What a [`Mismatch`] says, as mathematical values.
pub enum MismatchView {
    Name { expected: Seq<char>, actual: Seq<char> },
    Variant { expected: TypeVariant, actual: TypeVariant },
    Size { expected: nat, actual: nat },
    Alignment { expected: nat, actual: nat },
}

impl View for Mismatch {
    type V = MismatchView;

    open spec fn view(&self) -> MismatchView {
        match *self {
            Mismatch::Name { expected, actual } => MismatchView::Name {
                expected: expected@,
                actual: actual@,
            },
            Mismatch::Variant { expected, actual } => MismatchView::Variant { expected, actual },
            Mismatch::Size { expected, actual } => MismatchView::Size {
                expected: expected as nat,
                actual: actual as nat,
            },
            Mismatch::Alignment { expected, actual } => MismatchView::Alignment {
                expected: expected as nat,
                actual: actual as nat,
            },
        }
    }
}

/// Why an endpoint may not attach to a channel: the first region, and in it
/// the first property, that the two descriptions disagree in.
#[derive(Debug, Clone, PartialEq, Eq)]
pub struct Incompatibility {
    pub part: MessagePart,
    pub mismatch: Mismatch,
}

/// What an [`Incompatibility`] says, as mathematical values.
pub struct IncompatibilityView {
    pub part: MessagePart,
    pub mismatch: MismatchView,
}

impl View for Incompatibility {
    type V = IncompatibilityView;

    open spec fn view(&self) -> IncompatibilityView {
        IncompatibilityView { part: self.part, mismatch: self.mismatch@ }
    }
}

/// The first property, in the order name, variant, size, alignment, in which
/// what an endpoint brought disagrees with what the channel holds. Where
/// the alignment is `exact` it has to be the same, else the channel's may be
/// stricter.
pub open spec fn first_mismatch(actual: TypeDetailView, expected: TypeDetailView, exact: bool)
    -> Option<MismatchView> {
    if actual.name != expected.name {
        Some(MismatchView::Name { expected: expected.name, actual: actual.name })
    } else if actual.variant != expected.variant {
        Some(MismatchView::Variant { expected: expected.variant, actual: actual.variant })
    } else if actual.size != expected.size {
        Some(MismatchView::Size { expected: expected.size, actual: actual.size })
    } else if actual.alignment > expected.alignment || (exact && actual.alignment
        != expected.alignment) {
        Some(MismatchView::Alignment { expected: expected.alignment, actual: actual.alignment })
    } else {
        None
    }
}

/// The first mismatch between an endpoint's description and a channel's,
/// the regions taken in the order header, user header, payload. Only the
/// header has to agree in its alignment exactly.
pub open spec fn first_incompatibility(
    endpoint: MessageTypeDetailsView,
    channel: MessageTypeDetailsView,
) -> Option<IncompatibilityView> {
    if let Some(mismatch) = first_mismatch(endpoint.header, channel.header, true) {
        Some(IncompatibilityView { part: MessagePart::Header, mismatch })
    } else if let Some(mismatch) = first_mismatch(endpoint.user_header, channel.user_header, false) {
        Some(IncompatibilityView { part: MessagePart::UserHeader, mismatch })
    } else if let Some(mismatch) = first_mismatch(endpoint.payload, channel.payload, false) {
        Some(IncompatibilityView { part: MessagePart::Payload, mismatch })
    } else {
        None
    }
}

impl TypeDetail {
    /// The first property in which `self`, the description that an endpoint
    /// brought, disagrees with `expected`, the description that the channel
    /// holds.
    pub fn mismatch_with(&self, expected: &TypeDetail, exact: bool) -> (mismatch: Option<Mismatch>)
        ensures
            mismatch is Some <==> first_mismatch(self@, expected@, exact) is Some,
            mismatch matches Some(found) ==> Some(found@) == first_mismatch(
                self@,
                expected@,
                exact,
            ),
    {
        if self.name != expected.name {
            Some(Mismatch::Name { expected: expected.name.clone(), actual: self.name.clone() })
        } else if self.variant != expected.variant {
            Some(Mismatch::Variant { expected: expected.variant, actual: self.variant })
        } else if self.size != expected.size {
            Some(Mismatch::Size { expected: expected.size, actual: self.size })
        } else if self.alignment > expected.alignment || (exact && self.alignment
            != expected.alignment) {
            Some(Mismatch::Alignment { expected: expected.alignment, actual: self.alignment })
        } else {
            None
        }
    }
}

impl MessageTypeDetails {
    /// Decides as [`MessageTypeDetails::is_compatible_to`] does, and says
    /// for an incompatible pair which region and which property stand in the
    /// way, with the value that the channel `rhs` holds and the value that
    /// `self` brought.
    pub fn check_compatibility(&self, rhs: &MessageTypeDetails) -> (verdict: Result<
        (),
        Incompatibility,
    >)
        ensures
            verdict is Ok <==> self.is_compatible_to(rhs),
            verdict matches Err(reason) ==> Some(reason@) == first_incompatibility(self@, rhs@),
    {
        proof {
            lemma_incompatibility_explains(*self, *rhs);
        }
        if let Some(mismatch) = self.header.mismatch_with(&rhs.header, true) {
            Err(Incompatibility { part: MessagePart::Header, mismatch })
        } else if let Some(mismatch) = self.user_header.mismatch_with(&rhs.user_header, false) {
            Err(Incompatibility { part: MessagePart::UserHeader, mismatch })
        } else if let Some(mismatch) = self.payload.mismatch_with(&rhs.payload, false) {
            Err(Incompatibility { part: MessagePart::Payload, mismatch })
        } else {
            Ok(())
        }
    }
}

/// Two descriptions are compatible exactly when there is no mismatch to
/// report.
pub proof fn lemma_incompatibility_explains(endpoint: MessageTypeDetails, channel: MessageTypeDetails)
    ensures
        endpoint.is_compatible_to(&channel) <==> first_incompatibility(endpoint@, channel@) is None,
{
    if first_mismatch(endpoint.header@, channel.header@, true) is None {
        assert(endpoint.header@.name =~= channel.header@.name);
        assert(endpoint.header@ == channel.header@);
    }
}

/// Every description is compatible to itself.
pub proof fn lemma_compatibility_is_reflexive(details: MessageTypeDetails)
    ensures
        details.is_compatible_to(&details),
{
}

/// Where an endpoint may attach to a channel, and that channel's
/// description to a third, the endpoint may attach to the third too.
pub proof fn lemma_compatibility_is_transitive(
    a: MessageTypeDetails,
    b: MessageTypeDetails,
    c: MessageTypeDetails,
)
    requires
        a.is_compatible_to(&b),
        b.is_compatible_to(&c),
    ensures
        a.is_compatible_to(&c),
{
}

/// Two descriptions are compatible in both directions only if they say the
/// same.
pub proof fn lemma_compatibility_both_ways(a: MessageTypeDetails, b: MessageTypeDetails)
    ensures
        (a.is_compatible_to(&b) && b.is_compatible_to(&a)) <==> a@ == b@,
{
    if a.is_compatible_to(&b) && b.is_compatible_to(&a) {
        assert(a.user_header@ == b.user_header@);
        assert(a.payload@ == b.payload@);
    }
}

/// The alignment rule has a direction. Where `b` differs from `a` only in
/// that it aligns the user header twice as strictly, `a` is compatible to
/// `b` and `b` is not compatible to `a`.
pub proof fn lemma_alignment_loosens_one_way(a: MessageTypeDetails, b: MessageTypeDetails)
    requires
        a.user_header.wf(),
        b.header@ == a.header@,
        b.payload@ == a.payload@,
        b.user_header@ == (TypeDetailView {
            variant: a.user_header@.variant,
            name: a.user_header@.name,
            size: a.user_header@.size,
            alignment: 2 * a.user_header@.alignment,
        }),
    ensures
        a.is_compatible_to(&b),
        !b.is_compatible_to(&a),
{
    crate::alignment::lemma_pow2_positive(a.user_header.alignment as int);
}

/// Payloads of different sizes are incompatible in both directions,
/// whatever their alignments are.
pub proof fn lemma_size_mismatch_is_incompatible(a: MessageTypeDetails, b: MessageTypeDetails)
    requires
        a.payload.size != b.payload.size,
    ensures
        !a.is_compatible_to(&b),
        !b.is_compatible_to(&a),
{
}

} // verus!
