//! The description of one region of a message: what kind of type it holds,
//! what that type is called, how large it is and how it must be aligned.

use crate::alignment::is_power_of_two;
use crate::layout::Region;
use vstd::arithmetic::power2::is_pow2;
use vstd::layout::{align_of, layout_for_type_is_valid, size_of};
use vstd::prelude::*;
use vstd::std_specs::cmp::PartialEqSpecImpl;

verus! {

/// Whether a region holds one value of a fixed size or a run of such values
/// whose number is only known at run time.
#[derive(Debug, Clone, Copy, PartialEq, Eq, Hash, Structural)]
pub enum TypeVariant {
    /// One value whose size is a constant known when the program is built.
    FixedSize,
    /// A slice: any number of values of one fixed-size type, one directly
    /// after the other.
    Dynamic,
}

impl Default for TypeVariant {
    fn default() -> (variant: TypeVariant)
        ensures
            variant == TypeVariant::FixedSize,
    {
        TypeVariant::FixedSize
    }
}

/// What a [`TypeDetail`] says, as mathematical values.
pub struct TypeDetailView {
    pub variant: TypeVariant,
    pub name: Seq<char>,
    pub size: nat,
    pub alignment: nat,
}

/// Everything that has to be known of a type to place a value of it in
/// shared memory and to recognise it from another process.
#[derive(Debug, Clone, Eq, Hash)]
pub struct TypeDetail {
    /// Whether the region holds one value or a slice of them.
    pub variant: TypeVariant,
    /// The name of the type. It identifies the type to other processes and
    /// plays no part in the layout.
    pub name: String,
    /// Size of one value in bytes.
    pub size: usize,
    /// Alignment of a value in bytes: a power of two.
    pub alignment: usize,
}

impl View for TypeDetail {
    type V = TypeDetailView;

    open spec fn view(&self) -> TypeDetailView {
        TypeDetailView {
            variant: self.variant,
            name: self.name@,
            size: self.size as nat,
            alignment: self.alignment as nat,
        }
    }
}

impl PartialEq for TypeDetail {
    fn eq(&self, other: &TypeDetail) -> (equal: bool) {
        self.variant == other.variant && self.name == other.name && self.size
            == other.size && self.alignment == other.alignment
    }
}

impl PartialEqSpecImpl for TypeDetail {
    open spec fn obeys_eq_spec() -> bool {
        true
    }

    open spec fn eq_spec(&self, other: &TypeDetail) -> bool {
        self@ == other@
    }
}

impl Default for TypeDetail {
    /// A fixed-size type without a name, of size and alignment zero. It is
    /// a placeholder, no well-formed description.
    fn default() -> (detail: TypeDetail)
        ensures
            detail@ == TypeDetail::default_view(),
    {
        TypeDetail { variant: TypeVariant::FixedSize, name: String::new(), size: 0, alignment: 0 }
    }
}

impl TypeDetail {
    /// What the default description says.
    pub open spec fn default_view() -> TypeDetailView {
        TypeDetailView {
            variant: TypeVariant::FixedSize,
            name: Seq::<char>::empty(),
            size: 0,
            alignment: 0,
        }
    }

    /// The invariant of a description: the alignment is a power of two.
    pub open spec fn wf(&self) -> bool {
        is_pow2(self.alignment as int)
    }

    /// Size and alignment of one value, as mathematical integers.
    pub open spec fn region(&self) -> Region {
        Region { size: self.size as int, align: self.alignment as int }
    }

    /// Whether memory that was laid out for `provided` may be read as what
    /// `self` describes: the two agree in name, variant and size, and
    /// `provided` is aligned at least as strictly as `self` asks.
    pub open spec fn accepts(&self, provided: &TypeDetail) -> bool {
        &&& self.name@ == provided.name@
        &&& self.variant == provided.variant
        &&& self.size == provided.size
        &&& self.alignment <= provided.alignment
    }

    /// Whether the description is well formed.
    pub fn is_valid(&self) -> (valid: bool)
        ensures
            valid == self.wf(),
    {
        is_power_of_two(self.alignment)
    }

    /// Describes a type from the four values that make up a description.
    pub fn new(variant: TypeVariant, name: String, size: usize, alignment: usize) -> (detail:
        TypeDetail)
        requires
            is_pow2(alignment as int),
        ensures
            detail.variant == variant,
            detail.name == name,
            detail.size == size,
            detail.alignment == alignment,
            detail.wf(),
    {
        TypeDetail { variant, name, size, alignment }
    }

    /// Describes the type `T` under the given name, with the size and the
    /// alignment that the compiler gives to `T`.
    pub fn __internal_new<T>(variant: TypeVariant, name: &str) -> (detail: TypeDetail)
        ensures
            detail@ == (TypeDetailView {
                variant,
                name: name@,
                size: size_of::<T>(),
                alignment: align_of::<T>(),
            }),
            detail.wf(),
    {
        layout_for_type_is_valid::<T>();
        TypeDetail {
            variant,
            name: name.to_owned(),
            size: core::mem::size_of::<T>(),
            alignment: core::mem::align_of::<T>(),
        }
    }
}

} // verus!
