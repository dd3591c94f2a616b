//! Binary layout and type compatibility of zero-copy messages.
//!
//! A message is a fixed header, a user-defined header and a payload, packed
//! into one contiguous slot of shared memory. This crate describes the three
//! regions, computes where each one starts and how large a slot must be,
//! decides whether two independently built descriptions agree well enough
//! for their owners to share a channel, and turns a description into bytes
//! and back so that a channel can keep it.

pub mod alignment;
pub mod compatibility;
pub mod layout;
pub mod message_type_details;
pub mod persisted;
pub mod type_detail;

pub use crate::compatibility::{Incompatibility, MessagePart, Mismatch};
pub use crate::layout::{LayoutError, MemoryLayout};
pub use crate::message_type_details::MessageTypeDetails;
pub use crate::persisted::DecodeError;
pub use crate::type_detail::{TypeDetail, TypeVariant};
