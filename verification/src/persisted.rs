//! The persisted form of a description: the bytes under which a channel
//! keeps it, so that a process which shares no code with the creator can
//! read it back.
//!
//! Each of the three regions is written as a tag of one byte for the
//! variant, the length of the name in bytes, the name in UTF-8, the size and
//! the alignment. The three numbers take eight bytes each, the lowest byte
//! first, on every machine.

use crate::message_type_details::{MessageTypeDetails, MessageTypeDetailsView};
use crate::type_detail::{TypeDetail, TypeDetailView, TypeVariant};
use vstd::bytes::{
    lemma_auto_spec_u64_to_from_le_bytes, spec_u64_from_le_bytes, spec_u64_to_le_bytes,
    u64_from_le_bytes, u64_to_le_bytes,
};
use vstd::prelude::*;
use vstd::slice::slice_subrange;
use vstd::string::StringSliceAdditionalSpecFns;
use vstd::utf8::{
    decode_utf8, decode_utf8_encode_utf8, encode_utf8, encode_utf8_decode_utf8,
    encode_utf8_valid_utf8, valid_utf8,
};

verus! {

/// The error that `core::str::from_utf8` returns. Nothing is read from it.
#[verifier::external_type_specification]
#[verifier::external_body]
pub struct ExUtf8Error(core::str::Utf8Error);

/// `core::str::from_utf8` accepts exactly the byte strings that are valid
/// UTF-8, and the text that it returns for one has those bytes as its
/// encoding.
pub assume_specification<'a>[ core::str::from_utf8 ](v: &'a [u8]) -> (text: Result<
    &'a str,
    core::str::Utf8Error,
>)
    ensures
        text is Ok <==> valid_utf8(v@),
        text matches Ok(s) ==> s.spec_bytes() == v@,
;

/// Why a byte string is not the persisted form of a description.
#[derive(Debug, Clone, Copy, PartialEq, Eq, Hash, Structural)]
pub enum DecodeError {
    /// The bytes end before the record does.
    Truncated,
    /// A variant tag is neither that of a fixed-size type nor that of a
    /// slice.
    UnknownVariant,
    /// A name is not valid UTF-8.
    InvalidName,
    /// A size or an alignment is too large for this machine.
    OutOfRange,
    /// Bytes follow the record.
    TrailingBytes,
}

/// The tag under which a variant is written.
pub open spec fn variant_tag(variant: TypeVariant) -> u8 {
    match variant {
        TypeVariant::FixedSize => 0,
        TypeVariant::Dynamic => 1,
    }
}

/// The eight bytes of a number, the lowest first.
pub open spec fn word(value: nat) -> Seq<u8> {
    spec_u64_to_le_bytes(value as u64)
}

/// The number whose eight bytes stand at `at`.
pub open spec fn read_word(bytes: Seq<u8>, at: int) -> nat {
    spec_u64_from_le_bytes(bytes.subrange(at, at + 8)) as nat
}

/// Whether the persisted form can hold the description of a region: its
/// three numbers fit in eight bytes each.
pub open spec fn encodable(detail: TypeDetailView) -> bool {
    &&& encode_utf8(detail.name).len() <= u64::MAX
    &&& detail.size <= u64::MAX
    &&& detail.alignment <= u64::MAX
}

/// Whether this machine can hold the description of a region that the
/// persisted form holds: its size and its alignment fit in a `usize`.
pub open spec fn decodable(detail: TypeDetailView) -> bool {
    &&& encodable(detail)
    &&& detail.size <= usize::MAX
    &&& detail.alignment <= usize::MAX
}

/// The persisted form of the description of one region.
pub open spec fn encode_detail(detail: TypeDetailView) -> Seq<u8> {
    seq![variant_tag(detail.variant)] + word(encode_utf8(detail.name).len()) + encode_utf8(
        detail.name,
    ) + word(detail.size) + word(detail.alignment)
}

/// The persisted form of the description of a message.
pub open spec fn encode(details: MessageTypeDetailsView) -> Seq<u8> {
    encode_detail(details.header) + encode_detail(details.user_header) + encode_detail(
        details.payload,
    )
}

/// Reads the description of one region that starts at `start`: the
/// description and the place behind it, or the first fault met.
pub open spec fn parse_detail_at(bytes: Seq<u8>, start: int) -> Result<
    (TypeDetailView, int),
    DecodeError,
> {
    if bytes.len() < start + 1 {
        Err(DecodeError::Truncated)
    } else if bytes[start] != 0 && bytes[start] != 1 {
        Err(DecodeError::UnknownVariant)
    } else if bytes.len() < start + 9 {
        Err(DecodeError::Truncated)
    } else {
        let name_end = start + 9 + read_word(bytes, start + 1);
        if bytes.len() < name_end + 16 {
            Err(DecodeError::Truncated)
        } else if !valid_utf8(bytes.subrange(start + 9, name_end)) {
            Err(DecodeError::InvalidName)
        } else if read_word(bytes, name_end) > usize::MAX || read_word(bytes, name_end + 8)
            > usize::MAX {
            Err(DecodeError::OutOfRange)
        } else {
            Ok(
                (
                    TypeDetailView {
                        variant: if bytes[start] == 0 {
                            TypeVariant::FixedSize
                        } else {
                            TypeVariant::Dynamic
                        },
                        name: decode_utf8(bytes.subrange(start + 9, name_end)),
                        size: read_word(bytes, name_end),
                        alignment: read_word(bytes, name_end + 8),
                    },
                    name_end + 16,
                ),
            )
        }
    }
}

/// Reads the description of a message: three regions and nothing behind
/// them.
pub open spec fn parse(bytes: Seq<u8>) -> Result<MessageTypeDetailsView, DecodeError> {
    match parse_detail_at(bytes, 0) {
        Err(error) => Err(error),
        Ok((header, user_header_start)) => match parse_detail_at(bytes, user_header_start) {
            Err(error) => Err(error),
            Ok((user_header, payload_start)) => match parse_detail_at(bytes, payload_start) {
                Err(error) => Err(error),
                Ok((payload, end)) => if end != bytes.len() {
                    Err(DecodeError::TrailingBytes)
                } else {
                    Ok(MessageTypeDetailsView { header, user_header, payload })
                },
            },
        },
    }
}

/// What was written for a region is read back as it was, wherever in a
/// byte string it stands.
pub proof fn lemma_parse_detail_of_encoding(
    before: Seq<u8>,
    detail: TypeDetailView,
    after: Seq<u8>,
)
    requires
        decodable(detail),
    ensures
        parse_detail_at(before + encode_detail(detail) + after, before.len() as int) == Ok::<
            (TypeDetailView, int),
            DecodeError,
        >((detail, (before.len() + encode_detail(detail).len()) as int)),
{
    lemma_auto_spec_u64_to_from_le_bytes();
    encode_utf8_valid_utf8(detail.name);
    encode_utf8_decode_utf8(detail.name);
    let name = encode_utf8(detail.name);
    let bytes = before + encode_detail(detail) + after;
    let start = before.len() as int;
    let name_end = start + 9 + name.len();
    assert(bytes[start] == variant_tag(detail.variant));
    assert(bytes.subrange(start + 1, start + 9) =~= word(name.len()));
    assert(bytes.subrange(start + 9, name_end) =~= name);
    assert(bytes.subrange(name_end, name_end + 8) =~= word(detail.size));
    assert(bytes.subrange(name_end + 8, name_end + 16) =~= word(detail.alignment));
}

/// Where a region can be read from a byte string, the bytes read are the
/// persisted form of what was read: no two byte strings stand for one
/// description.
pub proof fn lemma_encoding_of_parsed_detail(bytes: Seq<u8>, start: int)
    requires
        0 <= start,
        parse_detail_at(bytes, start) is Ok,
    ensures
        ({
            let (detail, end) = parse_detail_at(bytes, start)->Ok_0;
            &&& start <= end <= bytes.len()
            &&& decodable(detail)
            &&& bytes.subrange(start, end) == encode_detail(detail)
        }),
{
    lemma_auto_spec_u64_to_from_le_bytes();
    let (detail, end) = parse_detail_at(bytes, start)->Ok_0;
    let name_end = start + 9 + read_word(bytes, start + 1);
    let name = bytes.subrange(start + 9, name_end);
    decode_utf8_encode_utf8(name);
    assert(word(name.len()) == bytes.subrange(start + 1, start + 9));
    assert(word(detail.size) == bytes.subrange(name_end, name_end + 8));
    assert(word(detail.alignment) == bytes.subrange(name_end + 8, name_end + 16));
    assert(bytes.subrange(start, end) =~= encode_detail(detail));
}

/// Reading the persisted form of a description gives the description back.
pub proof fn lemma_parse_of_encoding(details: MessageTypeDetailsView)
    requires
        decodable(details.header),
        decodable(details.user_header),
        decodable(details.payload),
    ensures
        parse(encode(details)) == Ok::<MessageTypeDetailsView, DecodeError>(details),
{
    let header = encode_detail(details.header);
    let user_header = encode_detail(details.user_header);
    let payload = encode_detail(details.payload);
    let bytes = encode(details);
    assert(bytes =~= Seq::<u8>::empty() + header + (user_header + payload));
    lemma_parse_detail_of_encoding(Seq::<u8>::empty(), details.header, user_header + payload);
    assert(bytes =~= header + user_header + payload);
    lemma_parse_detail_of_encoding(header, details.user_header, payload);
    assert(bytes =~= (header + user_header) + payload + Seq::<u8>::empty());
    lemma_parse_detail_of_encoding(header + user_header, details.payload, Seq::<u8>::empty());
}

/// A byte string that can be read is the persisted form of what is read
/// from it.
pub proof fn lemma_encoding_of_parsed(bytes: Seq<u8>)
    requires
        parse(bytes) is Ok,
    ensures
        encode(parse(bytes)->Ok_0) == bytes,
{
    lemma_encoding_of_parsed_detail(bytes, 0);
    let (header, user_header_start) = parse_detail_at(bytes, 0)->Ok_0;
    lemma_encoding_of_parsed_detail(bytes, user_header_start);
    let (user_header, payload_start) = parse_detail_at(bytes, user_header_start)->Ok_0;
    lemma_encoding_of_parsed_detail(bytes, payload_start);
    assert(bytes =~= bytes.subrange(0, user_header_start) + bytes.subrange(
        user_header_start,
        payload_start,
    ) + bytes.subrange(payload_start, bytes.len() as int));
}

/// Writes the persisted form of the description of one region behind what
/// `bytes` holds.
fn write_detail(detail: &TypeDetail, bytes: &mut Vec<u8>)
    ensures
        final(bytes)@ == old(bytes)@ + encode_detail(detail@),
        decodable(detail@),
{
    let tag: u8 = match detail.variant {
        TypeVariant::FixedSize => 0,
        TypeVariant::Dynamic => 1,
    };
    let name = detail.name.as_str().as_bytes();
    let mut length = u64_to_le_bytes(name.len() as u64);
    let mut size = u64_to_le_bytes(detail.size as u64);
    let mut alignment = u64_to_le_bytes(detail.alignment as u64);
    bytes.push(tag);
    bytes.append(&mut length);
    bytes.extend_from_slice(name);
    bytes.append(&mut size);
    bytes.append(&mut alignment);
    assert(bytes@ =~= old(bytes)@ + encode_detail(detail@));
}

/// Reads the description of one region that starts at `start`, and says
/// where the next one starts.
fn read_detail(bytes: &[u8], start: usize) -> (read: Result<(TypeDetail, usize), DecodeError>)
    requires
        start <= bytes@.len(),
    ensures
        match read {
            Ok((detail, end)) => parse_detail_at(bytes@, start as int) == Ok::<
                (TypeDetailView, int),
                DecodeError,
            >((detail@, end as int)),
            Err(error) => parse_detail_at(bytes@, start as int) == Err::<
                (TypeDetailView, int),
                DecodeError,
            >(error),
        },
{
    let len = bytes.len();
    if start >= len {
        return Err(DecodeError::Truncated);
    }
    let tag = bytes[start];
    let variant = if tag == 0 {
        TypeVariant::FixedSize
    } else if tag == 1 {
        TypeVariant::Dynamic
    } else {
        return Err(DecodeError::UnknownVariant);
    };
    if len - start < 9 {
        return Err(DecodeError::Truncated);
    }
    let length = u64_from_le_bytes(slice_subrange(bytes, start + 1, start + 9));
    let rest = len - start - 9;
    if rest < 16 || length > (rest - 16) as u64 {
        return Err(DecodeError::Truncated);
    }
    let name_end = start + 9 + length as usize;
    let name = match core::str::from_utf8(slice_subrange(bytes, start + 9, name_end)) {
        Ok(name) => name.to_owned(),
        Err(_) => {
            return Err(DecodeError::InvalidName);
        },
    };
    proof {
        encode_utf8_decode_utf8(name@);
    }
    let size = u64_from_le_bytes(slice_subrange(bytes, name_end, name_end + 8));
    let alignment = u64_from_le_bytes(slice_subrange(bytes, name_end + 8, name_end + 16));
    if size > usize::MAX as u64 || alignment > usize::MAX as u64 {
        return Err(DecodeError::OutOfRange);
    }
    Ok(
        (
            TypeDetail { variant, name, size: size as usize, alignment: alignment as usize },
            name_end + 16,
        ),
    )
}

impl MessageTypeDetails {
    /// The persisted form of the description. Reading it gives the
    /// description back.
    pub fn to_bytes(&self) -> (bytes: Vec<u8>)
        ensures
            bytes@ == encode(self@),
            parse(bytes@) == Ok::<MessageTypeDetailsView, DecodeError>(self@),
    {
        let mut bytes: Vec<u8> = Vec::new();
        write_detail(&self.header, &mut bytes);
        write_detail(&self.user_header, &mut bytes);
        write_detail(&self.payload, &mut bytes);
        proof {
            assert(bytes@ =~= encode(self@));
            lemma_parse_of_encoding(self@);
        }
        bytes
    }

    /// Reads a description from its persisted form. It succeeds on the
    /// persisted forms of the descriptions that this machine can hold, and
    /// on no other bytes.
    pub fn from_bytes(bytes: &[u8]) -> (read: Result<MessageTypeDetails, DecodeError>)
        ensures
            match read {
                Ok(details) => parse(bytes@) == Ok::<MessageTypeDetailsView, DecodeError>(
                    details@,
                ) && encode(details@) == bytes@,
                Err(error) => parse(bytes@) == Err::<MessageTypeDetailsView, DecodeError>(error),
            },
    {
        proof {
            if parse(bytes@) is Ok {
                lemma_encoding_of_parsed(bytes@);
            }
            if parse_detail_at(bytes@, 0) is Ok {
                lemma_encoding_of_parsed_detail(bytes@, 0);
                let user_header_start = parse_detail_at(bytes@, 0)->Ok_0.1;
                if parse_detail_at(bytes@, user_header_start) is Ok {
                    lemma_encoding_of_parsed_detail(bytes@, user_header_start);
                }
            }
        }
        let (header, user_header_start) = read_detail(bytes, 0)?;
        let (user_header, payload_start) = read_detail(bytes, user_header_start)?;
        let (payload, end) = read_detail(bytes, payload_start)?;
        if end != bytes.len() {
            return Err(DecodeError::TrailingBytes);
        }
        Ok(MessageTypeDetails { header, user_header, payload })
    }
}

} // verus!
