use message_type_details::alignment::{align, checked_align, is_power_of_two};
use message_type_details::{LayoutError, MemoryLayout, MessageTypeDetails, TypeDetail, TypeVariant};
use std::alloc::Layout;

const ALIGNMENT: usize = 8;

/// The layout that a C compiler gives to a record with these fields.
fn record(fields: &[Layout]) -> Layout {
    let mut record = Layout::from_size_align(0, 1).unwrap();
    for field in fields {
        record = record.extend(*field).unwrap().0;
    }
    record.pad_to_align()
}

/// The bytes of a record of three fields, each at the offset that a C
/// compiler gives it, with a given number of bytes in front.
fn image(in_front: usize, fields: [(Layout, Vec<u8>); 3]) -> Vec<u8> {
    let mut bytes = vec![0xAAu8; in_front];
    let mut record = Layout::from_size_align(0, 1).unwrap();
    for (layout, value) in fields {
        let (extended, offset) = record.extend(layout).unwrap();
        bytes.resize(in_front + offset, 0xAA);
        bytes.extend_from_slice(&value);
        record = extended;
    }
    bytes.resize(in_front + record.pad_to_align().size(), 0xAA);
    bytes
}

fn detail(variant: TypeVariant, name: &str, size: usize, alignment: usize) -> TypeDetail {
    TypeDetail { variant, name: name.to_string(), size, alignment }
}

fn details(header: (usize, usize), user_header: (usize, usize), payload: (usize, usize)) -> MessageTypeDetails {
    MessageTypeDetails {
        header: detail(TypeVariant::FixedSize, "header", header.0, header.1),
        user_header: detail(TypeVariant::FixedSize, "user_header", user_header.0, user_header.1),
        payload: detail(TypeVariant::Dynamic, "payload", payload.0, payload.1),
    }
}

fn same(layout: MemoryLayout, expected: Layout) -> bool {
    layout.size() == expected.size() && layout.align() == expected.align()
}

#[test]
fn test_sample_layout_genric() {
    let details = MessageTypeDetails::from::<i32, bool, i64>(TypeVariant::FixedSize, "i32", "bool", "i64");
    let sut = details.sample_layout_genric::<i32, bool, i64>(2).unwrap();
    let expected = record(&[Layout::new::<i32>(), Layout::new::<bool>(), Layout::new::<[i64; 2]>()]);
    assert_eq!((sut.size(), sut.align()), (expected.size(), expected.align()));
    assert_eq!((sut.size(), sut.align()), (24, ALIGNMENT));
}

#[test]
fn test_user_header_ptr_from_header() {
    let details = MessageTypeDetails::from::<i32, bool, i64>(TypeVariant::Dynamic, "i32", "bool", "i64");
    let demo = image(
        16,
        [
            (Layout::new::<i32>(), 123i32.to_ne_bytes().to_vec()),
            (Layout::new::<bool>(), vec![u8::from(true)]),
            (Layout::new::<i64>(), 123i64.to_ne_bytes().to_vec()),
        ],
    );
    let user_header_ptr = details.user_header_ptr_from_header(16).unwrap();
    let sut = demo[user_header_ptr] != 0;
    assert_eq!(sut, true);
    assert_eq!(user_header_ptr, 20);

    let details = MessageTypeDetails::from::<i64, i32, i64>(TypeVariant::Dynamic, "i64", "i32", "i64");
    let demo = image(
        8,
        [
            (Layout::new::<i64>(), 123i64.to_ne_bytes().to_vec()),
            (Layout::new::<i32>(), 999i32.to_ne_bytes().to_vec()),
            (Layout::new::<i64>(), 123i64.to_ne_bytes().to_vec()),
        ],
    );
    let user_header_ptr = details.user_header_ptr_from_header(8).unwrap();
    let sut = i32::from_ne_bytes(demo[user_header_ptr..user_header_ptr + 4].try_into().unwrap());
    assert_eq!(sut, 999);
    assert_eq!(user_header_ptr, 16);
}

#[test]
fn test_payload_ptr_from_header() {
    let details = MessageTypeDetails::from::<i32, i32, i32>(TypeVariant::Dynamic, "i32", "i32", "i32");
    let demo = image(
        4,
        [
            (Layout::new::<i32>(), 123i32.to_ne_bytes().to_vec()),
            (Layout::new::<i32>(), 123i32.to_ne_bytes().to_vec()),
            (Layout::new::<i32>(), 9999i32.to_ne_bytes().to_vec()),
        ],
    );
    let payload_ptr = details.payload_ptr_from_header(4).unwrap();
    let sut = i32::from_ne_bytes(demo[payload_ptr..payload_ptr + 4].try_into().unwrap());
    assert_eq!(sut, 9999);
    assert_eq!(payload_ptr, 12);
}

#[test]
fn payload_is_found_behind_a_user_header_that_needs_padding() {
    let details = MessageTypeDetails::from::<u16, u8, u64>(TypeVariant::Dynamic, "u16", "u8", "u64");
    let demo = image(
        32,
        [
            (Layout::new::<u16>(), 7u16.to_ne_bytes().to_vec()),
            (Layout::new::<u8>(), vec![9u8]),
            (Layout::new::<u64>(), 0x0102030405060708u64.to_ne_bytes().to_vec()),
        ],
    );
    let user_header_ptr = details.user_header_ptr_from_header(32).unwrap();
    let payload_ptr = details.payload_ptr_from_header(32).unwrap();
    assert_eq!(demo[user_header_ptr], 9);
    assert_eq!(u64::from_ne_bytes(demo[payload_ptr..payload_ptr + 8].try_into().unwrap()), 0x0102030405060708);
    assert_eq!(demo.len(), 32 + details.sample_layout(1).unwrap().size());
}

#[test]
fn test_payload_layout() {
    let details = MessageTypeDetails::from::<i64, i64, i64>(TypeVariant::FixedSize, "i64", "i64", "i64");
    let sut = details.payload_layout(0).unwrap();
    assert_eq!(sut.size(), 0);
    let sut = details.payload_layout(5).unwrap();
    assert_eq!(sut.size(), 40);

    // a record of a bool, an i16 and an i64
    let demo = record(&[Layout::new::<bool>(), Layout::new::<i16>(), Layout::new::<i64>()]);
    let details = MessageTypeDetails {
        header: detail(TypeVariant::FixedSize, "i64", 8, ALIGNMENT),
        user_header: detail(TypeVariant::FixedSize, "i64", 8, ALIGNMENT),
        payload: detail(TypeVariant::FixedSize, "Demo", demo.size(), demo.align()),
    };
    let sut = details.payload_layout(1).unwrap();
    assert_eq!(sut.size(), 16);
    let sut = details.payload_layout(3).unwrap();
    assert_eq!(sut.size(), 48);
    assert_eq!(sut.align(), ALIGNMENT);
}

#[test]
fn sample_layout_of_a_description_is_the_layout_of_the_record() {
    let sut = details((4, 4), (1, 1), (8, 8)).sample_layout(2).unwrap();
    assert!(same(sut, record(&[Layout::new::<i32>(), Layout::new::<bool>(), Layout::new::<[i64; 2]>()])));
    assert_eq!((sut.size(), sut.align()), (24, 8));
}

#[test]
fn sample_layout_agrees_with_the_generic_one() {
    let from_types = MessageTypeDetails::from::<i64, i32, [u16; 3]>(TypeVariant::Dynamic, "a", "b", "c");
    for n in 0..9 {
        assert_eq!(from_types.sample_layout(n), from_types.sample_layout_genric::<i64, i32, [u16; 3]>(n));
        let expected = record(&[Layout::new::<i64>(), Layout::new::<i32>(), Layout::array::<[u16; 3]>(n).unwrap()]);
        assert!(same(from_types.sample_layout(n).unwrap(), expected));
    }
    let from_types = MessageTypeDetails::from::<u8, u64, u16>(TypeVariant::Dynamic, "a", "b", "c");
    for n in 0..9 {
        assert_eq!(from_types.sample_layout(n), from_types.sample_layout_genric::<u8, u64, u16>(n));
    }
}

#[test]
fn sample_layout_pads_between_and_behind_the_regions() {
    // header 0..8, user header 8..12, payload 16..16 at alignment 8
    assert_eq!(details((8, 8), (4, 4), (8, 8)).sample_layout(0), Ok(MemoryLayout { size: 16, align: 8 }));
    assert_eq!(details((8, 8), (8, 8), (8, 8)).sample_layout(2), Ok(MemoryLayout { size: 32, align: 8 }));
    // header 0..1, user header 2..4, payload 4..7, one byte behind it
    assert_eq!(details((1, 1), (2, 2), (3, 1)).sample_layout(1), Ok(MemoryLayout { size: 8, align: 2 }));
    // the payload is aligned more strictly than the header
    assert_eq!(details((2, 2), (1, 1), (4, 16)).sample_layout(3), Ok(MemoryLayout { size: 32, align: 16 }));
}

#[test]
fn sample_layout_covers_its_regions() {
    for (h, u, p) in [((4, 4), (1, 1), (8, 8)), ((3, 1), (5, 2), (7, 4)), ((0, 1), (0, 1), (0, 1)), ((16, 8), (2, 2), (12, 4))] {
        let details = details(h, u, p);
        for n in 0..20 {
            let sut = details.sample_layout(n).unwrap();
            assert!(sut.size() >= h.0 + u.0 + p.0 * n);
            assert_eq!(sut.size() % h.1, 0);
            assert_eq!(sut.align() % h.1, 0);
            assert_eq!(sut.size() % sut.align(), 0);
            let payload = details.payload_ptr_from_header(0).unwrap();
            assert!(payload + p.0 * n <= sut.size());
        }
    }
}

#[test]
fn sample_layout_of_unit_types_is_empty() {
    let details = MessageTypeDetails::from::<(), (), ()>(TypeVariant::FixedSize, "()", "()", "()");
    assert_eq!(details.sample_layout(7), Ok(MemoryLayout { size: 0, align: 1 }));
    assert_eq!(details.sample_layout_genric::<(), (), ()>(7), Ok(MemoryLayout { size: 0, align: 1 }));
    assert_eq!(details.payload_ptr_from_header(40), Some(40));
}

#[test]
fn sample_layout_reports_what_is_too_large() {
    let details = details((4, 4), (1, 1), (8, 8));
    assert_eq!(details.sample_layout(usize::MAX), Err(LayoutError::TooLarge));
    assert_eq!(details.sample_layout(usize::MAX / 8), Err(LayoutError::TooLarge));
    assert_eq!(details.sample_layout(isize::MAX as usize / 8), Err(LayoutError::TooLarge));
    let most = (isize::MAX as usize - 7) / 8 - 1;
    assert_eq!(details.sample_layout(most), Ok(MemoryLayout { size: 8 + most * 8, align: 8 }));
    assert_eq!(details.sample_layout(most + 1), Err(LayoutError::TooLarge));
    assert_eq!(details.sample_layout_genric::<i32, bool, i64>(usize::MAX), Err(LayoutError::TooLarge));
    assert_eq!(details.sample_layout_genric::<i32, bool, i64>(most + 1), Err(LayoutError::TooLarge));
    assert!(details.sample_layout_genric::<i32, bool, i64>(most).is_ok());
}

#[test]
fn payload_layout_reports_what_is_too_large() {
    let details = details((4, 4), (1, 1), (8, 8));
    assert_eq!(details.payload_layout(usize::MAX), Err(LayoutError::TooLarge));
    assert_eq!(details.payload_layout(isize::MAX as usize / 8 + 1), Err(LayoutError::TooLarge));
    let most = isize::MAX as usize / 8;
    assert_eq!(details.payload_layout(most), Ok(MemoryLayout { size: most * 8, align: 8 }));
    let odd = self::details((4, 4), (1, 1), (3, 4));
    assert_eq!(odd.payload_layout(5), Ok(MemoryLayout { size: 15, align: 4 }));
}

#[test]
fn payload_starts_behind_the_user_header_with_least_padding() {
    let details = details((4, 4), (3, 2), (8, 8));
    for header in 0..64 {
        let user_header = details.user_header_ptr_from_header(header).unwrap();
        let payload = details.payload_ptr_from_header(header).unwrap();
        assert!(user_header >= header + 4);
        assert!(user_header - (header + 4) < 2);
        assert_eq!(user_header % 2, 0);
        assert!(payload - user_header >= 3);
        assert!(payload - (user_header + 3) < 8);
        assert_eq!(payload % 8, 0);
    }
    assert_eq!(details.user_header_ptr_from_header(0), Some(4));
    assert_eq!(details.payload_ptr_from_header(0), Some(8));
    assert_eq!(details.user_header_ptr_from_header(5), Some(10));
    assert_eq!(details.payload_ptr_from_header(5), Some(16));
}

#[test]
fn addresses_beyond_the_address_space_are_none() {
    let details = details((4, 4), (3, 2), (8, 8));
    assert_eq!(details.user_header_ptr_from_header(usize::MAX), None);
    assert_eq!(details.user_header_ptr_from_header(usize::MAX - 4), None);
    assert_eq!(details.user_header_ptr_from_header(usize::MAX - 5), Some(usize::MAX - 1));
    assert_eq!(details.payload_ptr_from_header(usize::MAX - 5), None);
    assert_eq!(details.payload_ptr_from_header(usize::MAX - 15), Some(usize::MAX - 7));
}

#[test]
fn align_rounds_up_to_the_next_multiple() {
    assert_eq!(align(0, 8), 0);
    assert_eq!(align(1, 8), 8);
    assert_eq!(align(8, 8), 8);
    assert_eq!(align(9, 8), 16);
    assert_eq!(align(5, 4), 8);
    assert_eq!(align(7, 1), 7);
    assert_eq!(align(10, 3), 12);
    assert_eq!(checked_align(13, 4), Some(16));
    assert_eq!(checked_align(usize::MAX, 1), Some(usize::MAX));
    assert_eq!(checked_align(usize::MAX, 2), None);
    assert_eq!(checked_align(usize::MAX - 7, 8), Some(usize::MAX - 7));
    assert_eq!(checked_align(usize::MAX - 6, 8), None);
}

#[test]
fn powers_of_two_are_recognised() {
    for shift in 0..usize::BITS {
        let power = 1usize << shift;
        assert!(is_power_of_two(power));
        assert_eq!(is_power_of_two(power + 1), power == 1);
        assert_eq!(is_power_of_two(power - 1), power == 2);
    }
    assert!(!is_power_of_two(0));
    assert!(!is_power_of_two(12));
    assert!(!is_power_of_two(usize::MAX));
}

#[test]
fn memory_layout_agrees_with_the_allocator_layout() {
    let a = MemoryLayout::new::<u16>();
    let b = MemoryLayout::new::<u64>();
    let c = MemoryLayout::array::<u32>(3).unwrap();
    assert!(same(a, Layout::new::<u16>()));
    assert!(same(c, Layout::array::<u32>(3).unwrap()));
    let (ab, offset) = a.extend(b).unwrap();
    let (expected, expected_offset) = Layout::new::<u16>().extend(Layout::new::<u64>()).unwrap();
    assert!(same(ab, expected));
    assert_eq!(offset, expected_offset);
    let (abc, offset) = ab.extend(c).unwrap();
    let (expected, expected_offset) = expected.extend(Layout::array::<u32>(3).unwrap()).unwrap();
    assert!(same(abc, expected));
    assert_eq!(offset, expected_offset);
    assert_eq!((abc.size(), abc.align()), (28, 8));
    assert!(same(abc.pad_to_align(), expected.pad_to_align()));
    assert_eq!(abc.pad_to_align(), MemoryLayout { size: 32, align: 8 });
}

#[test]
fn memory_layout_fails_where_the_allocator_layout_fails() {
    let limit = isize::MAX as usize;
    for (size, align) in [(0, 1), (limit, 1), (limit, 2), (limit - 1, 2), (limit - 7, 8), (limit - 6, 8), (usize::MAX, 1), (limit + 1, 1)] {
        assert_eq!(MemoryLayout::from_size_align(size, align).is_ok(), Layout::from_size_align(size, align).is_ok());
    }
    assert_eq!(MemoryLayout::from_size_align(limit + 1, 1), Err(LayoutError::TooLarge));
    assert_eq!(MemoryLayout::from_size_align(24, 8), Ok(MemoryLayout { size: 24, align: 8 }));
    assert_eq!(MemoryLayout::array::<u64>(usize::MAX), Err(LayoutError::TooLarge));
    assert_eq!(MemoryLayout::array::<u64>(limit / 8 + 1), Err(LayoutError::TooLarge));
    assert!(MemoryLayout::array::<u64>(limit / 8).is_ok());
    let big = MemoryLayout::from_size_align(limit - 7, 8).unwrap();
    assert_eq!(big.extend(MemoryLayout::new::<u8>()), Err(LayoutError::TooLarge));
    assert_eq!(MemoryLayout::new::<u8>().extend(big), Err(LayoutError::TooLarge));
    let nearly = MemoryLayout::from_size_align(limit - 8, 1).unwrap();
    assert_eq!(nearly.extend(MemoryLayout::new::<u8>()), Ok((MemoryLayout { size: limit - 7, align: 1 }, limit - 8)));
    assert_eq!(nearly.repeat(2), Err(LayoutError::TooLarge));
    assert_eq!(MemoryLayout { size: 6, align: 4 }.repeat(3), Ok(MemoryLayout { size: 18, align: 4 }));
}
