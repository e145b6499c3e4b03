use rstar::header::checksum;
use rstar::header::checksum_matches;
use rstar::header::read_number;
use rstar::files::Element;
use rstar::header::Field;
use rstar::files::FileData;
use rstar::header::HeaderError;
use rstar::files::TypeFlag;

fn sample_file() -> FileData {
    FileData {
        path: String::from("a.txt"),
        mode: 0o644,
        owner_id: 1000,
        group_id: 1000,
        file_size: 5,
        last_mod_time: 1_700_000_000,
        type_flag: TypeFlag::T0,
        linked_file_name: String::new(),
    }
}

fn sum_with_blank_checksum(block: &[u8; 512]) -> u32 {
    let mut sum = 0u32;
    for (i, b) in block.iter().enumerate() {
        sum += if (148..156).contains(&i) { 0x20 } else { u32::from(*b) };
    }
    sum
}

#[test]
fn header_of_a_file_is_byte_exact() {
    let block = sample_file().encode().unwrap();
    assert_eq!(block.len(), 512);
    assert_eq!(&block[0..5], b"a.txt");
    assert!(block[5..100].iter().all(|b| *b == 0));
    assert_eq!(&block[100..108], b"0000644\0");
    assert_eq!(&block[108..116], b"0001750\0");
    assert_eq!(&block[116..124], b"0001750\0");
    assert_eq!(&block[124..136], b"00000000005\0");
    assert_eq!(&block[136..148], b"14524770400\0");
    assert_eq!(&block[148..156], b"005576\0 ");
    assert_eq!(block[156], b'0');
    assert!(block[157..512].iter().all(|b| *b == 0));
}

#[test]
fn header_of_a_directory_is_byte_exact() {
    let data = FileData {
        path: String::from("sub"),
        mode: 0o755,
        owner_id: 1000,
        group_id: 1000,
        file_size: 0,
        last_mod_time: 1_700_000_000,
        type_flag: TypeFlag::T5,
        linked_file_name: String::new(),
    };
    let block = data.encode().unwrap();
    assert_eq!(&block[0..3], b"sub");
    assert_eq!(&block[100..108], b"0000755\0");
    assert_eq!(&block[124..136], b"00000000000\0");
    assert_eq!(&block[148..156], b"005334\0 ");
    assert_eq!(block[156], b'5');
}

#[test]
fn header_of_default_metadata() {
    let block = FileData::default().encode().unwrap();
    assert!(block[0..100].iter().all(|b| *b == 0));
    assert_eq!(&block[100..108], b"0000000\0");
    assert_eq!(&block[136..148], b"00000000000\0");
    assert_eq!(&block[148..156], b"004500\0 ");
    assert_eq!(block[156], 0x30);
}

#[test]
fn default_metadata_is_empty() {
    let d = FileData::default();
    assert_eq!(d.path, "");
    assert_eq!(d.mode, 0);
    assert_eq!(d.owner_id, 0);
    assert_eq!(d.group_id, 0);
    assert_eq!(d.file_size, 0);
    assert_eq!(d.last_mod_time, 0);
    assert_eq!(d.type_flag, TypeFlag::T0);
    assert_eq!(d.linked_file_name, "");
}

#[test]
fn header_with_every_field_full() {
    let data = FileData {
        path: "x".repeat(100),
        mode: 0o7777777,
        owner_id: 0o7777777,
        group_id: 0o7777777,
        file_size: 0o77777777777,
        last_mod_time: 0o77777777777,
        type_flag: TypeFlag::T2,
        linked_file_name: "y".repeat(100),
    };
    let block = data.encode().unwrap();
    assert!(block[0..100].iter().all(|b| *b == b'x'));
    assert_eq!(&block[100..108], b"7777777\0");
    assert_eq!(&block[108..116], b"7777777\0");
    assert_eq!(&block[116..124], b"7777777\0");
    assert_eq!(&block[124..136], b"77777777777\0");
    assert_eq!(&block[136..148], b"77777777777\0");
    assert_eq!(&block[148..156], b"064223\0 ");
    assert_eq!(block[156], b'2');
    assert!(block[157..257].iter().all(|b| *b == b'y'));
    assert!(block[257..512].iter().all(|b| *b == 0));
}

#[test]
fn regular_file_flag_is_ascii_zero() {
    assert_eq!(TypeFlag::T0.to_byte(), b'0');
    assert_ne!(TypeFlag::T0.to_byte(), 0);
    let block = sample_file().encode().unwrap();
    assert_eq!(block[156], 0x30);
}

#[test]
fn type_flag_bytes() {
    let all = [
        (TypeFlag::T0, b'0'),
        (TypeFlag::T1, b'1'),
        (TypeFlag::T2, b'2'),
        (TypeFlag::T3, b'3'),
        (TypeFlag::T4, b'4'),
        (TypeFlag::T5, b'5'),
        (TypeFlag::T6, b'6'),
        (TypeFlag::T7, b'7'),
        (TypeFlag::G, b'g'),
        (TypeFlag::X, b'x'),
    ];
    for (flag, byte) in all {
        assert_eq!(flag.to_byte(), byte);
        assert_eq!(TypeFlag::from_byte(byte), Some(flag));
    }
    assert_eq!(TypeFlag::from_byte(0), None);
    assert_eq!(TypeFlag::from_byte(b'8'), None);
    assert_eq!(TypeFlag::from_byte(b'A'), None);
}

#[test]
fn field_layout() {
    let table = [
        (Field::Path, 0, 0),
        (Field::Mode, 100, 7),
        (Field::OwnerId, 108, 7),
        (Field::GroupId, 116, 7),
        (Field::Size, 124, 11),
        (Field::Mtime, 136, 11),
        (Field::Checksum, 148, 6),
        (Field::TypeFlag, 156, 0),
        (Field::LinkTarget, 157, 0),
    ];
    for (field, start, digits) in table {
        assert_eq!(field.start(), start);
        assert_eq!(field.digit_count(), digits);
    }
}

#[test]
fn checksum_is_recomputed_from_the_block() {
    let block = sample_file().encode().unwrap();
    assert_eq!(checksum(&block), 2942);
    assert_eq!(checksum(&block), sum_with_blank_checksum(&block));
    assert_eq!(read_number(&block, Field::Checksum), Some(2942));
    assert!(checksum_matches(&block));
}

#[test]
fn checksum_ignores_the_checksum_field() {
    let mut block = sample_file().encode().unwrap();
    for b in &mut block[148..156] {
        *b = b' ';
    }
    assert_eq!(checksum(&block), 2942);
    for b in &mut block[148..156] {
        *b = 0xff;
    }
    assert_eq!(checksum(&block), 2942);
    assert!(!checksum_matches(&block));
}

#[test]
fn checksum_detects_a_changed_byte() {
    let mut block = sample_file().encode().unwrap();
    block[0] = b'b';
    assert_eq!(checksum(&block), 2943);
    assert!(!checksum_matches(&block));
}

#[test]
fn checksum_of_extreme_blocks() {
    assert_eq!(checksum(&[0u8; 512]), 8 * 32);
    assert_eq!(checksum(&[0xffu8; 512]), 504 * 255 + 8 * 32);
    assert!(!checksum_matches(&[0u8; 512]));
}

#[test]
fn numeric_fields_read_back() {
    let data = sample_file();
    let block = data.encode().unwrap();
    assert_eq!(read_number(&block, Field::Mode), Some(0o644));
    assert_eq!(read_number(&block, Field::OwnerId), Some(1000));
    assert_eq!(read_number(&block, Field::GroupId), Some(1000));
    assert_eq!(read_number(&block, Field::Size), Some(5));
    assert_eq!(read_number(&block, Field::Mtime), Some(1_700_000_000));
    assert_eq!(read_number(&block, Field::Path), None);
    assert_eq!(read_number(&block, Field::TypeFlag), None);
    assert_eq!(read_number(&block, Field::LinkTarget), None);
}

#[test]
fn numeric_fields_read_back_at_the_bounds() {
    for short in [0u32, 1, 0o7777777] {
        for long in [0u64, 1, 0o77777777777] {
            let data = FileData {
                mode: short,
                owner_id: short,
                group_id: short,
                file_size: long,
                last_mod_time: long,
                ..sample_file()
            };
            let block = data.encode().unwrap();
            assert_eq!(read_number(&block, Field::Mode), Some(u64::from(short)));
            assert_eq!(read_number(&block, Field::OwnerId), Some(u64::from(short)));
            assert_eq!(read_number(&block, Field::GroupId), Some(u64::from(short)));
            assert_eq!(read_number(&block, Field::Size), Some(long));
            assert_eq!(read_number(&block, Field::Mtime), Some(long));
            assert!(checksum_matches(&block));
        }
    }
}

#[test]
fn read_number_rejects_what_is_no_digit() {
    let mut block = sample_file().encode().unwrap();
    block[100] = b'8';
    assert_eq!(read_number(&block, Field::Mode), None);
    block[100] = b' ';
    assert_eq!(read_number(&block, Field::Mode), None);
    block[100] = b'/';
    assert_eq!(read_number(&block, Field::Mode), None);
    block[100] = b'7';
    assert_eq!(read_number(&block, Field::Mode), Some(0o7000644));
    assert_eq!(read_number(&[0u8; 512], Field::Size), None);
}

#[test]
fn mode_overflow() {
    let data = FileData { mode: 0o10000000, ..sample_file() };
    assert_eq!(
        data.encode(),
        Err(HeaderError::FieldOverflow { field: Field::Mode, value: 0o10000000 })
    );
}

#[test]
fn owner_overflow() {
    let data = FileData { owner_id: 0o10000000, ..sample_file() };
    assert_eq!(
        data.encode(),
        Err(HeaderError::FieldOverflow { field: Field::OwnerId, value: 0o10000000 })
    );
}

#[test]
fn group_overflow() {
    let data = FileData { group_id: u32::MAX, ..sample_file() };
    assert_eq!(
        data.encode(),
        Err(HeaderError::FieldOverflow { field: Field::GroupId, value: u64::from(u32::MAX) })
    );
}

#[test]
fn size_overflow() {
    let data = FileData { file_size: 0o100000000000, ..sample_file() };
    assert_eq!(
        data.encode(),
        Err(HeaderError::FieldOverflow { field: Field::Size, value: 0o100000000000 })
    );
}

#[test]
fn mtime_overflow() {
    let data = FileData { last_mod_time: u64::MAX, ..sample_file() };
    assert_eq!(
        data.encode(),
        Err(HeaderError::FieldOverflow { field: Field::Mtime, value: u64::MAX })
    );
}

#[test]
fn link_target_overflow() {
    let data = FileData { linked_file_name: "l".repeat(101), ..sample_file() };
    assert_eq!(
        data.encode(),
        Err(HeaderError::FieldOverflow { field: Field::LinkTarget, value: 101 })
    );
}

#[test]
fn first_fault_in_field_order_is_reported() {
    let data = FileData {
        path: "p".repeat(150),
        mode: u32::MAX,
        file_size: u64::MAX,
        ..sample_file()
    };
    assert_eq!(data.encode(), Err(HeaderError::PathTooLong { length: 150 }));
    let data = FileData { mode: u32::MAX, file_size: u64::MAX, ..sample_file() };
    assert_eq!(
        data.encode(),
        Err(HeaderError::FieldOverflow { field: Field::Mode, value: u64::from(u32::MAX) })
    );
}

#[test]
fn path_of_100_bytes_fits_and_101_does_not() {
    let data = FileData { path: "a".repeat(100), ..sample_file() };
    let block = data.encode().unwrap();
    assert!(block[0..100].iter().all(|b| *b == b'a'));
    assert_eq!(&block[100..108], b"0000644\0");
    let data = FileData { path: "a".repeat(101), ..sample_file() };
    assert_eq!(data.encode(), Err(HeaderError::PathTooLong { length: 101 }));
}

#[test]
fn path_length_counts_bytes() {
    // 50 two-byte characters are 100 bytes; one more character is too much.
    let data = FileData { path: "é".repeat(50), ..sample_file() };
    let block = data.encode().unwrap();
    assert_eq!(&block[0..100], "é".repeat(50).as_bytes());
    let data = FileData { path: "é".repeat(50) + "a", ..sample_file() };
    assert_eq!(data.encode(), Err(HeaderError::PathTooLong { length: 101 }));
}

#[test]
fn encoding_twice_gives_the_same_block() {
    let data = sample_file();
    assert_eq!(data.encode(), data.encode());
    let copy = data.clone();
    assert_eq!(data.encode(), copy.encode());
}

#[test]
fn element_header_is_the_header_of_its_metadata() {
    let file = Element::File(Box::new(sample_file()));
    assert_eq!(file.get_binary_header(), sample_file().encode());
    assert_eq!(file.metadata().path, "a.txt");
    let dir = Element::Dir(
        vec![file],
        Box::new(FileData {
            path: String::from("d"),
            file_size: 0,
            type_flag: TypeFlag::T5,
            ..sample_file()
        }),
    );
    let block = dir.get_binary_header().unwrap();
    assert_eq!(block[0], b'd');
    assert_eq!(block[156], b'5');
    let bad = Element::File(Box::new(FileData { owner_id: u32::MAX, ..sample_file() }));
    assert_eq!(
        bad.get_binary_header(),
        Err(HeaderError::FieldOverflow { field: Field::OwnerId, value: u64::from(u32::MAX) })
    );
}

#[test]
fn well_formed_nodes() {
    let file = Element::File(Box::new(sample_file()));
    assert!(file.is_well_formed());
    let marked = Element::File(Box::new(FileData { type_flag: TypeFlag::T5, ..sample_file() }));
    assert!(!marked.is_well_formed());
    let dir_data = FileData { file_size: 0, type_flag: TypeFlag::T5, ..sample_file() };
    assert!(Element::Dir(vec![], Box::new(dir_data.clone())).is_well_formed());
    assert!(!Element::Dir(vec![], Box::new(sample_file())).is_well_formed());
    let sized = FileData { file_size: 1, ..dir_data.clone() };
    assert!(!Element::Dir(vec![], Box::new(sized)).is_well_formed());
    assert!(!Element::Dir(vec![marked], Box::new(dir_data)).is_well_formed());
}

#[test]
fn only_a_link_records_a_link_target() {
    let target = String::from("elsewhere");
    let plain = FileData { linked_file_name: target.clone(), ..sample_file() };
    assert!(!plain.has_link_only_for_link());
    assert!(!Element::File(Box::new(plain)).is_well_formed());
    for flag in [TypeFlag::T1, TypeFlag::T2] {
        let link = FileData { type_flag: flag, linked_file_name: target.clone(), ..sample_file() };
        assert!(link.has_link_only_for_link());
        assert!(Element::File(Box::new(link)).is_well_formed());
    }
    let dir = FileData {
        file_size: 0,
        type_flag: TypeFlag::T5,
        linked_file_name: target,
        ..sample_file()
    };
    assert!(!Element::Dir(vec![], Box::new(dir)).is_well_formed());
    assert!(sample_file().has_link_only_for_link());
}
