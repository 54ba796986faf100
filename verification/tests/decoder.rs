use nova_vm::wasm::code_section::{
    decode_code_section, decode_kind, decode_local_groups_at, LocalGroup, ValueKind,
};
use nova_vm::wasm::error::Error;
use nova_vm::wasm::reader::{byte_at, ByteReader};
use nova_vm::wasm::varint::{decode_u32, decode_u32_at};

#[test]
fn varint_of_one_byte() {
    assert_eq!(decode_u32_at(&[0x00], 0), Ok((0, 1)));
    assert_eq!(decode_u32_at(&[0x7F], 0), Ok((127, 1)));
    assert_eq!(decode_u32_at(&[0xAA, 0x05], 1), Ok((5, 1)));
}

#[test]
fn varint_of_several_bytes() {
    assert_eq!(decode_u32_at(&[0x80, 0x01], 0), Ok((128, 2)));
    assert_eq!(decode_u32_at(&[0xE5, 0x8E, 0x26], 0), Ok((624485, 3)));
    assert_eq!(decode_u32_at(&[0xFF, 0xFF, 0xFF, 0xFF, 0x0F], 0), Ok((u32::MAX, 5)));
    assert_eq!(decode_u32_at(&[0x80, 0x80, 0x80, 0x80, 0x08], 0), Ok((0x8000_0000, 5)));
}

#[test]
fn varint_with_padding_zero_groups() {
    assert_eq!(decode_u32_at(&[0x81, 0x80, 0x00], 0), Ok((1, 3)));
}

#[test]
fn varint_that_ends_early() {
    assert_eq!(decode_u32_at(&[], 0), Err(Error::UnexpectedEof));
    assert_eq!(decode_u32_at(&[0x80], 0), Err(Error::UnexpectedEof));
    assert_eq!(decode_u32_at(&[0x01], 1), Err(Error::UnexpectedEof));
    assert_eq!(decode_u32_at(&[0x01], 7), Err(Error::UnexpectedEof));
}

#[test]
fn varint_that_is_too_long() {
    assert_eq!(
        decode_u32_at(&[0x80, 0x80, 0x80, 0x80, 0x80, 0x00], 0),
        Err(Error::IntegerTooLong)
    );
}

#[test]
fn varint_that_is_too_large() {
    assert_eq!(decode_u32_at(&[0xFF, 0xFF, 0xFF, 0xFF, 0x10], 0), Err(Error::IntegerTooLarge));
    assert_eq!(decode_u32_at(&[0x80, 0x80, 0x80, 0x80, 0x7F], 0), Err(Error::IntegerTooLarge));
}

#[test]
fn reader_steps_over_what_it_reads() {
    let bytes = [0xE5, 0x8E, 0x26, 0x7F];
    let mut reader = ByteReader::new(&bytes);
    assert_eq!(reader.position(), 0);
    assert_eq!(reader.remaining(), 4);
    assert_eq!(decode_u32(&mut reader), Ok((624485, 3)));
    assert_eq!(reader.position(), 3);
    assert_eq!(decode_kind(&mut reader), Ok(ValueKind::I32));
    assert_eq!(reader.position(), 4);
    assert_eq!(reader.remaining(), 0);
    assert_eq!(reader.read_u8(), Err(Error::UnexpectedEof));
    assert_eq!(reader.position(), 4);
}

#[test]
fn reader_stays_on_failure() {
    let bytes = [0x80];
    let mut reader = ByteReader::new(&bytes);
    assert_eq!(decode_u32(&mut reader), Err(Error::UnexpectedEof));
    assert_eq!(reader.position(), 0);
    assert_eq!(reader.read_u8(), Ok(0x80));
    assert_eq!(reader.position(), 1);
    assert_eq!(byte_at(&bytes, 0), Ok(0x80));
    assert_eq!(byte_at(&bytes, 1), Err(Error::UnexpectedEof));
}

#[test]
fn every_value_kind() {
    let bytes = [0x7F, 0x7E, 0x7D, 0x7C, 0x7B, 0x70, 0x6F];
    let kinds = [
        ValueKind::I32,
        ValueKind::I64,
        ValueKind::F32,
        ValueKind::F64,
        ValueKind::V128,
        ValueKind::FuncRef,
        ValueKind::ExternRef,
    ];
    let mut reader = ByteReader::new(&bytes);
    for kind in kinds {
        assert_eq!(decode_kind(&mut reader), Ok(kind));
    }
    assert_eq!(decode_kind(&mut reader), Err(Error::UnexpectedEof));
}

#[test]
fn byte_that_names_no_kind() {
    let bytes = [0x00];
    let mut reader = ByteReader::new(&bytes);
    assert_eq!(decode_kind(&mut reader), Err(Error::InvalidValueKind(0x00)));
    assert_eq!(reader.position(), 0);
    let bytes = [0x80];
    let mut reader = ByteReader::new(&bytes);
    assert_eq!(decode_kind(&mut reader), Err(Error::InvalidValueKind(0x80)));
}

#[test]
fn local_groups_in_order() {
    let bytes = [0x02, 0x02, 0x7F, 0x81, 0x00, 0x7E, 0xAA];
    let (groups, end) = decode_local_groups_at(&bytes, 0).unwrap();
    assert_eq!(
        groups,
        vec![
            LocalGroup { count: 2, consumed: 1, kind: ValueKind::I32 },
            LocalGroup { count: 1, consumed: 2, kind: ValueKind::I64 },
        ]
    );
    assert_eq!(end, 6);
}

#[test]
fn code_section_spreads_locals() {
    // size 4; two groups: two i32, one i64; then four bytes of code
    let bytes = [0x04, 0x02, 0x02, 0x7F, 0x01, 0x7E, 0x20, 0x00, 0x1A, 0x0B];
    let mut reader = ByteReader::new(&bytes);
    let block = decode_code_section(&mut reader).unwrap();
    assert_eq!(&*block.locals, &[ValueKind::I32, ValueKind::I32, ValueKind::I64]);
    assert!(block.instructions.is_empty());
    assert_eq!(reader.position(), 6);
}

#[test]
fn code_section_without_locals() {
    let bytes = [0x00, 0x00];
    let mut reader = ByteReader::new(&bytes);
    let block = decode_code_section(&mut reader).unwrap();
    assert_eq!(block.locals.len(), 0);
    assert!(block.instructions.is_empty());
    assert_eq!(reader.position(), 2);
}

#[test]
fn code_section_with_a_group_of_no_locals() {
    let bytes = [0x01, 0x01, 0x00, 0x7D];
    let mut reader = ByteReader::new(&bytes);
    let block = decode_code_section(&mut reader).unwrap();
    assert_eq!(block.locals.len(), 0);
    assert_eq!(reader.position(), 4);
}

#[test]
fn code_section_from_the_middle_of_the_input() {
    let bytes = [0xFF, 0xFF, 0x03, 0x01, 0x03, 0x6F];
    let mut reader = ByteReader::new(&bytes);
    assert_eq!(reader.read_u8(), Ok(0xFF));
    assert_eq!(reader.read_u8(), Ok(0xFF));
    let block = decode_code_section(&mut reader).unwrap();
    assert_eq!(
        &*block.locals,
        &[ValueKind::ExternRef, ValueKind::ExternRef, ValueKind::ExternRef]
    );
    assert_eq!(reader.position(), 6);
}

#[test]
fn code_section_whose_size_is_too_small() {
    let bytes = [0x00, 0x01, 0x01, 0x7F];
    let mut reader = ByteReader::new(&bytes);
    assert_eq!(decode_code_section(&mut reader).unwrap_err(), Error::BodyTooSmall);
    assert_eq!(reader.position(), 0);
    // the counts took 1 + 2 bytes, the size allows 2
    let bytes = [0x02, 0x02, 0x01, 0x7F, 0x81, 0x00, 0x7F];
    let mut reader = ByteReader::new(&bytes);
    assert_eq!(decode_code_section(&mut reader).unwrap_err(), Error::BodyTooSmall);
}

#[test]
fn code_section_whose_size_is_just_enough() {
    let bytes = [0x03, 0x02, 0x01, 0x7F, 0x81, 0x00, 0x7F];
    let mut reader = ByteReader::new(&bytes);
    let block = decode_code_section(&mut reader).unwrap();
    assert_eq!(&*block.locals, &[ValueKind::I32, ValueKind::I32]);
    assert_eq!(reader.position(), 7);
}

#[test]
fn code_section_that_fails_in_a_field() {
    let mut reader = ByteReader::new(&[]);
    assert_eq!(decode_code_section(&mut reader).unwrap_err(), Error::UnexpectedEof);
    let bytes = [0x04];
    let mut reader = ByteReader::new(&bytes);
    assert_eq!(decode_code_section(&mut reader).unwrap_err(), Error::UnexpectedEof);
    let bytes = [0x04, 0x02, 0x01, 0x7F];
    let mut reader = ByteReader::new(&bytes);
    assert_eq!(decode_code_section(&mut reader).unwrap_err(), Error::UnexpectedEof);
    assert_eq!(reader.position(), 0);
    let bytes = [0x04, 0x01, 0x01, 0x40];
    let mut reader = ByteReader::new(&bytes);
    assert_eq!(decode_code_section(&mut reader).unwrap_err(), Error::InvalidValueKind(0x40));
    let bytes = [0x04, 0x01, 0x80, 0x80, 0x80, 0x80, 0x80];
    let mut reader = ByteReader::new(&bytes);
    assert_eq!(decode_code_section(&mut reader).unwrap_err(), Error::IntegerTooLong);
    let bytes = [0xFF, 0xFF, 0xFF, 0xFF, 0x7F];
    let mut reader = ByteReader::new(&bytes);
    assert_eq!(decode_code_section(&mut reader).unwrap_err(), Error::IntegerTooLarge);
}
