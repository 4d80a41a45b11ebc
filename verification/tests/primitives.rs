use caff_archive::{Error, Key, Padding, Reader, Writer};

fn reader(bytes: &[u8]) -> Reader {
    Reader::new(bytes.to_vec())
}

#[test]
fn key_narrows_to_low_order_bits() {
    let key = Key::from(0xDEADBEEF);
    assert_eq!(u32::from(key), 0xDEADBEEF);
    assert_eq!(u16::from(key), 0xBEEF);
    assert_eq!(u8::from(key), 0xEF);
    assert_eq!(key.mask_u16(), 0xBEEF);
    assert_eq!(key.mask_u8(), 0xEF);
}

#[test]
fn key_default_masks_nothing() {
    let key = Key::default();
    assert_eq!(key, Key(0));
    for value in [0u32, 1, 0x7F, 0xDEADBEEF, u32::MAX] {
        assert_eq!(key ^ value, value);
        assert_eq!(value ^ key, value);
    }
    assert_eq!(Key::default() ^ 0xA5u8, 0xA5);
    assert_eq!(Key::default() ^ 0xA55Au16, 0xA55A);
}

#[test]
fn key_xor_u32_matches_plain_xor() {
    let key = Key(0xDEADBEEF);
    assert_eq!(0x01020304u32 ^ key, 0xDFAFBDEB);
    assert_eq!(key ^ 0x01020304u32, 0xDFAFBDEB);
    assert_eq!(0x01020304u32 ^ key, 0x01020304 ^ u32::from(key));
}

#[test]
fn key_xor_u16_uses_low_sixteen_bits() {
    let key = Key(0xDEADBEEF);
    assert_eq!(0x0102u16 ^ key, 0xBFED);
    assert_eq!(key ^ 0x0102u16, 0xBFED);
    assert_eq!(0x0102u16 ^ key, 0x0102 ^ u16::from(key));
}

#[test]
fn key_xor_u8_uses_low_eight_bits() {
    let key = Key(0xDEADBEEF);
    assert_eq!(0x10u8 ^ key, 0xFF);
    assert_eq!(key ^ 0x10u8, 0xFF);
    assert_eq!(0x10u8 ^ key, 0x10 ^ u8::from(key));
}

#[test]
fn key_xor_assign() {
    let key = Key(0xDEADBEEF);
    let mut wide = 0x01020304u32;
    wide ^= key;
    assert_eq!(wide, 0xDFAFBDEB);
    let mut narrow = 0x20u8;
    narrow ^= key;
    assert_eq!(narrow, 0xCF);
}

#[test]
fn xor_is_its_own_inverse() {
    for raw in [0u32, 1, 0xFF, 0x1234_5678, 0xDEADBEEF, u32::MAX] {
        let key = Key(raw);
        for value in 0..=u8::MAX {
            assert_eq!((value ^ key) ^ key, value);
        }
        for value in [0u16, 1, 0x00FF, 0xFF00, 0xBEEF, u16::MAX] {
            assert_eq!((value ^ key) ^ key, value);
        }
        for value in [0u32, 1, 0x0102_0304, 0xDEADBEEF, u32::MAX] {
            assert_eq!((value ^ key) ^ key, value);
        }
    }
}

#[test]
fn key_is_written_big_endian_and_unmasked() {
    let mut writer = Writer::new();
    assert_eq!(Key(0x01020304).write(&mut writer), Ok(()));
    assert_eq!(writer.into_bytes(), vec![0x01, 0x02, 0x03, 0x04]);
}

#[test]
fn key_is_read_big_endian() {
    let mut source = reader(&[0xDE, 0xAD, 0xBE, 0xEF, 0x99]);
    assert_eq!(Key::read(&mut source), Ok(Key(0xDEADBEEF)));
    assert_eq!(source.remaining(), 1);
}

#[test]
fn key_round_trip() {
    for raw in [0u32, 1, 0x0102_0304, 0x8000_0000, 0xDEADBEEF, u32::MAX] {
        let mut writer = Writer::new();
        Key(raw).write(&mut writer).unwrap();
        let mut source = Reader::new(writer.into_bytes());
        assert_eq!(Key::read(&mut source), Ok(Key(raw)));
        assert_eq!(source.remaining(), 0);
    }
}

#[test]
fn key_short_source_is_an_io_error() {
    let mut source = reader(&[1, 2, 3]);
    assert_eq!(Key::read(&mut source), Err(Error::Io));
    assert_eq!(source.remaining(), 0);
}

#[test]
fn padding_round_trip() {
    let expected = Padding([0x00, 0xFF, 0x12, 0x80]);
    let mut writer = Writer::new();
    assert_eq!(expected.write(&mut writer), Ok(()));
    let bytes = writer.into_bytes();
    assert_eq!(bytes, vec![0x00, 0xFF, 0x12, 0x80]);
    let mut source = Reader::new(bytes);
    assert_eq!(Padding::<4>::read(&mut source), Ok(expected));
    assert_eq!(source.remaining(), 0);
}

#[test]
fn padding_reads_exactly_its_size() {
    let mut source = reader(&[1, 2, 3, 4, 5]);
    assert_eq!(Padding::<2>::read(&mut source), Ok(Padding([1, 2])));
    assert_eq!(source.remaining(), 3);
    assert_eq!(Padding::<3>::read(&mut source), Ok(Padding([3, 4, 5])));
    assert_eq!(source.remaining(), 0);
}

#[test]
fn padding_short_source_is_an_io_error() {
    let mut source = reader(&[1, 2, 3]);
    assert_eq!(Padding::<4>::read(&mut source), Err(Error::Io));
    assert_eq!(source.remaining(), 0);
}

#[test]
fn padding_of_no_bytes() {
    let mut source = reader(&[7]);
    let empty = Padding::<0>::read(&mut source).unwrap();
    assert!(empty.is_empty());
    assert!(empty.is_all_u8_max());
    assert_eq!(source.remaining(), 1);
}

#[test]
fn padding_classification() {
    assert!(Padding([0u8; 8]).is_empty());
    assert!(!Padding([0u8; 8]).is_all_u8_max());
    assert!(Padding([0xFFu8; 8]).is_all_u8_max());
    assert!(!Padding([0xFFu8; 8]).is_empty());
    let other = Padding([0, 0, 0, 1]);
    assert!(!other.is_empty());
    assert!(!other.is_all_u8_max());
    let nearly = Padding([0xFF, 0xFF, 0xFE, 0xFF]);
    assert!(!nearly.is_empty());
    assert!(!nearly.is_all_u8_max());
}

#[test]
fn padding_default_is_empty() {
    let padding = Padding::<12>::default();
    assert!(padding.is_empty());
    assert_eq!(padding.into_inner(), [0u8; 12]);
}

#[test]
fn padding_conversions() {
    let padding = Padding::from([9u8, 8, 7]);
    assert_eq!(padding, Padding([9, 8, 7]));
    assert_eq!(padding.into_inner(), [9, 8, 7]);
    let bytes: [u8; 3] = padding.into();
    assert_eq!(bytes, [9, 8, 7]);
}

#[test]
fn reader_reads_in_order() {
    let mut source = reader(&[0x01, 0x02, 0x03, 0x04, 0x05, 0x06, 0x80, 0x09]);
    assert_eq!(source.remaining(), 8);
    assert_eq!(source.read_u8(), Ok(0x01));
    assert_eq!(source.read_u16_be(), Ok(0x0203));
    assert_eq!(source.read_array::<3>(), Ok([0x04, 0x05, 0x06]));
    assert_eq!(source.read_i8(), Ok(-128));
    assert_eq!(source.read_bytes(1), Ok(vec![0x09]));
    assert_eq!(source.read_u8(), Err(Error::Io));
}

#[test]
fn reader_signed_bytes() {
    let mut source = reader(&[0x00, 0x7F, 0x80, 0xFF]);
    assert_eq!(source.read_i8(), Ok(0));
    assert_eq!(source.read_i8(), Ok(127));
    assert_eq!(source.read_i8(), Ok(-128));
    assert_eq!(source.read_i8(), Ok(-1));
}

#[test]
fn reader_big_endian_u32() {
    let mut source = reader(&[0x12, 0x34, 0x56, 0x78]);
    assert_eq!(source.read_u32_be(), Ok(0x12345678));
}

#[test]
fn reader_failed_read_exhausts_the_source() {
    let mut source = reader(&[1, 2, 3]);
    assert_eq!(source.read_u32_be(), Err(Error::Io));
    assert_eq!(source.remaining(), 0);
    let mut source = reader(&[1]);
    assert_eq!(source.read_u16_be(), Err(Error::Io));
    assert_eq!(source.remaining(), 0);
    let mut source = reader(&[1, 2]);
    assert_eq!(source.read_bytes(3), Err(Error::Io));
    assert_eq!(source.remaining(), 0);
}

#[test]
fn reader_read_to_end() {
    let mut source = reader(&[1, 2, 3, 4]);
    source.read_u8().unwrap();
    assert_eq!(source.read_to_end(), vec![2, 3, 4]);
    assert_eq!(source.remaining(), 0);
    assert_eq!(source.read_to_end(), Vec::<u8>::new());
}

#[test]
fn writer_appends_in_order() {
    let mut writer = Writer::new();
    writer.write_u8(0x01);
    writer.write_u16_be(0x0203);
    writer.write_u32_be(0x04050607);
    writer.write_i8(-1);
    writer.write_i8(127);
    writer.write_all(&[0xAA, 0xBB]);
    assert_eq!(
        writer.into_bytes(),
        vec![0x01, 0x02, 0x03, 0x04, 0x05, 0x06, 0x07, 0xFF, 0x7F, 0xAA, 0xBB]
    );
}
