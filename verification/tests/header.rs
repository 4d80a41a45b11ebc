use caff_archive::{
    ColorType, Error, Header, ImageType, Key, Magic, Padding, PreviewImage, Reader, Validation,
    Version, Writer,
};

fn sample_header() -> Header {
    Header {
        archive_magic: Magic::default(),
        archive_version: Version::new(1, 2, 3),
        format_identifier: [0xDE, 0xC0, 0xAD, 0x0B],
        format_version: Version::new(4, 5, 6),
        key: Key(0xDEADBEEF),
        unknown: Padding([0x11, 0x22, 0x33, 0x44, 0x55, 0x66, 0x77, 0x88]),
        preview_image: PreviewImage {
            image_type: ImageType::Argb,
            color_type: ColorType::Png,
            unknown: Padding([0xAA, 0xBB]),
            width: 0x0102,
            height: 0x0304,
            padding: Padding([1, 2, 3, 4, 5, 6, 7, 8]),
        },
        padding: Padding([0xFF, 0, 0xFE, 1, 0xFD, 2, 0xFC, 3, 0xFB, 4, 0xFA, 5]),
    }
}

fn sample_header_bytes() -> Vec<u8> {
    vec![
        0x43, 0x41, 0x46, 0x46, // signature
        1, 2, 3, // archive version
        0xDE, 0xC0, 0xAD, 0x0B, // format identifier
        4, 5, 6, // format version
        0xDE, 0xAD, 0xBE, 0xEF, // key
        0x11, 0x22, 0x33, 0x44, 0x55, 0x66, 0x77, 0x88, // opaque
        1, 1, 0xAA, 0xBB, 0x01, 0x02, 0x03, 0x04, 1, 2, 3, 4, 5, 6, 7, 8, // preview image
        0xFF, 0, 0xFE, 1, 0xFD, 2, 0xFC, 3, 0xFB, 4, 0xFA, 5, // opaque
    ]
}

#[test]
fn magic_default_is_valid() {
    let magic = Magic::default();
    assert!(magic.is_valid());
    assert_eq!(magic.bytes, [0x43, 0x41, 0x46, 0x46]);
    assert_eq!(&magic.bytes, b"CAFF");
}

#[test]
fn magic_validity() {
    assert!(!Magic { bytes: [0x43, 0x41, 0x46, 0x47] }.is_valid());
    assert!(!Magic { bytes: [0x42, 0x41, 0x46, 0x46] }.is_valid());
    assert!(!Magic { bytes: [0; 4] }.is_valid());
    assert!(Magic { bytes: *b"CAFF" }.is_valid());
}

#[test]
fn magic_round_trip() {
    let expected = Magic::default();
    let mut writer = Writer::new();
    assert_eq!(expected.write(&mut writer), Ok(()));
    let mut source = Reader::new(writer.into_bytes());
    assert_eq!(Magic::read(&mut source, Validation::Strict), Ok(expected));
    assert_eq!(source.remaining(), 0);
}

#[test]
fn magic_wrong_signature_is_kept_under_advisory_validation() {
    let mut source = Reader::new(vec![b'Z', b'I', b'P', b'!', 9]);
    let magic = Magic::read(&mut source, Validation::Advisory).unwrap();
    assert!(!magic.is_valid());
    assert_eq!(magic.bytes, *b"ZIP!");
    assert_eq!(source.remaining(), 1);
    let mut writer = Writer::new();
    magic.write(&mut writer).unwrap();
    assert_eq!(writer.into_bytes(), b"ZIP!".to_vec());
}

#[test]
fn magic_wrong_signature_is_refused_under_strict_validation() {
    let mut source = Reader::new(vec![b'Z', b'I', b'P', b'!', 9]);
    assert_eq!(Magic::read(&mut source, Validation::Strict), Err(Error::BadMagic));
    assert_eq!(source.remaining(), 1);
}

#[test]
fn magic_short_source_is_an_io_error() {
    for validation in [Validation::Advisory, Validation::Strict] {
        let mut source = Reader::new(vec![0x43, 0x41, 0x46]);
        assert_eq!(Magic::read(&mut source, validation), Err(Error::Io));
        assert_eq!(source.remaining(), 0);
    }
}

#[test]
fn version_new_and_conversions() {
    let version = Version::new(1, 2, 3);
    assert_eq!(version, Version { major: 1, minor: 2, patch: 3 });
    assert_eq!(Version::from([1, 2, 3]), version);
    let parts: [u8; 3] = version.into();
    assert_eq!(parts, [1, 2, 3]);
}

#[test]
fn version_is_empty() {
    assert!(Version::new(0, 0, 0).is_empty());
    assert!(Version::default().is_empty());
    assert!(!Version::new(1, 0, 0).is_empty());
    assert!(!Version::new(0, 1, 0).is_empty());
    assert!(!Version::new(0, 0, 1).is_empty());
}

#[test]
fn version_round_trip() {
    for expected in [Version::new(0, 0, 0), Version::new(1, 2, 3), Version::new(255, 0, 128)] {
        let mut writer = Writer::new();
        assert_eq!(expected.write(&mut writer), Ok(()));
        let bytes = writer.into_bytes();
        assert_eq!(bytes, vec![expected.major, expected.minor, expected.patch]);
        let mut source = Reader::new(bytes);
        assert_eq!(Version::read(&mut source), Ok(expected));
    }
}

#[test]
fn version_short_source_is_an_io_error() {
    let mut source = Reader::new(vec![1, 2]);
    assert_eq!(Version::read(&mut source), Err(Error::Io));
    assert_eq!(source.remaining(), 0);
}

#[test]
fn image_type_codes() {
    assert_eq!(ImageType::from(0), ImageType::Unknown);
    assert_eq!(ImageType::from(1), ImageType::Argb);
    assert_eq!(ImageType::from(2), ImageType::Rgb);
    assert_eq!(ImageType::from(i8::MAX), ImageType::Absent);
    assert_eq!(ImageType::from(3), ImageType::Unknown);
    assert_eq!(ImageType::from(-1), ImageType::Unknown);
    assert_eq!(ImageType::from(i8::MIN), ImageType::Unknown);
    assert_eq!(i8::from(ImageType::Unknown), 0);
    assert_eq!(i8::from(ImageType::Argb), 1);
    assert_eq!(i8::from(ImageType::Rgb), 2);
    assert_eq!(i8::from(ImageType::Absent), 127);
    assert_eq!(ImageType::default(), ImageType::Unknown);
}

#[test]
fn image_type_every_code_decodes() {
    for code in i8::MIN..=i8::MAX {
        let value = ImageType::from(code);
        if value == ImageType::Unknown {
            assert_eq!(i8::from(value), 0);
        } else {
            assert_eq!(i8::from(value), code);
        }
    }
}

#[test]
fn image_type_round_trip() {
    for expected in [ImageType::Unknown, ImageType::Argb, ImageType::Rgb, ImageType::Absent] {
        let mut writer = Writer::new();
        assert_eq!(expected.write(&mut writer), Ok(()));
        let bytes = writer.into_bytes();
        assert_eq!(bytes, vec![i8::from(expected) as u8]);
        let mut source = Reader::new(bytes);
        assert_eq!(ImageType::read(&mut source), Ok(expected));
    }
}

#[test]
fn image_type_unrecognized_code_is_unknown() {
    for byte in [3u8, 0x40, 0x80, 0xFF] {
        let mut source = Reader::new(vec![byte]);
        assert_eq!(ImageType::read(&mut source), Ok(ImageType::Unknown));
    }
    let mut source = Reader::new(Vec::new());
    assert_eq!(ImageType::read(&mut source), Err(Error::Io));
}

#[test]
fn color_type_codes() {
    assert_eq!(ColorType::from(0), ColorType::Unknown);
    assert_eq!(ColorType::from(1), ColorType::Png);
    assert_eq!(ColorType::from(i8::MAX), ColorType::Absent);
    assert_eq!(ColorType::from(2), ColorType::Unknown);
    assert_eq!(ColorType::from(-127), ColorType::Unknown);
    assert_eq!(i8::from(ColorType::Unknown), 0);
    assert_eq!(i8::from(ColorType::Png), 1);
    assert_eq!(i8::from(ColorType::Absent), 127);
    assert_eq!(ColorType::default(), ColorType::Unknown);
}

#[test]
fn color_type_every_code_decodes() {
    for code in i8::MIN..=i8::MAX {
        let value = ColorType::from(code);
        if value == ColorType::Unknown {
            assert_eq!(i8::from(value), 0);
        } else {
            assert_eq!(i8::from(value), code);
        }
    }
}

#[test]
fn color_type_round_trip() {
    for expected in [ColorType::Unknown, ColorType::Png, ColorType::Absent] {
        let mut writer = Writer::new();
        assert_eq!(expected.write(&mut writer), Ok(()));
        let bytes = writer.into_bytes();
        assert_eq!(bytes, vec![i8::from(expected) as u8]);
        let mut source = Reader::new(bytes);
        assert_eq!(ColorType::read(&mut source), Ok(expected));
    }
}

#[test]
fn color_type_unrecognized_code_is_unknown() {
    for byte in [2u8, 0x7E, 0x80, 0xFF] {
        let mut source = Reader::new(vec![byte]);
        assert_eq!(ColorType::read(&mut source), Ok(ColorType::Unknown));
    }
}

#[test]
fn preview_image_wire_form() {
    let image = sample_header().preview_image;
    let mut writer = Writer::new();
    assert_eq!(image.write(&mut writer), Ok(()));
    assert_eq!(
        writer.into_bytes(),
        vec![1, 1, 0xAA, 0xBB, 0x01, 0x02, 0x03, 0x04, 1, 2, 3, 4, 5, 6, 7, 8]
    );
}

#[test]
fn preview_image_round_trip() {
    let samples = [
        sample_header().preview_image,
        PreviewImage::default(),
        PreviewImage {
            image_type: ImageType::Absent,
            color_type: ColorType::Absent,
            unknown: Padding([0xFF, 0xFF]),
            width: u16::MAX,
            height: 1,
            padding: Padding([0xFF; 8]),
        },
        PreviewImage {
            image_type: ImageType::Rgb,
            color_type: ColorType::Unknown,
            unknown: Padding([0, 1]),
            width: 0x8000,
            height: 0x00FF,
            padding: Padding([0; 8]),
        },
    ];
    for expected in samples {
        let mut writer = Writer::new();
        assert_eq!(expected.write(&mut writer), Ok(()));
        let bytes = writer.into_bytes();
        assert_eq!(bytes.len(), 16);
        let mut source = Reader::new(bytes);
        assert_eq!(PreviewImage::read(&mut source), Ok(expected));
        assert_eq!(source.remaining(), 0);
    }
}

#[test]
fn preview_image_named_codes_survive() {
    let mut bytes = vec![0x7F, 0x7F, 0, 0, 0, 0, 0, 0];
    bytes.extend_from_slice(&[0; 8]);
    let mut source = Reader::new(bytes.clone());
    let image = PreviewImage::read(&mut source).unwrap();
    assert_eq!(image.image_type, ImageType::Absent);
    assert_eq!(image.color_type, ColorType::Absent);
    let mut writer = Writer::new();
    image.write(&mut writer).unwrap();
    assert_eq!(writer.into_bytes(), bytes);
}

#[test]
fn preview_image_is_empty() {
    let empty = PreviewImage {
        image_type: ImageType::Absent,
        color_type: ColorType::Absent,
        unknown: Padding([0; 2]),
        width: 0,
        height: 0,
        padding: Padding([0; 8]),
    };
    assert!(empty.is_empty());
    assert!(!PreviewImage { image_type: ImageType::Unknown, ..empty }.is_empty());
    assert!(!PreviewImage { color_type: ColorType::Png, ..empty }.is_empty());
    assert!(!PreviewImage { unknown: Padding([0, 1]), ..empty }.is_empty());
    assert!(!PreviewImage { width: 1, ..empty }.is_empty());
    assert!(!PreviewImage { height: 1, ..empty }.is_empty());
    assert!(!PreviewImage { padding: Padding([0, 0, 0, 0, 0, 0, 0, 1]), ..empty }.is_empty());
    assert!(!sample_header().preview_image.is_empty());
}

#[test]
fn preview_image_short_source_is_an_io_error() {
    let mut source = Reader::new(vec![0; 15]);
    assert_eq!(PreviewImage::read(&mut source), Err(Error::Io));
    assert_eq!(source.remaining(), 0);
}

#[test]
fn header_wire_form() {
    let mut writer = Writer::new();
    assert_eq!(sample_header().write(&mut writer), Ok(()));
    let bytes = writer.into_bytes();
    assert_eq!(bytes.len(), 54);
    assert_eq!(bytes, sample_header_bytes());
}

#[test]
fn header_is_read_field_by_field() {
    let mut bytes = sample_header_bytes();
    bytes.extend_from_slice(&[0x99, 0x98]);
    let mut source = Reader::new(bytes);
    assert_eq!(Header::read(&mut source, Validation::Strict), Ok(sample_header()));
    assert_eq!(source.remaining(), 2);
}

#[test]
fn header_round_trip_keeps_opaque_bytes() {
    let mut all_ones = sample_header();
    all_ones.unknown = Padding([0xFF; 8]);
    all_ones.padding = Padding([0xFF; 12]);
    all_ones.format_identifier = [0xFF; 4];
    for expected in [sample_header(), Header::default(), all_ones] {
        for validation in [Validation::Advisory, Validation::Strict] {
            let mut writer = Writer::new();
            assert_eq!(expected.write(&mut writer), Ok(()));
            let bytes = writer.into_bytes();
            assert_eq!(bytes.len(), 54);
            let mut source = Reader::new(bytes);
            assert_eq!(Header::read(&mut source, validation), Ok(expected));
            assert_eq!(source.remaining(), 0);
        }
    }
}

#[test]
fn header_size_does_not_depend_on_content() {
    let mut writer = Writer::new();
    Header::default().write(&mut writer).unwrap();
    assert_eq!(writer.into_bytes().len(), 54);
}

#[test]
fn header_default() {
    let header = Header::default();
    assert!(header.archive_magic.is_valid());
    assert!(header.archive_version.is_empty());
    assert!(header.format_version.is_empty());
    assert_eq!(header.key, Key(0));
    assert_eq!(header.format_identifier, [0; 4]);
    assert!(header.unknown.is_empty());
    assert!(header.padding.is_empty());
    assert_eq!(header.preview_image, PreviewImage::default());
}

#[test]
fn header_with_wrong_signature_round_trips_under_advisory_validation() {
    let mut expected = sample_header();
    expected.archive_magic = Magic { bytes: *b"XAFF" };
    let mut writer = Writer::new();
    expected.write(&mut writer).unwrap();
    let bytes = writer.into_bytes();
    let mut source = Reader::new(bytes.clone());
    let actual = Header::read(&mut source, Validation::Advisory).unwrap();
    assert_eq!(actual, expected);
    assert!(!actual.archive_magic.is_valid());
    let mut source = Reader::new(bytes);
    assert_eq!(Header::read(&mut source, Validation::Strict), Err(Error::BadMagic));
    assert_eq!(source.remaining(), 50);
}

#[test]
fn header_short_source_is_an_io_error() {
    let bytes = sample_header_bytes();
    for length in [0usize, 3, 4, 10, 30, 53] {
        let mut source = Reader::new(bytes[..length].to_vec());
        assert_eq!(Header::read(&mut source, Validation::Strict), Err(Error::Io));
        assert_eq!(source.remaining(), 0);
    }
}
