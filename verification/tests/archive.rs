use caff_archive::{
    Archive, Body, Entry, Error, Header, Key, Metadata, Padding, Reader, Validation, Writer,
};

fn record(name: &str, size: u32, is_obfuscated: bool) -> Metadata {
    Metadata {
        file_name: name.to_string(),
        tag: "tag".to_string(),
        unknown_1: Padding([0xA1, 0xA2, 0xA3, 0xA4]),
        unknown_2: Padding([0xFF, 0xFF, 0xFF, 0xFF]),
        file_size: size,
        is_obfuscated,
        compression: 7,
        padding: Padding([8, 7, 6, 5, 4, 3, 2, 1]),
    }
}

fn encode_record(record: &Metadata, key: Key) -> Vec<u8> {
    let mut writer = Writer::new();
    record.write(&mut writer, key).unwrap();
    writer.into_bytes()
}

fn encode_archive(archive: &Archive) -> Vec<u8> {
    assert!(archive.body.is_consistent());
    let mut writer = Writer::new();
    archive.write(&mut writer).unwrap();
    writer.into_bytes()
}

fn header_with_key(key: u32) -> Header {
    Header { key: Key(key), ..Header::default() }
}

#[test]
fn metadata_wire_form_with_zero_key() {
    let bytes = encode_record(&record("a.txt", 0x01020304, true), Key(0));
    assert_eq!(
        bytes,
        vec![
            5, b'a', b'.', b't', b'x', b't', // name
            3, b't', b'a', b'g', // tag
            0xA1, 0xA2, 0xA3, 0xA4, // opaque
            0xFF, 0xFF, 0xFF, 0xFF, // opaque
            0x01, 0x02, 0x03, 0x04, // size
            1, // masked flag
            7, // compression
            8, 7, 6, 5, 4, 3, 2, 1, // opaque
        ]
    );
}

#[test]
fn metadata_wire_form_masks_fields_but_not_opaque_regions() {
    let bytes = encode_record(&record("a", 3, false), Key(0xDEADBEEF));
    assert_eq!(
        bytes,
        vec![
            0x01 ^ 0xEF, b'a' ^ 0xEF, // name
            0x03 ^ 0xEF, b't' ^ 0xEF, b'a' ^ 0xEF, b'g' ^ 0xEF, // tag
            0xA1, 0xA2, 0xA3, 0xA4, // opaque
            0xFF, 0xFF, 0xFF, 0xFF, // opaque
            0xDE, 0xAD, 0xBE, 0xEF ^ 0x03, // size
            0xEF, // masked flag
            0x07 ^ 0xEF, // compression
            8, 7, 6, 5, 4, 3, 2, 1, // opaque
        ]
    );
}

#[test]
fn metadata_round_trip() {
    let samples = [
        record("a.txt", 3, true),
        record("b", 0, false),
        record("\u{65e5}\u{672c}\u{8a9e}.bin", u32::MAX, true),
        Metadata { tag: String::new(), ..record("no tag", 1, false) },
        Metadata { file_name: "n".repeat(127), tag: "t".repeat(127), ..record("", 9, true) },
    ];
    for key in [Key(0), Key(0xDEADBEEF), Key(u32::MAX)] {
        for expected in &samples {
            let mut bytes = encode_record(expected, key);
            bytes.push(0x5A);
            let mut source = Reader::new(bytes);
            assert_eq!(Metadata::read(&mut source, key).as_ref(), Ok(expected));
            assert_eq!(source.remaining(), 1);
        }
    }
}

#[test]
fn metadata_empty_file_name_is_refused_on_read() {
    let key = Key(0xDEADBEEF);
    let bytes = encode_record(&record("", 3, true), key);
    let total = bytes.len();
    let mut source = Reader::new(bytes);
    assert_eq!(Metadata::read(&mut source, key), Err(Error::EmptyFilename));
    assert_eq!(source.remaining(), total - 1);
}

#[test]
fn metadata_empty_file_name_is_written_unchecked() {
    let bytes = encode_record(&record("", 3, true), Key(0));
    assert_eq!(bytes[0], 0);
    assert_eq!(bytes.len(), 1 + 4 + 22);
}

#[test]
fn metadata_long_name_is_refused_and_nothing_is_written() {
    let long = Metadata { file_name: "n".repeat(128), ..record("", 0, false) };
    let mut writer = Writer::new();
    assert_eq!(
        long.write(&mut writer, Key(1)),
        Err(Error::VarIntSupportNotImplemented)
    );
    assert_eq!(writer.into_bytes(), Vec::<u8>::new());
}

#[test]
fn metadata_long_tag_is_refused_after_the_name_is_written() {
    let long = Metadata { tag: "t".repeat(128), ..record("ab", 0, false) };
    let mut writer = Writer::new();
    assert_eq!(
        long.write(&mut writer, Key(0)),
        Err(Error::VarIntSupportNotImplemented)
    );
    assert_eq!(writer.into_bytes(), vec![2, b'a', b'b']);
}

#[test]
fn metadata_errors_on_read() {
    let key = Key(0);
    let mut source = Reader::new(vec![0x80, 1, 2]);
    assert_eq!(
        Metadata::read(&mut source, key),
        Err(Error::VarIntSupportNotImplemented)
    );
    assert_eq!(source.remaining(), 2);
    let mut source = Reader::new(vec![1, 0xFF, 0]);
    assert_eq!(Metadata::read(&mut source, key), Err(Error::Utf8));
    assert_eq!(source.remaining(), 1);
    let mut source = Reader::new(vec![1, b'a', 0x81]);
    assert_eq!(
        Metadata::read(&mut source, key),
        Err(Error::VarIntSupportNotImplemented)
    );
    let mut bytes = encode_record(&record("a.txt", 3, true), key);
    bytes.pop();
    let mut source = Reader::new(bytes);
    assert_eq!(Metadata::read(&mut source, key), Err(Error::Io));
    assert_eq!(source.remaining(), 0);
}

#[test]
fn entry_new() {
    let entry = Entry::new(record("a.txt", 3, true), vec![1, 2, 3]);
    assert_eq!(entry.metadata, record("a.txt", 3, true));
    assert_eq!(entry.content, vec![1, 2, 3]);
}

#[test]
fn body_consistency() {
    let consistent = Body {
        metadata: vec![record("a", 2, true), record("b", 0, false)],
        data: vec![vec![1, 2], vec![]],
        trailing: vec![9],
    };
    assert!(consistent.is_consistent());
    let missing = Body { data: vec![vec![1, 2]], ..consistent.clone() };
    assert!(!missing.is_consistent());
    let wrong_size = Body { data: vec![vec![1, 2], vec![3]], ..consistent.clone() };
    assert!(!wrong_size.is_consistent());
    let empty = Body { metadata: vec![], data: vec![], trailing: vec![] };
    assert!(empty.is_consistent());
}

#[test]
fn body_that_is_not_consistent_is_refused_and_nothing_is_written() {
    let samples = [
        Body { metadata: vec![record("a", 2, true)], data: vec![], trailing: vec![9] },
        Body { metadata: vec![], data: vec![vec![1]], trailing: vec![] },
        Body { metadata: vec![record("a", 2, true)], data: vec![vec![1]], trailing: vec![] },
        Body { metadata: vec![record("a", 2, false)], data: vec![vec![1, 2, 3]], trailing: vec![] },
        Body {
            metadata: vec![record("a", 1, true), record("b", 0, true)],
            data: vec![vec![1], vec![0]],
            trailing: vec![],
        },
    ];
    for body in samples {
        assert!(!body.is_consistent());
        let mut writer = Writer::new();
        writer.write_u8(0x42);
        assert_eq!(body.write(&mut writer, Key(7)), Err(Error::TryFromInt));
        assert_eq!(writer.into_bytes(), vec![0x42]);
    }
}

#[test]
fn archive_with_a_body_that_is_not_consistent_is_refused_after_the_header() {
    let archive = Archive {
        header: header_with_key(1),
        body: Body { metadata: vec![record("a", 2, false)], data: vec![vec![1]], trailing: vec![] },
    };
    let mut writer = Writer::new();
    assert_eq!(archive.write(&mut writer), Err(Error::TryFromInt));
    let mut header = Writer::new();
    archive.header.write(&mut header).unwrap();
    assert_eq!(writer.into_bytes(), header.into_bytes());
}

#[test]
fn body_wire_form() {
    let key = Key(0xDEADBEEF);
    let first = record("a", 3, true);
    let second = record("b", 2, false);
    let body = Body {
        metadata: vec![first.clone(), second.clone()],
        data: vec![vec![0x10, 0x20, 0x30], vec![0x40, 0x50]],
        trailing: vec![0xEE, 0xDD],
    };
    assert!(body.is_consistent());
    let mut writer = Writer::new();
    assert_eq!(body.write(&mut writer, key), Ok(()));
    let mut expected = vec![0xDE, 0xAD, 0xBE, 0xEF ^ 0x02];
    expected.extend(encode_record(&first, key));
    expected.extend(encode_record(&second, key));
    expected.extend([0x10 ^ 0xEF, 0x20 ^ 0xEF, 0x30 ^ 0xEF]);
    expected.extend([0x40, 0x50]);
    expected.extend([0xEE, 0xDD]);
    assert_eq!(writer.into_bytes(), expected);
}

#[test]
fn body_round_trip() {
    for key in [Key(0), Key(0xDEADBEEF)] {
        let expected = Body {
            metadata: vec![record("a", 3, true), record("b", 0, true), record("c", 2, false)],
            data: vec![vec![0x10, 0x20, 0x30], vec![], vec![0xEF, 0x00]],
            trailing: vec![0xEE, 0xDD, 0xCC],
        };
        assert!(expected.is_consistent());
        let mut writer = Writer::new();
        assert_eq!(expected.write(&mut writer, key), Ok(()));
        let mut source = Reader::new(writer.into_bytes());
        let actual = Body::read(&mut source, key).unwrap();
        assert_eq!(actual, expected);
        assert!(actual.is_consistent());
        assert_eq!(source.remaining(), 0);
    }
}

#[test]
fn body_without_entries() {
    let key = Key(0xDEADBEEF);
    let expected = Body { metadata: vec![], data: vec![], trailing: vec![] };
    let mut writer = Writer::new();
    assert_eq!(expected.write(&mut writer, key), Ok(()));
    let bytes = writer.into_bytes();
    assert_eq!(bytes, vec![0xDE, 0xAD, 0xBE, 0xEF]);
    let mut source = Reader::new(bytes);
    assert_eq!(Body::read(&mut source, key), Ok(expected));
}

#[test]
fn body_refused_record_ends_the_encode() {
    let key = Key(0);
    let good = record("a", 0, false);
    let bad = Metadata { file_name: "n".repeat(200), ..record("", 0, false) };
    let body = Body {
        metadata: vec![good.clone(), bad, good.clone()],
        data: vec![vec![], vec![], vec![]],
        trailing: vec![1],
    };
    assert!(body.is_consistent());
    let mut writer = Writer::new();
    assert_eq!(
        body.write(&mut writer, key),
        Err(Error::VarIntSupportNotImplemented)
    );
    let mut expected = vec![0, 0, 0, 3];
    expected.extend(encode_record(&good, key));
    assert_eq!(writer.into_bytes(), expected);
}

#[test]
fn body_errors_on_read() {
    let key = Key(0);
    let mut source = Reader::new(vec![0, 0, 1]);
    assert_eq!(Body::read(&mut source, key), Err(Error::Io));
    let mut source = Reader::new(vec![0xFF, 0xFF, 0xFF, 0xFF]);
    assert_eq!(Body::read(&mut source, key), Err(Error::Io));
    let mut bytes = vec![0, 0, 0, 1];
    bytes.extend(encode_record(&record("", 0, false), key));
    let mut source = Reader::new(bytes);
    assert_eq!(Body::read(&mut source, key), Err(Error::EmptyFilename));
    let mut bytes = vec![0, 0, 0, 1];
    bytes.extend(encode_record(&record("a", 4, false), key));
    bytes.extend([1, 2, 3]);
    let mut source = Reader::new(bytes);
    assert_eq!(Body::read(&mut source, key), Err(Error::Io));
    assert_eq!(source.remaining(), 0);
    let mut bytes = vec![0, 0, 0, 1];
    bytes.extend(encode_record(&record("a", u32::MAX, true), key));
    bytes.extend([1, 2, 3]);
    let mut source = Reader::new(bytes);
    assert_eq!(Body::read(&mut source, key), Err(Error::Io));
}

#[test]
fn archive_with_zero_key_and_no_entries() {
    let archive = Archive {
        header: header_with_key(0),
        body: Body { metadata: vec![], data: vec![], trailing: vec![0x01, 0x02, 0x03] },
    };
    let bytes = encode_archive(&archive);
    let mut header = Writer::new();
    archive.header.write(&mut header).unwrap();
    let mut expected = header.into_bytes();
    assert_eq!(expected.len(), 54);
    expected.extend([0, 0, 0, 0]);
    expected.extend([0x01, 0x02, 0x03]);
    assert_eq!(bytes, expected);
    let mut source = Reader::new(bytes.clone());
    let decoded = Archive::read(&mut source, Validation::Strict).unwrap();
    assert_eq!(decoded, archive);
    assert_eq!(encode_archive(&decoded), bytes);
}

#[test]
fn archive_with_one_masked_entry() {
    let metadata = Metadata {
        file_name: "a.txt".to_string(),
        tag: String::new(),
        unknown_1: Padding([0; 4]),
        unknown_2: Padding([0; 4]),
        file_size: 3,
        is_obfuscated: true,
        compression: 0,
        padding: Padding([0; 8]),
    };
    let archive = Archive {
        header: header_with_key(0xDEADBEEF),
        body: Body { metadata: vec![metadata.clone()], data: vec![vec![0x10, 0x20, 0x30]], trailing: vec![] },
    };
    let bytes = encode_archive(&archive);
    let record_len = encode_record(&metadata, Key(0xDEADBEEF)).len();
    let payload_at = 54 + 4 + record_len;
    assert_eq!(bytes.len(), payload_at + 3);
    assert_eq!(&bytes[payload_at..], &[0x10 ^ 0xEF, 0x20 ^ 0xEF, 0x30 ^ 0xEF]);
    assert_eq!(&bytes[payload_at..], &[0xFF, 0xCF, 0xDF]);
    let mut source = Reader::new(bytes);
    let decoded = Archive::read(&mut source, Validation::Strict).unwrap();
    assert_eq!(decoded.body.data, vec![vec![0x10, 0x20, 0x30]]);
    assert_eq!(decoded, archive);
}

#[test]
fn archive_plain_payload_is_verbatim_for_every_key() {
    let payload = vec![0x00, 0xEF, 0x10, 0xFF];
    for key in [0u32, 1, 0xDEADBEEF, u32::MAX] {
        let metadata = record("plain.bin", 4, false);
        let archive = Archive {
            header: header_with_key(key),
            body: Body {
                metadata: vec![record("masked", 2, true), metadata.clone()],
                data: vec![vec![1, 2], payload.clone()],
                trailing: vec![0x77],
            },
        };
        let bytes = encode_archive(&archive);
        let payload_at = bytes.len() - 1 - payload.len();
        assert_eq!(&bytes[payload_at..payload_at + 4], payload.as_slice());
        let mask = (key & 0xFF) as u8;
        assert_eq!(&bytes[payload_at - 2..payload_at], &[1 ^ mask, 2 ^ mask]);
        let mut source = Reader::new(bytes);
        assert_eq!(Archive::read(&mut source, Validation::Strict), Ok(archive));
    }
}

#[test]
fn archive_round_trip_keeps_unknown_bytes() {
    let mut header = header_with_key(0x0BADF00D);
    header.unknown = Padding([1, 2, 3, 4, 5, 6, 7, 8]);
    header.padding = Padding([0xFF; 12]);
    header.format_identifier = [9, 8, 7, 6];
    let archive = Archive {
        header,
        body: Body {
            metadata: vec![record("x", 1, true), record("y", 3, false)],
            data: vec![vec![0xAB], vec![1, 2, 3]],
            trailing: vec![0, 0xFF, 0x80, 0x7F],
        },
    };
    let bytes = encode_archive(&archive);
    let mut source = Reader::new(bytes.clone());
    let decoded = Archive::read(&mut source, Validation::Advisory).unwrap();
    assert_eq!(decoded, archive);
    assert_eq!(source.remaining(), 0);
    assert_eq!(encode_archive(&decoded), bytes);
}

#[test]
fn archive_uses_the_key_of_its_header() {
    let body = Body { metadata: vec![record("a", 1, true)], data: vec![vec![0x10]], trailing: vec![] };
    let first = encode_archive(&Archive { header: header_with_key(0x000000EF), body: body.clone() });
    let second = encode_archive(&Archive { header: header_with_key(0x00000001), body });
    assert_eq!(first[first.len() - 1], 0x10 ^ 0xEF);
    assert_eq!(second[second.len() - 1], 0x10 ^ 0x01);
}

#[test]
fn archive_with_wrong_signature() {
    let mut archive = Archive {
        header: header_with_key(5),
        body: Body { metadata: vec![], data: vec![], trailing: vec![1] },
    };
    archive.header.archive_magic.bytes = *b"NOPE";
    let bytes = encode_archive(&archive);
    let mut source = Reader::new(bytes.clone());
    assert_eq!(Archive::read(&mut source, Validation::Strict), Err(Error::BadMagic));
    let mut source = Reader::new(bytes);
    assert_eq!(Archive::read(&mut source, Validation::Advisory), Ok(archive));
}

#[test]
fn archive_cut_short_is_an_io_error() {
    let archive = Archive {
        header: header_with_key(0xDEADBEEF),
        body: Body { metadata: vec![record("a", 3, true)], data: vec![vec![1, 2, 3]], trailing: vec![] },
    };
    let bytes = encode_archive(&archive);
    for length in [0, 10, 53, 54, 57, 60, bytes.len() - 1] {
        let mut source = Reader::new(bytes[..length].to_vec());
        assert_eq!(Archive::read(&mut source, Validation::Strict), Err(Error::Io));
    }
}
