//! The record that describes one file of an archive.

use crate::archive::key::Key;
use crate::error::Error;
use crate::obfuscation::{
    lemma_bool_round_trip, lemma_string_round_trip, lemma_u32_round_trip, lemma_u8_round_trip,
    spec_decode_bool, spec_decode_string, spec_decode_u32, spec_decode_u8, spec_encode_bool,
    spec_encode_string, spec_encode_u32, spec_encode_u8, MAX_PREFIXED_LEN,
};
use crate::padding::Padding;
use crate::stream::{spec_result_view, Decoded, Encoded, Reader, Writer};
use vstd::prelude::*;
use vstd::utf8::{decode_utf8, encode_utf8};

verus! {

/// The record of one file: its name and tag, the size of its content, whether
/// the content is masked, how it is compressed, and three opaque regions.
#[derive(Debug, Clone, PartialEq, Eq, PartialOrd, Ord, Hash)]
pub struct Metadata {
    pub file_name: String,
    pub tag: String,
    pub unknown_1: Padding<4>,
    pub unknown_2: Padding<4>,
    pub file_size: u32,
    pub is_obfuscated: bool,
    pub compression: u8,
    pub padding: Padding<8>,
}

/// A record with its texts as sequences of characters.
pub struct MetadataView {
    pub file_name: Seq<char>,
    pub tag: Seq<char>,
    pub unknown_1: Padding<4>,
    pub unknown_2: Padding<4>,
    pub file_size: u32,
    pub is_obfuscated: bool,
    pub compression: u8,
    pub padding: Padding<8>,
}

impl View for Metadata {
    type V = MetadataView;

    open spec fn view(&self) -> MetadataView {
        MetadataView {
            file_name: self.file_name@,
            tag: self.tag@,
            unknown_1: self.unknown_1,
            unknown_2: self.unknown_2,
            file_size: self.file_size,
            is_obfuscated: self.is_obfuscated,
            compression: self.compression,
            padding: self.padding,
        }
    }
}

impl MetadataView {
    /// The bytes of the fields that follow the two texts: two opaque regions
    /// of four bytes, the masked size, the masked flag, the masked
    /// compression code and an opaque region of eight bytes.
    pub open spec fn spec_encode_fixed(self, key: Key) -> Seq<u8> {
        self.unknown_1.spec_encode() + self.unknown_2.spec_encode() + spec_encode_u32(
            self.file_size,
            key,
        ) + spec_encode_bool(self.is_obfuscated, key) + spec_encode_u8(self.compression, key)
            + self.padding.spec_encode()
    }

    /// The bytes of the record: the name and the tag as length-prefixed
    /// masked texts, then the fixed fields. A text of more than 127 bytes is
    /// refused; what was emitted before it stays. An empty name is written
    /// like any other.
    pub open spec fn spec_encode(self, key: Key) -> Encoded {
        let file_name = spec_encode_string(self.file_name, key);
        let tag = spec_encode_string(self.tag, key);
        if file_name.outcome is Err {
            file_name
        } else if tag.outcome is Err {
            Encoded { outcome: tag.outcome, bytes: file_name.bytes + tag.bytes }
        } else {
            Encoded {
                outcome: Ok(()),
                bytes: file_name.bytes + tag.bytes + self.spec_encode_fixed(key),
            }
        }
    }
}

impl Metadata {
    /// The record that the next bytes hold under `key`. An empty name is an
    /// error, found as soon as the name is decoded: nothing after it is read.
    #[verifier::opaque]
    pub open spec fn spec_decode(bytes: Seq<u8>, key: Key) -> Decoded<MetadataView> {
        let file_name = spec_decode_string(bytes, key);
        let tag = spec_decode_string(file_name.rest, key);
        let unknown_1 = Padding::<4>::spec_decode(tag.rest);
        let unknown_2 = Padding::<4>::spec_decode(unknown_1.rest);
        let file_size = spec_decode_u32(unknown_2.rest, key);
        let is_obfuscated = spec_decode_bool(file_size.rest, key);
        let compression = spec_decode_u8(is_obfuscated.rest, key);
        let padding = Padding::<8>::spec_decode(compression.rest);
        if file_name.value is Err {
            file_name.failed()
        } else if file_name.value->Ok_0.len() == 0 {
            Decoded { value: Err(Error::EmptyFilename), rest: file_name.rest }
        } else if tag.value is Err {
            tag.failed()
        } else if unknown_1.value is Err {
            unknown_1.failed()
        } else if unknown_2.value is Err {
            unknown_2.failed()
        } else if file_size.value is Err {
            file_size.failed()
        } else if is_obfuscated.value is Err {
            is_obfuscated.failed()
        } else if compression.value is Err {
            compression.failed()
        } else if padding.value is Err {
            padding.failed()
        } else {
            Decoded {
                value: Ok(
                    MetadataView {
                        file_name: file_name.value->Ok_0,
                        tag: tag.value->Ok_0,
                        unknown_1: unknown_1.value->Ok_0,
                        unknown_2: unknown_2.value->Ok_0,
                        file_size: file_size.value->Ok_0,
                        is_obfuscated: is_obfuscated.value->Ok_0,
                        compression: compression.value->Ok_0,
                        padding: padding.value->Ok_0,
                    },
                ),
                rest: padding.rest,
            }
        }
    }

    /// Reads one record under `key`.
    pub fn read(reader: &mut Reader, key: Key) -> (result: Result<Metadata, Error>)
        ensures
            spec_result_view(result) == Metadata::spec_decode(old(reader)@, key).value,
            final(reader)@ == Metadata::spec_decode(old(reader)@, key).rest,
    {
        reveal(Metadata::spec_decode);
        let file_name = reader.read_encrypted_string(key)?;
        if file_name.as_str().is_empty() {
            return Err(Error::EmptyFilename);
        }
        let tag = reader.read_encrypted_string(key)?;
        let unknown_1 = Padding::<4>::read(reader)?;
        let unknown_2 = Padding::<4>::read(reader)?;
        let file_size = reader.read_encrypted_u32(key)?;
        let is_obfuscated = reader.read_encrypted_bool(key)?;
        let compression = reader.read_encrypted_u8(key)?;
        let padding = Padding::<8>::read(reader)?;
        Ok(
            Metadata {
                file_name,
                tag,
                unknown_1,
                unknown_2,
                file_size,
                is_obfuscated,
                compression,
                padding,
            },
        )
    }

    /// Writes the record under `key`. Nothing about the record is checked
    /// but the lengths of its two texts.
    pub fn write(&self, writer: &mut Writer, key: Key) -> (result: Result<(), Error>)
        ensures
            result == self@.spec_encode(key).outcome,
            final(writer)@ == old(writer)@ + self@.spec_encode(key).bytes,
    {
        match writer.write_encrypted_string(self.file_name.as_str(), key) {
            Ok(_) => {},
            Err(error) => {
                return Err(error);
            },
        }
        match writer.write_encrypted_string(self.tag.as_str(), key) {
            Ok(_) => {},
            Err(error) => {
                assert(writer@ =~= old(writer)@ + self@.spec_encode(key).bytes);
                return Err(error);
            },
        }
        self.unknown_1.write(writer)?;
        self.unknown_2.write(writer)?;
        writer.write_encrypted_u32(self.file_size, key);
        writer.write_encrypted_bool(self.is_obfuscated, key);
        writer.write_encrypted_u8(self.compression, key);
        self.padding.write(writer)?;
        assert(writer@ =~= old(writer)@ + self@.spec_encode(key).bytes);
        Ok(())
    }

    /// A record with a name that is not empty and with texts of at most 127
    /// bytes each is written, and read back with the same key it is the same
    /// record, with what followed it left unread.
    pub proof fn lemma_round_trip(record: MetadataView, key: Key, tail: Seq<u8>)
        requires
            record.file_name.len() > 0,
            encode_utf8(record.file_name).len() <= MAX_PREFIXED_LEN,
            encode_utf8(record.tag).len() <= MAX_PREFIXED_LEN,
        ensures
            record.spec_encode(key).outcome == Ok::<(), Error>(()),
            Metadata::spec_decode(record.spec_encode(key).bytes + tail, key).value == Ok::<
                MetadataView,
                Error,
            >(record),
            Metadata::spec_decode(record.spec_encode(key).bytes + tail, key).rest == tail,
    {
        let name_bytes = spec_encode_string(record.file_name, key).bytes;
        let tag_bytes = spec_encode_string(record.tag, key).bytes;
        let fixed = record.spec_encode_fixed(key) + tail;
        let written = record.spec_encode(key).bytes + tail;
        lemma_string_round_trip(record.file_name, key, tag_bytes + fixed);
        lemma_string_round_trip(record.tag, key, fixed);
        assert(written == name_bytes + (tag_bytes + fixed)) by {
            assert(name_bytes + tag_bytes + record.spec_encode_fixed(key) + tail =~= name_bytes
                + (tag_bytes + fixed));
        }
        lemma_fixed_round_trip(record, key, tail);
        reveal(Metadata::spec_decode);
    }

    /// Where the first text of a record decodes to the empty string, the
    /// decode fails for the empty name and consumes the length byte of that
    /// text and nothing more.
    pub proof fn lemma_empty_file_name_is_refused(bytes: Seq<u8>, key: Key)
        requires
            spec_decode_string(bytes, key).value == Ok::<Seq<char>, Error>(Seq::empty()),
        ensures
            Metadata::spec_decode(bytes, key).value == Err::<MetadataView, Error>(
                Error::EmptyFilename,
            ),
            Metadata::spec_decode(bytes, key).rest == bytes.skip(1),
    {
        reveal(Metadata::spec_decode);
        let run = crate::obfuscation::spec_decode_bytes(bytes, key);
        let plain = run.value->Ok_0;
        assert(decode_utf8(plain).len() == 0);
        assert(plain.len() == 0);
        assert(bytes.skip(1).skip(0) =~= bytes.skip(1));
    }
}

/// The fields that follow the two texts, written and read back with the same
/// key, come out as they were, with what followed them left unread.
proof fn lemma_fixed_round_trip(record: MetadataView, key: Key, tail: Seq<u8>)
    ensures
        ({
            let unknown_1 = Padding::<4>::spec_decode(record.spec_encode_fixed(key) + tail);
            let unknown_2 = Padding::<4>::spec_decode(unknown_1.rest);
            let file_size = spec_decode_u32(unknown_2.rest, key);
            let is_obfuscated = spec_decode_bool(file_size.rest, key);
            let compression = spec_decode_u8(is_obfuscated.rest, key);
            let padding = Padding::<8>::spec_decode(compression.rest);
            &&& unknown_1.value == Ok::<Padding<4>, Error>(record.unknown_1)
            &&& unknown_2.value == Ok::<Padding<4>, Error>(record.unknown_2)
            &&& file_size.value == Ok::<u32, Error>(record.file_size)
            &&& is_obfuscated.value == Ok::<bool, Error>(record.is_obfuscated)
            &&& compression.value == Ok::<u8, Error>(record.compression)
            &&& padding.value == Ok::<Padding<8>, Error>(record.padding)
            &&& padding.rest == tail
        }),
{
    let t5 = record.padding.spec_encode() + tail;
    let t4 = spec_encode_u8(record.compression, key) + t5;
    let t3 = spec_encode_bool(record.is_obfuscated, key) + t4;
    let t2 = spec_encode_u32(record.file_size, key) + t3;
    let t1 = record.unknown_2.spec_encode() + t2;
    let written = record.spec_encode_fixed(key) + tail;
    assert(written == record.unknown_1.spec_encode() + t1) by {
        lemma_regroup(
            record.unknown_1.spec_encode(),
            record.unknown_2.spec_encode(),
            spec_encode_u32(record.file_size, key),
            spec_encode_bool(record.is_obfuscated, key),
            spec_encode_u8(record.compression, key),
            record.padding.spec_encode(),
            tail,
        );
    }
    let unknown_1 = Padding::<4>::spec_decode(written);
    assert(unknown_1.value == Ok::<Padding<4>, Error>(record.unknown_1) && unknown_1.rest == t1)
        by {
        record.unknown_1.lemma_round_trip(t1);
    }
    let unknown_2 = Padding::<4>::spec_decode(t1);
    assert(unknown_2.value == Ok::<Padding<4>, Error>(record.unknown_2) && unknown_2.rest == t2)
        by {
        record.unknown_2.lemma_round_trip(t2);
    }
    let file_size = spec_decode_u32(t2, key);
    assert(file_size.value == Ok::<u32, Error>(record.file_size) && file_size.rest == t3) by {
        lemma_u32_round_trip(record.file_size, key, t3);
    }
    let is_obfuscated = spec_decode_bool(t3, key);
    assert(is_obfuscated.value == Ok::<bool, Error>(record.is_obfuscated) && is_obfuscated.rest
        == t4) by {
        lemma_bool_round_trip(record.is_obfuscated, key, t4);
    }
    let compression = spec_decode_u8(t4, key);
    assert(compression.value == Ok::<u8, Error>(record.compression) && compression.rest == t5)
        by {
        lemma_u8_round_trip(record.compression, key, t5);
    }
    let padding = Padding::<8>::spec_decode(t5);
    assert(padding.value == Ok::<Padding<8>, Error>(record.padding) && padding.rest == tail) by {
        record.padding.lemma_round_trip(tail);
    }
}

/// Six fields written one after the other and then a tail are the first
/// field followed by all the rest.
proof fn lemma_regroup(
    a: Seq<u8>,
    b: Seq<u8>,
    c: Seq<u8>,
    d: Seq<u8>,
    e: Seq<u8>,
    f: Seq<u8>,
    tail: Seq<u8>,
)
    ensures
        (a + b + c + d + e + f) + tail == a + (b + (c + (d + (e + (f + tail))))),
{
    assert((a + b + c + d + e + f) + tail =~= a + (b + (c + (d + (e + (f + tail))))));
}

} // verus!
