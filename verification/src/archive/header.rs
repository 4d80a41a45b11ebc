//! The fixed block of fifty-four bytes that opens an archive.

pub mod magic;
pub mod preview_image;
pub mod version;

pub use magic::{Magic, Validation};
pub use preview_image::{ColorType, ImageType, PreviewImage};
pub use version::Version;

use crate::archive::key::Key;
use crate::error::Error;
use crate::padding::Padding;
use crate::stream::{lemma_spec_array_of_view, spec_take_array, Decoded, Reader, Writer};
use vstd::prelude::*;

verus! {

/// The header of an archive. Nothing in it is masked: it carries the key
/// that masks what follows.
#[derive(Debug, Clone, Copy, PartialEq, Eq, PartialOrd, Ord, Hash)]
pub struct Header {
    pub archive_magic: Magic,
    pub archive_version: Version,
    pub format_identifier: [u8; 4],
    pub format_version: Version,
    pub key: Key,
    pub unknown: Padding<8>,
    pub preview_image: PreviewImage,
    pub padding: Padding<12>,
}

impl Header {
    /// The header that the next fifty-four bytes hold: signature, archive
    /// version, four opaque identifier bytes, format version, key, eight
    /// opaque bytes, the preview descriptor and twelve opaque bytes. The
    /// first field that fails ends the decode with its error.
    pub open spec fn spec_decode(bytes: Seq<u8>, validation: Validation) -> Decoded<Header> {
        let archive_magic = Magic::spec_decode(bytes, validation);
        let archive_version = Version::spec_decode(archive_magic.rest);
        let format_identifier = spec_take_array::<4>(archive_version.rest);
        let format_version = Version::spec_decode(format_identifier.rest);
        let key = Key::spec_decode(format_version.rest);
        let unknown = Padding::<8>::spec_decode(key.rest);
        let preview_image = PreviewImage::spec_decode(unknown.rest);
        let padding = Padding::<12>::spec_decode(preview_image.rest);
        if archive_magic.value is Err {
            archive_magic.failed()
        } else if archive_version.value is Err {
            archive_version.failed()
        } else if format_identifier.value is Err {
            format_identifier.failed()
        } else if format_version.value is Err {
            format_version.failed()
        } else if key.value is Err {
            key.failed()
        } else if unknown.value is Err {
            unknown.failed()
        } else if preview_image.value is Err {
            preview_image.failed()
        } else if padding.value is Err {
            padding.failed()
        } else {
            Decoded {
                value: Ok(
                    Header {
                        archive_magic: archive_magic.value->Ok_0,
                        archive_version: archive_version.value->Ok_0,
                        format_identifier: format_identifier.value->Ok_0,
                        format_version: format_version.value->Ok_0,
                        key: key.value->Ok_0,
                        unknown: unknown.value->Ok_0,
                        preview_image: preview_image.value->Ok_0,
                        padding: padding.value->Ok_0,
                    },
                ),
                rest: padding.rest,
            }
        }
    }

    /// The fifty-four bytes of the header, field after field.
    pub open spec fn spec_encode(&self) -> Seq<u8> {
        self.archive_magic.spec_encode() + self.archive_version.spec_encode()
            + self.format_identifier@ + self.format_version.spec_encode() + self.key.spec_encode()
            + self.unknown.spec_encode() + self.preview_image.spec_encode()
            + self.padding.spec_encode()
    }

    /// Reads the header. Under strict validation a wrong signature ends the
    /// decode once its four bytes are read.
    pub fn read(reader: &mut Reader, validation: Validation) -> (result: Result<Header, Error>)
        ensures
            result == Header::spec_decode(old(reader)@, validation).value,
            final(reader)@ == Header::spec_decode(old(reader)@, validation).rest,
    {
        let archive_magic = Magic::read(reader, validation)?;
        let archive_version = Version::read(reader)?;
        let format_identifier = reader.read_array::<4>()?;
        let format_version = Version::read(reader)?;
        let key = Key::read(reader)?;
        let unknown = Padding::<8>::read(reader)?;
        let preview_image = PreviewImage::read(reader)?;
        let padding = Padding::<12>::read(reader)?;
        Ok(
            Header {
                archive_magic,
                archive_version,
                format_identifier,
                format_version,
                key,
                unknown,
                preview_image,
                padding,
            },
        )
    }

    /// Writes the fifty-four bytes of the header.
    pub fn write(&self, writer: &mut Writer) -> (result: Result<(), Error>)
        ensures
            result == Ok::<(), Error>(()),
            final(writer)@ == old(writer)@ + self.spec_encode(),
    {
        self.archive_magic.write(writer)?;
        self.archive_version.write(writer)?;
        writer.write_all(&self.format_identifier);
        self.format_version.write(writer)?;
        self.key.write(writer)?;
        self.unknown.write(writer)?;
        self.preview_image.write(writer)?;
        self.padding.write(writer)?;
        assert(writer@ =~= old(writer)@ + self.spec_encode());
        Ok(())
    }

    /// A header is always written as fifty-four bytes.
    pub proof fn lemma_encoded_len(self)
        ensures
            self.spec_encode().len() == 54,
    {
        self.preview_image.lemma_round_trip(Seq::empty());
    }

    /// Reading back a written header gives the header, whatever its opaque
    /// bytes are and whatever follows it. The one exception is a wrong
    /// signature under strict validation, which ends the decode after the
    /// four signature bytes.
    pub proof fn lemma_round_trip(self, validation: Validation, tail: Seq<u8>)
        ensures
            validation == Validation::Strict && !self.archive_magic.spec_is_valid() ==> {
                &&& Header::spec_decode(self.spec_encode() + tail, validation).value == Err::<
                    Header,
                    Error,
                >(Error::BadMagic)
                &&& Header::spec_decode(self.spec_encode() + tail, validation).rest
                    == self.spec_encode().skip(4) + tail
            },
            validation == Validation::Advisory || self.archive_magic.spec_is_valid() ==> {
                &&& Header::spec_decode(self.spec_encode() + tail, validation).value == Ok::<
                    Header,
                    Error,
                >(self)
                &&& Header::spec_decode(self.spec_encode() + tail, validation).rest == tail
            },
    {
        let t7 = self.padding.spec_encode() + tail;
        let t6 = self.preview_image.spec_encode() + t7;
        let t5 = self.unknown.spec_encode() + t6;
        let t4 = self.key.spec_encode() + t5;
        let t3 = self.format_version.spec_encode() + t4;
        let t2 = self.format_identifier@ + t3;
        let t1 = self.archive_version.spec_encode() + t2;
        let written = self.spec_encode() + tail;
        assert(self.archive_magic.spec_encode().len() == 4) by {
            self.archive_magic.lemma_round_trip(validation, t1);
        }
        lemma_regroup(
            self.archive_magic.spec_encode(),
            self.archive_version.spec_encode(),
            self.format_identifier@,
            self.format_version.spec_encode(),
            self.key.spec_encode(),
            self.unknown.spec_encode(),
            self.preview_image.spec_encode(),
            self.padding.spec_encode(),
            tail,
        );
        let archive_magic = Magic::spec_decode(written, validation);
        assert(archive_magic.rest == t1) by {
            self.archive_magic.lemma_round_trip(validation, t1);
        }
        if validation == Validation::Strict && !self.archive_magic.spec_is_valid() {
            assert(archive_magic.value == Err::<Magic, Error>(Error::BadMagic)) by {
                self.archive_magic.lemma_round_trip(validation, t1);
            }
        } else {
            assert(archive_magic.value == Ok::<Magic, Error>(self.archive_magic)) by {
                self.archive_magic.lemma_round_trip(validation, t1);
            }
            let archive_version = Version::spec_decode(t1);
            assert(archive_version.value == Ok::<Version, Error>(self.archive_version)
                && archive_version.rest == t2) by {
                self.archive_version.lemma_round_trip(t2);
            }
            let format_identifier = spec_take_array::<4>(t2);
            assert(format_identifier.value == Ok::<[u8; 4], Error>(self.format_identifier)
                && format_identifier.rest == t3) by {
                assert(t2.take(4) =~= self.format_identifier@);
                assert(t2.skip(4) =~= t3);
                lemma_spec_array_of_view::<4>(self.format_identifier);
            }
            let format_version = Version::spec_decode(t3);
            assert(format_version.value == Ok::<Version, Error>(self.format_version)
                && format_version.rest == t4) by {
                self.format_version.lemma_round_trip(t4);
            }
            let key = Key::spec_decode(t4);
            assert(key.value == Ok::<Key, Error>(self.key) && key.rest == t5) by {
                self.key.lemma_round_trip(t5);
            }
            let unknown = Padding::<8>::spec_decode(t5);
            assert(unknown.value == Ok::<Padding<8>, Error>(self.unknown) && unknown.rest == t6)
                by {
                self.unknown.lemma_round_trip(t6);
            }
            let preview_image = PreviewImage::spec_decode(t6);
            assert(preview_image.value == Ok::<PreviewImage, Error>(self.preview_image)
                && preview_image.rest == t7) by {
                self.preview_image.lemma_round_trip(t7);
            }
            let padding = Padding::<12>::spec_decode(t7);
            assert(padding.value == Ok::<Padding<12>, Error>(self.padding) && padding.rest == tail)
                by {
                self.padding.lemma_round_trip(tail);
            }
        }
    }
}

/// Eight fields written one after the other and then a tail are the first
/// field followed by all the rest.
proof fn lemma_regroup(
    a: Seq<u8>,
    b: Seq<u8>,
    c: Seq<u8>,
    d: Seq<u8>,
    e: Seq<u8>,
    f: Seq<u8>,
    g: Seq<u8>,
    h: Seq<u8>,
    tail: Seq<u8>,
)
    ensures
        (a + b + c + d + e + f + g + h) + tail == a + (b + (c + (d + (e + (f + (g + (h
            + tail))))))),
        (a + b + c + d + e + f + g + h).skip(a.len() as int) + tail == b + (c + (d + (e + (f + (g
            + (h + tail)))))),
{
    assert((a + b + c + d + e + f + g + h) + tail =~= a + (b + (c + (d + (e + (f + (g + (h
        + tail))))))));
    assert((a + b + c + d + e + f + g + h).skip(a.len() as int) + tail =~= b + (c + (d + (e + (f
        + (g + (h + tail)))))));
}

impl Default for Header {
    fn default() -> (header: Header)
        ensures
            header.archive_magic.spec_is_valid(),
            header.archive_version.spec_is_empty(),
            forall|i: int| 0 <= i < 4 ==> header.format_identifier@[i] == 0,
            header.format_version.spec_is_empty(),
            header.key == Key(0),
            header.unknown.spec_is_empty(),
            header.preview_image.image_type == ImageType::Unknown,
            header.preview_image.color_type == ColorType::Unknown,
            header.preview_image.unknown.spec_is_empty(),
            header.preview_image.width == 0,
            header.preview_image.height == 0,
            header.preview_image.padding.spec_is_empty(),
            header.padding.spec_is_empty(),
    {
        Header {
            archive_magic: Magic::default(),
            archive_version: Version::default(),
            format_identifier: [0u8; 4],
            format_version: Version::default(),
            key: Key::default(),
            unknown: Padding::default(),
            preview_image: PreviewImage::default(),
            padding: Padding::default(),
        }
    }
}

} // verus!
