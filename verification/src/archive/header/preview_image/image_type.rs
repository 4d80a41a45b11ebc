//! The kind of pixels of the preview image, stored as one signed byte.

use crate::error::Error;
use crate::stream::{spec_take_i8, spec_u8_of_i8, Decoded, Reader, Writer};
use vstd::prelude::*;
use vstd::std_specs::convert::FromSpecImpl;

verus! {

/// The kind of pixels of the preview image.
#[derive(Debug, Clone, Copy, PartialEq, Eq, PartialOrd, Ord, Hash, Structural)]
pub enum ImageType {
    /// A code that names no known kind of image.
    Unknown,
    /// Pixels with an alpha channel.
    Argb,
    /// Pixels without an alpha channel.
    Rgb,
    /// No preview image.
    Absent,
}

impl ImageType {
    /// The variant that a code stands for. A code that names none is `Unknown`.
    pub open spec fn spec_from_code(code: i8) -> ImageType {
        if code == 1 {
            ImageType::Argb
        } else if code == 2 {
            ImageType::Rgb
        } else if code == 127 {
            ImageType::Absent
        } else {
            ImageType::Unknown
        }
    }

    /// The code that is written for a variant.
    pub open spec fn spec_code(self) -> i8 {
        match self {
            ImageType::Unknown => 0,
            ImageType::Argb => 1,
            ImageType::Rgb => 2,
            ImageType::Absent => 127,
        }
    }

    /// The variant that the next byte stands for.
    pub open spec fn spec_decode(bytes: Seq<u8>) -> Decoded<ImageType> {
        let taken = spec_take_i8(bytes);
        match taken.value {
            Ok(code) => Decoded { value: Ok(ImageType::spec_from_code(code)), rest: taken.rest },
            Err(error) => Decoded { value: Err(error), rest: taken.rest },
        }
    }

    /// The byte that holds the code of the variant.
    pub open spec fn spec_encode(self) -> Seq<u8> {
        seq![spec_u8_of_i8(self.spec_code())]
    }

    /// The code that is written for the variant.
    pub fn code(self) -> (code: i8)
        ensures
            code == self.spec_code(),
    {
        match self {
            ImageType::Unknown => 0,
            ImageType::Argb => 1,
            ImageType::Rgb => 2,
            ImageType::Absent => 127,
        }
    }

    /// Reads one byte and maps its code to a variant; no code is refused.
    pub fn read(reader: &mut Reader) -> (result: Result<ImageType, Error>)
        ensures
            result == ImageType::spec_decode(old(reader)@).value,
            final(reader)@ == ImageType::spec_decode(old(reader)@).rest,
    {
        let raw = reader.read_i8()?;
        Ok(ImageType::from(raw))
    }

    /// Writes the code of the variant as one byte.
    pub fn write(&self, writer: &mut Writer) -> (result: Result<(), Error>)
        ensures
            result == Ok::<(), Error>(()),
            final(writer)@ == old(writer)@ + self.spec_encode(),
    {
        writer.write_i8(self.code());
        assert(writer@ =~= old(writer)@ + self.spec_encode());
        Ok(())
    }

    /// The code of a variant stands for that variant.
    pub proof fn lemma_code_round_trip(self)
        ensures
            ImageType::spec_from_code(self.spec_code()) == self,
    {
    }

    /// A code that stands for a named variant is written back as it was;
    /// every other code is written back as zero.
    pub proof fn lemma_named_code_is_kept(code: i8)
        ensures
            ImageType::spec_from_code(code) != ImageType::Unknown ==> ImageType::spec_from_code(
                code,
            ).spec_code() == code,
            ImageType::spec_from_code(code) == ImageType::Unknown ==> ImageType::spec_from_code(
                code,
            ).spec_code() == 0,
    {
    }

    /// Reading back a written variant gives the variant, whatever follows it.
    pub proof fn lemma_round_trip(self, tail: Seq<u8>)
        ensures
            ImageType::spec_decode(self.spec_encode() + tail).value == Ok::<ImageType, Error>(self),
            ImageType::spec_decode(self.spec_encode() + tail).rest == tail,
            self.spec_encode().len() == 1,
    {
        let written = self.spec_encode() + tail;
        assert(written[0] == spec_u8_of_i8(self.spec_code()));
        assert(written.skip(1) =~= tail);
    }
}

impl From<i8> for ImageType {
    fn from(code: i8) -> (value: ImageType) {
        if code == 1 {
            ImageType::Argb
        } else if code == 2 {
            ImageType::Rgb
        } else if code == 127 {
            ImageType::Absent
        } else {
            ImageType::Unknown
        }
    }
}

impl FromSpecImpl<i8> for ImageType {
    open spec fn obeys_from_spec() -> bool {
        true
    }

    open spec fn from_spec(code: i8) -> ImageType {
        ImageType::spec_from_code(code)
    }
}

impl From<ImageType> for i8 {
    fn from(value: ImageType) -> (code: i8) {
        value.code()
    }
}

impl FromSpecImpl<ImageType> for i8 {
    open spec fn obeys_from_spec() -> bool {
        true
    }

    open spec fn from_spec(value: ImageType) -> i8 {
        value.spec_code()
    }
}

impl Default for ImageType {
    fn default() -> (value: ImageType)
        ensures
            value == ImageType::Unknown,
    {
        ImageType::Unknown
    }
}

} // verus!
