//! The descriptor of the preview image that a header may carry.

pub mod color_type;
pub mod image_type;

pub use color_type::ColorType;
pub use image_type::ImageType;

use crate::endian::{lemma_u16_be_round_trip, spec_u16_to_be};
use crate::error::Error;
use crate::padding::Padding;
use crate::stream::{spec_take_u16_be, Decoded, Reader, Writer};
use vstd::prelude::*;

verus! {

/// What a header says of its preview image: sixteen bytes, none of them masked.
#[derive(Debug, Clone, Copy, PartialEq, Eq, PartialOrd, Ord, Hash)]
pub struct PreviewImage {
    pub image_type: ImageType,
    pub color_type: ColorType,
    pub unknown: Padding<2>,
    pub width: u16,
    pub height: u16,
    pub padding: Padding<8>,
}

impl PreviewImage {
    /// The descriptor says that there is no image: both types are `Absent`,
    /// both dimensions are zero and both opaque regions are all zero.
    pub open spec fn spec_is_empty(&self) -> bool {
        &&& self.image_type == ImageType::Absent
        &&& self.color_type == ColorType::Absent
        &&& self.unknown.spec_is_empty()
        &&& self.width == 0
        &&& self.height == 0
        &&& self.padding.spec_is_empty()
    }

    /// The descriptor that the next sixteen bytes hold: the two type codes,
    /// two opaque bytes, width and height as big-endian 16-bit values, and
    /// eight opaque bytes.
    pub open spec fn spec_decode(bytes: Seq<u8>) -> Decoded<PreviewImage> {
        let image_type = ImageType::spec_decode(bytes);
        let color_type = ColorType::spec_decode(image_type.rest);
        let unknown = Padding::<2>::spec_decode(color_type.rest);
        let width = spec_take_u16_be(unknown.rest);
        let height = spec_take_u16_be(width.rest);
        let padding = Padding::<8>::spec_decode(height.rest);
        if image_type.value is Err {
            image_type.failed()
        } else if color_type.value is Err {
            color_type.failed()
        } else if unknown.value is Err {
            unknown.failed()
        } else if width.value is Err {
            width.failed()
        } else if height.value is Err {
            height.failed()
        } else if padding.value is Err {
            padding.failed()
        } else {
            Decoded {
                value: Ok(
                    PreviewImage {
                        image_type: image_type.value->Ok_0,
                        color_type: color_type.value->Ok_0,
                        unknown: unknown.value->Ok_0,
                        width: width.value->Ok_0,
                        height: height.value->Ok_0,
                        padding: padding.value->Ok_0,
                    },
                ),
                rest: padding.rest,
            }
        }
    }

    /// The sixteen bytes of the descriptor.
    pub open spec fn spec_encode(&self) -> Seq<u8> {
        self.image_type.spec_encode() + self.color_type.spec_encode() + self.unknown.spec_encode()
            + spec_u16_to_be(self.width) + spec_u16_to_be(self.height)
            + self.padding.spec_encode()
    }

    /// Whether the descriptor says that there is no image.
    pub fn is_empty(&self) -> (empty: bool)
        ensures
            empty == self.spec_is_empty(),
    {
        let image_none = match self.image_type {
            ImageType::Absent => true,
            _ => false,
        };
        let color_none = match self.color_type {
            ColorType::Absent => true,
            _ => false,
        };
        image_none && color_none && self.unknown.is_empty() && self.width == 0 && self.height == 0
            && self.padding.is_empty()
    }

    /// Reads the sixteen bytes of the descriptor.
    pub fn read(reader: &mut Reader) -> (result: Result<PreviewImage, Error>)
        ensures
            result == PreviewImage::spec_decode(old(reader)@).value,
            final(reader)@ == PreviewImage::spec_decode(old(reader)@).rest,
    {
        let image_type = ImageType::read(reader)?;
        let color_type = ColorType::read(reader)?;
        let unknown = Padding::<2>::read(reader)?;
        let width = reader.read_u16_be()?;
        let height = reader.read_u16_be()?;
        let padding = Padding::<8>::read(reader)?;
        Ok(PreviewImage { image_type, color_type, unknown, width, height, padding })
    }

    /// Writes the sixteen bytes of the descriptor.
    pub fn write(&self, writer: &mut Writer) -> (result: Result<(), Error>)
        ensures
            result == Ok::<(), Error>(()),
            final(writer)@ == old(writer)@ + self.spec_encode(),
    {
        self.image_type.write(writer)?;
        self.color_type.write(writer)?;
        self.unknown.write(writer)?;
        writer.write_u16_be(self.width);
        writer.write_u16_be(self.height);
        self.padding.write(writer)?;
        assert(writer@ =~= old(writer)@ + self.spec_encode());
        Ok(())
    }

    /// Reading back a written descriptor gives the descriptor, whatever its
    /// opaque bytes are and whatever follows it.
    pub proof fn lemma_round_trip(self, tail: Seq<u8>)
        ensures
            PreviewImage::spec_decode(self.spec_encode() + tail).value == Ok::<PreviewImage, Error>(
                self,
            ),
            PreviewImage::spec_decode(self.spec_encode() + tail).rest == tail,
            self.spec_encode().len() == 16,
    {
        let t5 = self.padding.spec_encode() + tail;
        let t4 = spec_u16_to_be(self.height) + t5;
        let t3 = spec_u16_to_be(self.width) + t4;
        let t2 = self.unknown.spec_encode() + t3;
        let t1 = self.color_type.spec_encode() + t2;
        let written = self.spec_encode() + tail;
        self.padding.lemma_round_trip(tail);
        lemma_u16_be_round_trip(self.height, Seq::empty());
        lemma_u16_be_round_trip(self.width, Seq::empty());
        self.unknown.lemma_round_trip(t3);
        self.color_type.lemma_round_trip(t2);
        self.image_type.lemma_round_trip(t1);
        assert(written =~= self.image_type.spec_encode() + t1);
        assert(t4.take(2) =~= spec_u16_to_be(self.height) + Seq::<u8>::empty());
        assert(t4.skip(2) =~= t5);
        assert(t3.take(2) =~= spec_u16_to_be(self.width) + Seq::<u8>::empty());
        assert(t3.skip(2) =~= t4);
    }
}

impl Default for PreviewImage {
    fn default() -> (image: PreviewImage)
        ensures
            image.image_type == ImageType::Unknown,
            image.color_type == ColorType::Unknown,
            image.unknown.spec_is_empty(),
            image.width == 0,
            image.height == 0,
            image.padding.spec_is_empty(),
    {
        PreviewImage {
            image_type: ImageType::Unknown,
            color_type: ColorType::Unknown,
            unknown: Padding([0u8; 2]),
            width: 0,
            height: 0,
            padding: Padding([0u8; 8]),
        }
    }
}

} // verus!
