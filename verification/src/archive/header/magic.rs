//! The four signature bytes that open an archive.

use crate::error::Error;
use crate::stream::{lemma_spec_array_of_view, spec_take_array, Decoded, Reader, Writer};
use vstd::prelude::*;

verus! {

/// Whether a decoder refuses an archive whose signature is not `CAFF`.
#[derive(Debug, Clone, Copy, PartialEq, Eq, Structural)]
pub enum Validation {
    /// A wrong signature is kept and can be asked about afterwards.
    Advisory,
    /// A wrong signature ends the decode.
    Strict,
}

/// The signature as it was found or as it is to be written.
#[derive(Debug, Clone, Copy, PartialEq, Eq, PartialOrd, Ord, Hash)]
pub struct Magic {
    pub bytes: [u8; 4],
}

impl Magic {
    /// The signature of the format: the letters `CAFF`.
    pub open spec fn spec_expected() -> Seq<u8> {
        seq![0x43u8, 0x41u8, 0x46u8, 0x46u8]
    }

    /// The stored bytes are the signature of the format.
    pub open spec fn spec_is_valid(&self) -> bool {
        self.bytes@ == Magic::spec_expected()
    }

    /// The signature that the next four bytes hold. Under strict validation
    /// a wrong one is an error, found once the four bytes are read.
    pub open spec fn spec_decode(bytes: Seq<u8>, validation: Validation) -> Decoded<Magic> {
        let taken = spec_take_array::<4>(bytes);
        match taken.value {
            Ok(array) => {
                let magic = Magic { bytes: array };
                if validation == Validation::Strict && !magic.spec_is_valid() {
                    Decoded { value: Err(Error::BadMagic), rest: taken.rest }
                } else {
                    Decoded { value: Ok(magic), rest: taken.rest }
                }
            },
            Err(error) => Decoded { value: Err(error), rest: taken.rest },
        }
    }

    /// The stored bytes, as they are.
    pub open spec fn spec_encode(&self) -> Seq<u8> {
        self.bytes@
    }

    /// Whether the stored bytes are the signature of the format.
    pub fn is_valid(&self) -> (valid: bool)
        ensures
            valid == self.spec_is_valid(),
    {
        let valid = self.bytes[0] == 0x43 && self.bytes[1] == 0x41 && self.bytes[2] == 0x46
            && self.bytes[3] == 0x46;
        proof {
            if valid {
                assert(self.bytes@ =~= Magic::spec_expected());
            } else {
                assert(Magic::spec_expected()[0] == 0x43 && Magic::spec_expected()[1] == 0x41
                    && Magic::spec_expected()[2] == 0x46 && Magic::spec_expected()[3] == 0x46);
            }
        }
        valid
    }

    /// Reads four bytes as the signature.
    pub fn read(reader: &mut Reader, validation: Validation) -> (result: Result<Magic, Error>)
        ensures
            result == Magic::spec_decode(old(reader)@, validation).value,
            final(reader)@ == Magic::spec_decode(old(reader)@, validation).rest,
    {
        let bytes = reader.read_array::<4>()?;
        let magic = Magic { bytes };
        match validation {
            Validation::Strict => {
                if !magic.is_valid() {
                    return Err(Error::BadMagic);
                }
            },
            Validation::Advisory => {},
        }
        Ok(magic)
    }

    /// Writes the stored bytes, valid or not.
    pub fn write(&self, writer: &mut Writer) -> (result: Result<(), Error>)
        ensures
            result == Ok::<(), Error>(()),
            final(writer)@ == old(writer)@ + self.spec_encode(),
    {
        writer.write_all(&self.bytes);
        Ok(())
    }

    /// Reading back a written signature gives it back, unless it is wrong
    /// and validation is strict: then the decode ends after the four bytes.
    pub proof fn lemma_round_trip(self, validation: Validation, tail: Seq<u8>)
        ensures
            Magic::spec_decode(self.spec_encode() + tail, validation).value == (if validation
                == Validation::Strict && !self.spec_is_valid() {
                Err::<Magic, Error>(Error::BadMagic)
            } else {
                Ok::<Magic, Error>(self)
            }),
            Magic::spec_decode(self.spec_encode() + tail, validation).rest == tail,
            self.spec_encode().len() == 4,
    {
        let written = self.spec_encode() + tail;
        assert(written.take(4) =~= self.bytes@);
        assert(written.skip(4) =~= tail);
        lemma_spec_array_of_view::<4>(self.bytes);
    }
}

impl Default for Magic {
    fn default() -> (magic: Magic)
        ensures
            magic.spec_is_valid(),
    {
        let magic = Magic { bytes: [0x43, 0x41, 0x46, 0x46] };
        assert(magic.bytes@ =~= Magic::spec_expected());
        magic
    }
}

} // verus!
