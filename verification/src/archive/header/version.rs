//! A version of three parts, one byte each.

use crate::error::Error;
use crate::stream::{
    lemma_spec_array_of_view, spec_array, spec_take_u8, Decoded, Reader, Writer,
};
use vstd::prelude::*;
use vstd::std_specs::convert::FromSpecImpl;

verus! {

/// A version: major, minor and patch.
#[derive(Debug, Clone, Copy, PartialEq, Eq, PartialOrd, Ord, Hash, Structural)]
pub struct Version {
    pub major: u8,
    pub minor: u8,
    pub patch: u8,
}

impl Version {
    /// All three parts are zero.
    pub open spec fn spec_is_empty(&self) -> bool {
        self.major == 0 && self.minor == 0 && self.patch == 0
    }

    /// The version that the next three bytes hold, not masked.
    pub open spec fn spec_decode(bytes: Seq<u8>) -> Decoded<Version> {
        let major = spec_take_u8(bytes);
        let minor = spec_take_u8(major.rest);
        let patch = spec_take_u8(minor.rest);
        if major.value is Err {
            major.failed()
        } else if minor.value is Err {
            minor.failed()
        } else if patch.value is Err {
            patch.failed()
        } else {
            Decoded {
                value: Ok(
                    Version {
                        major: major.value->Ok_0,
                        minor: minor.value->Ok_0,
                        patch: patch.value->Ok_0,
                    },
                ),
                rest: patch.rest,
            }
        }
    }

    /// The three parts in order, one byte each.
    pub open spec fn spec_encode(self) -> Seq<u8> {
        seq![self.major, self.minor, self.patch]
    }

    /// A version of the given parts.
    pub fn new(major: u8, minor: u8, patch: u8) -> (version: Version)
        ensures
            version == (Version { major, minor, patch }),
    {
        Version { major, minor, patch }
    }

    /// Whether all three parts are zero.
    pub fn is_empty(&self) -> (empty: bool)
        ensures
            empty == self.spec_is_empty(),
    {
        self.major == 0 && self.minor == 0 && self.patch == 0
    }

    /// Reads three bytes as major, minor and patch.
    pub fn read(reader: &mut Reader) -> (result: Result<Version, Error>)
        ensures
            result == Version::spec_decode(old(reader)@).value,
            final(reader)@ == Version::spec_decode(old(reader)@).rest,
    {
        let major = reader.read_u8()?;
        let minor = reader.read_u8()?;
        let patch = reader.read_u8()?;
        Ok(Version { major, minor, patch })
    }

    /// Writes major, minor and patch, one byte each.
    pub fn write(self, writer: &mut Writer) -> (result: Result<(), Error>)
        ensures
            result == Ok::<(), Error>(()),
            final(writer)@ == old(writer)@ + self.spec_encode(),
    {
        writer.write_u8(self.major);
        writer.write_u8(self.minor);
        writer.write_u8(self.patch);
        assert(writer@ =~= old(writer)@ + self.spec_encode());
        Ok(())
    }

    /// Reading back a written version gives the version, whatever follows it.
    pub proof fn lemma_round_trip(self, tail: Seq<u8>)
        ensures
            Version::spec_decode(self.spec_encode() + tail).value == Ok::<Version, Error>(self),
            Version::spec_decode(self.spec_encode() + tail).rest == tail,
            self.spec_encode().len() == 3,
    {
        let written = self.spec_encode() + tail;
        assert(written[0] == self.major && written[1] == self.minor && written[2] == self.patch);
        assert(written.skip(1).skip(1).skip(1) =~= tail);
        assert(written.skip(1)[0] == self.minor);
        assert(written.skip(1).skip(1)[0] == self.patch);
    }
}

impl From<[u8; 3]> for Version {
    fn from(parts: [u8; 3]) -> (version: Version) {
        Version { major: parts[0], minor: parts[1], patch: parts[2] }
    }
}

impl FromSpecImpl<[u8; 3]> for Version {
    open spec fn obeys_from_spec() -> bool {
        true
    }

    open spec fn from_spec(parts: [u8; 3]) -> Version {
        Version { major: parts@[0], minor: parts@[1], patch: parts@[2] }
    }
}

impl From<Version> for [u8; 3] {
    fn from(version: Version) -> (parts: [u8; 3]) {
        let parts = [version.major, version.minor, version.patch];
        proof {
            assert(parts@ =~= version.spec_encode());
            lemma_spec_array_of_view::<3>(parts);
        }
        parts
    }
}

impl FromSpecImpl<Version> for [u8; 3] {
    open spec fn obeys_from_spec() -> bool {
        true
    }

    open spec fn from_spec(version: Version) -> [u8; 3] {
        spec_array::<3>(version.spec_encode())
    }
}

impl Default for Version {
    fn default() -> (version: Version)
        ensures
            version.spec_is_empty(),
    {
        Version { major: 0, minor: 0, patch: 0 }
    }
}

} // verus!
