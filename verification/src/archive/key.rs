//! The obfuscation key: a 32-bit value that masks the rest of the archive.

use crate::endian::{spec_u32_from_be, spec_u32_to_be};
use crate::error::Error;
use crate::stream::{spec_take_u32_be, Decoded, Reader, Writer};
use std::ops::{BitXor, BitXorAssign};
use vstd::prelude::*;
use vstd::std_specs::convert::FromSpecImpl;
use vstd::std_specs::ops::BitXorSpecImpl;

verus! {

/// The key of an archive. It is stored in the header as it is, and every
/// obfuscated field is masked with its low-order bits.
#[derive(Debug, Clone, Copy, PartialEq, Eq, PartialOrd, Ord, Hash, Structural)]
pub struct Key(pub u32);

impl Key {
    /// The low eight bits of the key.
    pub open spec fn spec_mask_u8(self) -> u8 {
        (self.0 & 0xff) as u8
    }

    /// The low sixteen bits of the key.
    pub open spec fn spec_mask_u16(self) -> u16 {
        (self.0 & 0xffff) as u16
    }

    /// A byte masked with the low eight bits of the key.
    pub open spec fn spec_xor_u8(self, value: u8) -> u8 {
        self.spec_mask_u8() ^ value
    }

    /// A 16-bit value masked with the low sixteen bits of the key.
    pub open spec fn spec_xor_u16(self, value: u16) -> u16 {
        self.spec_mask_u16() ^ value
    }

    /// A 32-bit value masked with the key.
    pub open spec fn spec_xor_u32(self, value: u32) -> u32 {
        self.0 ^ value
    }

    /// Every byte of `bytes` masked with the low eight bits of the key.
    pub open spec fn spec_xor_bytes(self, bytes: Seq<u8>) -> Seq<u8> {
        Seq::new(bytes.len(), |i: int| self.spec_xor_u8(bytes[i]))
    }

    /// The key that four bytes hold, most significant first.
    pub open spec fn spec_decode(bytes: Seq<u8>) -> Decoded<Key> {
        let taken = spec_take_u32_be(bytes);
        match taken.value {
            Ok(value) => Decoded { value: Ok(Key(value)), rest: taken.rest },
            Err(error) => Decoded { value: Err(error), rest: taken.rest },
        }
    }

    /// The four bytes of the key, most significant first and not masked.
    pub open spec fn spec_encode(self) -> Seq<u8> {
        spec_u32_to_be(self.0)
    }

    /// Masking a byte twice with the same key gives the byte back.
    pub proof fn lemma_xor_u8_involution(self, value: u8)
        ensures
            self.spec_xor_u8(self.spec_xor_u8(value)) == value,
    {
        let mask = self.spec_mask_u8();
        assert(mask ^ (mask ^ value) == value) by (bit_vector);
    }

    /// Masking a 16-bit value twice with the same key gives the value back.
    pub proof fn lemma_xor_u16_involution(self, value: u16)
        ensures
            self.spec_xor_u16(self.spec_xor_u16(value)) == value,
    {
        let mask = self.spec_mask_u16();
        assert(mask ^ (mask ^ value) == value) by (bit_vector);
    }

    /// Masking a 32-bit value twice with the same key gives the value back.
    pub proof fn lemma_xor_u32_involution(self, value: u32)
        ensures
            self.spec_xor_u32(self.spec_xor_u32(value)) == value,
    {
        let mask = self.0;
        assert(mask ^ (mask ^ value) == value) by (bit_vector);
    }

    /// Masking a run of bytes twice with the same key gives the bytes back.
    pub proof fn lemma_xor_bytes_involution(self, bytes: Seq<u8>)
        ensures
            self.spec_xor_bytes(self.spec_xor_bytes(bytes)) == bytes,
            self.spec_xor_bytes(bytes).len() == bytes.len(),
    {
        assert forall|i: int| 0 <= i < bytes.len() implies self.spec_xor_bytes(
            self.spec_xor_bytes(bytes),
        )[i] == bytes[i] by {
            self.lemma_xor_u8_involution(bytes[i]);
        }
        assert(self.spec_xor_bytes(self.spec_xor_bytes(bytes)) =~= bytes);
    }

    /// The all-zero key masks nothing.
    pub proof fn lemma_zero_key_is_identity(value8: u8, value16: u16, value32: u32)
        ensures
            Key(0).spec_xor_u8(value8) == value8,
            Key(0).spec_xor_u16(value16) == value16,
            Key(0).spec_xor_u32(value32) == value32,
    {
        assert(((0u32 & 0xff) as u8) ^ value8 == value8) by (bit_vector);
        assert(((0u32 & 0xffff) as u16) ^ value16 == value16) by (bit_vector);
        assert(0u32 ^ value32 == value32) by (bit_vector);
    }

    /// The low eight bits of the key.
    pub fn mask_u8(self) -> (mask: u8)
        ensures
            mask == self.spec_mask_u8(),
    {
        let raw = self.0;
        let low = raw & 0xff;
        assert(low < 0x100) by (bit_vector)
            requires
                low == raw & 0xff,
        ;
        low as u8
    }

    /// The low sixteen bits of the key.
    pub fn mask_u16(self) -> (mask: u16)
        ensures
            mask == self.spec_mask_u16(),
    {
        let raw = self.0;
        let low = raw & 0xffff;
        assert(low < 0x10000) by (bit_vector)
            requires
                low == raw & 0xffff,
        ;
        low as u16
    }

    /// Reads the key: four bytes, most significant first, not masked.
    pub fn read(reader: &mut Reader) -> (result: Result<Key, Error>)
        ensures
            result == Key::spec_decode(old(reader)@).value,
            final(reader)@ == Key::spec_decode(old(reader)@).rest,
    {
        match reader.read_u32_be() {
            Ok(value) => Ok(Key(value)),
            Err(error) => Err(error),
        }
    }

    /// Writes the key: four bytes, most significant first, not masked.
    pub fn write(self, writer: &mut Writer) -> (result: Result<(), Error>)
        ensures
            result == Ok::<(), Error>(()),
            final(writer)@ == old(writer)@ + self.spec_encode(),
    {
        writer.write_u32_be(self.0);
        Ok(())
    }

    /// Reading back a written key gives the key, whatever follows it.
    pub proof fn lemma_round_trip(self, tail: Seq<u8>)
        ensures
            Key::spec_decode(self.spec_encode() + tail).value == Ok::<Key, Error>(self),
            Key::spec_decode(self.spec_encode() + tail).rest == tail,
    {
        let written = self.spec_encode() + tail;
        crate::endian::lemma_u32_be_round_trip(self.0, Seq::empty());
        assert(written.take(4) =~= self.spec_encode() + Seq::<u8>::empty());
        assert(written.skip(4) =~= tail);
    }
}

impl From<u32> for Key {
    fn from(value: u32) -> (key: Key) {
        Key(value)
    }
}

impl FromSpecImpl<u32> for Key {
    open spec fn obeys_from_spec() -> bool {
        true
    }

    open spec fn from_spec(value: u32) -> Key {
        Key(value)
    }
}

impl Default for Key {
    fn default() -> (key: Key)
        ensures
            key == Key(0),
    {
        Key(0)
    }
}

impl From<Key> for u32 {
    fn from(key: Key) -> (value: u32) {
        key.0
    }
}

impl FromSpecImpl<Key> for u32 {
    open spec fn obeys_from_spec() -> bool {
        true
    }

    open spec fn from_spec(key: Key) -> u32 {
        key.0
    }
}

impl From<Key> for u16 {
    fn from(key: Key) -> (value: u16) {
        key.mask_u16()
    }
}

impl FromSpecImpl<Key> for u16 {
    open spec fn obeys_from_spec() -> bool {
        true
    }

    open spec fn from_spec(key: Key) -> u16 {
        key.spec_mask_u16()
    }
}

impl From<Key> for u8 {
    fn from(key: Key) -> (value: u8) {
        key.mask_u8()
    }
}

impl FromSpecImpl<Key> for u8 {
    open spec fn obeys_from_spec() -> bool {
        true
    }

    open spec fn from_spec(key: Key) -> u8 {
        key.spec_mask_u8()
    }
}

impl BitXor<u8> for Key {
    type Output = u8;

    fn bitxor(self, value: u8) -> (masked: u8) {
        self.mask_u8() ^ value
    }
}

impl BitXorSpecImpl<u8> for Key {
    open spec fn obeys_bitxor_spec() -> bool {
        true
    }

    open spec fn bitxor_req(self, value: u8) -> bool {
        true
    }

    open spec fn bitxor_spec(self, value: u8) -> u8 {
        self.spec_xor_u8(value)
    }
}

impl BitXor<u16> for Key {
    type Output = u16;

    fn bitxor(self, value: u16) -> (masked: u16) {
        self.mask_u16() ^ value
    }
}

impl BitXorSpecImpl<u16> for Key {
    open spec fn obeys_bitxor_spec() -> bool {
        true
    }

    open spec fn bitxor_req(self, value: u16) -> bool {
        true
    }

    open spec fn bitxor_spec(self, value: u16) -> u16 {
        self.spec_xor_u16(value)
    }
}

impl BitXor<u32> for Key {
    type Output = u32;

    fn bitxor(self, value: u32) -> (masked: u32) {
        self.0 ^ value
    }
}

impl BitXorSpecImpl<u32> for Key {
    open spec fn obeys_bitxor_spec() -> bool {
        true
    }

    open spec fn bitxor_req(self, value: u32) -> bool {
        true
    }

    open spec fn bitxor_spec(self, value: u32) -> u32 {
        self.spec_xor_u32(value)
    }
}

impl BitXor<Key> for u32 {
    type Output = u32;

    fn bitxor(self, key: Key) -> (masked: u32) {
        key ^ self
    }
}

impl BitXorSpecImpl<Key> for u32 {
    open spec fn obeys_bitxor_spec() -> bool {
        true
    }

    open spec fn bitxor_req(self, key: Key) -> bool {
        true
    }

    open spec fn bitxor_spec(self, key: Key) -> u32 {
        key.spec_xor_u32(self)
    }
}

impl BitXor<Key> for u16 {
    type Output = u16;

    fn bitxor(self, key: Key) -> (masked: u16) {
        key ^ self
    }
}

impl BitXorSpecImpl<Key> for u16 {
    open spec fn obeys_bitxor_spec() -> bool {
        true
    }

    open spec fn bitxor_req(self, key: Key) -> bool {
        true
    }

    open spec fn bitxor_spec(self, key: Key) -> u16 {
        key.spec_xor_u16(self)
    }
}

impl BitXor<Key> for u8 {
    type Output = u8;

    fn bitxor(self, key: Key) -> (masked: u8) {
        key ^ self
    }
}

impl BitXorSpecImpl<Key> for u8 {
    open spec fn obeys_bitxor_spec() -> bool {
        true
    }

    open spec fn bitxor_req(self, key: Key) -> bool {
        true
    }

    open spec fn bitxor_spec(self, key: Key) -> u8 {
        key.spec_xor_u8(self)
    }
}

impl BitXorAssign<Key> for u32 {
    fn bitxor_assign(&mut self, key: Key)
        ensures
            *final(self) == key.spec_xor_u32(*old(self)),
    {
        *self = key ^ *self;
    }
}

impl BitXorAssign<Key> for u8 {
    fn bitxor_assign(&mut self, key: Key)
        ensures
            *final(self) == key.spec_xor_u8(*old(self)),
    {
        *self = key ^ *self;
    }
}

} // verus!
