//! Fields masked with the key: single bytes, flags, 32-bit integers, and
//! byte runs and texts behind a one-byte length.

use crate::archive::key::Key;
use crate::endian::{lemma_u32_be_round_trip, spec_u32_to_be};
use crate::error::Error;
use crate::stream::{
    spec_result_view, spec_take, spec_take_u32_be, spec_take_u8, Decoded, Encoded, Reader, Writer,
};
use vstd::prelude::*;
use vstd::utf8::{decode_utf8, encode_utf8, valid_utf8};

verus! {

/// The largest length that the one-byte length prefix can hold.
pub const MAX_PREFIXED_LEN: usize = 127;

/// A masked byte.
pub open spec fn spec_decode_u8(bytes: Seq<u8>, key: Key) -> Decoded<u8> {
    let taken = spec_take_u8(bytes);
    match taken.value {
        Ok(raw) => Decoded { value: Ok(key.spec_xor_u8(raw)), rest: taken.rest },
        Err(error) => Decoded { value: Err(error), rest: taken.rest },
    }
}

/// A masked flag: any byte but zero means true.
pub open spec fn spec_decode_bool(bytes: Seq<u8>, key: Key) -> Decoded<bool> {
    let byte = spec_decode_u8(bytes, key);
    match byte.value {
        Ok(value) => Decoded { value: Ok(value != 0), rest: byte.rest },
        Err(error) => Decoded { value: Err(error), rest: byte.rest },
    }
}

/// A masked big-endian 32-bit value. The mask applies to the value, not to
/// its bytes one by one.
pub open spec fn spec_decode_u32(bytes: Seq<u8>, key: Key) -> Decoded<u32> {
    let taken = spec_take_u32_be(bytes);
    match taken.value {
        Ok(raw) => Decoded { value: Ok(key.spec_xor_u32(raw)), rest: taken.rest },
        Err(error) => Decoded { value: Err(error), rest: taken.rest },
    }
}

/// A masked length byte. With its top bit set it announces a longer
/// encoding, which is refused once the byte is read.
pub open spec fn spec_decode_varint(bytes: Seq<u8>, key: Key) -> Decoded<nat> {
    let byte = spec_decode_u8(bytes, key);
    match byte.value {
        Ok(value) => if value > MAX_PREFIXED_LEN {
            Decoded { value: Err(Error::VarIntSupportNotImplemented), rest: byte.rest }
        } else {
            Decoded { value: Ok(value as nat), rest: byte.rest }
        },
        Err(error) => Decoded { value: Err(error), rest: byte.rest },
    }
}

/// A masked length byte and that many masked bytes.
pub open spec fn spec_decode_bytes(bytes: Seq<u8>, key: Key) -> Decoded<Seq<u8>> {
    let length = spec_decode_varint(bytes, key);
    match length.value {
        Ok(n) => {
            let taken = spec_take(length.rest, n);
            match taken.value {
                Ok(raw) => Decoded { value: Ok(key.spec_xor_bytes(raw)), rest: taken.rest },
                Err(error) => Decoded { value: Err(error), rest: taken.rest },
            }
        },
        Err(error) => Decoded { value: Err(error), rest: length.rest },
    }
}

/// A length-prefixed run of masked bytes read as UTF-8 text.
pub open spec fn spec_decode_string(bytes: Seq<u8>, key: Key) -> Decoded<Seq<char>> {
    let run = spec_decode_bytes(bytes, key);
    match run.value {
        Ok(plain) => if valid_utf8(plain) {
            Decoded { value: Ok(decode_utf8(plain)), rest: run.rest }
        } else {
            Decoded { value: Err(Error::Utf8), rest: run.rest }
        },
        Err(error) => Decoded { value: Err(error), rest: run.rest },
    }
}

/// The byte that holds a masked value.
pub open spec fn spec_encode_u8(value: u8, key: Key) -> Seq<u8> {
    seq![key.spec_xor_u8(value)]
}

/// The byte that holds a masked flag: one for true, zero for false.
pub open spec fn spec_encode_bool(value: bool, key: Key) -> Seq<u8> {
    spec_encode_u8(if value { 1u8 } else { 0u8 }, key)
}

/// The four bytes that hold a masked 32-bit value, most significant first.
pub open spec fn spec_encode_u32(value: u32, key: Key) -> Seq<u8> {
    spec_u32_to_be(key.spec_xor_u32(value))
}

/// The masked length byte, for a length that fits in seven bits.
pub open spec fn spec_encode_varint(value: nat, key: Key) -> Encoded {
    if value > MAX_PREFIXED_LEN {
        Encoded { outcome: Err(Error::VarIntSupportNotImplemented), bytes: Seq::empty() }
    } else {
        Encoded { outcome: Ok(()), bytes: spec_encode_u8(value as u8, key) }
    }
}

/// The masked length byte and the masked bytes, for at most 127 bytes.
/// Nothing is emitted for a longer run.
pub open spec fn spec_encode_bytes(bytes: Seq<u8>, key: Key) -> Encoded {
    let length = spec_encode_varint(bytes.len(), key);
    match length.outcome {
        Ok(_) => Encoded { outcome: Ok(()), bytes: length.bytes + key.spec_xor_bytes(bytes) },
        Err(error) => Encoded { outcome: Err(error), bytes: length.bytes },
    }
}

/// A text as the length-prefixed masked run of its UTF-8 bytes.
pub open spec fn spec_encode_string(text: Seq<char>, key: Key) -> Encoded {
    spec_encode_bytes(encode_utf8(text), key)
}

/// A masked byte that is written and read back with the same key is the
/// byte, and what followed it is left unread.
pub proof fn lemma_u8_round_trip(value: u8, key: Key, tail: Seq<u8>)
    ensures
        spec_decode_u8(spec_encode_u8(value, key) + tail, key).value == Ok::<u8, Error>(value),
        spec_decode_u8(spec_encode_u8(value, key) + tail, key).rest == tail,
{
    let written = spec_encode_u8(value, key) + tail;
    key.lemma_xor_u8_involution(value);
    assert(written[0] == key.spec_xor_u8(value));
    assert(written.skip(1) =~= tail);
}

/// A masked flag that is written and read back with the same key is the
/// flag, and what followed it is left unread.
pub proof fn lemma_bool_round_trip(value: bool, key: Key, tail: Seq<u8>)
    ensures
        spec_decode_bool(spec_encode_bool(value, key) + tail, key).value == Ok::<bool, Error>(
            value,
        ),
        spec_decode_bool(spec_encode_bool(value, key) + tail, key).rest == tail,
{
    lemma_u8_round_trip(if value { 1u8 } else { 0u8 }, key, tail);
}

/// A masked 32-bit value that is written and read back with the same key is
/// the value, and what followed it is left unread.
pub proof fn lemma_u32_round_trip(value: u32, key: Key, tail: Seq<u8>)
    ensures
        spec_decode_u32(spec_encode_u32(value, key) + tail, key).value == Ok::<u32, Error>(value),
        spec_decode_u32(spec_encode_u32(value, key) + tail, key).rest == tail,
        spec_encode_u32(value, key).len() == 4,
{
    let masked = key.spec_xor_u32(value);
    let written = spec_encode_u32(value, key) + tail;
    lemma_u32_be_round_trip(masked, Seq::empty());
    key.lemma_xor_u32_involution(value);
    assert(written.take(4) =~= spec_u32_to_be(masked) + Seq::<u8>::empty());
    assert(written.skip(4) =~= tail);
}

/// A run of at most 127 bytes is written, and read back with the same key it
/// is the same run, with what followed it left unread.
pub proof fn lemma_bytes_round_trip(bytes: Seq<u8>, key: Key, tail: Seq<u8>)
    requires
        bytes.len() <= MAX_PREFIXED_LEN,
    ensures
        spec_encode_bytes(bytes, key).outcome == Ok::<(), Error>(()),
        spec_encode_bytes(bytes, key).bytes.len() == 1 + bytes.len(),
        spec_decode_bytes(spec_encode_bytes(bytes, key).bytes + tail, key).value == Ok::<
            Seq<u8>,
            Error,
        >(bytes),
        spec_decode_bytes(spec_encode_bytes(bytes, key).bytes + tail, key).rest == tail,
{
    let length = bytes.len() as u8;
    let masked = key.spec_xor_bytes(bytes);
    let written = spec_encode_bytes(bytes, key).bytes + tail;
    assert(written =~= spec_encode_u8(length, key) + (masked + tail));
    lemma_u8_round_trip(length, key, masked + tail);
    assert((masked + tail).take(bytes.len() as int) =~= masked);
    assert((masked + tail).skip(bytes.len() as int) =~= tail);
    key.lemma_xor_bytes_involution(bytes);
}

/// A run of 128 bytes or more is refused, and nothing is emitted for it.
pub proof fn lemma_long_run_is_refused(bytes: Seq<u8>, key: Key)
    requires
        bytes.len() > MAX_PREFIXED_LEN,
    ensures
        spec_encode_bytes(bytes, key).outcome == Err::<(), Error>(
            Error::VarIntSupportNotImplemented,
        ),
        spec_encode_bytes(bytes, key).bytes == Seq::<u8>::empty(),
{
}

/// A length byte that has its top bit set once the mask is taken off is
/// refused, and only that byte is consumed.
pub proof fn lemma_continuation_bit_is_refused(bytes: Seq<u8>, key: Key)
    requires
        bytes.len() >= 1,
        key.spec_xor_u8(bytes[0]) & 0x80 != 0,
    ensures
        spec_decode_bytes(bytes, key).value == Err::<Seq<u8>, Error>(
            Error::VarIntSupportNotImplemented,
        ),
        spec_decode_bytes(bytes, key).rest == bytes.skip(1),
{
    let value = key.spec_xor_u8(bytes[0]);
    assert((value & 0x80 != 0) == (value > 127)) by (bit_vector);
}

/// A text of at most 127 UTF-8 bytes is written, and read back with the same
/// key it is the same text, with what followed it left unread.
pub proof fn lemma_string_round_trip(text: Seq<char>, key: Key, tail: Seq<u8>)
    requires
        encode_utf8(text).len() <= MAX_PREFIXED_LEN,
    ensures
        spec_encode_string(text, key).outcome == Ok::<(), Error>(()),
        spec_decode_string(spec_encode_string(text, key).bytes + tail, key).value == Ok::<
            Seq<char>,
            Error,
        >(text),
        spec_decode_string(spec_encode_string(text, key).bytes + tail, key).rest == tail,
{
    lemma_bytes_round_trip(encode_utf8(text), key, tail);
    vstd::utf8::encode_utf8_valid_utf8(text);
    vstd::utf8::encode_utf8_decode_utf8(text);
}

/// `String::from_utf8`: it succeeds exactly where the bytes are well-formed
/// UTF-8, which is what `valid_utf8` says, and the text it returns is made of
/// the bytes it was given. The error that std returns is dropped here.
#[verifier::external_body]
fn string_from_utf8(bytes: Vec<u8>) -> (text: Option<String>)
    ensures
        text is Some <==> valid_utf8(bytes@),
        text matches Some(s) ==> encode_utf8(s@) == bytes@,
{
    match String::from_utf8(bytes) {
        Ok(text) => Some(text),
        Err(_) => None,
    }
}

/// Masks every byte of `bytes` with the low eight bits of the key. Applied
/// to masked bytes it takes the mask off.
pub fn mask_in_place(bytes: &mut Vec<u8>, key: Key)
    ensures
        final(bytes)@ == key.spec_xor_bytes(old(bytes)@),
{
    let ghost raw = bytes@;
    let mask = key.mask_u8();
    let mut i: usize = 0;
    while i < bytes.len()
        invariant
            i <= bytes@.len(),
            bytes@.len() == raw.len(),
            mask == key.spec_mask_u8(),
            forall|j: int| 0 <= j < i ==> bytes@[j] == key.spec_xor_u8(raw[j]),
            forall|j: int| i <= j < raw.len() ==> bytes@[j] == raw[j],
        decreases bytes@.len() - i,
    {
        let masked = mask ^ bytes[i];
        bytes.set(i, masked);
        i = i + 1;
    }
    assert(bytes@ =~= key.spec_xor_bytes(raw));
}

impl Reader {
    /// Reads a masked byte.
    pub fn read_encrypted_u8(&mut self, key: Key) -> (result: Result<u8, Error>)
        ensures
            result == spec_decode_u8(old(self)@, key).value,
            final(self)@ == spec_decode_u8(old(self)@, key).rest,
    {
        match self.read_u8() {
            Ok(raw) => Ok(key.mask_u8() ^ raw),
            Err(error) => Err(error),
        }
    }

    /// Reads a masked flag.
    pub fn read_encrypted_bool(&mut self, key: Key) -> (result: Result<bool, Error>)
        ensures
            result == spec_decode_bool(old(self)@, key).value,
            final(self)@ == spec_decode_bool(old(self)@, key).rest,
    {
        match self.read_encrypted_u8(key) {
            Ok(value) => Ok(value != 0),
            Err(error) => Err(error),
        }
    }

    /// Reads a masked big-endian 32-bit value.
    pub fn read_encrypted_u32(&mut self, key: Key) -> (result: Result<u32, Error>)
        ensures
            result == spec_decode_u32(old(self)@, key).value,
            final(self)@ == spec_decode_u32(old(self)@, key).rest,
    {
        match self.read_u32_be() {
            Ok(raw) => Ok(key.0 ^ raw),
            Err(error) => Err(error),
        }
    }

    /// Reads a masked length byte and refuses one whose top bit is set.
    pub fn read_encrypted_varint(&mut self, key: Key) -> (result: Result<usize, Error>)
        ensures
            match result {
                Ok(n) => spec_decode_varint(old(self)@, key).value == Ok::<nat, Error>(n as nat),
                Err(error) => spec_decode_varint(old(self)@, key).value == Err::<nat, Error>(error),
            },
            final(self)@ == spec_decode_varint(old(self)@, key).rest,
    {
        match self.read_encrypted_u8(key) {
            Err(error) => Err(error),
            Ok(value) => {
                assert((value & 0x80 != 0) == (value > 127) && (value & 0x7f) <= 127 && (value
                    <= 127 ==> value & 0x7f == value)) by (bit_vector);
                if value & 0x80 != 0 {
                    Err(Error::VarIntSupportNotImplemented)
                } else {
                    let length = value & 0x7f;
                    Ok(length as usize)
                }
            },
        }
    }

    /// Reads a length-prefixed run of masked bytes.
    pub fn read_encrypted_bytes(&mut self, key: Key) -> (result: Result<Vec<u8>, Error>)
        ensures
            spec_result_view(result) == spec_decode_bytes(old(self)@, key).value,
            final(self)@ == spec_decode_bytes(old(self)@, key).rest,
    {
        let length = match self.read_encrypted_varint(key) {
            Ok(length) => length,
            Err(error) => {
                return Err(error);
            },
        };
        let mut bytes = match self.read_bytes(length) {
            Ok(bytes) => bytes,
            Err(error) => {
                return Err(error);
            },
        };
        mask_in_place(&mut bytes, key);
        Ok(bytes)
    }

    /// Reads a length-prefixed masked text.
    pub fn read_encrypted_string(&mut self, key: Key) -> (result: Result<String, Error>)
        ensures
            spec_result_view(result) == spec_decode_string(old(self)@, key).value,
            final(self)@ == spec_decode_string(old(self)@, key).rest,
    {
        let bytes = match self.read_encrypted_bytes(key) {
            Ok(bytes) => bytes,
            Err(error) => {
                return Err(error);
            },
        };
        match string_from_utf8(bytes) {
            Some(text) => {
                proof {
                    vstd::utf8::encode_utf8_decode_utf8(text@);
                }
                Ok(text)
            },
            None => Err(Error::Utf8),
        }
    }
}

impl Writer {
    /// Writes a masked byte.
    pub fn write_encrypted_u8(&mut self, value: u8, key: Key)
        ensures
            final(self)@ == old(self)@ + spec_encode_u8(value, key),
    {
        self.write_u8(key.mask_u8() ^ value);
        assert(self@ =~= old(self)@ + spec_encode_u8(value, key));
    }

    /// Writes a masked flag.
    pub fn write_encrypted_bool(&mut self, value: bool, key: Key)
        ensures
            final(self)@ == old(self)@ + spec_encode_bool(value, key),
    {
        let byte: u8 = if value {
            1
        } else {
            0
        };
        self.write_encrypted_u8(byte, key);
    }

    /// Writes a masked 32-bit value, most significant byte first.
    pub fn write_encrypted_u32(&mut self, value: u32, key: Key)
        ensures
            final(self)@ == old(self)@ + spec_encode_u32(value, key),
    {
        self.write_u32_be(key.0 ^ value);
    }

    /// Writes a masked length byte, or refuses a length that needs more than
    /// seven bits and writes nothing.
    pub fn write_encrypted_varint(&mut self, value: usize, key: Key) -> (result: Result<(), Error>)
        ensures
            result == spec_encode_varint(value as nat, key).outcome,
            final(self)@ == old(self)@ + spec_encode_varint(value as nat, key).bytes,
    {
        if value > MAX_PREFIXED_LEN {
            assert(self@ =~= old(self)@ + Seq::<u8>::empty());
            Err(Error::VarIntSupportNotImplemented)
        } else {
            self.write_encrypted_u8(value as u8, key);
            Ok(())
        }
    }

    /// Writes a length-prefixed run of masked bytes, or refuses a run of more
    /// than 127 bytes and writes nothing.
    pub fn write_encrypted_bytes(&mut self, bytes: &[u8], key: Key) -> (result: Result<(), Error>)
        ensures
            result == spec_encode_bytes(bytes@, key).outcome,
            final(self)@ == old(self)@ + spec_encode_bytes(bytes@, key).bytes,
    {
        match self.write_encrypted_varint(bytes.len(), key) {
            Ok(_) => {},
            Err(error) => {
                return Err(error);
            },
        }
        let ghost prefixed = self@;
        let mut i: usize = 0;
        while i < bytes.len()
            invariant
                i <= bytes@.len(),
                self@ == prefixed + key.spec_xor_bytes(bytes@.take(i as int)),
            decreases bytes@.len() - i,
        {
            self.write_encrypted_u8(bytes[i], key);
            i = i + 1;
            assert(self@ =~= prefixed + key.spec_xor_bytes(bytes@.take(i as int)));
        }
        assert(bytes@.take(i as int) =~= bytes@);
        assert(self@ =~= old(self)@ + spec_encode_bytes(bytes@, key).bytes);
        Ok(())
    }

    /// Writes a text as a length-prefixed run of masked UTF-8 bytes, or
    /// refuses a text of more than 127 bytes and writes nothing.
    pub fn write_encrypted_string(&mut self, text: &str, key: Key) -> (result: Result<(), Error>)
        ensures
            result == spec_encode_string(text@, key).outcome,
            final(self)@ == old(self)@ + spec_encode_string(text@, key).bytes,
    {
        self.write_encrypted_bytes(text.as_bytes(), key)
    }
}

} // verus!
