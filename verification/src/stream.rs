//! The byte source that decoders advance through and the byte sink that
//! encoders append to.

use crate::endian::{
    be_read_u16, be_read_u32, be_write_u16, be_write_u32, spec_u16_from_be, spec_u16_to_be,
    spec_u32_from_be, spec_u32_to_be,
};
use crate::error::Error;
use vstd::prelude::*;

verus! {

/// What a decoder makes of a run of unread bytes: the value or the error, and
/// the bytes that are still unread afterwards.
pub struct Decoded<T> {
    pub value: Result<T, Error>,
    pub rest: Seq<u8>,
}

impl<T> Decoded<T> {
    /// The same failure and the same unread bytes, for a decoder of another type.
    pub open spec fn failed<U>(self) -> Decoded<U>
        recommends
            self.value is Err,
    {
        Decoded { value: Err(self.value->Err_0), rest: self.rest }
    }
}

/// What an encoder emits for a value: the bytes appended to the sink, and
/// whether it finished. Bytes emitted before a failure stay in the sink.
pub struct Encoded {
    pub outcome: Result<(), Error>,
    pub bytes: Seq<u8>,
}

/// The array that holds exactly the elements of `bytes`.
pub open spec fn spec_array<const N: usize>(bytes: Seq<u8>) -> [u8; N]
    recommends
        bytes.len() == N,
{
    choose|array: [u8; N]| array@ == bytes
}

/// An array is the one that holds its own elements.
pub proof fn lemma_spec_array_of_view<const N: usize>(array: [u8; N])
    ensures
        spec_array::<N>(array@) == array,
{
    let chosen = spec_array::<N>(array@);
    assert(chosen@ == array@);
    assert(chosen =~= array);
}

/// The array made of `N` bytes holds exactly those bytes.
pub proof fn lemma_spec_array_view<const N: usize>(bytes: Seq<u8>)
    requires
        bytes.len() == N,
    ensures
        spec_array::<N>(bytes)@ == bytes,
{
    let filled = array_from_seq::<N>(bytes, N as nat);
    lemma_array_from_seq::<N>(bytes, N as nat);
    assert(filled@ =~= bytes);
}

/// An array whose first `n` elements are those of `bytes`.
spec fn array_from_seq<const N: usize>(bytes: Seq<u8>, n: nat) -> [u8; N]
    decreases n,
{
    if n == 0 {
        vstd::array::spec_array_fill_for_copy_type::<u8, N>(0u8)
    } else {
        vstd::array::spec_array_update(
            array_from_seq::<N>(bytes, (n - 1) as nat),
            n - 1,
            bytes[n - 1],
        )
    }
}

/// The array built from `bytes` agrees with `bytes` on its first `n` elements.
proof fn lemma_array_from_seq<const N: usize>(bytes: Seq<u8>, n: nat)
    requires
        n <= N,
        bytes.len() == N,
    ensures
        forall|i: int| 0 <= i < n ==> array_from_seq::<N>(bytes, n)@[i] == bytes[i],
    decreases n,
{
    if n > 0 {
        lemma_array_from_seq::<N>(bytes, (n - 1) as nat);
    }
}

/// The view of a successful result, or its error.
pub open spec fn spec_result_view<T: View>(result: Result<T, Error>) -> Result<T::V, Error> {
    match result {
        Ok(value) => Ok(value@),
        Err(error) => Err(error),
    }
}

/// Taking `n` bytes: they are there, or the source ends inside the region and
/// is left exhausted.
pub open spec fn spec_take(bytes: Seq<u8>, n: nat) -> Decoded<Seq<u8>> {
    if bytes.len() >= n {
        Decoded { value: Ok(bytes.take(n as int)), rest: bytes.skip(n as int) }
    } else {
        Decoded { value: Err(Error::Io), rest: Seq::empty() }
    }
}

/// Taking one byte.
pub open spec fn spec_take_u8(bytes: Seq<u8>) -> Decoded<u8> {
    if bytes.len() >= 1 {
        Decoded { value: Ok(bytes[0]), rest: bytes.skip(1) }
    } else {
        Decoded { value: Err(Error::Io), rest: Seq::empty() }
    }
}

/// Taking `N` bytes as an array.
pub open spec fn spec_take_array<const N: usize>(bytes: Seq<u8>) -> Decoded<[u8; N]> {
    if bytes.len() >= N {
        Decoded { value: Ok(spec_array::<N>(bytes.take(N as int))), rest: bytes.skip(N as int) }
    } else {
        Decoded { value: Err(Error::Io), rest: Seq::empty() }
    }
}

/// The signed reading of a byte, in two's complement.
pub open spec fn spec_i8_of_u8(byte: u8) -> i8 {
    if byte < 128 {
        byte as i8
    } else {
        (byte - 256) as i8
    }
}

/// The byte that holds a signed value in two's complement.
pub open spec fn spec_u8_of_i8(value: i8) -> u8 {
    if value >= 0 {
        value as u8
    } else {
        (value + 256) as u8
    }
}

/// Taking one byte as a signed value.
pub open spec fn spec_take_i8(bytes: Seq<u8>) -> Decoded<i8> {
    if bytes.len() >= 1 {
        Decoded { value: Ok(spec_i8_of_u8(bytes[0])), rest: bytes.skip(1) }
    } else {
        Decoded { value: Err(Error::Io), rest: Seq::empty() }
    }
}

/// Taking two bytes as a big-endian value.
pub open spec fn spec_take_u16_be(bytes: Seq<u8>) -> Decoded<u16> {
    if bytes.len() >= 2 {
        Decoded { value: Ok(spec_u16_from_be(bytes.take(2))), rest: bytes.skip(2) }
    } else {
        Decoded { value: Err(Error::Io), rest: Seq::empty() }
    }
}

/// Taking four bytes as a big-endian value.
pub open spec fn spec_take_u32_be(bytes: Seq<u8>) -> Decoded<u32> {
    if bytes.len() >= 4 {
        Decoded { value: Ok(spec_u32_from_be(bytes.take(4))), rest: bytes.skip(4) }
    } else {
        Decoded { value: Err(Error::Io), rest: Seq::empty() }
    }
}

/// A cursor over a buffer of bytes. Its view is the bytes not yet read.
pub struct Reader {
    data: Vec<u8>,
    position: usize,
}

impl View for Reader {
    type V = Seq<u8>;

    closed spec fn view(&self) -> Seq<u8> {
        self.data@.skip(self.position as int)
    }
}

impl Reader {
    #[verifier::type_invariant]
    spec fn well_formed(&self) -> bool {
        self.position <= self.data@.len()
    }

    /// A reader at the start of `data`.
    pub fn new(data: Vec<u8>) -> (reader: Reader)
        ensures
            reader@ == data@,
    {
        Reader { data, position: 0 }
    }

    /// The number of bytes not yet read.
    pub fn remaining(&self) -> (count: usize)
        ensures
            count == self@.len(),
    {
        proof {
            use_type_invariant(self);
        }
        self.data.len() - self.position
    }

    /// Reads one byte.
    pub fn read_u8(&mut self) -> (result: Result<u8, Error>)
        ensures
            result == spec_take_u8(old(self)@).value,
            final(self)@ == spec_take_u8(old(self)@).rest,
    {
        proof {
            use_type_invariant(&*self);
        }
        if self.position < self.data.len() {
            let byte = self.data[self.position];
            self.position = self.position + 1;
            assert(self@ =~= old(self)@.skip(1));
            Ok(byte)
        } else {
            assert(self@ =~= Seq::<u8>::empty());
            Err(Error::Io)
        }
    }

    /// Reads `n` bytes, or exhausts the source where fewer are left.
    pub fn read_bytes(&mut self, n: usize) -> (result: Result<Vec<u8>, Error>)
        ensures
            spec_result_view(result) == spec_take(old(self)@, n as nat).value,
            final(self)@ == spec_take(old(self)@, n as nat).rest,
    {
        proof {
            use_type_invariant(&*self);
        }
        let start = self.position;
        if self.data.len() - start < n {
            self.position = self.data.len();
            assert(self@ =~= Seq::<u8>::empty());
            return Err(Error::Io);
        }
        let mut bytes: Vec<u8> = Vec::with_capacity(n);
        let mut i: usize = 0;
        while i < n
            invariant
                i <= n,
                start + n <= self.data@.len() <= usize::MAX,
                self.data@ == old(self).data@,
                self.position == start,
                bytes@ == self.data@.subrange(start as int, start + i),
            decreases n - i,
        {
            bytes.push(self.data[start + i]);
            i = i + 1;
            assert(bytes@ =~= self.data@.subrange(start as int, start + i));
        }
        self.position = start + n;
        assert(self@ =~= old(self)@.skip(n as int));
        assert(bytes@ =~= old(self)@.take(n as int));
        Ok(bytes)
    }

    /// Reads `N` bytes into an array, or exhausts the source where fewer are left.
    pub fn read_array<const N: usize>(&mut self) -> (result: Result<[u8; N], Error>)
        ensures
            result == spec_take_array::<N>(old(self)@).value,
            final(self)@ == spec_take_array::<N>(old(self)@).rest,
    {
        proof {
            use_type_invariant(&*self);
        }
        let start = self.position;
        if self.data.len() - start < N {
            self.position = self.data.len();
            assert(self@ =~= Seq::<u8>::empty());
            return Err(Error::Io);
        }
        let mut bytes = [0u8; N];
        let mut i: usize = 0;
        while i < N
            invariant
                i <= N,
                start + N <= self.data@.len() <= usize::MAX,
                self.data@ == old(self).data@,
                self.position == start,
                forall|j: int| 0 <= j < i ==> bytes@[j] == self.data@[start + j],
            decreases N - i,
        {
            bytes[i] = self.data[start + i];
            i = i + 1;
        }
        self.position = start + N;
        proof {
            assert(self@ =~= old(self)@.skip(N as int));
            assert(bytes@ =~= old(self)@.take(N as int));
            lemma_spec_array_of_view::<N>(bytes);
        }
        Ok(bytes)
    }

    /// Reads one byte as a signed value.
    pub fn read_i8(&mut self) -> (result: Result<i8, Error>)
        ensures
            result == spec_take_i8(old(self)@).value,
            final(self)@ == spec_take_i8(old(self)@).rest,
    {
        match self.read_u8() {
            Ok(byte) => {
                if byte < 128 {
                    Ok(byte as i8)
                } else {
                    Ok((byte as i16 - 256) as i8)
                }
            },
            Err(error) => Err(error),
        }
    }

    /// Reads two bytes as a big-endian value.
    pub fn read_u16_be(&mut self) -> (result: Result<u16, Error>)
        ensures
            result == spec_take_u16_be(old(self)@).value,
            final(self)@ == spec_take_u16_be(old(self)@).rest,
    {
        match self.read_array::<2>() {
            Ok(buf) => {
                proof {
                    lemma_spec_array_view::<2>(old(self)@.take(2));
                }
                Ok(be_read_u16(&buf))
            },
            Err(error) => Err(error),
        }
    }

    /// Reads four bytes as a big-endian value.
    pub fn read_u32_be(&mut self) -> (result: Result<u32, Error>)
        ensures
            result == spec_take_u32_be(old(self)@).value,
            final(self)@ == spec_take_u32_be(old(self)@).rest,
    {
        match self.read_array::<4>() {
            Ok(buf) => {
                proof {
                    lemma_spec_array_view::<4>(old(self)@.take(4));
                }
                Ok(be_read_u32(&buf))
            },
            Err(error) => Err(error),
        }
    }

    /// Reads everything that is left.
    pub fn read_to_end(&mut self) -> (bytes: Vec<u8>)
        ensures
            bytes@ == old(self)@,
            final(self)@ == Seq::<u8>::empty(),
    {
        proof {
            use_type_invariant(&*self);
        }
        let n = self.data.len() - self.position;
        match self.read_bytes(n) {
            Ok(bytes) => {
                assert(old(self)@.take(n as int) =~= old(self)@);
                assert(old(self)@.skip(n as int) =~= Seq::<u8>::empty());
                bytes
            },
            Err(_) => Vec::new(),
        }
    }
}

/// A growing buffer of bytes. Its view is the bytes written so far.
pub struct Writer {
    bytes: Vec<u8>,
}

impl View for Writer {
    type V = Seq<u8>;

    closed spec fn view(&self) -> Seq<u8> {
        self.bytes@
    }
}

impl Writer {
    /// A writer that holds nothing yet.
    pub fn new() -> (writer: Writer)
        ensures
            writer@ == Seq::<u8>::empty(),
    {
        Writer { bytes: Vec::new() }
    }

    /// The bytes written so far.
    pub fn into_bytes(self) -> (bytes: Vec<u8>)
        ensures
            bytes@ == self@,
    {
        self.bytes
    }

    /// Appends one byte.
    pub fn write_u8(&mut self, byte: u8)
        ensures
            final(self)@ == old(self)@.push(byte),
    {
        self.bytes.push(byte);
    }

    /// Appends a signed value as one byte.
    pub fn write_i8(&mut self, value: i8)
        ensures
            final(self)@ == old(self)@.push(spec_u8_of_i8(value)),
    {
        if value >= 0 {
            self.write_u8(value as u8);
        } else {
            self.write_u8((value as i16 + 256) as u8);
        }
    }

    /// Appends a value as two bytes, most significant first.
    pub fn write_u16_be(&mut self, value: u16)
        ensures
            final(self)@ == old(self)@ + spec_u16_to_be(value),
    {
        let buf = be_write_u16(value);
        self.write_all(&buf);
    }

    /// Appends a value as four bytes, most significant first.
    pub fn write_u32_be(&mut self, value: u32)
        ensures
            final(self)@ == old(self)@ + spec_u32_to_be(value),
    {
        let buf = be_write_u32(value);
        self.write_all(&buf);
    }

    /// Appends the bytes of `bytes` in order.
    pub fn write_all(&mut self, bytes: &[u8])
        ensures
            final(self)@ == old(self)@ + bytes@,
    {
        let mut i: usize = 0;
        while i < bytes.len()
            invariant
                i <= bytes@.len(),
                self@ == old(self)@ + bytes@.take(i as int),
            decreases bytes@.len() - i,
        {
            self.bytes.push(bytes[i]);
            i = i + 1;
            assert(self@ =~= old(self)@ + bytes@.take(i as int));
        }
        assert(bytes@.take(i as int) =~= bytes@);
    }
}

} // verus!
