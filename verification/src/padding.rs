//! Regions of fixed size whose meaning is not known. They are carried through
//! a decode and an encode byte for byte.

use crate::error::Error;
use crate::stream::{
    lemma_spec_array_of_view, lemma_spec_array_view, spec_take_array, Decoded, Reader, Writer,
};
use vstd::prelude::*;
use vstd::std_specs::convert::FromSpecImpl;

verus! {

/// `N` opaque bytes.
#[derive(Debug, Clone, Copy, PartialEq, Eq, PartialOrd, Ord, Hash)]
pub struct Padding<const N: usize>(pub [u8; N]);

impl<const N: usize> View for Padding<N> {
    type V = Seq<u8>;

    open spec fn view(&self) -> Seq<u8> {
        self.0@
    }
}

impl<const N: usize> Padding<N> {
    /// Every byte is zero.
    pub open spec fn spec_is_empty(&self) -> bool {
        forall|i: int| 0 <= i < N ==> self@[i] == 0
    }

    /// Every byte has all its bits set.
    pub open spec fn spec_is_all_u8_max(&self) -> bool {
        forall|i: int| 0 <= i < N ==> self@[i] == u8::MAX
    }

    /// The region that the next `N` bytes form.
    pub open spec fn spec_decode(bytes: Seq<u8>) -> Decoded<Padding<N>> {
        let taken = spec_take_array::<N>(bytes);
        match taken.value {
            Ok(array) => Decoded { value: Ok(Padding(array)), rest: taken.rest },
            Err(error) => Decoded { value: Err(error), rest: taken.rest },
        }
    }

    /// The bytes of the region, as they are.
    pub open spec fn spec_encode(self) -> Seq<u8> {
        self@
    }

    /// Whether every byte is zero.
    pub fn is_empty(&self) -> (empty: bool)
        ensures
            empty == self.spec_is_empty(),
    {
        let mut i: usize = 0;
        while i < N
            invariant
                i <= N,
                forall|j: int| 0 <= j < i ==> self@[j] == 0,
            decreases N - i,
        {
            if self.0[i] != 0 {
                assert(self@[i as int] != 0);
                return false;
            }
            i = i + 1;
        }
        true
    }

    /// Whether every byte has all its bits set.
    pub fn is_all_u8_max(&self) -> (all_max: bool)
        ensures
            all_max == self.spec_is_all_u8_max(),
    {
        let mut i: usize = 0;
        while i < N
            invariant
                i <= N,
                forall|j: int| 0 <= j < i ==> self@[j] == u8::MAX,
            decreases N - i,
        {
            if self.0[i] != u8::MAX {
                assert(self@[i as int] != u8::MAX);
                return false;
            }
            i = i + 1;
        }
        true
    }

    /// The bytes of the region.
    pub fn into_inner(self) -> (bytes: [u8; N])
        ensures
            bytes == self.0,
    {
        self.0
    }

    /// Reads `N` bytes as they are.
    pub fn read(reader: &mut Reader) -> (result: Result<Padding<N>, Error>)
        ensures
            result == Padding::<N>::spec_decode(old(reader)@).value,
            final(reader)@ == Padding::<N>::spec_decode(old(reader)@).rest,
    {
        match reader.read_array::<N>() {
            Ok(bytes) => Ok(Padding(bytes)),
            Err(error) => Err(error),
        }
    }

    /// Writes the `N` bytes as they are.
    pub fn write(self, writer: &mut Writer) -> (result: Result<(), Error>)
        ensures
            result == Ok::<(), Error>(()),
            final(writer)@ == old(writer)@ + self.spec_encode(),
    {
        writer.write_all(&self.0);
        Ok(())
    }

    /// Reading back a written region gives the region, whatever its bytes
    /// are and whatever follows them.
    pub proof fn lemma_round_trip(self, tail: Seq<u8>)
        ensures
            Padding::<N>::spec_decode(self.spec_encode() + tail).value == Ok::<Padding<N>, Error>(
                self,
            ),
            Padding::<N>::spec_decode(self.spec_encode() + tail).rest == tail,
            self.spec_encode().len() == N,
    {
        let written = self.spec_encode() + tail;
        assert(written.take(N as int) =~= self.0@);
        assert(written.skip(N as int) =~= tail);
        lemma_spec_array_of_view::<N>(self.0);
    }

    /// Writing a decoded region gives the bytes it was decoded from.
    pub proof fn lemma_decode_then_encode(bytes: Seq<u8>)
        requires
            bytes.len() >= N,
        ensures
            Padding::<N>::spec_decode(bytes).value.unwrap().spec_encode() == bytes.take(N as int),
    {
        lemma_spec_array_view::<N>(bytes.take(N as int));
    }
}

impl<const N: usize> From<[u8; N]> for Padding<N> {
    fn from(value: [u8; N]) -> (padding: Padding<N>) {
        Padding(value)
    }
}

impl<const N: usize> FromSpecImpl<[u8; N]> for Padding<N> {
    open spec fn obeys_from_spec() -> bool {
        true
    }

    open spec fn from_spec(value: [u8; N]) -> Padding<N> {
        Padding(value)
    }
}

impl<const N: usize> From<Padding<N>> for [u8; N] {
    fn from(value: Padding<N>) -> (bytes: [u8; N]) {
        value.into_inner()
    }
}

impl<const N: usize> FromSpecImpl<Padding<N>> for [u8; N] {
    open spec fn obeys_from_spec() -> bool {
        true
    }

    open spec fn from_spec(value: Padding<N>) -> [u8; N] {
        value.0
    }
}

impl<const N: usize> Default for Padding<N> {
    fn default() -> (padding: Padding<N>)
        ensures
            padding.spec_is_empty(),
    {
        Padding([0u8; N])
    }
}

} // verus!
