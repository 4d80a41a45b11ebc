use vstd::prelude::*;

verus! {

/// Why a decode or an encode stopped.
#[derive(Debug, Clone, Copy, PartialEq, Eq, Structural)]
pub enum Error {
    /// The four signature bytes differ from `CAFF` and the reader enforces them.
    BadMagic,
    /// The file name of an entry decoded to the empty string.
    EmptyFilename,
    /// The byte source ended inside a region of fixed size.
    Io,
    /// A count or a length does not agree with the integer that has to carry
    /// it: there are more records than 32 bits can count, or a content is
    /// not as long as its record says.
    TryFromInt,
    /// The bytes of a length-prefixed text are not valid UTF-8.
    Utf8,
    /// A length does not fit in seven bits: the continuation bit of the
    /// length byte is reserved for an encoding that is not supported.
    VarIntSupportNotImplemented,
}

} // verus!
