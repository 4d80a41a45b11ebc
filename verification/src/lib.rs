//! Byte-exact codec for the CAFF archive container: a fixed header followed by
//! a body of obfuscated file entries and an opaque trailer.
//!
//! Every decoder is specified by a `spec_decode` function from the unread bytes
//! to the decoded value and the bytes left over, and every encoder by a
//! `spec_encode` function from the value to the bytes it emits.

pub mod archive;
pub mod endian;
pub mod error;
pub mod obfuscation;
pub mod padding;
pub mod stream;

pub use archive::{
    Archive, ArchiveView, Body, BodyView, ColorType, Entry, Header, ImageType, Key, Magic, Metadata,
    MetadataView, PreviewImage, Validation, Version,
};
pub use error::Error;
pub use padding::Padding;
pub use stream::{Decoded, Encoded, Reader, Writer};
