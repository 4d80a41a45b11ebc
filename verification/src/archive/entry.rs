//! One file of an archive: its record and its content.

pub mod metadata;

pub use metadata::{Metadata, MetadataView};

use vstd::prelude::*;

verus! {

/// The record of a file together with its content.
pub struct Entry {
    pub metadata: Metadata,
    pub content: Vec<u8>,
}

impl Entry {
    /// An entry of the given record and content.
    pub fn new(metadata: Metadata, content: Vec<u8>) -> (entry: Entry)
        ensures
            entry.metadata == metadata,
            entry.content == content,
    {
        Entry { metadata, content }
    }
}

} // verus!
