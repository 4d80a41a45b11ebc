//! The archive and its parts.

pub mod body;
pub mod entry;
pub mod header;
pub mod key;

pub use body::{Body, BodyView};
pub use entry::{Entry, Metadata, MetadataView};
pub use header::{ColorType, Header, ImageType, Magic, PreviewImage, Validation, Version};
pub use key::Key;

use crate::error::Error;
use crate::stream::{spec_result_view, Decoded, Encoded, Reader, Writer};
use vstd::prelude::*;

verus! {

/// A whole archive: the header and the body that its key masks.
#[derive(Debug, Clone, PartialEq, Eq, PartialOrd, Ord, Hash)]
pub struct Archive {
    pub header: Header,
    pub body: Body,
}

/// An archive with its body as sequences.
pub struct ArchiveView {
    pub header: Header,
    pub body: BodyView,
}

impl View for Archive {
    type V = ArchiveView;

    open spec fn view(&self) -> ArchiveView {
        ArchiveView { header: self.header, body: self.body@ }
    }
}

impl ArchiveView {
    /// The bytes of the archive: the header, then the body under the key that
    /// the header carries. Where the body is refused, the header and what
    /// the body emitted before the refusal stay.
    pub open spec fn spec_encode(self) -> Encoded {
        let body = self.body.spec_encode(self.header.key);
        Encoded { outcome: body.outcome, bytes: self.header.spec_encode() + body.bytes }
    }
}

impl ArchiveView {
    /// The bytes that stand for the content at `index` among the bytes of the
    /// archive.
    pub open spec fn spec_payload_on_wire(self, index: nat) -> Seq<u8> {
        let offset = self.header.spec_encode().len() + self.body.spec_payload_offset(
            self.header.key,
            index,
        );
        self.spec_encode().bytes.subrange(
            offset as int,
            (offset + self.body.data[index as int].len()) as int,
        )
    }
}

impl Archive {
    /// The archive that the bytes hold: the header, then the body under the
    /// key that the header carries.
    pub open spec fn spec_decode(bytes: Seq<u8>, validation: Validation) -> Decoded<ArchiveView> {
        let header = Header::spec_decode(bytes, validation);
        if header.value is Err {
            header.failed()
        } else {
            let body = Body::spec_decode(header.rest, header.value->Ok_0.key);
            if body.value is Err {
                body.failed()
            } else {
                Decoded {
                    value: Ok(ArchiveView { header: header.value->Ok_0, body: body.value->Ok_0 }),
                    rest: body.rest,
                }
            }
        }
    }

    /// Reads an archive, to the end of the source.
    pub fn read(reader: &mut Reader, validation: Validation) -> (result: Result<Archive, Error>)
        ensures
            spec_result_view(result) == Archive::spec_decode(old(reader)@, validation).value,
            final(reader)@ == Archive::spec_decode(old(reader)@, validation).rest,
            result matches Ok(archive) ==> archive@.body.spec_consistent(),
    {
        let header = Header::read(reader, validation)?;
        let body = Body::read(reader, header.key)?;
        Ok(Archive { header, body })
    }

    /// Writes the archive: the header, then the body under the key of that
    /// header. Where the body is refused, the header is written already.
    pub fn write(&self, writer: &mut Writer) -> (result: Result<(), Error>)
        ensures
            result == self@.spec_encode().outcome,
            final(writer)@ == old(writer)@ + self@.spec_encode().bytes,
    {
        self.header.write(writer)?;
        let result = self.body.write(writer, self.header.key);
        assert(writer@ =~= old(writer)@ + self@.spec_encode().bytes);
        result
    }
}

/// Among the bytes of an archive that is written, each content stands as its
/// record says: masked byte by byte with the low eight bits of the key of the
/// header where the record says that it is masked, and exactly as it is in
/// memory where it does not, whatever that key is.
pub proof fn lemma_payload_on_wire(archive: ArchiveView, index: nat)
    requires
        archive.spec_encode().outcome is Ok,
        index < archive.body.data.len(),
    ensures
        archive.spec_payload_on_wire(index) == body::spec_payload(
            archive.body.metadata[index as int],
            archive.body.data[index as int],
            archive.header.key,
        ),
        !archive.body.metadata[index as int].is_obfuscated ==> archive.spec_payload_on_wire(index)
            == archive.body.data[index as int],
{
    let key = archive.header.key;
    let header = archive.header.spec_encode();
    let wire = archive.body.spec_encode(key).bytes;
    let offset = archive.body.spec_payload_offset(key, index);
    let len = archive.body.data[index as int].len();
    body::lemma_payload_on_wire(archive.body, key, index);
    body::lemma_encode_payloads_prefix(
        archive.body.metadata,
        archive.body.data,
        key,
        index + 1,
        archive.body.data.len(),
    );
    key.lemma_xor_bytes_involution(archive.body.data[index as int]);
    assert(offset + len <= wire.len());
    assert((header + wire).subrange((header.len() + offset) as int, (header.len() + offset + len) as int)
        =~= wire.subrange(offset as int, (offset + len) as int));
}

/// An archive that is written without being refused, and in which each
/// record has a name that is not empty, is read back as the same archive,
/// opaque bytes included. Under strict validation this asks for a header with
/// the right signature.
pub proof fn lemma_archive_round_trip(archive: ArchiveView, validation: Validation)
    requires
        archive.body.spec_named(),
        archive.spec_encode().outcome is Ok,
        validation == Validation::Advisory || archive.header.archive_magic.spec_is_valid(),
    ensures
        Archive::spec_decode(archive.spec_encode().bytes, validation).value == Ok::<
            ArchiveView,
            Error,
        >(archive),
        Archive::spec_decode(archive.spec_encode().bytes, validation).rest == Seq::<u8>::empty(),
{
    let key = archive.header.key;
    archive.header.lemma_round_trip(validation, archive.body.spec_encode(key).bytes);
    body::lemma_body_round_trip(archive.body, key);
}

} // verus!
