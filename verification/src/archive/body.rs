//! What follows the header: the records of the files, their contents, and
//! whatever trails them.

use crate::archive::entry::metadata::{Metadata, MetadataView};
use crate::archive::key::Key;
use crate::error::Error;
use crate::obfuscation::{mask_in_place, spec_decode_u32, spec_encode_u32};
use crate::stream::{spec_result_view, spec_take, Decoded, Encoded, Reader, Writer};
use vstd::prelude::*;

verus! {

/// The body of an archive. The content at an index belongs to the record at
/// that index.
#[derive(Debug, Clone, PartialEq, Eq, PartialOrd, Ord, Hash)]
pub struct Body {
    pub metadata: Vec<Metadata>,
    pub data: Vec<Vec<u8>>,
    pub trailing: Vec<u8>,
}

/// A body as sequences: the records, the contents and the trailing bytes.
pub struct BodyView {
    pub metadata: Seq<MetadataView>,
    pub data: Seq<Seq<u8>>,
    pub trailing: Seq<u8>,
}

/// The views of a run of records.
pub open spec fn spec_records_view(records: Seq<Metadata>) -> Seq<MetadataView> {
    Seq::new(records.len(), |i: int| records[i]@)
}

/// The views of a run of contents.
pub open spec fn spec_contents_view(contents: Seq<Vec<u8>>) -> Seq<Seq<u8>> {
    Seq::new(contents.len(), |i: int| contents[i]@)
}

impl View for Body {
    type V = BodyView;

    open spec fn view(&self) -> BodyView {
        BodyView {
            metadata: spec_records_view(self.metadata@),
            data: spec_contents_view(self.data@),
            trailing: self.trailing@,
        }
    }
}

/// The bytes that stand for a content on the wire: masked byte by byte where
/// its record says so, and as they are where it does not.
pub open spec fn spec_payload(record: MetadataView, content: Seq<u8>, key: Key) -> Seq<u8> {
    if record.is_obfuscated {
        key.spec_xor_bytes(content)
    } else {
        content
    }
}

/// The first `count` records written one after the other. The first record
/// that is refused ends the run; what was emitted up to there stays.
pub open spec fn spec_encode_records(records: Seq<MetadataView>, key: Key, count: nat) -> Encoded
    decreases count,
{
    if count == 0 {
        Encoded { outcome: Ok(()), bytes: Seq::empty() }
    } else {
        let before = spec_encode_records(records, key, (count - 1) as nat);
        if before.outcome is Err {
            before
        } else {
            let last = records[count - 1].spec_encode(key);
            Encoded { outcome: last.outcome, bytes: before.bytes + last.bytes }
        }
    }
}

/// The first `count` contents as they stand on the wire, one after the other.
pub open spec fn spec_encode_payloads(
    records: Seq<MetadataView>,
    contents: Seq<Seq<u8>>,
    key: Key,
    count: nat,
) -> Seq<u8>
    decreases count,
{
    if count == 0 {
        Seq::empty()
    } else {
        spec_encode_payloads(records, contents, key, (count - 1) as nat) + spec_payload(
            records[count - 1],
            contents[count - 1],
            key,
        )
    }
}

/// `count` records decoded one after the other. The first failure ends the run.
pub open spec fn spec_decode_records(bytes: Seq<u8>, key: Key, count: nat) -> Decoded<
    Seq<MetadataView>,
>
    decreases count,
{
    if count == 0 {
        Decoded { value: Ok(Seq::empty()), rest: bytes }
    } else {
        let before = spec_decode_records(bytes, key, (count - 1) as nat);
        if before.value is Err {
            before
        } else {
            let last = Metadata::spec_decode(before.rest, key);
            if last.value is Err {
                last.failed()
            } else {
                Decoded { value: Ok(before.value->Ok_0.push(last.value->Ok_0)), rest: last.rest }
            }
        }
    }
}

/// The contents of the first `count` records decoded one after the other:
/// for each record as many bytes as its size says, with the mask taken off
/// where the record says that the content is masked.
pub open spec fn spec_decode_payloads(
    bytes: Seq<u8>,
    key: Key,
    records: Seq<MetadataView>,
    count: nat,
) -> Decoded<Seq<Seq<u8>>>
    decreases count,
{
    if count == 0 {
        Decoded { value: Ok(Seq::empty()), rest: bytes }
    } else {
        let before = spec_decode_payloads(bytes, key, records, (count - 1) as nat);
        if before.value is Err {
            before
        } else {
            let record = records[count - 1];
            let taken = spec_take(before.rest, record.file_size as nat);
            if taken.value is Err {
                taken.failed()
            } else {
                Decoded {
                    value: Ok(
                        before.value->Ok_0.push(spec_payload(record, taken.value->Ok_0, key)),
                    ),
                    rest: taken.rest,
                }
            }
        }
    }
}

impl BodyView {
    /// There is one content for each record, and each content is as long as
    /// its record says.
    pub open spec fn spec_consistent(self) -> bool {
        &&& self.metadata.len() == self.data.len()
        &&& forall|i: int|
            0 <= i < self.metadata.len() ==> self.data[i].len() == (
            #[trigger] self.metadata[i]).file_size
    }

    /// The bytes of the body under `key`: the masked number of records, the
    /// records, the contents, the trailing bytes. A body in which a content
    /// does not match its record, or with more records than 32 bits can
    /// count, is refused before anything is emitted; a record that is refused
    /// ends the encode, and what was emitted before it stays.
    pub open spec fn spec_encode(self, key: Key) -> Encoded {
        if !self.spec_consistent() || self.metadata.len() > u32::MAX {
            Encoded { outcome: Err(Error::TryFromInt), bytes: Seq::empty() }
        } else {
            let count = spec_encode_u32(self.metadata.len() as u32, key);
            let records = spec_encode_records(self.metadata, key, self.metadata.len());
            if records.outcome is Err {
                Encoded { outcome: records.outcome, bytes: count + records.bytes }
            } else {
                Encoded {
                    outcome: Ok(()),
                    bytes: count + records.bytes + spec_encode_payloads(
                        self.metadata,
                        self.data,
                        key,
                        self.data.len(),
                    ) + self.trailing,
                }
            }
        }
    }

    /// Where the content at `index` begins among the bytes of the body: after
    /// the number of records, the records and the contents before it.
    pub open spec fn spec_payload_offset(self, key: Key, index: nat) -> nat {
        (spec_encode_u32(self.metadata.len() as u32, key) + spec_encode_records(
            self.metadata,
            key,
            self.metadata.len(),
        ).bytes + spec_encode_payloads(self.metadata, self.data, key, index)).len()
    }

    /// The bytes that stand for the content at `index` among the bytes of the body.
    pub open spec fn spec_payload_on_wire(self, key: Key, index: nat) -> Seq<u8> {
        self.spec_encode(key).bytes.subrange(
            self.spec_payload_offset(key, index) as int,
            (self.spec_payload_offset(key, index) + self.data[index as int].len()) as int,
        )
    }

    /// Every record has a name that is not empty.
    pub open spec fn spec_named(self) -> bool {
        forall|i: int|
            0 <= i < self.metadata.len() ==> (#[trigger] self.metadata[i]).file_name.len() > 0
    }
}

impl Body {
    /// The body that the bytes hold under `key`: the masked number of
    /// records, that many records, one content for each record, and all that
    /// is left as the trailing bytes.
    pub open spec fn spec_decode(bytes: Seq<u8>, key: Key) -> Decoded<BodyView> {
        let count = spec_decode_u32(bytes, key);
        if count.value is Err {
            count.failed()
        } else {
            let total = count.value->Ok_0 as nat;
            let records = spec_decode_records(count.rest, key, total);
            if records.value is Err {
                records.failed()
            } else {
                let contents = spec_decode_payloads(records.rest, key, records.value->Ok_0, total);
                if contents.value is Err {
                    contents.failed()
                } else {
                    Decoded {
                        value: Ok(
                            BodyView {
                                metadata: records.value->Ok_0,
                                data: contents.value->Ok_0,
                                trailing: contents.rest,
                            },
                        ),
                        rest: Seq::empty(),
                    }
                }
            }
        }
    }

    /// Whether there is one content for each record, as long as the record says.
    pub fn is_consistent(&self) -> (consistent: bool)
        ensures
            consistent == self@.spec_consistent(),
    {
        if self.metadata.len() != self.data.len() {
            return false;
        }
        let mut i: usize = 0;
        while i < self.metadata.len()
            invariant
                i <= self.metadata@.len(),
                self.metadata@.len() == self.data@.len(),
                forall|j: int|
                    0 <= j < i ==> self@.data[j].len() == (#[trigger] self@.metadata[j]).file_size,
            decreases self.metadata@.len() - i,
        {
            if self.data[i].len() != self.metadata[i].file_size as usize {
                assert(self@.data[i as int].len() != self@.metadata[i as int].file_size);
                return false;
            }
            i = i + 1;
        }
        true
    }

    /// Reads a body under `key`, to the end of the source.
    pub fn read(reader: &mut Reader, key: Key) -> (result: Result<Body, Error>)
        ensures
            spec_result_view(result) == Body::spec_decode(old(reader)@, key).value,
            final(reader)@ == Body::spec_decode(old(reader)@, key).rest,
            result matches Ok(body) ==> body@.spec_consistent(),
    {
        let total = reader.read_encrypted_u32(key)?;
        let metadata = read_records(reader, key, total)?;
        let data = read_payloads(reader, key, &metadata)?;
        let trailing = reader.read_to_end();
        Ok(Body { metadata, data, trailing })
    }

    /// Writes the body under `key`: the number of records, the records, the
    /// contents and the trailing bytes. Nothing is truncated or padded: a
    /// content that does not match its record ends the encode before
    /// anything is written.
    pub fn write(&self, writer: &mut Writer, key: Key) -> (result: Result<(), Error>)
        ensures
            result == self@.spec_encode(key).outcome,
            final(writer)@ == old(writer)@ + self@.spec_encode(key).bytes,
    {
        if !self.is_consistent() {
            assert(writer@ =~= old(writer)@ + Seq::<u8>::empty());
            return Err(Error::TryFromInt);
        }
        let total: u32 = match u32::try_from(self.metadata.len()) {
            Ok(total) => total,
            Err(_) => {
                assert(writer@ =~= old(writer)@ + Seq::<u8>::empty());
                return Err(Error::TryFromInt);
            },
        };
        writer.write_encrypted_u32(total, key);
        match write_records(&self.metadata, writer, key) {
            Ok(_) => {},
            Err(error) => {
                assert(writer@ =~= old(writer)@ + self@.spec_encode(key).bytes);
                return Err(error);
            },
        }
        write_payloads(&self.metadata, &self.data, writer, key);
        writer.write_all(self.trailing.as_slice());
        assert(writer@ =~= old(writer)@ + self@.spec_encode(key).bytes);
        Ok(())
    }
}

/// Reads `total` records one after the other.
fn read_records(reader: &mut Reader, key: Key, total: u32) -> (result: Result<
    Vec<Metadata>,
    Error,
>)
    ensures
        match result {
            Ok(records) => spec_decode_records(old(reader)@, key, total as nat).value == Ok::<
                Seq<MetadataView>,
                Error,
            >(spec_records_view(records@)) && records@.len() == total,
            Err(error) => spec_decode_records(old(reader)@, key, total as nat).value == Err::<
                Seq<MetadataView>,
                Error,
            >(error),
        },
        final(reader)@ == spec_decode_records(old(reader)@, key, total as nat).rest,
{
    let ghost start = reader@;
    let mut metadata: Vec<Metadata> = Vec::new();
    let mut i: u32 = 0;
    assert(spec_records_view(metadata@) =~= Seq::<MetadataView>::empty());
    while i < total
        invariant
            i <= total,
            start == old(reader)@,
            spec_decode_records(start, key, i as nat).value == Ok::<Seq<MetadataView>, Error>(
                spec_records_view(metadata@),
            ),
            spec_decode_records(start, key, i as nat).rest == reader@,
            metadata@.len() == i,
        decreases total - i,
    {
        let ghost before = spec_records_view(metadata@);
        let ghost unread = reader@;
        let record = match Metadata::read(reader, key) {
            Ok(record) => record,
            Err(error) => {
                proof {
                    assert(spec_decode_records(start, key, (i + 1) as nat)
                        == Metadata::spec_decode(unread, key).failed::<Seq<MetadataView>>());
                    lemma_decode_records_failure(start, key, (i + 1) as nat, total as nat);
                }
                return Err(error);
            },
        };
        metadata.push(record);
        i = i + 1;
        proof {
            assert(spec_records_view(metadata@) =~= before.push(record@));
            assert(spec_decode_records(start, key, i as nat).value == Ok::<
                Seq<MetadataView>,
                Error,
            >(before.push(record@)));
        }
    }
    Ok(metadata)
}

/// Reads the content of each record: as many bytes as the record says, with
/// the mask taken off where the record says that they are masked.
fn read_payloads(reader: &mut Reader, key: Key, metadata: &Vec<Metadata>) -> (result: Result<
    Vec<Vec<u8>>,
    Error,
>)
    ensures
        match result {
            Ok(contents) => {
                &&& spec_decode_payloads(
                    old(reader)@,
                    key,
                    spec_records_view(metadata@),
                    metadata@.len(),
                ).value == Ok::<Seq<Seq<u8>>, Error>(spec_contents_view(contents@))
                &&& contents@.len() == metadata@.len()
                &&& forall|k: int|
                    0 <= k < contents@.len() ==> (#[trigger] contents@[k])@.len()
                        == metadata@[k].file_size
            },
            Err(error) => spec_decode_payloads(
                old(reader)@,
                key,
                spec_records_view(metadata@),
                metadata@.len(),
            ).value == Err::<Seq<Seq<u8>>, Error>(error),
        },
        final(reader)@ == spec_decode_payloads(
            old(reader)@,
            key,
            spec_records_view(metadata@),
            metadata@.len(),
        ).rest,
{
    let ghost start = reader@;
    let ghost records = spec_records_view(metadata@);
    let mut data: Vec<Vec<u8>> = Vec::new();
    let mut j: usize = 0;
    assert(spec_contents_view(data@) =~= Seq::<Seq<u8>>::empty());
    while j < metadata.len()
        invariant
            j <= metadata@.len(),
            start == old(reader)@,
            records == spec_records_view(metadata@),
            spec_decode_payloads(start, key, records, j as nat).value == Ok::<
                Seq<Seq<u8>>,
                Error,
            >(spec_contents_view(data@)),
            spec_decode_payloads(start, key, records, j as nat).rest == reader@,
            data@.len() == j,
            forall|k: int| 0 <= k < j ==> (#[trigger] data@[k])@.len() == metadata@[k].file_size,
        decreases metadata@.len() - j,
    {
        let ghost before = spec_contents_view(data@);
        let ghost unread = reader@;
        let size = metadata[j].file_size;
        assert(records[j as int].file_size == size);
        let mut content = match reader.read_bytes(size as usize) {
            Ok(content) => content,
            Err(error) => {
                proof {
                    assert(spec_decode_payloads(start, key, records, (j + 1) as nat) == spec_take(
                        unread,
                        size as nat,
                    ).failed::<Seq<Seq<u8>>>());
                    lemma_decode_payloads_failure(
                        start,
                        key,
                        records,
                        (j + 1) as nat,
                        metadata@.len(),
                    );
                }
                return Err(error);
            },
        };
        let ghost raw = content@;
        if metadata[j].is_obfuscated {
            mask_in_place(&mut content, key);
        }
        proof {
            key.lemma_xor_bytes_involution(raw);
            assert(content@ == spec_payload(records[j as int], raw, key));
        }
        data.push(content);
        j = j + 1;
        proof {
            assert(spec_contents_view(data@) =~= before.push(content@));
            assert(spec_decode_payloads(start, key, records, j as nat).value == Ok::<
                Seq<Seq<u8>>,
                Error,
            >(before.push(content@)));
        }
    }
    Ok(data)
}

/// Writes the records one after the other, up to the first that is refused.
fn write_records(metadata: &Vec<Metadata>, writer: &mut Writer, key: Key) -> (result: Result<
    (),
    Error,
>)
    ensures
        result == spec_encode_records(
            spec_records_view(metadata@),
            key,
            metadata@.len(),
        ).outcome,
        final(writer)@ == old(writer)@ + spec_encode_records(
            spec_records_view(metadata@),
            key,
            metadata@.len(),
        ).bytes,
{
    let ghost records = spec_records_view(metadata@);
    let mut i: usize = 0;
    assert(writer@ =~= old(writer)@ + Seq::<u8>::empty());
    while i < metadata.len()
        invariant
            i <= metadata@.len(),
            records == spec_records_view(metadata@),
            spec_encode_records(records, key, i as nat).outcome == Ok::<(), Error>(()),
            writer@ == old(writer)@ + spec_encode_records(records, key, i as nat).bytes,
        decreases metadata@.len() - i,
    {
        let ghost before = spec_encode_records(records, key, i as nat).bytes;
        let ghost last = records[i as int].spec_encode(key);
        assert(metadata@[i as int]@ == records[i as int]);
        let outcome = metadata[i].write(writer, key);
        proof {
            assert(writer@ =~= old(writer)@ + (before + last.bytes));
            assert(spec_encode_records(records, key, (i + 1) as nat) == (Encoded {
                outcome: last.outcome,
                bytes: before + last.bytes,
            }));
        }
        match outcome {
            Ok(_) => {},
            Err(error) => {
                proof {
                    lemma_encode_records_failure(records, key, (i + 1) as nat, metadata@.len());
                }
                return Err(error);
            },
        }
        i = i + 1;
    }
    Ok(())
}

/// Writes the contents one after the other, each masked where its record
/// says so.
fn write_payloads(metadata: &Vec<Metadata>, data: &Vec<Vec<u8>>, writer: &mut Writer, key: Key)
    requires
        metadata@.len() == data@.len(),
    ensures
        final(writer)@ == old(writer)@ + spec_encode_payloads(
            spec_records_view(metadata@),
            spec_contents_view(data@),
            key,
            data@.len(),
        ),
{
    let ghost records = spec_records_view(metadata@);
    let ghost contents = spec_contents_view(data@);
    let mut j: usize = 0;
    assert(writer@ =~= old(writer)@ + Seq::<u8>::empty());
    while j < data.len()
        invariant
            j <= data@.len(),
            data@.len() == metadata@.len(),
            records == spec_records_view(metadata@),
            contents == spec_contents_view(data@),
            writer@ == old(writer)@ + spec_encode_payloads(records, contents, key, j as nat),
        decreases data@.len() - j,
    {
        let ghost before = writer@;
        let content = &data[j];
        assert(content@ == contents[j as int]);
        assert(metadata@[j as int].is_obfuscated == records[j as int].is_obfuscated);
        if metadata[j].is_obfuscated {
            let mut k: usize = 0;
            assert(before =~= before + key.spec_xor_bytes(content@.take(0)));
            while k < content.len()
                invariant
                    k <= content@.len(),
                    writer@ == before + key.spec_xor_bytes(content@.take(k as int)),
                decreases content@.len() - k,
            {
                writer.write_encrypted_u8(content[k], key);
                k = k + 1;
                assert(writer@ =~= before + key.spec_xor_bytes(content@.take(k as int)));
            }
            assert(content@.take(k as int) =~= content@);
        } else {
            writer.write_all(content.as_slice());
        }
        assert(writer@ == before + spec_payload(records[j as int], contents[j as int], key));
        j = j + 1;
        assert(writer@ =~= old(writer)@ + spec_encode_payloads(records, contents, key, j as nat));
    }
}

/// Once some record fails to decode, asking for more records fails alike.
pub proof fn lemma_decode_records_failure(bytes: Seq<u8>, key: Key, failed: nat, count: nat)
    requires
        failed <= count,
        spec_decode_records(bytes, key, failed).value is Err,
    ensures
        spec_decode_records(bytes, key, count) == spec_decode_records(bytes, key, failed),
    decreases count,
{
    if failed < count {
        lemma_decode_records_failure(bytes, key, failed, (count - 1) as nat);
    }
}

/// Once some content fails to decode, asking for more contents fails alike.
pub proof fn lemma_decode_payloads_failure(
    bytes: Seq<u8>,
    key: Key,
    records: Seq<MetadataView>,
    failed: nat,
    count: nat,
)
    requires
        failed <= count,
        spec_decode_payloads(bytes, key, records, failed).value is Err,
    ensures
        spec_decode_payloads(bytes, key, records, count) == spec_decode_payloads(
            bytes,
            key,
            records,
            failed,
        ),
    decreases count,
{
    if failed < count {
        lemma_decode_payloads_failure(bytes, key, records, failed, (count - 1) as nat);
    }
}

/// Once some record is refused, writing more records is refused alike.
pub proof fn lemma_encode_records_failure(
    records: Seq<MetadataView>,
    key: Key,
    failed: nat,
    count: nat,
)
    requires
        failed <= count,
        spec_encode_records(records, key, failed).outcome is Err,
    ensures
        spec_encode_records(records, key, count) == spec_encode_records(records, key, failed),
    decreases count,
{
    if failed < count {
        lemma_encode_records_failure(records, key, failed, (count - 1) as nat);
    }
}

/// The contents written so far are the beginning of the contents written later.
pub proof fn lemma_encode_payloads_prefix(
    records: Seq<MetadataView>,
    contents: Seq<Seq<u8>>,
    key: Key,
    fewer: nat,
    count: nat,
)
    requires
        fewer <= count,
    ensures
        spec_encode_payloads(records, contents, key, fewer).len() <= spec_encode_payloads(
            records,
            contents,
            key,
            count,
        ).len(),
        spec_encode_payloads(records, contents, key, count).take(
            spec_encode_payloads(records, contents, key, fewer).len() as int,
        ) == spec_encode_payloads(records, contents, key, fewer),
    decreases count,
{
    let short = spec_encode_payloads(records, contents, key, fewer);
    let long = spec_encode_payloads(records, contents, key, count);
    if fewer < count {
        lemma_encode_payloads_prefix(records, contents, key, fewer, (count - 1) as nat);
        let before = spec_encode_payloads(records, contents, key, (count - 1) as nat);
        assert(long.take(short.len() as int) =~= before.take(short.len() as int));
    } else {
        assert(long.take(short.len() as int) =~= short);
    }
}

/// Among the bytes of a body that is written without being refused, each
/// content stands as its record says: masked byte by byte with the low eight bits of the key where
/// the record says that it is masked, and unchanged where it does not.
pub proof fn lemma_payload_on_wire(body: BodyView, key: Key, index: nat)
    requires
        body.spec_encode(key).outcome is Ok,
        index < body.data.len(),
    ensures
        body.spec_payload_on_wire(key, index) == spec_payload(
            body.metadata[index as int],
            body.data[index as int],
            key,
        ),
{
    let head = spec_encode_u32(body.metadata.len() as u32, key) + spec_encode_records(
        body.metadata,
        key,
        body.metadata.len(),
    ).bytes;
    let before = spec_encode_payloads(body.metadata, body.data, key, index);
    let upto = spec_encode_payloads(body.metadata, body.data, key, index + 1);
    let all = spec_encode_payloads(body.metadata, body.data, key, body.data.len());
    let payload = spec_payload(body.metadata[index as int], body.data[index as int], key);
    lemma_encode_payloads_prefix(body.metadata, body.data, key, index + 1, body.data.len());
    assert(upto == before + payload);
    assert(payload.len() == body.data[index as int].len());
    let wire = body.spec_encode(key).bytes;
    assert(wire == head + all + body.trailing);
    let offset = body.spec_payload_offset(key, index);
    assert(offset == head.len() + before.len());
    assert forall|i: int| 0 <= i < payload.len() implies wire[offset + i] == payload[i] by {
        assert(all.take(upto.len() as int)[before.len() + i] == upto[before.len() + i]);
    }
    assert(body.spec_payload_on_wire(key, index) =~= payload);
}

/// A content whose record says that it is not masked stands among the bytes
/// of a body that is written exactly as it is in memory, whatever the key is.
pub proof fn lemma_plain_payload_is_verbatim(body: BodyView, key: Key, index: nat)
    requires
        body.spec_encode(key).outcome is Ok,
        index < body.data.len(),
        !body.metadata[index as int].is_obfuscated,
    ensures
        body.spec_payload_on_wire(key, index) == body.data[index as int],
{
    lemma_payload_on_wire(body, key, index);
}

/// Records that are written are read back as they were, with what followed
/// them left unread, as long as each has a name that is not empty.
pub proof fn lemma_records_round_trip(
    records: Seq<MetadataView>,
    key: Key,
    count: nat,
    tail: Seq<u8>,
)
    requires
        count <= records.len(),
        spec_encode_records(records, key, count).outcome is Ok,
        forall|i: int| 0 <= i < count ==> (#[trigger] records[i]).file_name.len() > 0,
    ensures
        spec_decode_records(spec_encode_records(records, key, count).bytes + tail, key, count).value
            == Ok::<Seq<MetadataView>, Error>(records.take(count as int)),
        spec_decode_records(spec_encode_records(records, key, count).bytes + tail, key, count).rest
            == tail,
    decreases count,
{
    let written = spec_encode_records(records, key, count).bytes + tail;
    if count == 0 {
        assert(written =~= tail);
        assert(records.take(0) =~= Seq::<MetadataView>::empty());
    } else {
        let before = spec_encode_records(records, key, (count - 1) as nat);
        let record = records[count - 1];
        let last = record.spec_encode(key);
        assert(before.outcome is Ok && last.outcome is Ok);
        assert(written =~= before.bytes + (last.bytes + tail));
        lemma_records_round_trip(records, key, (count - 1) as nat, last.bytes + tail);
        assert(record.file_name.len() > 0);
        Metadata::lemma_round_trip(record, key, tail);
        assert(records.take(count as int) =~= records.take(count - 1).push(record));
    }
}

/// Contents that are written are read back as they were, with what followed
/// them left unread, as long as each is as long as its record says.
pub proof fn lemma_payloads_round_trip(
    records: Seq<MetadataView>,
    contents: Seq<Seq<u8>>,
    key: Key,
    count: nat,
    tail: Seq<u8>,
)
    requires
        count <= records.len(),
        count <= contents.len(),
        forall|i: int| 0 <= i < count ==> contents[i].len() == (#[trigger] records[i]).file_size,
    ensures
        spec_decode_payloads(
            spec_encode_payloads(records, contents, key, count) + tail,
            key,
            records,
            count,
        ).value == Ok::<Seq<Seq<u8>>, Error>(contents.take(count as int)),
        spec_decode_payloads(
            spec_encode_payloads(records, contents, key, count) + tail,
            key,
            records,
            count,
        ).rest == tail,
    decreases count,
{
    let written = spec_encode_payloads(records, contents, key, count) + tail;
    if count == 0 {
        assert(written =~= tail);
        assert(contents.take(0) =~= Seq::<Seq<u8>>::empty());
    } else {
        let before = spec_encode_payloads(records, contents, key, (count - 1) as nat);
        let record = records[count - 1];
        let content = contents[count - 1];
        let payload = spec_payload(record, content, key);
        assert(written =~= before + (payload + tail));
        lemma_payloads_round_trip(records, contents, key, (count - 1) as nat, payload + tail);
        key.lemma_xor_bytes_involution(content);
        assert(payload.len() == record.file_size);
        assert((payload + tail).take(record.file_size as int) =~= payload);
        assert((payload + tail).skip(record.file_size as int) =~= tail);
        assert(spec_payload(record, payload, key) == content);
        assert(contents.take(count as int) =~= contents.take(count - 1).push(content));
    }
}

/// A body that is written without being refused, and in which each record
/// has a name that is not empty, is read back with the same key as the same
/// body.
pub proof fn lemma_body_round_trip(body: BodyView, key: Key)
    requires
        body.spec_named(),
        body.spec_encode(key).outcome is Ok,
    ensures
        Body::spec_decode(body.spec_encode(key).bytes, key).value == Ok::<BodyView, Error>(body),
        Body::spec_decode(body.spec_encode(key).bytes, key).rest == Seq::<u8>::empty(),
{
    let total = body.metadata.len();
    let count = spec_encode_u32(total as u32, key);
    let records = spec_encode_records(body.metadata, key, total).bytes;
    let payloads = spec_encode_payloads(body.metadata, body.data, key, total);
    let written = body.spec_encode(key).bytes;
    assert(written =~= count + (records + (payloads + body.trailing)));
    crate::obfuscation::lemma_u32_round_trip(
        total as u32,
        key,
        records + (payloads + body.trailing),
    );
    lemma_records_round_trip(body.metadata, key, total, payloads + body.trailing);
    assert(body.metadata.take(total as int) =~= body.metadata);
    lemma_payloads_round_trip(body.metadata, body.data, key, total, body.trailing);
    assert(body.data.take(total as int) =~= body.data);
}

/// A body that was read has one content for each record, each as long as its
/// record says.
pub proof fn lemma_decoded_body_is_consistent(bytes: Seq<u8>, key: Key)
    requires
        Body::spec_decode(bytes, key).value is Ok,
    ensures
        Body::spec_decode(bytes, key).value->Ok_0.spec_consistent(),
{
    let count = spec_decode_u32(bytes, key);
    let total = count.value->Ok_0 as nat;
    let records = spec_decode_records(count.rest, key, total);
    lemma_decoded_records_len(count.rest, key, total);
    lemma_decoded_payloads_len(records.rest, key, records.value->Ok_0, total);
}

/// Records that were read are as many as were asked for.
pub proof fn lemma_decoded_records_len(bytes: Seq<u8>, key: Key, count: nat)
    requires
        spec_decode_records(bytes, key, count).value is Ok,
    ensures
        spec_decode_records(bytes, key, count).value->Ok_0.len() == count,
    decreases count,
{
    if count > 0 {
        lemma_decoded_records_len(bytes, key, (count - 1) as nat);
    }
}

/// Contents that were read are as many as were asked for, each as long as
/// its record says.
pub proof fn lemma_decoded_payloads_len(
    bytes: Seq<u8>,
    key: Key,
    records: Seq<MetadataView>,
    count: nat,
)
    requires
        spec_decode_payloads(bytes, key, records, count).value is Ok,
    ensures
        spec_decode_payloads(bytes, key, records, count).value->Ok_0.len() == count,
        forall|i: int|
            0 <= i < count ==> spec_decode_payloads(bytes, key, records, count).value->Ok_0[i].len()
                == (#[trigger] records[i]).file_size,
    decreases count,
{
    if count > 0 {
        lemma_decoded_payloads_len(bytes, key, records, (count - 1) as nat);
        key.lemma_xor_bytes_involution(
            spec_take(
                spec_decode_payloads(bytes, key, records, (count - 1) as nat).rest,
                records[count - 1].file_size as nat,
            ).value->Ok_0,
        );
    }
}

} // verus!
