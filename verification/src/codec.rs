//! The encoding of a manifest and a store as one byte buffer.
//!
//! A buffer is a header of 128 bytes and a payload. The header holds a tag,
//! the manifest as a record of fixed shape, and the length of the payload.
//! The payload is the store as an `rkyv` archive of a hash map, which a
//! reader can use in place.
//!
//! | bytes    | content                          |
//! |----------|----------------------------------|
//! | 0..8     | tag, little-endian               |
//! | 8..40    | `l1_head`                        |
//! | 40..72   | `l2_output_root`                 |
//! | 72..104  | `l2_claim`                       |
//! | 104..112 | `l2_claim_block`, little-endian  |
//! | 112..120 | `chain_id`, little-endian        |
//! | 120..128 | payload length, little-endian    |
//! | 128..    | payload                          |

use rkyv::ser::serializers::{
    AlignedSerializer, CompositeSerializer, CompositeSerializerError, HeapScratch,
    SharedSerializeMap,
};
use rkyv::ser::Serializer;
use rkyv::AlignedVec;
use std::collections::HashMap;
use vstd::bytes::{
    lemma_auto_spec_u64_to_from_le_bytes, spec_u64_from_le_bytes, spec_u64_to_le_bytes,
    u64_from_le_bytes, u64_to_le_bytes,
};
use vstd::prelude::*;
use vstd::slice::slice_subrange;

use crate::error::SerializationError;
use crate::manifest::{BootInfoView, BootInfoWithoutRollupConfig};
use crate::pairs::{distinct_keys, lemma_ascending_is_distinct, map_of, map_size, pairs_size};
use crate::store::{pairs_of, Entry, InMemoryOracle};

verus! {

/// The most bytes that a store, and the archive of a store, may take.
pub const SCRATCH_CAPACITY: usize = 8388608;

/// Number of bytes in the header of a buffer.
pub const HEADER_LEN: usize = 128;

/// The first eight bytes of every buffer, read as a little-endian number.
/// They spell `ZKVMBOOT`.
pub const FRAME_TAG: u64 = 0x544f_4f42_4d56_4b5a;

/// The manifest as a record of 112 bytes: the three hashes, then the two
/// numbers, little-endian.
pub open spec fn manifest_record(manifest: BootInfoView) -> Seq<u8> {
    manifest.l1_head + manifest.l2_output_root + manifest.l2_claim + spec_u64_to_le_bytes(
        manifest.l2_claim_block,
    ) + spec_u64_to_le_bytes(manifest.chain_id)
}

/// The buffer that holds `manifest` and `payload`.
pub open spec fn frame(manifest: BootInfoView, payload: Seq<u8>) -> Seq<u8> {
    spec_u64_to_le_bytes(FRAME_TAG) + manifest_record(manifest) + spec_u64_to_le_bytes(
        payload.len() as u64,
    ) + payload
}

/// Whether `bytes` is a buffer: it has a whole header, starts with the tag,
/// and its payload has the length that the header gives.
pub open spec fn is_frame(bytes: Seq<u8>) -> bool {
    &&& bytes.len() >= HEADER_LEN
    &&& spec_u64_from_le_bytes(bytes.subrange(0, 8)) == FRAME_TAG
    &&& spec_u64_from_le_bytes(bytes.subrange(120, 128)) == bytes.len() - HEADER_LEN
}

/// The manifest in the header of a buffer.
pub open spec fn frame_manifest(bytes: Seq<u8>) -> BootInfoView {
    BootInfoView {
        l1_head: bytes.subrange(8, 40),
        l2_output_root: bytes.subrange(40, 72),
        l2_claim: bytes.subrange(72, 104),
        l2_claim_block: spec_u64_from_le_bytes(bytes.subrange(104, 112)),
        chain_id: spec_u64_from_le_bytes(bytes.subrange(112, 120)),
    }
}

/// The payload of a buffer.
pub open spec fn frame_payload(bytes: Seq<u8>) -> Seq<u8> {
    bytes.subrange(HEADER_LEN as int, bytes.len() as int)
}

/// A buffer made from a manifest and a payload is a buffer, and holds that
/// manifest and that payload.
pub proof fn lemma_frame_opens(manifest: BootInfoView, payload: Seq<u8>)
    requires
        manifest.has_hash_lengths(),
        payload.len() <= u64::MAX,
    ensures
        frame(manifest, payload).len() == HEADER_LEN + payload.len(),
        is_frame(frame(manifest, payload)),
        frame_manifest(frame(manifest, payload)) == manifest,
        frame_payload(frame(manifest, payload)) == payload,
{
    lemma_auto_spec_u64_to_from_le_bytes();
    let bytes = frame(manifest, payload);
    let tag = spec_u64_to_le_bytes(FRAME_TAG);
    let block = spec_u64_to_le_bytes(manifest.l2_claim_block);
    let chain = spec_u64_to_le_bytes(manifest.chain_id);
    let length = spec_u64_to_le_bytes(payload.len() as u64);
    assert(bytes.subrange(0, 8) =~= tag);
    assert(bytes.subrange(8, 40) =~= manifest.l1_head);
    assert(bytes.subrange(40, 72) =~= manifest.l2_output_root);
    assert(bytes.subrange(72, 104) =~= manifest.l2_claim);
    assert(bytes.subrange(104, 112) =~= block);
    assert(bytes.subrange(112, 120) =~= chain);
    assert(bytes.subrange(120, 128) =~= length);
    assert(bytes.subrange(HEADER_LEN as int, bytes.len() as int) =~= payload);
}

/// Writes `bytes` behind what `out` holds.
fn append_bytes(out: &mut Vec<u8>, bytes: &[u8])
    ensures
        final(out)@ == old(out)@ + bytes@,
{
    let mut i: usize = 0;
    while i < bytes.len()
        invariant
            0 <= i <= bytes.len(),
            out@ == old(out)@ + bytes@.take(i as int),
        decreases bytes.len() - i,
    {
        out.push(bytes[i]);
        assert(out@ =~= old(out)@ + bytes@.take(i + 1));
        i += 1;
    }
    assert(bytes@.take(bytes.len() as int) == bytes@);
}

/// The 32 bytes of `bytes` that start at `start`.
fn read_hash(bytes: &[u8], start: usize) -> (hash: [u8; 32])
    requires
        start + 32 <= bytes.len(),
    ensures
        hash@ == bytes@.subrange(start as int, start + 32),
{
    let mut hash = [0u8; 32];
    let mut i: usize = 0;
    while i < 32
        invariant
            0 <= i <= 32,
            start + 32 <= bytes.len(),
            hash@.len() == 32,
            forall|j: int| 0 <= j < i ==> hash@[j] == bytes@[start + j],
        decreases 32 - i,
    {
        hash[i] = bytes[start + i];
        i += 1;
    }
    assert(hash@ =~= bytes@.subrange(start as int, start + 32));
    hash
}

/// Puts the header for `manifest` in front of `payload`.
///
/// A payload of more than `SCRATCH_CAPACITY` bytes is refused with
/// `CapacityExceeded`; any other payload gives the buffer that holds it.
pub fn seal(manifest: &BootInfoWithoutRollupConfig, payload: &[u8]) -> (sealed: Result<
    Vec<u8>,
    SerializationError,
>)
    ensures
        sealed is Ok <==> payload@.len() <= SCRATCH_CAPACITY,
        sealed matches Ok(buffer) ==> buffer@ == frame(manifest@, payload@),
        sealed matches Err(e) ==> e == SerializationError::CapacityExceeded,
{
    if payload.len() > SCRATCH_CAPACITY {
        return Err(SerializationError::CapacityExceeded);
    }
    let mut buffer: Vec<u8> = Vec::new();
    append_bytes(&mut buffer, u64_to_le_bytes(FRAME_TAG).as_slice());
    append_bytes(&mut buffer, manifest.l1_head.as_slice());
    append_bytes(&mut buffer, manifest.l2_output_root.as_slice());
    append_bytes(&mut buffer, manifest.l2_claim.as_slice());
    append_bytes(&mut buffer, u64_to_le_bytes(manifest.l2_claim_block).as_slice());
    append_bytes(&mut buffer, u64_to_le_bytes(manifest.chain_id).as_slice());
    let length: u64 = payload.len() as u64;
    append_bytes(&mut buffer, u64_to_le_bytes(length).as_slice());
    append_bytes(&mut buffer, payload);
    assert(buffer@ =~= frame(manifest@, payload@));
    Ok(buffer)
}

/// Takes a buffer apart into the manifest of its header and its payload.
///
/// Returns `None` exactly when `bytes` is no buffer.
pub fn open_frame(bytes: &[u8]) -> (opened: Option<(BootInfoWithoutRollupConfig, Vec<u8>)>)
    ensures
        opened is Some <==> is_frame(bytes@),
        opened matches Some((manifest, payload)) ==> manifest@ == frame_manifest(bytes@)
            && payload@ == frame_payload(bytes@),
{
    if bytes.len() < HEADER_LEN {
        return None;
    }
    if u64_from_le_bytes(slice_subrange(bytes, 0, 8)) != FRAME_TAG {
        return None;
    }
    let length = u64_from_le_bytes(slice_subrange(bytes, 120, 128));
    if length != (bytes.len() - HEADER_LEN) as u64 {
        return None;
    }
    let manifest = BootInfoWithoutRollupConfig {
        l1_head: read_hash(bytes, 8),
        l2_output_root: read_hash(bytes, 40),
        l2_claim: read_hash(bytes, 72),
        l2_claim_block: u64_from_le_bytes(slice_subrange(bytes, 104, 112)),
        chain_id: u64_from_le_bytes(slice_subrange(bytes, 112, 120)),
    };
    let payload = vstd::slice::slice_to_vec(slice_subrange(bytes, HEADER_LEN, bytes.len()));
    Some((manifest, payload))
}

/// How the archiver can fail: in the part that writes the bytes, in the
/// scratch space, or in the registry of shared pointers.
#[derive(Clone, Copy, Debug, PartialEq, Eq, Structural)]
pub enum ArchiveFailure {
    /// The part that writes the bytes failed.
    Serializer,
    /// The scratch space failed, as it does when it runs out.
    ScratchSpace,
    /// The registry of shared pointers failed.
    Shared,
}

/// The archive that `rkyv` writes for a hash map with the given contents, or
/// the way in which it fails.
pub uninterp spec fn archived_store(contents: Map<Seq<u8>, Seq<u8>>) -> Result<
    Seq<u8>,
    ArchiveFailure,
>;

/// The error that a failure of the archiver is reported as: a failure of the
/// scratch space is `CapacityExceeded`, any other is `EncodingFailed`.
pub open spec fn failure_kind(failure: ArchiveFailure) -> SerializationError {
    match failure {
        ArchiveFailure::ScratchSpace => SerializationError::CapacityExceeded,
        _ => SerializationError::EncodingFailed,
    }
}

/// The entries, in the order of the archive, that `rkyv` finds in a payload
/// that it accepts as the archive of a hash map; `None` for a payload that it
/// does not accept.
pub uninterp spec fn unarchived_entries(payload: Seq<u8>) -> Option<Seq<(Seq<u8>, Seq<u8>)>>;

/// A result with the bytes in it, where it has any, as a sequence.
pub open spec fn bytes_of<E>(result: Result<Vec<u8>, E>) -> Result<Seq<u8>, E> {
    match result {
        Ok(bytes) => Ok(bytes@),
        Err(e) => Err(e),
    }
}

/// `rkyv::ser::Serializer::serialize_value` on a `HashMap` with the given
/// entries, through a `CompositeSerializer` that writes to an `AlignedVec`
/// and has a `HeapScratch` of `SCRATCH_CAPACITY` bytes.
///
/// The archiver places every entry by a hash of its key alone, so what it
/// writes depends on the map and not on the order in which the entries are
/// handed over: the contract gives that result a name and says no more of it.
/// A failure is handed on as the variant of `CompositeSerializerError` that it
/// is; the scratch space running out is one of them. The archiver panics where
/// an offset inside the archive does not fit in 32 bits; entries of no more
/// than `SCRATCH_CAPACITY` bytes in all stay far below that.
#[verifier::external_body]
fn archive_entries(entries: &Vec<Entry>) -> (archive: Result<Vec<u8>, ArchiveFailure>)
    requires
        distinct_keys(pairs_of(entries@)),
        pairs_size(pairs_of(entries@)) <= SCRATCH_CAPACITY,
    ensures
        bytes_of(archive) == archived_store(map_of(pairs_of(entries@))),
{
    let map: HashMap<[u8; 32], Vec<u8>> =
        entries.iter().map(|entry| (entry.key, entry.value.clone())).collect();
    let mut serializer = CompositeSerializer::new(
        AlignedSerializer::new(AlignedVec::new()),
        HeapScratch::<SCRATCH_CAPACITY>::new(),
        SharedSerializeMap::new(),
    );
    match serializer.serialize_value(&map) {
        Ok(_) => Ok(serializer.into_serializer().into_inner().into_vec()),
        Err(CompositeSerializerError::SerializerError(_)) => Err(ArchiveFailure::Serializer),
        Err(CompositeSerializerError::ScratchSpaceError(_)) => Err(ArchiveFailure::ScratchSpace),
        Err(CompositeSerializerError::SharedError(_)) => Err(ArchiveFailure::Shared),
    }
}

/// `rkyv::check_archived_root` for a `HashMap<[u8; 32], Vec<u8>>`, on a copy
/// of the payload in an `AlignedVec`, followed by a walk over the archived
/// map with `ArchivedHashMap::iter`.
///
/// The check accepts or refuses a payload by its bytes alone, and the walk
/// follows the order of the archive: the contract gives the list of entries,
/// or the refusal, a name and says no more of it.
#[verifier::external_body]
fn unarchive_entries(payload: &[u8]) -> (entries: Option<Vec<Entry>>)
    ensures
        entries matches Some(list) ==> unarchived_entries(payload@) == Some(pairs_of(list@)),
        entries is None ==> unarchived_entries(payload@) is None,
{
    let mut aligned = AlignedVec::with_capacity(payload.len());
    aligned.extend_from_slice(payload);
    match rkyv::check_archived_root::<HashMap<[u8; 32], Vec<u8>>>(aligned.as_slice()) {
        Ok(map) => Some(
            map.iter().map(|(key, value)| Entry { key: *key, value: value.as_slice().to_vec() })
                .collect(),
        ),
        Err(_) => None,
    }
}

/// The store that a payload holds: the map of the entries found in it, if the
/// payload is accepted and no key occurs twice.
pub open spec fn restored(payload: Seq<u8>) -> Option<Map<Seq<u8>, Seq<u8>>> {
    match unarchived_entries(payload) {
        Some(pairs) => if distinct_keys(pairs) {
            Some(map_of(pairs))
        } else {
            None
        },
        None => None,
    }
}

/// What becomes of what the archiver returned, before it is read back.
///
/// An archive of at most `SCRATCH_CAPACITY` bytes is passed on. A longer
/// archive, and a failure of the scratch space, are `CapacityExceeded`; any
/// other failure is `EncodingFailed`.
pub open spec fn screened(archive: Result<Seq<u8>, ArchiveFailure>) -> Result<
    Seq<u8>,
    SerializationError,
> {
    match archive {
        Err(failure) => Err(failure_kind(failure)),
        Ok(bytes) => if bytes.len() > SCRATCH_CAPACITY {
            Err(SerializationError::CapacityExceeded)
        } else {
            Ok(bytes)
        },
    }
}

/// The payload for a store, or the reason why there is none.
///
/// There is a payload when the store takes at most `SCRATCH_CAPACITY` bytes,
/// the archiver succeeds, the archive takes at most `SCRATCH_CAPACITY` bytes,
/// and the archive reads back as the store. A store or an archive that is too
/// large, and scratch space that runs out, are `CapacityExceeded`; every other
/// failure is `EncodingFailed`.
pub open spec fn payload_of(contents: Map<Seq<u8>, Seq<u8>>) -> Result<
    Seq<u8>,
    SerializationError,
> {
    if map_size(contents) > SCRATCH_CAPACITY {
        Err(SerializationError::CapacityExceeded)
    } else {
        match screened(archived_store(contents)) {
            Err(e) => Err(e),
            Ok(payload) => if restored(payload) == Some(contents) {
                Ok(payload)
            } else {
                Err(SerializationError::EncodingFailed)
            },
        }
    }
}

/// The buffer for a manifest and a store, or the reason why there is none.
pub open spec fn encoded(manifest: BootInfoView, contents: Map<Seq<u8>, Seq<u8>>) -> Result<
    Seq<u8>,
    SerializationError,
> {
    match payload_of(contents) {
        Ok(payload) => Ok(frame(manifest, payload)),
        Err(e) => Err(e),
    }
}

/// The manifest and the store that a buffer holds, if it holds any.
pub open spec fn decoded(bytes: Seq<u8>) -> Option<(BootInfoView, Map<Seq<u8>, Seq<u8>>)> {
    if is_frame(bytes) {
        match restored(frame_payload(bytes)) {
            Some(contents) => Some((frame_manifest(bytes), contents)),
            None => None,
        }
    } else {
        None
    }
}

/// Reads the store that a payload holds.
pub fn restore(payload: &[u8]) -> (store: Option<InMemoryOracle>)
    ensures
        store matches Some(read) ==> restored(payload@) == Some(read@),
        store is None ==> restored(payload@) is None,
{
    match unarchive_entries(payload) {
        Some(entries) => InMemoryOracle::from_entries(&entries),
        None => None,
    }
}

/// Passes on an archive that fits the scratch capacity, and turns any other
/// outcome of the archiver into the error that it is reported as.
pub fn screen_archive(archive: Result<Vec<u8>, ArchiveFailure>) -> (passed: Result<
    Vec<u8>,
    SerializationError,
>)
    ensures
        bytes_of(passed) == screened(bytes_of(archive)),
{
    match archive {
        Ok(bytes) => {
            if bytes.len() > SCRATCH_CAPACITY {
                Err(SerializationError::CapacityExceeded)
            } else {
                Ok(bytes)
            }
        },
        Err(ArchiveFailure::ScratchSpace) => Err(SerializationError::CapacityExceeded),
        Err(_) => Err(SerializationError::EncodingFailed),
    }
}

/// Hands out an archive whose reading gave the store it was made from, and
/// refuses any other with `EncodingFailed`.
pub fn confirm_archive(
    store: &InMemoryOracle,
    bytes: Vec<u8>,
    read_back: Option<InMemoryOracle>,
) -> (confirmed: Result<Vec<u8>, SerializationError>)
    ensures
        confirmed is Ok <==> (read_back matches Some(read) && read@ == store@),
        confirmed matches Ok(payload) ==> payload@ == bytes@,
        confirmed matches Err(e) ==> e == SerializationError::EncodingFailed,
{
    match read_back {
        Some(read) => {
            if read.same_contents(store) {
                Ok(bytes)
            } else {
                Err(SerializationError::EncodingFailed)
            }
        },
        None => Err(SerializationError::EncodingFailed),
    }
}

/// Writes the payload for a store.
///
/// The archive is read back before it is handed out, so a payload that this
/// function returns always holds the store it was made from.
pub fn archive(store: &InMemoryOracle) -> (payload: Result<Vec<u8>, SerializationError>)
    ensures
        bytes_of(payload) == payload_of(store@),
{
    if !store.fits_in(SCRATCH_CAPACITY) {
        return Err(SerializationError::CapacityExceeded);
    }
    let entries = store.entries();
    proof {
        lemma_ascending_is_distinct(pairs_of(entries@));
    }
    let bytes = match screen_archive(archive_entries(entries)) {
        Ok(bytes) => bytes,
        Err(e) => {
            return Err(e);
        },
    };
    let read_back = restore(bytes.as_slice());
    confirm_archive(store, bytes, read_back)
}

/// Encodes a manifest and a store as one buffer.
///
/// The result is fixed by the manifest and the store. A store, or an archive,
/// of more than `SCRATCH_CAPACITY` bytes is refused with `CapacityExceeded`,
/// and nothing is ever cut short: a buffer that is returned decodes to the
/// manifest and the store it was made from.
pub fn encode(manifest: &BootInfoWithoutRollupConfig, store: &InMemoryOracle) -> (buffer: Result<
    Vec<u8>,
    SerializationError,
>)
    ensures
        bytes_of(buffer) == encoded(manifest@, store@),
{
    match archive(store) {
        Ok(payload) => seal(manifest, payload.as_slice()),
        Err(e) => Err(e),
    }
}

/// Decodes a buffer into the manifest and the store it holds.
///
/// Fails with `MalformedBuffer` exactly when the buffer holds none.
pub fn decode(bytes: &[u8]) -> (pair: Result<
    (BootInfoWithoutRollupConfig, InMemoryOracle),
    SerializationError,
>)
    ensures
        pair matches Ok((manifest, store)) ==> decoded(bytes@) == Some((manifest@, store@)),
        pair matches Err(e) ==> decoded(bytes@) is None && e == SerializationError::MalformedBuffer,
{
    let (manifest, payload) = match open_frame(bytes) {
        Some(opened) => opened,
        None => {
            return Err(SerializationError::MalformedBuffer);
        },
    };
    match restore(payload.as_slice()) {
        Some(store) => Ok((manifest, store)),
        None => Err(SerializationError::MalformedBuffer),
    }
}

/// Encoding is fixed by the manifest and the map of the store: what two runs
/// of the encoder give for the same pair is the same, byte for byte.
pub proof fn lemma_encode_is_deterministic(
    manifest: BootInfoView,
    contents: Map<Seq<u8>, Seq<u8>>,
    first: Result<Vec<u8>, SerializationError>,
    second: Result<Vec<u8>, SerializationError>,
)
    requires
        bytes_of(first) == encoded(manifest, contents),
        bytes_of(second) == encoded(manifest, contents),
    ensures
        bytes_of(first) == bytes_of(second),
{
}

/// Decoding what was encoded gives back the manifest and the store.
pub proof fn lemma_decode_inverts_encode(manifest: BootInfoView, contents: Map<Seq<u8>, Seq<u8>>)
    requires
        manifest.has_hash_lengths(),
        encoded(manifest, contents) is Ok,
    ensures
        decoded(encoded(manifest, contents)->Ok_0) == Some((manifest, contents)),
{
    let payload = payload_of(contents)->Ok_0;
    lemma_frame_opens(manifest, payload);
}

/// A store that takes more than the scratch capacity, or whose archive does,
/// or that the archiver has too little scratch space for, is refused with
/// `CapacityExceeded`.
pub proof fn lemma_oversize_is_refused(manifest: BootInfoView, contents: Map<Seq<u8>, Seq<u8>>)
    requires
        ({
            ||| map_size(contents) > SCRATCH_CAPACITY
            ||| archived_store(contents) matches Ok(payload) && payload.len() > SCRATCH_CAPACITY
            ||| archived_store(contents) matches Err(e) && e == ArchiveFailure::ScratchSpace
        }),
    ensures
        encoded(manifest, contents) matches Err(e) && e == SerializationError::CapacityExceeded,
{
}

/// A buffer that is handed out is the header and a payload of at most
/// `SCRATCH_CAPACITY` bytes, for a store of at most as many.
pub proof fn lemma_encoding_fits(manifest: BootInfoView, contents: Map<Seq<u8>, Seq<u8>>)
    requires
        manifest.has_hash_lengths(),
        encoded(manifest, contents) is Ok,
    ensures
        map_size(contents) <= SCRATCH_CAPACITY,
        HEADER_LEN <= encoded(manifest, contents)->Ok_0.len() <= HEADER_LEN + SCRATCH_CAPACITY,
{
    let payload = payload_of(contents)->Ok_0;
    lemma_frame_opens(manifest, payload);
}

} // verus!
