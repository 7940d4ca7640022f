use zkvm_host::codec::{
    archive, confirm_archive, decode, encode, open_frame, restore, screen_archive, seal,
    ArchiveFailure, FRAME_TAG, HEADER_LEN, SCRATCH_CAPACITY,
};
use zkvm_host::error::SerializationError;
use zkvm_host::manifest::BootInfoWithoutRollupConfig;
use zkvm_host::store::InMemoryOracle;

fn manifest() -> BootInfoWithoutRollupConfig {
    BootInfoWithoutRollupConfig {
        l1_head: [0xaa; 32],
        l2_output_root: [0xbb; 32],
        l2_claim: [0xcc; 32],
        l2_claim_block: 100,
        chain_id: 10,
    }
}

fn store_of(count: u32, value_len: usize) -> InMemoryOracle {
    let mut store = InMemoryOracle::new();
    for i in 0..count {
        let mut key = [0u8; 32];
        key[..4].copy_from_slice(&i.to_be_bytes());
        key[31] = (i % 251) as u8;
        store.insert(key, vec![(i % 256) as u8; value_len]);
    }
    store
}

#[test]
fn header_has_the_documented_layout() {
    let buffer = seal(&manifest(), &[7, 8, 9]).unwrap();
    assert_eq!(buffer.len(), HEADER_LEN + 3);
    assert_eq!(&buffer[0..8], b"ZKVMBOOT");
    assert_eq!(&buffer[0..8], &FRAME_TAG.to_le_bytes());
    assert_eq!(&buffer[8..40], &[0xaa; 32]);
    assert_eq!(&buffer[40..72], &[0xbb; 32]);
    assert_eq!(&buffer[72..104], &[0xcc; 32]);
    assert_eq!(&buffer[104..112], &[100, 0, 0, 0, 0, 0, 0, 0]);
    assert_eq!(&buffer[112..120], &[10, 0, 0, 0, 0, 0, 0, 0]);
    assert_eq!(&buffer[120..128], &[3, 0, 0, 0, 0, 0, 0, 0]);
    assert_eq!(&buffer[128..], &[7, 8, 9]);
}

#[test]
fn seal_then_open_gives_the_manifest_and_the_payload() {
    let payload = vec![1u8, 2, 3, 4, 5];
    let buffer = seal(&manifest(), &payload).unwrap();
    assert_eq!(open_frame(&buffer), Some((manifest(), payload)));
    let empty = seal(&manifest(), &[]).unwrap();
    assert_eq!(open_frame(&empty), Some((manifest(), Vec::new())));
}

#[test]
fn seal_refuses_a_payload_over_the_capacity() {
    let at_limit = vec![0u8; SCRATCH_CAPACITY];
    assert!(seal(&manifest(), &at_limit).is_ok());
    let over = vec![0u8; SCRATCH_CAPACITY + 1];
    assert_eq!(seal(&manifest(), &over), Err(SerializationError::CapacityExceeded));
}

#[test]
fn open_refuses_what_is_no_buffer() {
    let buffer = seal(&manifest(), &[1, 2, 3]).unwrap();
    assert_eq!(open_frame(&[]), None);
    assert_eq!(open_frame(&buffer[..HEADER_LEN - 1]), None);
    assert_eq!(open_frame(&buffer[..buffer.len() - 1]), None);
    let mut longer = buffer.clone();
    longer.push(0);
    assert_eq!(open_frame(&longer), None);
    let mut other_tag = buffer.clone();
    other_tag[0] ^= 1;
    assert_eq!(open_frame(&other_tag), None);
}

#[test]
fn encode_then_decode_gives_the_manifest_and_the_store() {
    let mut store = InMemoryOracle::new();
    store.insert([1u8; 32], vec![1, 2, 3]);
    let buffer = encode(&manifest(), &store).unwrap();
    let (read_manifest, read_store) = decode(&buffer).unwrap();
    assert_eq!(read_manifest, manifest());
    assert_eq!(read_store, store);
    assert_eq!(read_store.get(&[1u8; 32]), Some(&vec![1, 2, 3]));
}

#[test]
fn encode_then_decode_keeps_every_entry() {
    for count in [0u32, 1, 2, 3, 17, 1000] {
        let store = store_of(count, 5);
        let buffer = encode(&manifest(), &store).unwrap();
        let (read_manifest, read_store) = decode(&buffer).unwrap();
        assert_eq!(read_manifest, manifest());
        assert_eq!(read_store.len(), count as usize);
        assert!(read_store.same_contents(&store));
    }
}

#[test]
fn encode_does_not_depend_on_the_order_of_insertion() {
    let mut forward = InMemoryOracle::new();
    let mut backward = InMemoryOracle::new();
    for i in 0..100u8 {
        forward.insert([i; 32], vec![i; 7]);
    }
    for i in (0..100u8).rev() {
        backward.insert([i; 32], vec![i; 7]);
    }
    assert_eq!(encode(&manifest(), &forward), encode(&manifest(), &backward));
}

#[test]
fn encode_twice_gives_the_same_bytes() {
    let store = store_of(300, 11);
    let first = encode(&manifest(), &store).unwrap();
    let second = encode(&manifest(), &store).unwrap();
    assert_eq!(first, second);
    assert_eq!(archive(&store), archive(&store.clone()));
}

#[test]
fn payload_differs_from_the_values_it_was_made_from() {
    let mut store = InMemoryOracle::new();
    store.insert([1u8; 32], vec![1, 2, 3]);
    let payload = archive(&store).unwrap();
    assert!(payload.len() > 32 + 3);
    assert_ne!(payload, vec![1, 2, 3]);
    assert!(restore(&payload).unwrap().same_contents(&store));
    assert_eq!(restore(&[1, 2, 3]), None);
}

#[test]
fn encode_refuses_a_store_over_the_capacity() {
    let mut store = InMemoryOracle::new();
    store.insert([1u8; 32], vec![0u8; SCRATCH_CAPACITY]);
    assert_eq!(encode(&manifest(), &store), Err(SerializationError::CapacityExceeded));
    assert_eq!(archive(&store), Err(SerializationError::CapacityExceeded));
}

#[test]
fn encode_refuses_an_archive_over_the_capacity() {
    let mut store = InMemoryOracle::new();
    store.insert([1u8; 32], vec![0u8; SCRATCH_CAPACITY - 32]);
    assert!(store.fits_in(SCRATCH_CAPACITY));
    assert_eq!(encode(&manifest(), &store), Err(SerializationError::CapacityExceeded));
}

#[test]
fn encode_accepts_a_store_of_several_megabytes() {
    let store = store_of(4000, 1024);
    let buffer = encode(&manifest(), &store).unwrap();
    assert!(buffer.len() <= HEADER_LEN + SCRATCH_CAPACITY);
    let (_, read_store) = decode(&buffer).unwrap();
    assert!(read_store.same_contents(&store));
}

#[test]
fn decode_refuses_a_buffer_that_was_cut_short() {
    let store = store_of(10, 5);
    let buffer = encode(&manifest(), &store).unwrap();
    assert_eq!(decode(&buffer[..buffer.len() - 1]), Err(SerializationError::MalformedBuffer));
    assert_eq!(decode(&buffer[..HEADER_LEN]), Err(SerializationError::MalformedBuffer));
    assert_eq!(decode(&[]), Err(SerializationError::MalformedBuffer));
}

#[test]
fn decode_refuses_a_payload_that_is_no_archive() {
    let buffer = seal(&manifest(), &[0xff; 3]).unwrap();
    assert_eq!(decode(&buffer), Err(SerializationError::MalformedBuffer));
}

#[test]
fn restore_refuses_an_empty_payload() {
    assert_eq!(restore(&[]), None);
    assert_eq!(restore(&[0]), None);
}

#[test]
fn restore_reads_the_archive_of_the_empty_store() {
    let payload = archive(&InMemoryOracle::new()).unwrap();
    assert!(restore(&payload).unwrap().is_empty());
}

#[test]
fn encode_gives_the_same_bytes_however_the_archiver_walks_the_map() {
    let store = store_of(5000, 3);
    let first = archive(&store).unwrap();
    for _ in 0..5 {
        assert_eq!(archive(&store).unwrap(), first);
    }
}

#[test]
fn encode_refuses_a_store_that_the_scratch_space_is_too_small_for() {
    let store = store_of(200_000, 0);
    assert!(store.fits_in(SCRATCH_CAPACITY));
    assert_eq!(archive(&store), Err(SerializationError::CapacityExceeded));
    assert_eq!(encode(&manifest(), &store), Err(SerializationError::CapacityExceeded));
}

#[test]
fn encode_then_decode_keeps_a_store_of_many_entries() {
    let store = store_of(60_000, 16);
    let buffer = encode(&manifest(), &store).unwrap();
    let (read_manifest, read_store) = decode(&buffer).unwrap();
    assert_eq!(read_manifest, manifest());
    assert_eq!(read_store.len(), 60_000);
    assert!(read_store.same_contents(&store));
}

#[test]
fn an_archive_that_fits_is_passed_on() {
    assert_eq!(screen_archive(Ok(vec![1, 2, 3])), Ok(vec![1, 2, 3]));
    assert_eq!(screen_archive(Ok(Vec::new())), Ok(Vec::new()));
    assert!(screen_archive(Ok(vec![0; SCRATCH_CAPACITY])).is_ok());
    assert_eq!(
        screen_archive(Ok(vec![0; SCRATCH_CAPACITY + 1])),
        Err(SerializationError::CapacityExceeded)
    );
    assert_eq!(
        screen_archive(Err(ArchiveFailure::ScratchSpace)),
        Err(SerializationError::CapacityExceeded)
    );
    assert_eq!(
        screen_archive(Err(ArchiveFailure::Serializer)),
        Err(SerializationError::EncodingFailed)
    );
    assert_eq!(screen_archive(Err(ArchiveFailure::Shared)), Err(SerializationError::EncodingFailed));
}

#[test]
fn an_archive_is_handed_out_only_if_it_reads_back_as_the_store() {
    let store = store_of(3, 2);
    let bytes = vec![9u8, 9, 9];
    assert_eq!(confirm_archive(&store, bytes.clone(), Some(store.clone())), Ok(bytes.clone()));
    assert_eq!(
        confirm_archive(&store, bytes.clone(), Some(store_of(2, 2))),
        Err(SerializationError::EncodingFailed)
    );
    assert_eq!(
        confirm_archive(&store, bytes.clone(), Some(store_of(3, 1))),
        Err(SerializationError::EncodingFailed)
    );
    assert_eq!(confirm_archive(&store, bytes, None), Err(SerializationError::EncodingFailed));
}
