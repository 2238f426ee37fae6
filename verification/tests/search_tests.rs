use aes::cipher::AsyncStreamCipher;
use aes::cipher::KeyIvInit;
use aes::cipher::generic_array::GenericArray;
use pck_keyscan::container::DecryptContext;
use pck_keyscan::reader::PckFile;
use pck_keyscan::search::SearchSpace;
use pck_keyscan::search::SearchState;
use pck_keyscan::search::chunk_bounds;
use pck_keyscan::search::run_search;
use pck_keyscan::search::scan_batch;
use pck_keyscan::search::scan_chunk;

fn build_container(checksum: &[u8], declared: u64, iv: &[u8], ciphertext: &[u8]) -> Vec<u8> {
    let mut v: Vec<u8> = Vec::new();
    v.extend_from_slice(b"GDPC"); // magic
    v.extend_from_slice(&2u32.to_le_bytes()); // format version
    v.extend_from_slice(&4u32.to_le_bytes()); // major
    v.extend_from_slice(&4u32.to_le_bytes()); // minor
    v.extend_from_slice(&1u32.to_le_bytes()); // patch
    v.extend_from_slice(&0u32.to_le_bytes()); // pack flags
    v.extend_from_slice(&0u64.to_le_bytes()); // file base
    v.extend_from_slice(&[0u8; 64]); // reserved
    v.extend_from_slice(&0u32.to_le_bytes()); // file count
    v.extend_from_slice(checksum);
    v.extend_from_slice(&declared.to_le_bytes());
    v.extend_from_slice(iv);
    v.extend_from_slice(ciphertext);
    v
}

fn cfb_encrypt(key: &[u8], iv: &[u8], plain: &[u8]) -> Vec<u8> {
    let mut buf = plain.to_vec();
    let enc: cfb_mode::Encryptor<aes::Aes256> =
        cfb_mode::Encryptor::new(GenericArray::from_slice(key), GenericArray::from_slice(iv));
    enc.encrypt(&mut buf);
    buf
}

/// A context whose checksum the given key satisfies.
fn context_for_key(key: &[u8; 32]) -> DecryptContext {
    let iv = [0u8; 16];
    let plain = b"AAAAAAAAAAAAAAAA";
    let checksum = md5::compute(plain).0;
    let ciphertext = cfb_encrypt(key, &iv, plain);
    let bytes = build_container(&checksum, 16, &iv, &ciphertext);
    DecryptContext::try_parse(PckFile::from_bytes(bytes)).unwrap()
}

/// A context whose checksum no candidate window can satisfy.
fn context_without_match() -> DecryptContext {
    let bytes = build_container(&[0xffu8; 16], 16, &[0u8; 16], &[0x5au8; 16]);
    DecryptContext::try_parse(PckFile::from_bytes(bytes)).unwrap()
}

#[test]
fn scenario_planted_key_is_recovered() {
    let mut k0 = [0u8; 32];
    for (i, b) in k0.iter_mut().enumerate() {
        *b = 0x10 + i as u8;
    }
    let mut ctx = context_for_key(&k0);
    let mut host = vec![0u8; 64];
    host[16..48].copy_from_slice(&k0);
    let space = SearchSpace::new(host, 64);
    let mut state = SearchState::new();
    let offset = run_search(&mut ctx, &space, 1, &mut state);
    assert_eq!(offset, Some(16));
    assert!(state.is_found());
    assert_eq!(state.found_key_bytes().unwrap(), k0.to_vec());
    // Descending scan from the covered end: 64 - 16 candidates were tested.
    assert_eq!(state.iteration_count(), 48);
    assert_eq!(
        state.found_key_hex().unwrap(),
        "101112131415161718191a1b1c1d1e1f202122232425262728292a2b2c2d2e2f"
    );
}

#[test]
fn absent_key_reports_full_coverage() {
    let mut ctx = context_without_match();
    let host = vec![0u8; 64];
    let space = SearchSpace::new(host, 64);
    let mut state = SearchState::new();
    let offset = run_search(&mut ctx, &space, 1, &mut state);
    assert_eq!(offset, None);
    assert!(!state.is_found());
    assert!(state.found_key_hex().is_none());
    assert_eq!(state.iteration_count(), 64);
}

#[test]
fn chunk_bounds_partition_with_gap() {
    // real_size 10 over 3 workers: chunk size 3, offsets 9 belong to no chunk.
    assert_eq!(chunk_bounds(0, 3), (0, 3));
    assert_eq!(chunk_bounds(1, 3), (3, 6));
    assert_eq!(chunk_bounds(2, 3), (6, 9));
    for i in 0..3 {
        let (lo, hi) = chunk_bounds(i, 3);
        assert!(!(lo <= 9 && 9 < hi));
    }
}

#[test]
fn remainder_offsets_are_not_searched() {
    // A key planted in the remainder gap is missed with 3 workers over a
    // range of 10, and found when 1 worker covers the whole range.
    let mut k0 = [0u8; 32];
    k0[0] = 0x42;
    let mut ctx = context_for_key(&k0);
    let mut host = vec![0u8; 10];
    host[9] = 0x42; // window(9) reads one real byte and 31 padding zeros
    let space = SearchSpace::new(host, 10);

    let mut state = SearchState::new();
    let offset = run_search(&mut ctx, &space, 3, &mut state);
    assert_eq!(offset, None);
    assert!(!state.is_found());
    assert_eq!(state.iteration_count(), 9);

    let mut state_full = SearchState::new();
    let offset_full = run_search(&mut ctx, &space, 1, &mut state_full);
    assert_eq!(offset_full, Some(9));
    assert_eq!(state_full.found_key_bytes().unwrap(), k0.to_vec());
}

#[test]
fn first_recorded_key_wins() {
    let mut state = SearchState::new();
    state.record_key(vec![1u8; 32]);
    state.record_key(vec![2u8; 32]);
    assert!(state.is_found());
    assert_eq!(state.found_key_bytes().unwrap(), vec![1u8; 32]);
}

#[test]
fn iteration_counter_never_decreases() {
    let mut state = SearchState::new();
    assert_eq!(state.iteration_count(), 0);
    state.add_iterations(5);
    assert_eq!(state.iteration_count(), 5);
    state.add_iterations(0);
    assert_eq!(state.iteration_count(), 5);
    state.add_iterations(7);
    assert_eq!(state.iteration_count(), 12);
    state.add_iterations(u64::MAX);
    assert_eq!(state.iteration_count(), u64::MAX);
}

#[test]
fn window_at_last_offset_reads_into_padding() {
    let space = SearchSpace::new(vec![1, 2, 3, 4], 4);
    let w = space.window(3);
    assert_eq!(w.len(), 32);
    assert_eq!(w[0], 4);
    assert!(w[1..].iter().all(|&b| b == 0));
}

#[test]
fn padding_is_zeroed_when_bytes_continue_past_range() {
    // Embedded style: the buffer holds more bytes than the search range.
    // The pad region holds zeros, not the bytes that followed the range.
    let space = SearchSpace::new(vec![9u8; 40], 4);
    let w = space.window(3);
    assert_eq!(w.len(), 32);
    assert_eq!(w[0], 9);
    assert!(w[1..].iter().all(|&b| b == 0));
}

#[test]
fn scan_chunk_finds_highest_match() {
    let mut k0 = [0u8; 32];
    k0[0] = 0x7f;
    let mut ctx = context_for_key(&k0);
    // The key byte stands at offsets 5 and 60, far enough apart that each
    // window reads the byte and then only zeros: both offsets match, and
    // the descending scan reports the higher one.
    let mut host = vec![0u8; 80];
    host[5] = 0x7f;
    host[60] = 0x7f;
    let space = SearchSpace::new(host, 80);
    let found = scan_chunk(&mut ctx, &space, 0, 80);
    let (off, key) = found.unwrap();
    assert_eq!(off, 60);
    assert_eq!(key, k0.to_vec());
}

#[test]
fn scan_batch_respects_its_limit() {
    let mut ctx = context_without_match();
    let space = SearchSpace::new(vec![0u8; 50], 50);
    let r = scan_batch(&mut ctx, &space, 0, 50, 8);
    assert_eq!(r.next_cursor, 42);
    assert_eq!(r.tested, 8);
    assert!(r.found.is_none());
    let rest = scan_batch(&mut ctx, &space, 40, r.next_cursor, 100);
    assert_eq!(rest.next_cursor, 40);
    assert_eq!(rest.tested, 2);
}
