use aes::cipher::AsyncStreamCipher;
use aes::cipher::KeyIvInit;
use aes::cipher::generic_array::GenericArray;
use pck_keyscan::container::DecryptContext;
use pck_keyscan::reader::PckFile;

fn build_container(checksum: &[u8], declared: u64, iv: &[u8], ciphertext: &[u8]) -> Vec<u8> {
    let mut v: Vec<u8> = Vec::new();
    v.extend_from_slice(b"GDPC"); // magic
    v.extend_from_slice(&2u32.to_le_bytes()); // format version
    v.extend_from_slice(&4u32.to_le_bytes()); // major
    v.extend_from_slice(&4u32.to_le_bytes()); // minor
    v.extend_from_slice(&1u32.to_le_bytes()); // patch
    v.extend_from_slice(&0u32.to_le_bytes()); // pack flags
    v.extend_from_slice(&0u64.to_le_bytes()); // file base
    v.extend_from_slice(&[0u8; 64]); // reserved
    v.extend_from_slice(&0u32.to_le_bytes()); // file count
    v.extend_from_slice(checksum);
    v.extend_from_slice(&declared.to_le_bytes());
    v.extend_from_slice(iv);
    v.extend_from_slice(ciphertext);
    v
}

fn cfb_encrypt(key: &[u8], iv: &[u8], plain: &[u8]) -> Vec<u8> {
    let mut buf = plain.to_vec();
    let enc: cfb_mode::Encryptor<aes::Aes256> =
        cfb_mode::Encryptor::new(GenericArray::from_slice(key), GenericArray::from_slice(iv));
    enc.encrypt(&mut buf);
    buf
}

#[test]
fn parse_reads_fields_in_order() {
    let checksum: Vec<u8> = (0u8..16).collect();
    let iv: Vec<u8> = (100u8..116).collect();
    let ciphertext = [7u8; 16];
    let bytes = build_container(&checksum, 16, &iv, &ciphertext);
    let ctx = DecryptContext::try_parse(PckFile::from_bytes(bytes)).unwrap();
    assert_eq!(ctx.declared_len(), 16);
    assert_eq!(ctx.ciphertext_len(), 16);
    assert_eq!(ctx.checksum_bytes(), checksum);
    assert_eq!(ctx.iv_bytes(), iv);
}

#[test]
fn unaligned_length_rounds_ciphertext_up() {
    let bytes = build_container(&[0u8; 16], 10, &[0u8; 16], &[0u8; 16]);
    let ctx = DecryptContext::try_parse(PckFile::from_bytes(bytes)).unwrap();
    assert_eq!(ctx.declared_len(), 10);
    assert_eq!(ctx.ciphertext_len(), 16);
}

#[test]
fn aligned_length_keeps_ciphertext_exact() {
    let bytes = build_container(&[0u8; 16], 32, &[0u8; 16], &[0u8; 32]);
    let ctx = DecryptContext::try_parse(PckFile::from_bytes(bytes)).unwrap();
    assert_eq!(ctx.declared_len(), 32);
    assert_eq!(ctx.ciphertext_len(), 32);
}

#[test]
fn truncated_header_is_rejected() {
    let bytes: Vec<u8> = vec![0u8; 100];
    assert!(DecryptContext::try_parse(PckFile::from_bytes(bytes)).is_none());
}

#[test]
fn truncated_ciphertext_is_rejected() {
    // The header declares 32 payload bytes but only 16 follow.
    let bytes = build_container(&[0u8; 16], 32, &[0u8; 16], &[0u8; 16]);
    assert!(DecryptContext::try_parse(PckFile::from_bytes(bytes)).is_none());
}

#[test]
fn round_trip_accepts_the_right_key() {
    let key = [0x42u8; 32];
    let iv = [0x24u8; 16];
    let plain = b"exactly 16 bytes";
    let checksum = md5::compute(plain).0;
    let ciphertext = cfb_encrypt(&key, &iv, plain);
    let bytes = build_container(&checksum, 16, &iv, &ciphertext);
    let mut ctx = DecryptContext::try_parse(PckFile::from_bytes(bytes)).unwrap();
    assert!(ctx.try_decrypt(&key));
}

#[test]
fn round_trip_rejects_a_wrong_key() {
    let key = [0x42u8; 32];
    let iv = [0x24u8; 16];
    let plain = b"exactly 16 bytes";
    let checksum = md5::compute(plain).0;
    let ciphertext = cfb_encrypt(&key, &iv, plain);
    let bytes = build_container(&checksum, 16, &iv, &ciphertext);
    let mut ctx = DecryptContext::try_parse(PckFile::from_bytes(bytes)).unwrap();
    let mut wrong = key;
    wrong[31] ^= 1;
    assert!(!ctx.try_decrypt(&wrong));
}

#[test]
fn round_trip_checks_only_the_declared_prefix() {
    // Ten payload bytes padded to one cipher block; the digest covers the
    // ten bytes alone.
    let key = [0x11u8; 32];
    let iv = [0x99u8; 16];
    let mut padded = [0u8; 16];
    padded[..10].copy_from_slice(b"ten bytes!");
    let checksum = md5::compute(&padded[..10]).0;
    let ciphertext = cfb_encrypt(&key, &iv, &padded);
    let bytes = build_container(&checksum, 10, &iv, &ciphertext);
    let mut ctx = DecryptContext::try_parse(PckFile::from_bytes(bytes)).unwrap();
    assert!(ctx.try_decrypt(&key));
}

#[test]
fn scratch_buffer_leaks_nothing_between_attempts() {
    let key = [0x42u8; 32];
    let iv = [0u8; 16];
    let plain = b"exactly 16 bytes";
    let checksum = md5::compute(plain).0;
    let ciphertext = cfb_encrypt(&key, &iv, plain);
    let bytes = build_container(&checksum, 16, &iv, &ciphertext);
    let mut ctx = DecryptContext::try_parse(PckFile::from_bytes(bytes)).unwrap();
    let wrong = [0x13u8; 32];
    assert!(!ctx.try_decrypt(&wrong));
    assert!(ctx.try_decrypt(&key));
    assert!(!ctx.try_decrypt(&wrong));
}

#[test]
fn duplicate_shares_parameters_and_verdicts() {
    let key = [0x42u8; 32];
    let iv = [0x24u8; 16];
    let plain = b"exactly 16 bytes";
    let checksum = md5::compute(plain).0;
    let ciphertext = cfb_encrypt(&key, &iv, plain);
    let bytes = build_container(&checksum, 16, &iv, &ciphertext);
    let ctx = DecryptContext::try_parse(PckFile::from_bytes(bytes)).unwrap();
    let mut copy = ctx.duplicate();
    assert_eq!(copy.declared_len(), 16);
    assert!(copy.try_decrypt(&key));
}
