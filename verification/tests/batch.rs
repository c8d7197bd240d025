use batch_sha256::device::{
    decode_digest_records, digest_bytes_equal, dispatch_group_count, output_buffer_len,
    records_to_hex, run_kernel_batch, run_kernel_batch_bytes, verify_digests, LANES_PER_GROUP,
};
use batch_sha256::engine::{digest_dataparallel, digest_message, digest_message_hex,
    digest_sequential};
use batch_sha256::hex::{hex_decode, hex_encode};
use batch_sha256::layout::{build_batch_layout, get_message_sizes};
use batch_sha256::pad::{pad_message, BatchError};
use batch_sha256::pad::pad_message_for_sha256;
use batch_sha256::words::{bytes_from_words, words_from_bytes};
use sha2::Digest;

const EMPTY_DIGEST: &str = "e3b0c44298fc1c149afbf4c8996fb92427ae41e4649b934ca495991b7852b855";
const ABC_DIGEST: &str = "ba7816bf8f01cfea414140de5dae2223b00361a396177a9cb410ff61f20015ad";

fn hex_string(bytes: &[u8]) -> String {
    String::from_utf8(hex_encode(bytes)).unwrap()
}

fn kernel_hex_digests(messages: &Vec<Vec<u8>>) -> Vec<String> {
    let layout = build_batch_layout(messages).unwrap();
    let bytes = run_kernel_batch_bytes(&layout);
    assert_eq!(bytes.len(), messages.len() * 32);
    let records = decode_digest_records(&bytes, messages.len() as u32);
    records_to_hex(&records)
        .into_iter()
        .map(|h| String::from_utf8(h).unwrap())
        .collect()
}

#[test]
fn empty_message_pads_to_one_block() {
    let padded = pad_message_for_sha256(&[]);
    assert_eq!(padded.len(), 64);
    assert_eq!(padded[0], 0x80);
    assert!(padded[1..64].iter().all(|&b| b == 0));
}

#[test]
fn padding_straddles_the_length_threshold() {
    // 55 bytes still fit one block; 56 force a second; 64 keep two.
    let padded55 = pad_message_for_sha256(&[0xaau8; 55]);
    assert_eq!(padded55.len(), 64);
    let padded56 = pad_message_for_sha256(&[0xaau8; 56]);
    assert_eq!(padded56.len(), 128);
    let padded64 = pad_message_for_sha256(&[0xaau8; 64]);
    assert_eq!(padded64.len(), 128);
}

#[test]
fn padding_appends_marker_zeros_and_big_endian_bit_length() {
    let message = b"abc";
    let padded = pad_message_for_sha256(message);
    assert_eq!(padded.len(), 64);
    assert_eq!(&padded[0..3], message);
    assert_eq!(padded[3], 0x80);
    assert!(padded[4..56].iter().all(|&b| b == 0));
    let mut tail = [0u8; 8];
    tail.copy_from_slice(&padded[56..64]);
    assert_eq!(u64::from_be_bytes(tail), 24);
}

#[test]
fn message_sizes_report_word_geometry() {
    assert_eq!(get_message_sizes(&[0u8; 4]), vec![1, 16]);
    assert_eq!(get_message_sizes(&[0u8; 55]), vec![13, 16]);
    assert_eq!(get_message_sizes(&[0u8; 56]), vec![14, 32]);
    assert_eq!(get_message_sizes(&[0u8; 64]), vec![16, 32]);
}

#[test]
fn layout_supports_ragged_batches() {
    let messages = vec![vec![], vec![0x11u8; 55], vec![0x22u8; 56]];
    let layout = build_batch_layout(&messages).unwrap();
    assert_eq!(layout.message_count, 3);
    assert_eq!(layout.offsets, vec![0, 16, 32]);
    assert_eq!(layout.unpadded_word_counts, vec![0, 13, 14]);
    assert_eq!(layout.padded_word_counts, vec![16, 16, 32]);
    assert_eq!(layout.words.len(), 64);
}

#[test]
fn layout_matches_flat_padded_words() {
    let messages = vec![vec![1u8, 2, 3, 4], vec![5u8, 6, 7, 8]];
    let layout = build_batch_layout(&messages).unwrap();
    let mut expected: Vec<u32> = Vec::new();
    for m in &messages {
        expected.extend(words_from_bytes(&pad_message_for_sha256(m)));
    }
    assert_eq!(layout.words, expected);
}

#[test]
fn word_packing_round_trips() {
    let bytes: Vec<u8> = (0u8..=255).collect();
    let words = words_from_bytes(&bytes);
    assert_eq!(bytes_from_words(&words), bytes);
    assert_eq!(words[0], u32::from_le_bytes([0, 1, 2, 3]));
}

#[test]
fn hex_encoding_round_trips() {
    let bytes = vec![0x00u8, 0xff, 0x1a, 0x9c];
    let digits = hex_encode(&bytes);
    assert_eq!(digits, b"00ff1a9c".to_vec());
    assert_eq!(hex_decode(&digits), bytes);
}

#[test]
fn empty_message_digest_is_the_known_value() {
    let digest = digest_message_hex(&[]);
    assert_eq!(String::from_utf8(digest).unwrap(), EMPTY_DIGEST);
    assert_eq!(hex_string(&digest_message(&[])), EMPTY_DIGEST);
}

#[test]
fn kernel_empty_message_digest_is_the_known_value() {
    let digests = kernel_hex_digests(&vec![vec![]]);
    assert_eq!(digests, vec![EMPTY_DIGEST.to_string()]);
}

#[test]
fn kernel_abc_digest_is_the_known_value() {
    let digests = kernel_hex_digests(&vec![b"abc".to_vec()]);
    assert_eq!(digests, vec![ABC_DIGEST.to_string()]);
}

#[test]
fn kernel_agrees_with_oracle_across_lengths() {
    let messages: Vec<Vec<u8>> = vec![
        vec![],
        b"abc".to_vec(),
        vec![0xde, 0xad, 0xbe, 0xef],
        vec![0x55u8; 55],
        vec![0x56u8; 56],
        vec![0x64u8; 64],
        (0u8..100).collect(),
    ];
    let kernel = kernel_hex_digests(&messages);
    let oracle: Vec<String> = digest_sequential(&messages)
        .into_iter()
        .map(|h| String::from_utf8(h).unwrap())
        .collect();
    assert_eq!(kernel, oracle);
}

#[test]
fn sequential_and_dataparallel_agree() {
    let messages: Vec<Vec<u8>> = (0u8..50).map(|i| vec![i, i ^ 0x5a, 3, 4]).collect();
    assert_eq!(digest_sequential(&messages), digest_dataparallel(&messages));
}

#[test]
fn batch_of_incrementing_messages_agrees_on_every_backend() {
    let n: usize = 70;
    let mut messages = Vec::new();
    for i in 0..n {
        messages.push(vec![
            (i & 0xff) as u8,
            ((i >> 8) & 0xff) as u8,
            ((i >> 16) & 0xff) as u8,
            ((i >> 24) & 0xff) as u8,
        ]);
    }
    let sequential = digest_sequential(&messages);
    let parallel = digest_dataparallel(&messages);
    let device = kernel_hex_digests(&messages);
    for i in 0..n {
        assert_eq!(sequential[i], parallel[i], "parallel mismatch at {}", i);
        assert_eq!(
            String::from_utf8(sequential[i].clone()).unwrap(),
            device[i],
            "device mismatch at {}",
            i
        );
    }
    assert_eq!(dispatch_group_count(n as u32, LANES_PER_GROUP), 3);
}

#[test]
fn dispatch_grid_covers_ragged_batch_sizes() {
    assert_eq!(dispatch_group_count(0, 32), 0);
    assert_eq!(dispatch_group_count(1, 32), 1);
    assert_eq!(dispatch_group_count(32, 32), 1);
    assert_eq!(dispatch_group_count(33, 32), 2);
    assert_eq!(dispatch_group_count(64, 32), 2);
    assert_eq!(dispatch_group_count(65, 32), 3);
}

#[test]
fn output_buffer_sized_for_every_batch_including_empty() {
    assert_eq!(output_buffer_len(0), 0);
    assert_eq!(output_buffer_len(1), 32);
    assert_eq!(output_buffer_len(2_000_000), 64_000_000);
    let layout = build_batch_layout(&vec![]).unwrap();
    let bytes = run_kernel_batch_bytes(&layout);
    assert_eq!(bytes.len(), 0);
    let records = decode_digest_records(&bytes, 0);
    assert_eq!(records.len(), 0);
}

#[test]
fn decoding_and_reencoding_records_is_lossless() {
    let messages = vec![b"one".to_vec(), b"two".to_vec(), b"three".to_vec()];
    let layout = build_batch_layout(&messages).unwrap();
    let bytes = run_kernel_batch_bytes(&layout);
    let records = decode_digest_records(&bytes, 3);
    assert_eq!(records.len(), 3);
    let mut rebuilt: Vec<u8> = Vec::new();
    for rec in &records {
        assert_eq!(rec.len(), 32);
        rebuilt.extend(hex_decode(&hex_encode(rec)));
    }
    assert_eq!(rebuilt, bytes);
}

#[test]
fn verifier_reports_every_mismatch_and_no_more() {
    let a = vec![b"aa".to_vec(), b"bb".to_vec(), b"cc".to_vec(), b"dd".to_vec()];
    let mut b = a.clone();
    assert!(verify_digests(&a, &b).is_empty());
    b[1] = b"xx".to_vec();
    b[3] = b"yy".to_vec();
    assert_eq!(verify_digests(&a, &b), vec![1, 3]);
    assert!(digest_bytes_equal(&a[0], &b[0]));
    assert!(!digest_bytes_equal(&a[1], &b[1]));
}

#[test]
fn kernel_batch_words_hold_eight_words_per_message() {
    let messages = vec![vec![9u8; 10], vec![8u8; 20]];
    let layout = build_batch_layout(&messages).unwrap();
    let out = run_kernel_batch(&layout);
    assert_eq!(out.len(), 16);
}

#[test]
fn oracle_digests_match_reference_library() {
    let messages: Vec<Vec<u8>> = vec![vec![], b"abc".to_vec(), vec![7u8; 99]];
    for m in &messages {
        let expected: String = sha2::Sha256::digest(m)
            .iter()
            .map(|b| format!("{:02x}", b))
            .collect();
        assert_eq!(hex_string(&digest_message(m)), expected);
    }
}

#[test]
fn batch_error_values_are_distinct() {
    assert_ne!(BatchError::InvalidInput, BatchError::LayoutOverflow);
}

#[test]
fn checked_padding_accepts_ordinary_messages() {
    let padded = pad_message(b"abc").unwrap();
    assert_eq!(padded, pad_message_for_sha256(b"abc"));
}
