use typing_proof::decode_journal;
use typing_proof::encode_journal;
use typing_proof::journal_hash;
use typing_proof::sha256;
use typing_proof::Journal;
use typing_proof::ReplayError;
use typing_proof::JOURNAL_LEN;

fn sample_journal() -> Journal {
    Journal {
        challenge_id: 7,
        player_pubkey: [0xAB; 32],
        prompt_hash: [0xCD; 32],
        score: 0x1122334455667788,
        wpm_x100: 12345,
        accuracy_bps: 9876,
        duration_ms: 60000,
    }
}

#[test]
fn journal_encodes_to_fixed_width() {
    let bytes = encode_journal(&sample_journal());
    assert_eq!(bytes.len(), JOURNAL_LEN);
    assert_eq!(bytes.len(), 88);
}

#[test]
fn journal_layout_is_little_endian_at_fixed_offsets() {
    let bytes = encode_journal(&sample_journal());
    assert_eq!(&bytes[0..4], &[7, 0, 0, 0]);
    assert_eq!(&bytes[4..36], &[0xAB; 32]);
    assert_eq!(&bytes[36..68], &[0xCD; 32]);
    assert_eq!(&bytes[68..76], &[0x88, 0x77, 0x66, 0x55, 0x44, 0x33, 0x22, 0x11]);
    assert_eq!(&bytes[76..80], &[0x39, 0x30, 0, 0]);
    assert_eq!(&bytes[80..84], &[0x94, 0x26, 0, 0]);
    assert_eq!(&bytes[84..88], &[0x60, 0xEA, 0, 0]);
}

#[test]
fn journal_round_trips() {
    let journal = sample_journal();
    let bytes = encode_journal(&journal);
    let decoded = decode_journal(&bytes).unwrap();
    assert_eq!(decoded, journal);
}

#[test]
fn decode_rejects_wrong_length() {
    assert_eq!(decode_journal(&[0u8; 87]), Err(ReplayError::LengthMismatch));
    assert_eq!(decode_journal(&[0u8; 89]), Err(ReplayError::LengthMismatch));
    assert_eq!(decode_journal(&[]), Err(ReplayError::LengthMismatch));
    assert!(decode_journal(&[0u8; 88]).is_ok());
}

#[test]
fn sha256_matches_known_vectors() {
    let empty = sha256(&[]);
    assert_eq!(
        empty.to_vec(),
        hex::decode("e3b0c44298fc1c149afbf4c8996fb92427ae41e4649b934ca495991b7852b855").unwrap()
    );
    let abc = sha256(b"abc");
    assert_eq!(
        abc.to_vec(),
        hex::decode("ba7816bf8f01cfea414140de5dae2223b00361a396177a9cb410ff61f20015ad").unwrap()
    );
}

#[test]
fn journal_hash_is_hash_of_encoded_bytes() {
    let journal = sample_journal();
    let bytes = encode_journal(&journal);
    assert_eq!(journal_hash(&journal), sha256(&bytes));
}
