use typing_proof::encode_journal;
use typing_proof::finish_prove;
use typing_proof::receipt_seal_bytes;
use typing_proof::select_receipt_kind;
use typing_proof::sha256;
use typing_proof::Journal;
use typing_proof::PipelineError;
use typing_proof::ReceiptKind;
use typing_proof::SealSource;

fn sample_journal_bytes() -> Vec<u8> {
    encode_journal(&Journal {
        challenge_id: 1,
        player_pubkey: [7u8; 32],
        prompt_hash: [5u8; 32],
        score: 10000,
        wpm_x100: 10000,
        accuracy_bps: 10000,
        duration_ms: 1320,
    })
}

#[test]
fn selector_picks_strength_and_requirement() {
    assert_eq!(select_receipt_kind("succinct"), (ReceiptKind::Succinct, false));
    assert_eq!(select_receipt_kind("composite"), (ReceiptKind::Composite, false));
    assert_eq!(select_receipt_kind("groth16"), (ReceiptKind::Groth16, true));
    assert_eq!(select_receipt_kind("anything-else"), (ReceiptKind::Groth16, true));
    assert_eq!(select_receipt_kind(""), (ReceiptKind::Groth16, true));
}

#[test]
fn seal_extraction_per_artifact_shape() {
    assert_eq!(receipt_seal_bytes(SealSource::Groth16(vec![1, 2, 3])), Ok(vec![1, 2, 3]));
    assert_eq!(receipt_seal_bytes(SealSource::Succinct(vec![4, 5])), Ok(vec![4, 5]));
    // a single composite segment is returned unmodified
    assert_eq!(receipt_seal_bytes(SealSource::Composite(vec![vec![6, 7]])), Ok(vec![6, 7]));
    // several segments concatenate in order
    assert_eq!(
        receipt_seal_bytes(SealSource::Composite(vec![vec![6, 7], vec![], vec![8]])),
        Ok(vec![6, 7, 8])
    );
    assert_eq!(receipt_seal_bytes(SealSource::Fake), Ok(vec![]));
    assert_eq!(receipt_seal_bytes(SealSource::Other), Err(PipelineError::UnsupportedSeal));
}

#[test]
fn finish_prove_assembles_a_checked_result() {
    let bytes = sample_journal_bytes();
    let result = finish_prove(
        true,
        true,
        bytes.clone(),
        SealSource::Groth16(vec![1, 2, 3]),
        [3u8; 32],
    )
    .unwrap();
    assert_eq!(result.journal.challenge_id, 1);
    assert_eq!(result.journal.score, 10000);
    assert_eq!(result.journal_bytes, bytes);
    assert_eq!(result.seal, vec![1, 2, 3]);
    assert_eq!(result.image_id, [3u8; 32]);
    assert_eq!(result.journal_sha256, sha256(&bytes));
}

#[test]
fn finish_prove_surfaces_each_failure() {
    let bytes = sample_journal_bytes();
    assert_eq!(
        finish_prove(false, true, bytes.clone(), SealSource::Groth16(vec![1]), [3u8; 32]),
        Err(PipelineError::VerificationFailed)
    );
    // the strongest strength was required but a weaker artifact came back
    assert_eq!(
        finish_prove(true, true, bytes.clone(), SealSource::Succinct(vec![1]), [3u8; 32]),
        Err(PipelineError::StrengthNotMet)
    );
    // a weaker artifact is fine when not required to be strongest
    assert!(finish_prove(true, false, bytes.clone(), SealSource::Succinct(vec![1]), [3u8; 32])
        .is_ok());
    assert_eq!(
        finish_prove(true, true, vec![0u8; 87], SealSource::Groth16(vec![1]), [3u8; 32]),
        Err(PipelineError::JournalLengthMismatch)
    );
    assert_eq!(
        finish_prove(true, false, bytes, SealSource::Other, [3u8; 32]),
        Err(PipelineError::UnsupportedSeal)
    );
}
