//! The journal codec: the canonical fixed-width binary form of the publicly
//! committed proof output, and its SHA-256 content identity.

use vstd::prelude::*;

use crate::bytes::push_bytes32;
use crate::bytes::spec_u32_from_le;
use crate::bytes::spec_u32_le;
use crate::bytes::spec_u64_from_le;
use crate::bytes::spec_u64_le;
use crate::bytes::u32_from_le;
use crate::bytes::u32_le;
use crate::bytes::u64_from_le;
use crate::bytes::u64_le;
use crate::bytes::lemma_u32_le_round_trip;
use crate::bytes::lemma_u64_le_round_trip;
use crate::errors::ReplayError;
use crate::hashing::sha256;
use crate::hashing::sha256_of;

verus! {

/// The exact byte length of an encoded journal.
pub const JOURNAL_LEN: usize = 88;

/// The publicly committed record binding a proof to its claim: the scored
/// replay of one prompt by one player for one challenge.
#[derive(Clone, Copy, Debug, PartialEq, Eq)]
pub struct Journal {
    pub challenge_id: u32,
    pub player_pubkey: [u8; 32],
    pub prompt_hash: [u8; 32],
    pub score: u64,
    pub wpm_x100: u32,
    pub accuracy_bps: u32,
    pub duration_ms: u32,
}

/// The canonical 88-byte little-endian encoding of a journal:
/// challenge_id(4) ‖ player_pubkey(32) ‖ prompt_hash(32) ‖ score(8) ‖
/// wpm_x100(4) ‖ accuracy_bps(4) ‖ duration_ms(4).
pub open spec fn spec_encode_journal(j: Journal) -> Seq<u8> {
    spec_u32_le(j.challenge_id) + j.player_pubkey@ + j.prompt_hash@ + spec_u64_le(j.score)
        + spec_u32_le(j.wpm_x100) + spec_u32_le(j.accuracy_bps) + spec_u32_le(j.duration_ms)
}

/// Whether `j` is the journal denoted by the 88 bytes of `b`.
pub open spec fn journal_matches_bytes(j: Journal, b: Seq<u8>) -> bool {
    &&& b.len() == JOURNAL_LEN
    &&& j.challenge_id == spec_u32_from_le(b[0], b[1], b[2], b[3])
    &&& j.player_pubkey@ == b.subrange(4, 36)
    &&& j.prompt_hash@ == b.subrange(36, 68)
    &&& j.score == spec_u64_from_le(b[68], b[69], b[70], b[71], b[72], b[73], b[74], b[75])
    &&& j.wpm_x100 == spec_u32_from_le(b[76], b[77], b[78], b[79])
    &&& j.accuracy_bps == spec_u32_from_le(b[80], b[81], b[82], b[83])
    &&& j.duration_ms == spec_u32_from_le(b[84], b[85], b[86], b[87])
}

/// Encodes a journal into its canonical 88-byte form.
pub fn encode_journal(journal: &Journal) -> (r: Vec<u8>)
    ensures
        r@ == spec_encode_journal(*journal),
        r@.len() == JOURNAL_LEN,
{
    let mut out: Vec<u8> = Vec::new();
    u32_le(journal.challenge_id, &mut out);
    push_bytes32(&journal.player_pubkey, &mut out);
    push_bytes32(&journal.prompt_hash, &mut out);
    u64_le(journal.score, &mut out);
    u32_le(journal.wpm_x100, &mut out);
    u32_le(journal.accuracy_bps, &mut out);
    u32_le(journal.duration_ms, &mut out);
    assert(out@ =~= spec_encode_journal(*journal));
    out
}

/// Decodes a canonical 88-byte journal. Fails with `LengthMismatch`, and
/// only then, if the input is not exactly 88 bytes.
pub fn decode_journal(bytes: &[u8]) -> (r: Result<Journal, ReplayError>)
    ensures
        match r {
            Ok(j) => journal_matches_bytes(j, bytes@),
            Err(e) => e == ReplayError::LengthMismatch && bytes@.len() != JOURNAL_LEN,
        },
{
    if bytes.len() != JOURNAL_LEN {
        return Err(ReplayError::LengthMismatch);
    }
    let challenge_id = u32_from_le(bytes, 0);
    let mut player_pubkey = [0u8; 32];
    let mut i: usize = 0;
    while i < 32
        invariant
            i <= 32,
            bytes@.len() == JOURNAL_LEN,
            forall|k: int| 0 <= k < i ==> player_pubkey@[k] == bytes@[4 + k],
        decreases 32 - i,
    {
        player_pubkey[i] = bytes[4 + i];
        i += 1;
    }
    let mut prompt_hash = [0u8; 32];
    let mut i: usize = 0;
    while i < 32
        invariant
            i <= 32,
            bytes@.len() == JOURNAL_LEN,
            forall|k: int| 0 <= k < i ==> prompt_hash@[k] == bytes@[36 + k],
        decreases 32 - i,
    {
        prompt_hash[i] = bytes[36 + i];
        i += 1;
    }
    let score = u64_from_le(bytes, 68);
    let wpm_x100 = u32_from_le(bytes, 76);
    let accuracy_bps = u32_from_le(bytes, 80);
    let duration_ms = u32_from_le(bytes, 84);
    let journal = Journal {
        challenge_id,
        player_pubkey,
        prompt_hash,
        score,
        wpm_x100,
        accuracy_bps,
        duration_ms,
    };
    assert(journal.player_pubkey@ =~= bytes@.subrange(4, 36));
    assert(journal.prompt_hash@ =~= bytes@.subrange(36, 68));
    Ok(journal)
}

/// The SHA-256 content identity of a journal: the hash of its canonical
/// encoded bytes, used for tamper-evidence comparisons between
/// independently computed results.
pub fn journal_hash(journal: &Journal) -> (r: [u8; 32])
    ensures
        r@ == sha256_of(spec_encode_journal(*journal)),
{
    let bytes = encode_journal(journal);
    sha256(bytes.as_slice())
}

/// Round trip: the canonical bytes of a journal decode back to it.
pub proof fn lemma_journal_round_trip(j: Journal)
    ensures
        journal_matches_bytes(j, spec_encode_journal(j)),
{
    let b = spec_encode_journal(j);
    lemma_u32_le_round_trip(j.challenge_id);
    lemma_u64_le_round_trip(j.score);
    lemma_u32_le_round_trip(j.wpm_x100);
    lemma_u32_le_round_trip(j.accuracy_bps);
    lemma_u32_le_round_trip(j.duration_ms);
    assert(j.player_pubkey@ =~= b.subrange(4, 36));
    assert(j.prompt_hash@ =~= b.subrange(36, 68));
}

/// The 88 bytes of an encoded journal pin every field: two journals that
/// match the same bytes are equal.
pub proof fn lemma_journal_bytes_unique(j1: Journal, j2: Journal, b: Seq<u8>)
    requires
        journal_matches_bytes(j1, b),
        journal_matches_bytes(j2, b),
    ensures
        j1 == j2,
{
    assert(j1.player_pubkey@ =~= j2.player_pubkey@);
    assert(j1.prompt_hash@ =~= j2.prompt_hash@);
    assert(j1.player_pubkey =~= j2.player_pubkey);
    assert(j1.prompt_hash =~= j2.prompt_hash);
}

} // verus!
