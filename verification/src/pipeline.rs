//! The proof-issuance pipeline's decisions: which proof strength a
//! configuration selector demands, how a proof artifact's seal is put into
//! canonical transport form, and how the prover's output is checked and
//! assembled into a result. Driving the opaque prover itself, and the
//! cryptographic self-check, are the host's work; their outcomes arrive
//! here as plain values.

use vstd::prelude::*;

use crate::codec::decode_journal;
use crate::codec::journal_matches_bytes;
use crate::codec::Journal;
use crate::codec::JOURNAL_LEN;
use crate::errors::PipelineError;
use crate::hashing::sha256;
use crate::hashing::sha256_of;

verus! {

/// A proof strength level, from fastest to strongest. Only the strongest
/// is acceptable for production submission.
#[derive(Clone, Copy, Debug, PartialEq, Eq, Structural)]
pub enum ReceiptKind {
    Composite,
    Succinct,
    Groth16,
}

/// A proof artifact reduced to plain values: which strength the prover
/// produced, and the seal bytes it carries — per segment for a composite
/// artifact, none for a fake one, and nothing usable for any other shape.
#[derive(Debug, PartialEq, Eq)]
pub enum SealSource {
    Groth16(Vec<u8>),
    Succinct(Vec<u8>),
    Composite(Vec<Vec<u8>>),
    Fake,
    Other,
}

/// The checked, transport-ready outcome of one proving run.
#[derive(Debug, PartialEq, Eq)]
pub struct ProveResult {
    pub journal: Journal,
    pub journal_bytes: Vec<u8>,
    pub seal: Vec<u8>,
    pub image_id: [u8; 32],
    pub journal_sha256: [u8; 32],
}

/// The byte sequences held by a sequence of segments.
pub open spec fn segments_view(s: Seq<Vec<u8>>) -> Seq<Seq<u8>> {
    Seq::new(s.len(), |i: int| s[i]@)
}

/// The concatenation of byte segments, in order.
pub open spec fn concat_segments(segs: Seq<Seq<u8>>) -> Seq<u8>
    decreases segs.len(),
{
    if segs.len() == 0 {
        Seq::<u8>::empty()
    } else {
        concat_segments(segs.drop_last()) + segs.last()
    }
}

/// The canonical transport seal of a proof artifact: a single-segment
/// artifact's seal unchanged, a composite's segment seals concatenated in
/// order, a fake artifact's empty seal, and none for any other shape.
pub open spec fn spec_seal_bytes(src: SealSource) -> Option<Seq<u8>> {
    match src {
        SealSource::Groth16(s) => Some(s@),
        SealSource::Succinct(s) => Some(s@),
        SealSource::Composite(segs) => Some(concat_segments(segments_view(segs@))),
        SealSource::Fake => Some(Seq::<u8>::empty()),
        SealSource::Other => None,
    }
}

/// Extracts the canonical transport seal from a proof artifact; fails
/// with `UnsupportedSeal`, and only then, on a shape that has none.
pub fn receipt_seal_bytes(src: SealSource) -> (r: Result<Vec<u8>, PipelineError>)
    ensures
        match r {
            Ok(v) => spec_seal_bytes(src) == Some(v@),
            Err(e) => e == PipelineError::UnsupportedSeal && spec_seal_bytes(src) is None,
        },
{
    match src {
        SealSource::Groth16(s) => Ok(s),
        SealSource::Succinct(s) => Ok(s),
        SealSource::Composite(segs) => {
            let ghost segv = segments_view(segs@);
            let mut out: Vec<u8> = Vec::new();
            let mut i: usize = 0;
            proof {
                assert(out@ =~= concat_segments(segv.take(0)));
            }
            while i < segs.len()
                invariant
                    i <= segs@.len(),
                    segv == segments_view(segs@),
                    out@ == concat_segments(segv.take(i as int)),
                decreases segs@.len() - i,
            {
                out.extend_from_slice(segs[i].as_slice());
                proof {
                    assert(segv.take(i + 1).drop_last() =~= segv.take(i as int));
                    assert(segv.take(i + 1).last() == segs@[i as int]@);
                    assert(out@ =~= concat_segments(segv.take(i + 1)));
                }
                i += 1;
            }
            proof {
                assert(segv.take(segs@.len() as int) =~= segv);
            }
            Ok(out)
        },
        SealSource::Fake => Ok(Vec::new()),
        SealSource::Other => Err(PipelineError::UnsupportedSeal),
    }
}

/// Whether two strings hold the same characters.
fn str_eq(a: &str, b: &str) -> (r: bool)
    ensures
        r == (a@ == b@),
{
    let a_len = a.unicode_len();
    let b_len = b.unicode_len();
    if a_len != b_len {
        return false;
    }
    let mut i: usize = 0;
    while i < a_len
        invariant
            i <= a_len,
            a_len == a@.len(),
            a_len == b@.len(),
            forall|j: int| 0 <= j < i ==> a@[j] == b@[j],
        decreases a_len - i,
    {
        if a.get_char(i) != b.get_char(i) {
            return false;
        }
        i += 1;
    }
    proof {
        assert(a@ =~= b@);
    }
    true
}

/// Decides the proof strength a configuration selector demands, and
/// whether the strongest level is then required: an unrecognized selector
/// falls back to the strongest level, required.
pub fn select_receipt_kind(selector: &str) -> (r: (ReceiptKind, bool))
    ensures
        selector@ == "succinct"@ ==> r == (ReceiptKind::Succinct, false),
        selector@ == "composite"@ ==> r == (ReceiptKind::Composite, false),
        selector@ != "succinct"@ && selector@ != "composite"@ ==> r == (
            ReceiptKind::Groth16,
            true,
        ),
{
    proof {
        reveal_strlit("succinct");
        reveal_strlit("composite");
        assert("succinct"@.len() == 8);
        assert("composite"@.len() == 9);
        assert("succinct"@ != "composite"@);
    }
    if str_eq(selector, "succinct") {
        (ReceiptKind::Succinct, false)
    } else if str_eq(selector, "composite") {
        (ReceiptKind::Composite, false)
    } else {
        (ReceiptKind::Groth16, true)
    }
}

/// Checks and assembles what the prover handed back, in order: the local
/// self-check must have passed; a strongest-level artifact must be
/// present when required; the committed journal must be exactly
/// `JOURNAL_LEN` bytes; and the artifact must carry a usable seal. Every
/// failure is surfaced as its own error; nothing is silently ignored.
pub fn finish_prove(
    verify_ok: bool,
    require_groth16: bool,
    journal_bytes: Vec<u8>,
    src: SealSource,
    image_id: [u8; 32],
) -> (r: Result<ProveResult, PipelineError>)
    ensures
        match r {
            Ok(pr) => verify_ok && (require_groth16 ==> src is Groth16) && journal_bytes@.len()
                == JOURNAL_LEN && spec_seal_bytes(src) == Some(pr.seal@) && journal_matches_bytes(
                pr.journal,
                journal_bytes@,
            ) && pr.journal_bytes@ == journal_bytes@ && pr.image_id == image_id
                && pr.journal_sha256@ == sha256_of(journal_bytes@),
            Err(e) => (e == PipelineError::VerificationFailed && !verify_ok) || (e
                == PipelineError::StrengthNotMet && verify_ok && require_groth16 && !(src
                is Groth16)) || (e == PipelineError::JournalLengthMismatch && verify_ok && (
            require_groth16 ==> src is Groth16) && journal_bytes@.len() != JOURNAL_LEN) || (e
                == PipelineError::UnsupportedSeal && verify_ok && (require_groth16 ==> src
                is Groth16) && journal_bytes@.len() == JOURNAL_LEN && spec_seal_bytes(src)
                is None),
        },
{
    if !verify_ok {
        return Err(PipelineError::VerificationFailed);
    }
    let strongest = match &src {
        SealSource::Groth16(_) => true,
        _ => false,
    };
    if require_groth16 && !strongest {
        return Err(PipelineError::StrengthNotMet);
    }
    let journal = match decode_journal(journal_bytes.as_slice()) {
        Ok(j) => j,
        Err(_) => {
            return Err(PipelineError::JournalLengthMismatch);
        },
    };
    let journal_sha256 = sha256(journal_bytes.as_slice());
    let seal = match receipt_seal_bytes(src) {
        Ok(s) => s,
        Err(e) => {
            return Err(e);
        },
    };
    Ok(ProveResult { journal, journal_bytes, seal, image_id, journal_sha256 })
}

} // verus!
