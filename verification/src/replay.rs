//! The replay scoring engine: a deterministic function from (prompt,
//! keystroke event stream) to the scored journal. It runs once to produce a
//! proof and may run again to double-check the result, so the journal is a
//! pure function of its inputs.

use vstd::prelude::*;

use vstd::arithmetic::div_mod::lemma_div_is_ordered;
use vstd::arithmetic::div_mod::lemma_div_is_ordered_by_denominator;
use vstd::arithmetic::div_mod::lemma_div_multiples_vanish;
use vstd::arithmetic::mul::lemma_mul_inequality;

use crate::bytes::bytes32_eq;
use crate::codec::spec_encode_journal;
use crate::codec::Journal;
use crate::errors::ReplayError;
use crate::events::events_keys_ok;
use crate::events::events_len_ok;
use crate::events::parse_events;
use crate::events::spec_parsed_events;
use crate::events::ReplayEvent;
use crate::hashing::sha256;
use crate::hashing::sha256_of;

verus! {

/// The anti-automation floor: every inter-key delay must be at least this
/// many milliseconds.
pub const MIN_DT_MS: u16 = 10;

/// The duration floor: a replay must last at least this many milliseconds
/// per prompt character.
pub const MIN_MS_PER_CHAR: u64 = 40;

/// The output buffer after one key: letters and space append, backspace
/// removes the last character if any, enter is a no-op end marker.
pub open spec fn key_output(out: Seq<u8>, key: u8) -> Seq<u8> {
    if key <= 25 {
        out.push((key + 97) as u8)
    } else if key == 26 {
        out.push(32)
    } else if key == 27 {
        if out.len() == 0 {
            out
        } else {
            out.drop_last()
        }
    } else {
        out
    }
}

/// The output buffer after replaying all events in order.
pub open spec fn replay_output(evs: Seq<ReplayEvent>) -> Seq<u8>
    decreases evs.len(),
{
    if evs.len() == 0 {
        Seq::<u8>::empty()
    } else {
        key_output(replay_output(evs.drop_last()), evs.last().key)
    }
}

/// The total duration of a replay: the sum of all inter-key delays.
pub open spec fn total_duration(evs: Seq<ReplayEvent>) -> int
    decreases evs.len(),
{
    if evs.len() == 0 {
        0
    } else {
        total_duration(evs.drop_last()) + evs.last().dt_ms
    }
}

/// Whether every inter-key delay meets the anti-automation floor.
pub open spec fn delays_ok(evs: Seq<ReplayEvent>) -> bool {
    forall|i: int| 0 <= i < evs.len() ==> #[trigger] evs[i].dt_ms >= MIN_DT_MS
}

/// The number of positions `i < n` where `out[i] == prompt[i]`.
pub open spec fn correct_prefix(out: Seq<u8>, prompt: Seq<u8>, n: int) -> int
    decreases n,
{
    if n <= 0 {
        0
    } else {
        correct_prefix(out, prompt, n - 1) + if out[n - 1] == prompt[n - 1] {
            1int
        } else {
            0int
        }
    }
}

/// The number of correct characters: positions agreeing over the overlap
/// of the output and the prompt.
pub open spec fn correct_count(out: Seq<u8>, prompt: Seq<u8>) -> int {
    correct_prefix(out, prompt, if out.len() <= prompt.len() {
        out.len() as int
    } else {
        prompt.len() as int
    })
}

/// Accuracy in basis points: floor(correct × 10000 / prompt length).
pub open spec fn spec_accuracy_bps(out: Seq<u8>, prompt: Seq<u8>) -> int {
    correct_count(out, prompt) * 10000 / (prompt.len() as int)
}

/// Speed in hundredths of words per minute: floor(typed × 1200000 /
/// duration), where typed is the final output length.
pub open spec fn spec_wpm_x100(out: Seq<u8>, duration: int) -> int {
    (out.len() as int) * 1200000 / duration
}

/// The composite ranking score: floor(wpm_x100 × accuracy_bps / 10000).
pub open spec fn spec_score(wpm_x100: int, accuracy_bps: int) -> int {
    wpm_x100 * accuracy_bps / 10000
}

/// The journal produced by a successful replay of `events_bytes` against
/// `prompt` under challenge `cid` for player `pk` with claimed hash
/// `claimed`.
pub open spec fn spec_ok_journal(
    cid: u32,
    pk: [u8; 32],
    claimed: [u8; 32],
    prompt: Seq<u8>,
    evs: Seq<ReplayEvent>,
) -> Journal {
    let out = replay_output(evs);
    let dur = total_duration(evs);
    let acc = spec_accuracy_bps(out, prompt);
    let wpm = spec_wpm_x100(out, dur);
    Journal {
        challenge_id: cid,
        player_pubkey: pk,
        prompt_hash: claimed,
        score: spec_score(wpm, acc) as u64,
        wpm_x100: wpm as u32,
        accuracy_bps: acc as u32,
        duration_ms: dur as u32,
    }
}

/// The full replay-scoring computation, checks in order: prompt-hash
/// binding, non-empty prompt, event-stream length, key range, delay floor,
/// duration floor; then the scored journal.
pub open spec fn spec_compute_journal(
    cid: u32,
    pk: [u8; 32],
    claimed: [u8; 32],
    prompt: Seq<u8>,
    events_bytes: Seq<u8>,
) -> Result<Journal, ReplayError> {
    if sha256_of(prompt) != claimed@ {
        Err(ReplayError::PromptHashMismatch)
    } else if prompt.len() == 0 {
        Err(ReplayError::EmptyPrompt)
    } else if !events_len_ok(events_bytes) {
        Err(ReplayError::EventsTruncated)
    } else if !events_keys_ok(events_bytes) {
        Err(ReplayError::InvalidKey)
    } else {
        let evs = spec_parsed_events(events_bytes);
        if !delays_ok(evs) {
            Err(ReplayError::DelayTooShort)
        } else if total_duration(evs) < MIN_MS_PER_CHAR * prompt.len() || total_duration(evs)
            == 0 {
            Err(ReplayError::DurationTooShort)
        } else {
            Ok(spec_ok_journal(cid, pk, claimed, prompt, evs))
        }
    }
}

/// The total duration is at most 65535 per event, and at least 10 per
/// event when every delay meets the floor.
proof fn lemma_total_duration_bounds(evs: Seq<ReplayEvent>)
    ensures
        total_duration(evs) <= evs.len() * 65535,
        delays_ok(evs) ==> total_duration(evs) >= evs.len() * 10,
        total_duration(evs) >= 0,
    decreases evs.len(),
{
    if evs.len() > 0 {
        lemma_total_duration_bounds(evs.drop_last());
        assert(delays_ok(evs) ==> delays_ok(evs.drop_last()));
    }
}

/// A replay that reproduces the prompt exactly has every position correct.
proof fn lemma_correct_prefix_self(prompt: Seq<u8>, n: int)
    requires
        0 <= n <= prompt.len(),
    ensures
        correct_prefix(prompt, prompt, n) == n,
    decreases n,
{
    if n > 0 {
        lemma_correct_prefix_self(prompt, n - 1);
    }
}

/// Accuracy ceiling: a fully correct, unmodified replay of the prompt —
/// one whose output equals the prompt — yields exactly 10000 basis points.
pub proof fn lemma_accuracy_ceiling(out: Seq<u8>, prompt: Seq<u8>)
    requires
        prompt.len() > 0,
        out == prompt,
    ensures
        spec_accuracy_bps(out, prompt) == 10000,
{
    let n = prompt.len() as int;
    lemma_correct_prefix_self(prompt, n);
    assert(correct_count(out, prompt) == n);
    lemma_div_multiples_vanish(10000, n);
    assert(n * 10000 == 10000 * n) by (nonlinear_arith);
}

/// Determinism: the replay-scoring computation is a function of its
/// inputs; two runs on identical inputs yield the same journal and the
/// same journal content hash.
pub proof fn lemma_replay_deterministic(
    cid: u32,
    pk: [u8; 32],
    claimed: [u8; 32],
    prompt: Seq<u8>,
    events_bytes: Seq<u8>,
    j1: Journal,
    j2: Journal,
)
    requires
        spec_compute_journal(cid, pk, claimed, prompt, events_bytes) == Ok::<
            Journal,
            ReplayError,
        >(j1),
        spec_compute_journal(cid, pk, claimed, prompt, events_bytes) == Ok::<
            Journal,
            ReplayError,
        >(j2),
    ensures
        j1 == j2,
        sha256_of(spec_encode_journal(j1)) == sha256_of(spec_encode_journal(j2)),
{
}

/// Replays an encoded event stream against a normalized prompt and scores
/// it, exactly as `spec_compute_journal` states; any failure yields an
/// error and no journal.
#[verifier::loop_isolation(false)]
pub fn compute_journal(
    challenge_id: u32,
    player_pubkey: &[u8; 32],
    prompt_hash: &[u8; 32],
    prompt: &[u8],
    events_bytes: &[u8],
) -> (r: Result<Journal, ReplayError>)
    ensures
        r == spec_compute_journal(
            challenge_id,
            *player_pubkey,
            *prompt_hash,
            prompt@,
            events_bytes@,
        ),
{
    let computed_hash = sha256(prompt);
    if !bytes32_eq(&computed_hash, prompt_hash) {
        return Err(ReplayError::PromptHashMismatch);
    }
    if prompt.len() == 0 {
        return Err(ReplayError::EmptyPrompt);
    }
    let events = match parse_events(events_bytes) {
        Ok(evs) => evs,
        Err(e) => {
            return Err(e);
        },
    };
    let ghost evs = spec_parsed_events(events_bytes@);
    let n = events.len();
    assert(n <= 65535);

    let mut duration: u64 = 0;
    let mut output: Vec<u8> = Vec::new();
    let mut i: usize = 0;
    while i < n
        invariant
            i <= n,
            n <= 65535,
            events@ == evs,
            n == evs.len(),
            forall|j: int| 0 <= j < n ==> #[trigger] evs[j].key <= 28,
            forall|j: int| 0 <= j < i ==> #[trigger] evs[j].dt_ms >= MIN_DT_MS,
            duration == total_duration(evs.take(i as int)),
            duration <= i * 65535,
            output@ == replay_output(evs.take(i as int)),
            output@.len() <= i,
        decreases n - i,
    {
        let e = events[i];
        if e.dt_ms < MIN_DT_MS {
            assert(!delays_ok(evs));
            return Err(ReplayError::DelayTooShort);
        }
        assert(evs.take(i + 1).drop_last() =~= evs.take(i as int));
        assert(evs.take(i + 1).last() == evs[i as int]);
        duration = duration + e.dt_ms as u64;
        if e.key <= 25 {
            output.push(97 + e.key);
        } else if e.key == 26 {
            output.push(32);
        } else if e.key == 27 {
            if output.len() > 0 {
                output.pop();
            }
        }
        i += 1;
    }
    assert(evs.take(n as int) =~= evs);
    assert(delays_ok(evs));

    let prompt_len = prompt.len() as u64;
    if prompt_len >= 0x100000000 {
        // the whole event stream cannot last 40 ms per character of so
        // long a prompt: the duration floor fails outright
        assert(duration < MIN_MS_PER_CHAR * prompt@.len());
        return Err(ReplayError::DurationTooShort);
    }
    if duration < MIN_MS_PER_CHAR * prompt_len || duration == 0 {
        return Err(ReplayError::DurationTooShort);
    }

    let typed_chars = output.len() as u64;
    let cmp_len = if output.len() <= prompt.len() {
        output.len()
    } else {
        prompt.len()
    };
    let mut correct: u64 = 0;
    let mut k: usize = 0;
    while k < cmp_len
        invariant
            k <= cmp_len,
            cmp_len <= output@.len(),
            cmp_len <= prompt@.len(),
            correct == correct_prefix(output@, prompt@, k as int),
            correct <= k,
        decreases cmp_len - k,
    {
        if output[k] == prompt[k] {
            correct = correct + 1;
        }
        k += 1;
    }
    assert(correct == correct_count(output@, prompt@));

    let accuracy: u64 = correct * 10000 / prompt_len;
    proof {
        assert(correct <= prompt_len);
        lemma_mul_inequality(correct as int, prompt_len as int, 10000);
        lemma_div_is_ordered(correct * 10000, prompt_len * 10000, prompt_len as int);
        lemma_div_multiples_vanish(10000, prompt_len as int);
        assert(prompt_len * 10000 == 10000 * prompt_len) by (nonlinear_arith);
        assert(accuracy <= 10000);
        assert(accuracy == spec_accuracy_bps(output@, prompt@));
    }

    let wpm_x100: u64 = typed_chars * 1200000 / duration;
    proof {
        lemma_total_duration_bounds(evs);
        assert(duration >= evs.len() * 10);
        assert(typed_chars <= evs.len());
        if typed_chars == 0 {
            assert(wpm_x100 == 0);
        } else {
            assert(10 * typed_chars <= evs.len() * 10) by (nonlinear_arith)
                requires
                    typed_chars <= evs.len(),
            ;
            lemma_div_is_ordered_by_denominator(
                typed_chars * 1200000,
                10 * typed_chars as int,
                duration as int,
            );
            lemma_div_multiples_vanish(120000, 10 * typed_chars as int);
            assert(typed_chars * 1200000 == (10 * typed_chars) * 120000) by (nonlinear_arith);
            assert(wpm_x100 <= 120000);
        }
        assert(wpm_x100 <= 120000);
        assert(wpm_x100 == spec_wpm_x100(output@, duration as int));
    }

    proof {
        assert(wpm_x100 * accuracy <= 1200000000) by (nonlinear_arith)
            requires
                wpm_x100 <= 120000,
                accuracy <= 10000,
        ;
    }
    let score: u64 = wpm_x100 * accuracy / 10000;

    let journal = Journal {
        challenge_id,
        player_pubkey: *player_pubkey,
        prompt_hash: *prompt_hash,
        score,
        wpm_x100: wpm_x100 as u32,
        accuracy_bps: accuracy as u32,
        duration_ms: duration as u32,
    };
    proof {
        assert(journal == spec_ok_journal(
            challenge_id,
            *player_pubkey,
            *prompt_hash,
            prompt@,
            evs,
        ));
    }
    Ok(journal)
}

} // verus!
