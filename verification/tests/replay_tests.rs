use typing_proof::compute_journal;
use typing_proof::encode_events;
use typing_proof::journal_hash;
use typing_proof::normalize_prompt;
use typing_proof::parse_events;
use typing_proof::sha256;
use typing_proof::Journal;
use typing_proof::ReplayError;
use typing_proof::ReplayEvent;
use typing_proof::KEY_SPACE;

fn run(
    challenge_id: u32,
    player_pubkey: [u8; 32],
    prompt: &str,
    events: &[ReplayEvent],
) -> Result<Journal, ReplayError> {
    let prompt_bytes = normalize_prompt(prompt)?;
    let prompt_hash = sha256(&prompt_bytes);
    let events_bytes = encode_events(events)?;
    compute_journal(challenge_id, &player_pubkey, &prompt_hash, &prompt_bytes, &events_bytes)
}

fn key_events(keys: &[u8], dt_ms: u16) -> Vec<ReplayEvent> {
    keys.iter().map(|k| ReplayEvent { dt_ms, key: *k }).collect()
}

#[test]
fn perfect_run_accuracy_is_full() {
    let events = key_events(&[0, 1, 2], 100);
    let journal = run(1, [9u8; 32], "abc", &events).unwrap();
    assert_eq!(journal.accuracy_bps, 10000);
}

#[test]
fn mistakes_reduce_accuracy() {
    let events = key_events(&[0, 23, 2], 100);
    let journal = run(2, [8u8; 32], "abc", &events).unwrap();
    assert!(journal.accuracy_bps < 10000);
}

#[test]
fn invalid_dt_fails() {
    let events = key_events(&[0], 5);
    let result = run(3, [7u8; 32], "a", &events);
    assert!(result.is_err());
    assert_eq!(result, Err(ReplayError::DelayTooShort));
}

#[test]
fn journal_hash_deterministic() {
    let events = key_events(&[0, 1, 2], 100);
    let first = run(1, [9u8; 32], "abc", &events).unwrap();
    let second = run(1, [9u8; 32], "abc", &events).unwrap();
    assert_eq!(first, second);
    assert_eq!(journal_hash(&first), journal_hash(&second));
}

#[test]
fn hello_world_at_120ms_per_key_scores_per_formula() {
    let prompt_bytes = normalize_prompt("hello world").unwrap();
    assert_eq!(prompt_bytes, b"hello world".to_vec());
    let events: Vec<ReplayEvent> = prompt_bytes
        .iter()
        .map(|b| ReplayEvent {
            dt_ms: 120,
            key: if *b == b' ' { KEY_SPACE } else { b - b'a' },
        })
        .collect();
    let journal = run(1, [7u8; 32], "hello world", &events).unwrap();
    assert_eq!(journal.accuracy_bps, 10000);
    assert_eq!(journal.duration_ms, 11 * 120);
    // wpm_x100 = floor(11 * 1_200_000 / 1320)
    assert_eq!(journal.wpm_x100, 10000);
    assert_eq!(journal.score, journal.wpm_x100 as u64);
}

#[test]
fn backspace_removes_and_enter_is_ignored() {
    // type "a", a wrong "c", erase it, type "b", then enter
    let events = key_events(&[0, 2, 27, 1, 28], 100);
    let journal = run(1, [1u8; 32], "ab", &events).unwrap();
    assert_eq!(journal.accuracy_bps, 10000);
    assert_eq!(journal.duration_ms, 500);
}

#[test]
fn prompt_hash_mismatch_is_rejected() {
    let prompt_bytes = normalize_prompt("abc").unwrap();
    let wrong_hash = [0u8; 32];
    let events_bytes = encode_events(&key_events(&[0, 1, 2], 100)).unwrap();
    let result = compute_journal(1, &[9u8; 32], &wrong_hash, &prompt_bytes, &events_bytes);
    assert_eq!(result, Err(ReplayError::PromptHashMismatch));
}

#[test]
fn empty_prompt_is_rejected() {
    let result = run(1, [9u8; 32], "   ", &[]);
    assert_eq!(result, Err(ReplayError::EmptyPrompt));
}

#[test]
fn truncated_event_stream_is_rejected() {
    let prompt_bytes = normalize_prompt("abc").unwrap();
    let prompt_hash = sha256(&prompt_bytes);
    let mut events_bytes = encode_events(&key_events(&[0, 1, 2], 100)).unwrap();
    events_bytes.pop();
    let result = compute_journal(1, &[9u8; 32], &prompt_hash, &prompt_bytes, &events_bytes);
    assert_eq!(result, Err(ReplayError::EventsTruncated));
    let result = compute_journal(1, &[9u8; 32], &prompt_hash, &prompt_bytes, &[2u8]);
    assert_eq!(result, Err(ReplayError::EventsTruncated));
}

#[test]
fn invalid_key_code_is_rejected() {
    let prompt_bytes = normalize_prompt("abc").unwrap();
    let prompt_hash = sha256(&prompt_bytes);
    // count = 1, delay 100, key 29: one past the accepted range
    let events_bytes = vec![1u8, 0, 100, 0, 29];
    assert_eq!(parse_events(&events_bytes), Err(ReplayError::InvalidKey));
    let result = compute_journal(1, &[9u8; 32], &prompt_hash, &prompt_bytes, &events_bytes);
    assert_eq!(result, Err(ReplayError::InvalidKey));
}

#[test]
fn too_slow_overall_duration_is_rejected() {
    // 3 keys at 10 ms each: 30 ms total, below the 40 ms/char floor of "abc"
    let events = key_events(&[0, 1, 2], 10);
    let result = run(1, [9u8; 32], "abc", &events);
    assert_eq!(result, Err(ReplayError::DurationTooShort));
}

#[test]
fn event_wire_format_round_trips() {
    let events = vec![
        ReplayEvent { dt_ms: 100, key: 0 },
        ReplayEvent { dt_ms: 0x1234, key: 27 },
        ReplayEvent { dt_ms: 65535, key: 28 },
    ];
    let bytes = encode_events(&events).unwrap();
    assert_eq!(bytes.len(), 2 + 3 * events.len());
    assert_eq!(&bytes[0..2], &[3, 0]);
    assert_eq!(&bytes[2..5], &[100, 0, 0]);
    assert_eq!(&bytes[5..8], &[0x34, 0x12, 27]);
    assert_eq!(parse_events(&bytes).unwrap(), events);
}

#[test]
fn encode_rejects_out_of_range_key_and_oversized_stream() {
    let bad = vec![ReplayEvent { dt_ms: 100, key: 29 }];
    assert_eq!(encode_events(&bad), Err(ReplayError::InvalidKey));
    let huge = vec![ReplayEvent { dt_ms: 100, key: 0 }; 65536];
    assert_eq!(encode_events(&huge), Err(ReplayError::LengthMismatch));
}

#[test]
fn normalize_lowercases_and_collapses_whitespace() {
    assert_eq!(normalize_prompt("Hello  World").unwrap(), b"hello world".to_vec());
    assert_eq!(normalize_prompt("  a\t\nB  ").unwrap(), b"a b".to_vec());
    assert_eq!(normalize_prompt("").unwrap(), Vec::<u8>::new());
    assert_eq!(normalize_prompt("caf\u{e9}"), Err(ReplayError::PromptNotAscii));
}
