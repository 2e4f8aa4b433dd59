use typing_proof::Error;
use typing_proof::Leaderboard;

const ADMIN: [u8; 32] = [1u8; 32];
const VERIFIER: [u8; 32] = [2u8; 32];
const IMAGE_ID: [u8; 32] = [7u8; 32];

fn setup() -> Leaderboard {
    let mut board = Leaderboard::new();
    board.init(ADMIN, VERIFIER, IMAGE_ID).unwrap();
    board
}

fn submit(
    board: &mut Leaderboard,
    challenge_id: u32,
    player: [u8; 32],
    name: &str,
    prompt_hash: [u8; 32],
    score: u64,
    wpm_x100: u32,
    accuracy_bps: u32,
    duration_ms: u32,
) -> Result<(), Error> {
    board.submit_score(
        player,
        challenge_id,
        player,
        name.to_string(),
        prompt_hash,
        score,
        wpm_x100,
        accuracy_bps,
        duration_ms,
        [9u8; 32],
        IMAGE_ID,
        &[1, 2, 3],
        123,
    )
}

#[test]
fn init_is_once() {
    let mut board = setup();
    assert_eq!(board.init(ADMIN, VERIFIER, IMAGE_ID), Err(Error::AlreadyInitialized));
}

#[test]
fn admin_only_checks() {
    let mut board = setup();
    let prompt_hash = [1u8; 32];
    let non_admin = [42u8; 32];

    assert!(board.set_challenge(non_admin, 1, prompt_hash).is_err());

    board.set_challenge(ADMIN, 1, prompt_hash).unwrap();

    assert!(board.set_current_challenge(non_admin, 1).is_err());

    board.set_current_challenge(ADMIN, 1).unwrap();
    assert_eq!(board.get_current_challenge().unwrap(), (1, prompt_hash));
}

#[test]
fn challenge_prompt_hash_is_immutable() {
    let mut board = setup();
    board.set_challenge(ADMIN, 1, [1u8; 32]).unwrap();
    assert_eq!(board.set_challenge(ADMIN, 1, [2u8; 32]), Err(Error::AlreadyInitialized));
    board.set_current_challenge(ADMIN, 1).unwrap();
    assert_eq!(board.get_current_challenge().unwrap(), (1, [1u8; 32]));
}

#[test]
fn current_challenge_must_be_configured() {
    let mut board = setup();
    assert_eq!(board.set_current_challenge(ADMIN, 5), Err(Error::InvalidChallenge));
    assert_eq!(board.get_current_challenge(), Err(Error::NotInitialized));
}

#[test]
fn rejects_invalid_inputs() {
    let mut board = setup();
    let prompt_hash = [2u8; 32];
    let other_prompt = [3u8; 32];
    board.set_challenge(ADMIN, 1, prompt_hash).unwrap();
    board.set_challenge(ADMIN, 2, other_prompt).unwrap();
    board.set_current_challenge(ADMIN, 1).unwrap();

    let player = [10u8; 32];
    let other_player = [11u8; 32];

    // authorized as one player, submitting for another
    let r = board.submit_score(
        other_player,
        1,
        player,
        "alice".to_string(),
        prompt_hash,
        100,
        12000,
        9500,
        60000,
        [9u8; 32],
        IMAGE_ID,
        &[1, 2, 3],
        123,
    );
    assert_eq!(r, Err(Error::InvalidPlayer));

    // prompt hash that disagrees with the stored one
    let r = submit(&mut board, 1, player, "alice", other_prompt, 100, 12000, 9500, 60000);
    assert_eq!(r, Err(Error::InvalidPromptHash));

    // a configured challenge that is not the current one
    let r = submit(&mut board, 2, player, "alice", other_prompt, 100, 12000, 9500, 60000);
    assert_eq!(r, Err(Error::InvalidChallenge));

    // empty display name
    let r = submit(&mut board, 1, player, "", prompt_hash, 100, 12000, 9500, 60000);
    assert_eq!(r, Err(Error::InvalidName));

    // wrong program identity
    let r = board.submit_score(
        player,
        1,
        player,
        "alice".to_string(),
        prompt_hash,
        100,
        12000,
        9500,
        60000,
        [9u8; 32],
        [8u8; 32],
        &[1, 2, 3],
        123,
    );
    assert_eq!(r, Err(Error::InvalidImageId));

    // nothing was stored by any of the rejected calls
    assert!(board.get_best(1, player).is_none());
    assert_eq!(board.get_top(1).len(), 0);
}

#[test]
fn submitting_to_unconfigured_challenge_changes_nothing() {
    let mut board = setup();
    board.set_challenge(ADMIN, 1, [2u8; 32]).unwrap();
    board.set_current_challenge(ADMIN, 1).unwrap();
    let player = [10u8; 32];
    let r = submit(&mut board, 9, player, "alice", [2u8; 32], 100, 12000, 9500, 60000);
    assert_eq!(r, Err(Error::InvalidChallenge));
    assert!(board.get_best(9, player).is_none());
    assert_eq!(board.get_top(9).len(), 0);
}

#[test]
fn name_validation_edges() {
    let mut board = setup();
    let prompt_hash = [2u8; 32];
    board.set_challenge(ADMIN, 1, prompt_hash).unwrap();
    board.set_current_challenge(ADMIN, 1).unwrap();
    let player = [10u8; 32];

    let name24 = "a".repeat(24);
    assert!(submit(&mut board, 1, player, &name24, prompt_hash, 1, 1, 1, 60000).is_ok());

    let name25 = "a".repeat(25);
    let r = submit(&mut board, 1, [12u8; 32], &name25, prompt_hash, 1, 1, 1, 60000);
    assert_eq!(r, Err(Error::InvalidName));

    let r = submit(&mut board, 1, [12u8; 32], "a\u{7f}b", prompt_hash, 1, 1, 1, 60000);
    assert_eq!(r, Err(Error::InvalidName));

    let r = submit(&mut board, 1, [12u8; 32], "a\tb", prompt_hash, 1, 1, 1, 60000);
    assert_eq!(r, Err(Error::InvalidName));
}

#[test]
fn best_score_updates() {
    let mut board = setup();
    let prompt_hash = [4u8; 32];
    board.set_challenge(ADMIN, 1, prompt_hash).unwrap();
    board.set_current_challenge(ADMIN, 1).unwrap();

    let player = [10u8; 32];
    submit(&mut board, 1, player, "bob", prompt_hash, 100, 11000, 9900, 60000).unwrap();
    submit(&mut board, 1, player, "bob", prompt_hash, 90, 10000, 9800, 60000).unwrap();

    let best = board.get_best(1, player).unwrap();
    assert_eq!(best.score, 100);
    assert_eq!(best.submitted_ledger, 123);

    submit(&mut board, 1, player, "bob", prompt_hash, 150, 13000, 9950, 60000).unwrap();

    let best = board.get_best(1, player).unwrap();
    assert_eq!(best.score, 150);
}

#[test]
fn lower_score_keeps_stored_name_and_figures() {
    let mut board = setup();
    let prompt_hash = [4u8; 32];
    board.set_challenge(ADMIN, 1, prompt_hash).unwrap();
    board.set_current_challenge(ADMIN, 1).unwrap();

    let player = [10u8; 32];
    submit(&mut board, 1, player, "first", prompt_hash, 100, 11000, 9900, 60000).unwrap();
    submit(&mut board, 1, player, "second", prompt_hash, 100, 12000, 9999, 50000).unwrap();

    let best = board.get_best(1, player).unwrap();
    assert_eq!(best.score, 100);
    assert_eq!(best.name, "first");
    assert_eq!(best.wpm_x100, 11000);
    let top = board.get_top(1);
    assert_eq!(top.len(), 1);
    assert_eq!(top[0].name, "first");
}

#[test]
fn top_list_behaviour() {
    let mut board = setup();
    let prompt_hash = [6u8; 32];
    board.set_challenge(ADMIN, 1, prompt_hash).unwrap();
    board.set_current_challenge(ADMIN, 1).unwrap();

    let mut players: Vec<[u8; 32]> = Vec::new();
    for i in 0..20u32 {
        let player = [(30 + i) as u8; 32];
        let score = 100u64 - i as u64;
        submit(&mut board, 1, player, "p", prompt_hash, score, 10000, 9900, 60000).unwrap();
        players.push(player);
    }

    let top = board.get_top(1);
    assert_eq!(top.len(), 20);

    let low_player = [100u8; 32];
    submit(&mut board, 1, low_player, "low", prompt_hash, 10, 9000, 9000, 60000).unwrap();
    let top_after_low = board.get_top(1);
    assert_eq!(top_after_low.len(), 20);
    assert!(top_after_low.iter().all(|r| r.player != low_player));

    let high_player = [101u8; 32];
    submit(&mut board, 1, high_player, "high", prompt_hash, 1000, 20000, 9999, 60000).unwrap();
    let top_after_high = board.get_top(1);
    assert_eq!(top_after_high.len(), 20);
    assert_eq!(top_after_high[0].player, high_player);

    let update_player = players[5];
    submit(&mut board, 1, update_player, "upd", prompt_hash, 2000, 25000, 9999, 60000).unwrap();
    let top_after_update = board.get_top(1);
    assert_eq!(top_after_update.len(), 20);
    assert_eq!(top_after_update[0].player, update_player);

    let tie_score = 500;
    let tie_player_a = [102u8; 32];
    let tie_player_b = [103u8; 32];
    submit(&mut board, 1, tie_player_b, "tie", prompt_hash, tie_score, 15000, 9900, 60000)
        .unwrap();
    submit(&mut board, 1, tie_player_a, "tie", prompt_hash, tie_score, 15000, 9900, 60000)
        .unwrap();

    let top_after_tie = board.get_top(1);
    let tie_positions: Vec<[u8; 32]> = top_after_tie
        .iter()
        .filter(|r| r.score == tie_score)
        .map(|r| r.player)
        .collect();
    // tie_player_a orders before tie_player_b: ascending player identity
    assert_eq!(tie_positions, vec![tie_player_a, tie_player_b]);
}

#[test]
fn ranking_is_independent_of_submission_order() {
    let prompt_hash = [6u8; 32];
    let entries: Vec<([u8; 32], u64)> = vec![
        ([50u8; 32], 500),
        ([51u8; 32], 500),
        ([52u8; 32], 900),
        ([53u8; 32], 100),
        ([54u8; 32], 500),
    ];

    let mut forward = setup();
    forward.set_challenge(ADMIN, 1, prompt_hash).unwrap();
    forward.set_current_challenge(ADMIN, 1).unwrap();
    for (player, score) in entries.iter() {
        submit(&mut forward, 1, *player, "p", prompt_hash, *score, 1, 1, 1).unwrap();
    }

    let mut backward = setup();
    backward.set_challenge(ADMIN, 1, prompt_hash).unwrap();
    backward.set_current_challenge(ADMIN, 1).unwrap();
    for (player, score) in entries.iter().rev() {
        submit(&mut backward, 1, *player, "p", prompt_hash, *score, 1, 1, 1).unwrap();
    }

    assert_eq!(forward.get_top(1), backward.get_top(1));
}

#[test]
fn top_table_never_holds_a_player_twice() {
    let mut board = setup();
    let prompt_hash = [6u8; 32];
    board.set_challenge(ADMIN, 1, prompt_hash).unwrap();
    board.set_current_challenge(ADMIN, 1).unwrap();

    let player = [10u8; 32];
    submit(&mut board, 1, player, "p", prompt_hash, 5, 10000, 9900, 60000).unwrap();
    submit(&mut board, 1, player, "p", prompt_hash, 9, 10000, 9900, 60000).unwrap();
    submit(&mut board, 1, [11u8; 32], "q", prompt_hash, 7, 10000, 9900, 60000).unwrap();

    let top = board.get_top(1);
    assert_eq!(top.len(), 2);
    assert_eq!(top[0].player, player);
    assert_eq!(top[0].score, 9);
    assert_eq!(top[1].score, 7);
}
