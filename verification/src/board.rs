//! The score-submission validator and its ledger state: a state machine
//! that records challenges, checks a submission's bindings, keeps each
//! player's best score, and maintains the bounded top table per challenge.
//!
//! The host ledger's services are modeled as plain values: the caller's
//! authenticated identity and the ledger sequence number are arguments,
//! and the persistent store is the state held here.

use vstd::prelude::*;

use crate::bytes::bytes32_eq;
use crate::errors::Error;
use crate::rank::good_top;
use crate::rank::no_dup_players;
use crate::rank::sorted_rows;
use crate::rank::upsert_post;
use crate::rank::upsert_top;
use crate::rank::LeaderboardRow;
use crate::rank::TOP_N;

verus! {

/// The result of looking `key` up in an association list, scanning from
/// position `i`.
pub open spec fn assoc_find_from<K, V>(s: Seq<(K, V)>, key: K, i: int) -> Option<V>
    decreases s.len() - i,
{
    if i < 0 || i >= s.len() {
        None
    } else if s[i].0 == key {
        Some(s[i].1)
    } else {
        assoc_find_from(s, key, i + 1)
    }
}

/// The value bound to `key` in an association list, if any.
pub open spec fn assoc_find<K, V>(s: Seq<(K, V)>, key: K) -> Option<V> {
    assoc_find_from(s, key, 0)
}

/// Whether no key occurs twice in the association list.
pub open spec fn unique_keys<K, V>(s: Seq<(K, V)>) -> bool {
    forall|i: int, j: int| 0 <= i < j < s.len() ==> #[trigger] s[i].0 != #[trigger] s[j].0
}

/// What a lookup result means: a found value sits at some index, and a
/// miss means the key is nowhere.
pub proof fn lemma_assoc_find_props<K, V>(s: Seq<(K, V)>, key: K, i: int)
    requires
        0 <= i <= s.len(),
    ensures
        match assoc_find_from(s, key, i) {
            Some(v) => exists|k: int| i <= k < s.len() && #[trigger] s[k].0 == key && s[k].1 == v,
            None => forall|k: int| i <= k < s.len() ==> #[trigger] s[k].0 != key,
        },
    decreases s.len() - i,
{
    if i < s.len() && s[i].0 != key {
        lemma_assoc_find_props(s, key, i + 1);
    }
}

/// Under unique keys, an entry at any index is what lookup finds.
pub proof fn lemma_assoc_find_witness<K, V>(s: Seq<(K, V)>, idx: int)
    requires
        unique_keys(s),
        0 <= idx < s.len(),
    ensures
        assoc_find(s, s[idx].0) == Some(s[idx].1),
{
    lemma_assoc_find_from_witness(s, idx, 0);
}

proof fn lemma_assoc_find_from_witness<K, V>(s: Seq<(K, V)>, idx: int, i: int)
    requires
        unique_keys(s),
        0 <= i <= idx < s.len(),
    ensures
        assoc_find_from(s, s[idx].0, i) == Some(s[idx].1),
    decreases idx - i,
{
    if i < idx {
        assert(s[i].0 != s[idx].0);
        lemma_assoc_find_from_witness(s, idx, i + 1);
    }
}

/// A key bound nowhere is not found.
pub proof fn lemma_assoc_find_absent<K, V>(s: Seq<(K, V)>, key: K)
    requires
        forall|k: int| 0 <= k < s.len() ==> #[trigger] s[k].0 != key,
    ensures
        assoc_find(s, key) is None,
{
    lemma_assoc_find_from_absent(s, key, 0);
}

proof fn lemma_assoc_find_from_absent<K, V>(s: Seq<(K, V)>, key: K, i: int)
    requires
        0 <= i <= s.len(),
        forall|k: int| i <= k < s.len() ==> #[trigger] s[k].0 != key,
    ensures
        assoc_find_from(s, key, i) is None,
    decreases s.len() - i,
{
    if i < s.len() {
        lemma_assoc_find_from_absent(s, key, i + 1);
    }
}

/// An association list after replacing the value at index `i` the way the
/// store does it: the entry is swap-removed and the rebound key pushed.
pub open spec fn assoc_replace<K, V>(s: Seq<(K, V)>, i: int, v_new: V) -> Seq<(K, V)> {
    s.update(i, s.last()).drop_last().push((s[i].0, v_new))
}

/// Rebinding an existing key leaves every other binding as it was.
pub proof fn lemma_assoc_replace<K, V>(s: Seq<(K, V)>, i: int, v_new: V)
    requires
        unique_keys(s),
        0 <= i < s.len(),
    ensures
        unique_keys(assoc_replace(s, i, v_new)),
        assoc_find(assoc_replace(s, i, v_new), s[i].0) == Some(v_new),
        forall|k2: K|
            k2 != s[i].0 ==> assoc_find(assoc_replace(s, i, v_new), k2) == assoc_find(s, k2),
{
    let r = assoc_replace(s, i, v_new);
    let dropped = s.update(i, s.last()).drop_last();
    assert(forall|k: int|
        0 <= k < dropped.len() ==> dropped[k] == (if k == i {
            s[s.len() - 1]
        } else {
            s[k]
        }));
    assert(unique_keys(r));
    lemma_assoc_find_witness(r, r.len() - 1);
    assert forall|k2: K| k2 != s[i].0 implies assoc_find(r, k2) == assoc_find(s, k2) by {
        lemma_assoc_find_props(s, k2, 0);
        match assoc_find(s, k2) {
            Some(v) => {
                let m = choose|m: int| 0 <= m < s.len() && #[trigger] s[m].0 == k2 && s[m].1 == v;
                if m == s.len() - 1 && i < s.len() - 1 {
                    assert(r[i] == s[m]);
                    lemma_assoc_find_witness(r, i);
                } else {
                    assert(r[m] == s[m]);
                    lemma_assoc_find_witness(r, m);
                }
            },
            None => {
                assert(forall|k: int| 0 <= k < r.len() ==> #[trigger] r[k].0 != k2);
                lemma_assoc_find_absent(r, k2);
            },
        }
    }
}

/// Binding a fresh key leaves every other binding as it was.
pub proof fn lemma_assoc_insert<K, V>(s: Seq<(K, V)>, key: K, v_new: V)
    requires
        unique_keys(s),
        forall|k: int| 0 <= k < s.len() ==> #[trigger] s[k].0 != key,
    ensures
        unique_keys(s.push((key, v_new))),
        assoc_find(s.push((key, v_new)), key) == Some(v_new),
        forall|k2: K| k2 != key ==> assoc_find(s.push((key, v_new)), k2) == assoc_find(s, k2),
{
    let r = s.push((key, v_new));
    assert(unique_keys(r));
    lemma_assoc_find_witness(r, r.len() - 1);
    assert forall|k2: K| k2 != key implies assoc_find(r, k2) == assoc_find(s, k2) by {
        lemma_assoc_find_props(s, k2, 0);
        match assoc_find(s, k2) {
            Some(v) => {
                let m = choose|m: int| 0 <= m < s.len() && #[trigger] s[m].0 == k2 && s[m].1 == v;
                assert(r[m] == s[m]);
                lemma_assoc_find_witness(r, m);
            },
            None => {
                lemma_assoc_find_absent(r, k2);
            },
        }
    }
}

/// Whether a display name is acceptable: 1 to 24 characters, every one in
/// the printable ASCII range.
pub open spec fn valid_name(s: Seq<char>) -> bool {
    1 <= s.len() <= 24 && forall|i: int| 0 <= i < s.len() ==> 0x20 <= (#[trigger] s[i]) as u32
        <= 0x7e
}

/// One stored best result: the score and its figures, the display name at
/// submission time, and the ledger sequence number of the submission.
#[derive(Debug, PartialEq, Eq)]
pub struct ScoreEntry {
    pub score: u64,
    pub wpm_x100: u32,
    pub accuracy_bps: u32,
    pub duration_ms: u32,
    pub name: String,
    pub submitted_ledger: u32,
}

/// The full ledger state of the validator and the ranking engine.
pub struct Leaderboard {
    /// The administrator's identity, recorded at initialization.
    pub admin: Option<[u8; 32]>,
    /// The proof verifier's identity, recorded at initialization.
    pub verifier_id: Option<[u8; 32]>,
    /// The program identity of the replay-scoring computation.
    pub image_id: Option<[u8; 32]>,
    /// The challenge currently accepting submissions.
    pub current_challenge: Option<u32>,
    /// Each configured challenge's immutable prompt hash.
    pub challenges: Vec<(u32, [u8; 32])>,
    /// Each (challenge, player)'s best stored result.
    pub bests: Vec<((u32, [u8; 32]), ScoreEntry)>,
    /// Each challenge's bounded top table.
    pub tops: Vec<(u32, Vec<LeaderboardRow>)>,
}

impl Leaderboard {
    /// The prompt hash configured for a challenge, if any.
    pub open spec fn challenge_hash(&self, challenge_id: u32) -> Option<[u8; 32]> {
        assoc_find(self.challenges@, challenge_id)
    }

    /// The best stored result of `player` on a challenge, if any.
    pub open spec fn best_of(&self, challenge_id: u32, player: [u8; 32]) -> Option<ScoreEntry> {
        assoc_find(self.bests@, (challenge_id, player))
    }

    /// The top table of a challenge; empty if none was ever written.
    pub open spec fn top_of(&self, challenge_id: u32) -> Seq<LeaderboardRow> {
        match assoc_find(self.tops@, challenge_id) {
            Some(t) => t@,
            None => Seq::<LeaderboardRow>::empty(),
        }
    }

    /// Well-formedness: unique store keys; every top table bounded,
    /// sorted, and duplicate-free; the admin, verifier, and program
    /// identities recorded together; a current challenge only when
    /// initialized and configured.
    pub open spec fn wf(&self) -> bool {
        &&& unique_keys(self.challenges@)
        &&& unique_keys(self.bests@)
        &&& unique_keys(self.tops@)
        &&& forall|i: int| 0 <= i < self.tops@.len() ==> good_top(#[trigger] self.tops@[i].1@)
        &&& (self.admin is Some <==> self.verifier_id is Some)
        &&& (self.admin is Some <==> self.image_id is Some)
        &&& match self.current_challenge {
            Some(c) => self.admin is Some && self.challenge_hash(c) is Some,
            None => true,
        }
    }

    /// A fresh, uninitialized ledger holding nothing.
    pub fn new() -> (r: Leaderboard)
        ensures
            r.wf(),
            r.admin is None,
            r.verifier_id is None,
            r.image_id is None,
            r.current_challenge is None,
            r.challenges@.len() == 0,
            r.bests@.len() == 0,
            r.tops@.len() == 0,
    {
        Leaderboard {
            admin: None,
            verifier_id: None,
            image_id: None,
            current_challenge: None,
            challenges: Vec::new(),
            bests: Vec::new(),
            tops: Vec::new(),
        }
    }

    /// Records the admin, verifier identity, and program identity, once:
    /// a second call fails with `AlreadyInitialized` and changes nothing.
    pub fn init(
        &mut self,
        admin: [u8; 32],
        verifier_id: [u8; 32],
        image_id: [u8; 32],
    ) -> (r: Result<(), Error>)
        requires
            old(self).wf(),
        ensures
            final(self).wf(),
            match r {
                Ok(()) => old(self).admin is None && final(self).admin == Some(admin) && final(self).verifier_id == Some(verifier_id) && final(self).image_id == Some(image_id)
                    && final(self).current_challenge == old(self).current_challenge && final(self).challenges == old(self).challenges && final(self).bests == old(self).bests
                    && final(self).tops == old(self).tops,
                Err(e) => e == Error::AlreadyInitialized && old(self).admin is Some && *final(self)
                    == *old(self),
            },
    {
        if self.admin.is_some() {
            return Err(Error::AlreadyInitialized);
        }
        self.admin = Some(admin);
        self.verifier_id = Some(verifier_id);
        self.image_id = Some(image_id);
        Ok(())
    }

    /// Configures a challenge's prompt hash, admin-only, once per
    /// challenge: the hash is immutable, so reconfiguring fails with
    /// `AlreadyInitialized`; every failure leaves the state unchanged.
    pub fn set_challenge(
        &mut self,
        caller: [u8; 32],
        challenge_id: u32,
        prompt_hash: [u8; 32],
    ) -> (r: Result<(), Error>)
        requires
            old(self).wf(),
        ensures
            final(self).wf(),
            match r {
                Ok(()) => old(self).admin == Some(caller) && old(self).challenge_hash(challenge_id)
                    is None && final(self).challenge_hash(challenge_id) == Some(prompt_hash) && (
                forall|id2: u32|
                    id2 != challenge_id ==> final(self).challenge_hash(id2) == old(self).challenge_hash(id2)) && final(self).admin == old(self).admin && final(self).verifier_id == old(self).verifier_id && final(self).image_id == old(self).image_id
                    && final(self).current_challenge == old(self).current_challenge && final(self).bests == old(self).bests && final(self).tops == old(self).tops,
                Err(e) => *final(self) == *old(self) && ((e == Error::NotInitialized && old(self).admin is None) || (e == Error::InvalidPlayer && old(self).admin is Some && old(self).admin != Some(caller)) || (e == Error::AlreadyInitialized && old(self).admin
                    == Some(caller) && old(self).challenge_hash(challenge_id) is Some)),
            },
    {
        let admin = match self.admin {
            None => {
                return Err(Error::NotInitialized);
            },
            Some(a) => a,
        };
        if !bytes32_eq(&admin, &caller) {
            proof {
                assert(admin@ != caller@);
                assert(old(self).admin != Some(caller));
            }
            return Err(Error::InvalidPlayer);
        }
        proof {
            assert(admin =~= caller);
        }
        let ghost cs = self.challenges@;
        match find_key_u32(&self.challenges, challenge_id) {
            Some(i) => {
                proof {
                    lemma_assoc_find_witness(cs, i as int);
                }
                return Err(Error::AlreadyInitialized);
            },
            None => {
                proof {
                    lemma_assoc_find_absent(cs, challenge_id);
                }
            },
        }
        self.challenges.push((challenge_id, prompt_hash));
        proof {
            let new_cs = self.challenges@;
            assert(unique_keys(new_cs));
            lemma_assoc_find_witness(new_cs, new_cs.len() - 1);
            assert forall|id2: u32| id2 != challenge_id implies self.challenge_hash(id2) == old(self).challenge_hash(id2) by {
                lemma_assoc_find_props(cs, id2, 0);
                match assoc_find(cs, id2) {
                    Some(v) => {
                        let k = choose|k: int|
                            0 <= k < cs.len() && #[trigger] cs[k].0 == id2 && cs[k].1 == v;
                        lemma_assoc_find_witness(new_cs, k);
                    },
                    None => {
                        lemma_assoc_find_absent(new_cs, id2);
                    },
                }
            }
        }
        Ok(())
    }

    /// Marks a configured challenge as the one accepting submissions,
    /// admin-only; every failure leaves the state unchanged.
    pub fn set_current_challenge(&mut self, caller: [u8; 32], challenge_id: u32) -> (r: Result<
        (),
        Error,
    >)
        requires
            old(self).wf(),
        ensures
            final(self).wf(),
            match r {
                Ok(()) => old(self).admin == Some(caller) && old(self).challenge_hash(challenge_id)
                    is Some && final(self).current_challenge == Some(challenge_id) && final(self).admin == old(self).admin && final(self).verifier_id == old(self).verifier_id
                    && final(self).image_id == old(self).image_id && final(self).challenges == old(self).challenges && final(self).bests == old(self).bests && final(self).tops == old(self).tops,
                Err(e) => *final(self) == *old(self) && ((e == Error::NotInitialized && old(self).admin is None) || (e == Error::InvalidPlayer && old(self).admin is Some && old(self).admin != Some(caller)) || (e == Error::InvalidChallenge && old(self).admin
                    == Some(caller) && old(self).challenge_hash(challenge_id) is None)),
            },
    {
        let admin = match self.admin {
            None => {
                return Err(Error::NotInitialized);
            },
            Some(a) => a,
        };
        if !bytes32_eq(&admin, &caller) {
            proof {
                assert(old(self).admin != Some(caller));
            }
            return Err(Error::InvalidPlayer);
        }
        proof {
            assert(admin =~= caller);
        }
        match find_key_u32(&self.challenges, challenge_id) {
            Some(i) => {
                proof {
                    lemma_assoc_find_witness(self.challenges@, i as int);
                }
            },
            None => {
                proof {
                    lemma_assoc_find_absent(self.challenges@, challenge_id);
                }
                return Err(Error::InvalidChallenge);
            },
        }
        self.current_challenge = Some(challenge_id);
        Ok(())
    }

    /// The currently active challenge and its prompt hash; fails with
    /// `NotInitialized` when no current challenge is set.
    pub fn get_current_challenge(&self) -> (r: Result<(u32, [u8; 32]), Error>)
        requires
            self.wf(),
        ensures
            match r {
                Ok(p) => self.current_challenge == Some(p.0) && self.challenge_hash(p.0) == Some(
                    p.1,
                ),
                Err(e) => e == Error::NotInitialized && self.current_challenge is None,
            },
    {
        let challenge_id = match self.current_challenge {
            None => {
                return Err(Error::NotInitialized);
            },
            Some(c) => c,
        };
        match find_key_u32(&self.challenges, challenge_id) {
            Some(i) => {
                proof {
                    lemma_assoc_find_witness(self.challenges@, i as int);
                }
                Ok((challenge_id, self.challenges[i].1))
            },
            None => {
                proof {
                    lemma_assoc_find_absent(self.challenges@, challenge_id);
                }
                Err(Error::InvalidChallenge)
            },
        }
    }

    /// The best stored result of `player` on a challenge, if any.
    pub fn get_best(&self, challenge_id: u32, player: [u8; 32]) -> (r: Option<ScoreEntry>)
        requires
            self.wf(),
        ensures
            r == self.best_of(challenge_id, player),
    {
        match find_key_best(&self.bests, challenge_id, &player) {
            Some(i) => {
                proof {
                    lemma_assoc_find_witness(self.bests@, i as int);
                }
                let e = &self.bests[i].1;
                Some(
                    ScoreEntry {
                        score: e.score,
                        wpm_x100: e.wpm_x100,
                        accuracy_bps: e.accuracy_bps,
                        duration_ms: e.duration_ms,
                        name: e.name.clone(),
                        submitted_ledger: e.submitted_ledger,
                    },
                )
            },
            None => {
                proof {
                    lemma_assoc_find_absent(self.bests@, (challenge_id, player));
                }
                None
            },
        }
    }

    /// The ranked top table of a challenge: at most `TOP_N` rows, sorted,
    /// with no player twice; empty if nothing was ever submitted.
    pub fn get_top(&self, challenge_id: u32) -> (r: Vec<LeaderboardRow>)
        requires
            self.wf(),
        ensures
            r@ == self.top_of(challenge_id),
            r@.len() <= TOP_N,
            sorted_rows(r@),
            no_dup_players(r@),
    {
        match find_key_u32(&self.tops, challenge_id) {
            Some(i) => {
                proof {
                    lemma_assoc_find_witness(self.tops@, i as int);
                }
                let t = &self.tops[i].1;
                let mut out: Vec<LeaderboardRow> = Vec::new();
                let mut k: usize = 0;
                while k < t.len()
                    invariant
                        k <= t@.len(),
                        out@ =~= t@.take(k as int),
                    decreases t@.len() - k,
                {
                    let e = &t[k];
                    out.push(
                        LeaderboardRow {
                            player: e.player,
                            name: e.name.clone(),
                            score: e.score,
                            wpm_x100: e.wpm_x100,
                            accuracy_bps: e.accuracy_bps,
                        },
                    );
                    proof {
                        assert(out@.last() == t@[k as int]);
                        assert(out@ =~= t@.take(k + 1));
                    }
                    k += 1;
                }
                proof {
                    assert(t@.take(t@.len() as int) =~= t@);
                }
                out
            },
            None => {
                proof {
                    lemma_assoc_find_absent(self.tops@, challenge_id);
                }
                Vec::new()
            },
        }
    }
}

impl Leaderboard {
    /// The first check a submission fails, in the validator's order, or
    /// `None` when every check passes. The external proof verifier stands
    /// behind these checks and currently accepts every submission, so
    /// `ProofVerificationFailed` is never the answer.
    pub open spec fn submit_reject(
        &self,
        caller: [u8; 32],
        challenge_id: u32,
        player: [u8; 32],
        name: Seq<char>,
        prompt_hash: [u8; 32],
        image_id: [u8; 32],
    ) -> Option<Error> {
        if caller != player {
            Some(Error::InvalidPlayer)
        } else if !valid_name(name) {
            Some(Error::InvalidName)
        } else if self.challenge_hash(challenge_id) is None {
            Some(Error::InvalidChallenge)
        } else if self.challenge_hash(challenge_id) != Some(prompt_hash) {
            Some(Error::InvalidPromptHash)
        } else if self.current_challenge is None {
            Some(Error::NotInitialized)
        } else if self.current_challenge != Some(challenge_id) {
            Some(Error::InvalidChallenge)
        } else if self.image_id is None {
            Some(Error::NotInitialized)
        } else if self.image_id != Some(image_id) {
            Some(Error::InvalidImageId)
        } else if self.verifier_id is None {
            Some(Error::NotInitialized)
        } else {
            None
        }
    }

    /// Validates a submission's bindings in order and, if the score beats
    /// the player's stored best (an absent best is always beaten), stores
    /// the new best entry and merges the row into the challenge's top
    /// table; a score at or below the stored best is an accepted no-op.
    /// Any failed check returns its error with the state unchanged.
    ///
    /// The host hands in `caller` (the authenticated identity), `seal`
    /// (the proof artifact checked by the external verifier), and
    /// `ledger_seq` (the ledger's current sequence number).
    pub fn submit_score(
        &mut self,
        caller: [u8; 32],
        challenge_id: u32,
        player: [u8; 32],
        name: String,
        prompt_hash: [u8; 32],
        score: u64,
        wpm_x100: u32,
        accuracy_bps: u32,
        duration_ms: u32,
        journal_hash: [u8; 32],
        image_id: [u8; 32],
        seal: &[u8],
        ledger_seq: u32,
    ) -> (r: Result<(), Error>)
        requires
            old(self).wf(),
        ensures
            final(self).wf(),
            match r {
                Err(e) => *final(self) == *old(self) && old(self).submit_reject(
                    caller,
                    challenge_id,
                    player,
                    name@,
                    prompt_hash,
                    image_id,
                ) == Some(e),
                Ok(()) => old(self).submit_reject(
                    caller,
                    challenge_id,
                    player,
                    name@,
                    prompt_hash,
                    image_id,
                ) is None && (best_blocks(old(self).best_of(challenge_id, player), score)
                    ==> *final(self) == *old(self)) && (!best_blocks(
                    old(self).best_of(challenge_id, player),
                    score,
                ) ==> final(self).best_of(challenge_id, player) == (Some(
                    ScoreEntry {
                        score,
                        wpm_x100,
                        accuracy_bps,
                        duration_ms,
                        name,
                        submitted_ledger: ledger_seq,
                    },
                )) && (forall|c2: u32, p2: [u8; 32]|
                    !(c2 == challenge_id && p2 == player) ==> final(self).best_of(c2, p2) == old(self).best_of(c2, p2)) && upsert_post(
                    old(self).top_of(challenge_id),
                    (LeaderboardRow { player, name, score, wpm_x100, accuracy_bps }),
                    final(self).top_of(challenge_id),
                ) && (forall|c2: u32|
                    c2 != challenge_id ==> final(self).top_of(c2) == old(self).top_of(c2))
                    && final(self).admin == old(self).admin && final(self).verifier_id == old(self).verifier_id && final(self).image_id == old(self).image_id && final(self).current_challenge == old(self).current_challenge && final(self).challenges
                    == old(self).challenges),
            },
    {
        if !bytes32_eq(&caller, &player) {
            return Err(Error::InvalidPlayer);
        }
        proof {
            assert(caller =~= player);
        }
        if !validate_name(&name) {
            return Err(Error::InvalidName);
        }

        let stored_hash = match find_key_u32(&self.challenges, challenge_id) {
            Some(i) => {
                proof {
                    lemma_assoc_find_witness(self.challenges@, i as int);
                }
                self.challenges[i].1
            },
            None => {
                proof {
                    lemma_assoc_find_absent(self.challenges@, challenge_id);
                }
                return Err(Error::InvalidChallenge);
            },
        };
        if !bytes32_eq(&stored_hash, &prompt_hash) {
            proof {
                assert(stored_hash@ != prompt_hash@);
                assert(self.challenge_hash(challenge_id) != Some(prompt_hash));
            }
            return Err(Error::InvalidPromptHash);
        }
        proof {
            assert(stored_hash =~= prompt_hash);
        }

        let current = match self.current_challenge {
            None => {
                return Err(Error::NotInitialized);
            },
            Some(c) => c,
        };
        if current != challenge_id {
            return Err(Error::InvalidChallenge);
        }

        let stored_image = match self.image_id {
            None => {
                return Err(Error::NotInitialized);
            },
            Some(img) => img,
        };
        if !bytes32_eq(&stored_image, &image_id) {
            proof {
                assert(stored_image@ != image_id@);
                assert(self.image_id != Some(image_id));
            }
            return Err(Error::InvalidImageId);
        }
        proof {
            assert(stored_image =~= image_id);
        }

        let verifier_id = match self.verifier_id {
            None => {
                return Err(Error::NotInitialized);
            },
            Some(v) => v,
        };
        if !verify_proof_stub(&verifier_id, &journal_hash, &image_id, seal) {
            return Err(Error::ProofVerificationFailed);
        }

        let ghost old_bests = self.bests@;
        let best_found = find_key_best(&self.bests, challenge_id, &player);
        proof {
            match best_found {
                Some(i) => {
                    lemma_assoc_find_witness(old_bests, i as int);
                },
                None => {
                    lemma_assoc_find_absent(old_bests, (challenge_id, player));
                },
            }
        }
        let should_update = match best_found {
            None => true,
            Some(i) => score > self.bests[i].1.score,
        };
        if !should_update {
            return Ok(());
        }

        let entry = ScoreEntry {
            score,
            wpm_x100,
            accuracy_bps,
            duration_ms,
            name: name.clone(),
            submitted_ledger: ledger_seq,
        };
        match best_found {
            Some(i) => {
                let _prev = self.bests.swap_remove(i);
                self.bests.push(((challenge_id, player), entry));
                proof {
                    lemma_assoc_replace(old_bests, i as int, entry);
                    assert(self.bests@ =~= assoc_replace(old_bests, i as int, entry));
                }
            },
            None => {
                self.bests.push(((challenge_id, player), entry));
                proof {
                    lemma_assoc_insert(old_bests, (challenge_id, player), entry);
                }
            },
        }

        let row = LeaderboardRow { player, name, score, wpm_x100, accuracy_bps };
        let ghost old_tops = self.tops@;
        match find_key_u32(&self.tops, challenge_id) {
            Some(i) => {
                proof {
                    lemma_assoc_find_witness(old_tops, i as int);
                }
                let pair = self.tops.swap_remove(i);
                let mut table = pair.1;
                upsert_top(&mut table, row);
                self.tops.push((challenge_id, table));
                proof {
                    lemma_assoc_replace(old_tops, i as int, table);
                    assert(self.tops@ =~= assoc_replace(old_tops, i as int, table));
                    assert forall|k: int| 0 <= k < self.tops@.len() implies good_top(
                        #[trigger] self.tops@[k].1@,
                    ) by {
                        let dropped = old_tops.update(i as int, old_tops.last()).drop_last();
                        if k < self.tops@.len() - 1 {
                            assert(self.tops@[k] == dropped[k]);
                            if k == i {
                                assert(dropped[k] == old_tops[old_tops.len() - 1]);
                            } else {
                                assert(dropped[k] == old_tops[k]);
                            }
                        }
                    }
                }
            },
            None => {
                proof {
                    lemma_assoc_find_absent(old_tops, challenge_id);
                }
                let mut table: Vec<LeaderboardRow> = Vec::new();
                upsert_top(&mut table, row);
                self.tops.push((challenge_id, table));
                proof {
                    lemma_assoc_insert(old_tops, challenge_id, table);
                    assert forall|k: int| 0 <= k < self.tops@.len() implies good_top(
                        #[trigger] self.tops@[k].1@,
                    ) by {
                        if k < self.tops@.len() - 1 {
                            assert(self.tops@[k] == old_tops[k]);
                        }
                    }
                }
            },
        }
        proof {
            assert forall|c2: u32| c2 != challenge_id implies self.top_of(c2) == old(self).top_of(
                c2,
            ) by {
                assert(assoc_find(self.tops@, c2) == assoc_find(old_tops, c2));
            }
        }
        Ok(())
    }
}

/// Whether a stored best entry blocks a new score: only a strictly
/// greater score replaces a stored best.
pub open spec fn best_blocks(prior: Option<ScoreEntry>, score: u64) -> bool {
    match prior {
        Some(e) => score <= e.score,
        None => false,
    }
}

/// Validates a display name: length 1 to 24 and every character printable
/// ASCII.
fn validate_name(name: &String) -> (r: bool)
    ensures
        r == valid_name(name@),
{
    let len = name.as_str().unicode_len();
    if len < 1 || len > 24 {
        return false;
    }
    let mut i: usize = 0;
    while i < len
        invariant
            i <= len,
            len == name@.len(),
            1 <= len <= 24,
            forall|j: int| 0 <= j < i ==> 0x20 <= (#[trigger] name@[j]) as u32 <= 0x7e,
        decreases len - i,
    {
        let c = name.as_str().get_char(i);
        let code = c as u32;
        if code < 0x20 || code > 0x7e {
            return false;
        }
        i += 1;
    }
    true
}

/// The opaque proof verifier's stand-in: it accepts every submission.
/// The boundary mirrors the external verify(verifier identity, journal
/// hash, program identity, seal) call, so a genuine verifier can replace
/// it without touching the state machine.
fn verify_proof_stub(
    verifier_id: &[u8; 32],
    journal_hash: &[u8; 32],
    image_id: &[u8; 32],
    seal: &[u8],
) -> (r: bool)
    ensures
        r,
{
    true
}

/// Top-N bound: in a well-formed ledger — and every operation here keeps
/// the ledger well-formed — the top table of any challenge holds at most
/// `TOP_N` rows, no player twice, and stands sorted by the ranking order.
pub proof fn lemma_top_bounded(board: &Leaderboard, challenge_id: u32)
    requires
        board.wf(),
    ensures
        board.top_of(challenge_id).len() <= TOP_N,
        no_dup_players(board.top_of(challenge_id)),
        sorted_rows(board.top_of(challenge_id)),
{
    lemma_assoc_find_props(board.tops@, challenge_id, 0);
    match assoc_find(board.tops@, challenge_id) {
        Some(t) => {
            let k = choose|k: int|
                0 <= k < board.tops@.len() && #[trigger] board.tops@[k].0 == challenge_id
                    && board.tops@[k].1 == t;
            assert(good_top(board.tops@[k].1@));
        },
        None => {},
    }
}

/// The index of `key` in a u32-keyed association list, if present.
fn find_key_u32<V>(s: &Vec<(u32, V)>, key: u32) -> (r: Option<usize>)
    ensures
        match r {
            Some(i) => i < s@.len() && s@[i as int].0 == key,
            None => forall|k: int| 0 <= k < s@.len() ==> #[trigger] s@[k].0 != key,
        },
{
    let mut i: usize = 0;
    while i < s.len()
        invariant
            i <= s@.len(),
            forall|k: int| 0 <= k < i ==> #[trigger] s@[k].0 != key,
        decreases s@.len() - i,
    {
        if s[i].0 == key {
            return Some(i);
        }
        i += 1;
    }
    None
}

/// The index of `(challenge_id, player)` in the best-score store, if
/// present.
fn find_key_best(
    s: &Vec<((u32, [u8; 32]), ScoreEntry)>,
    challenge_id: u32,
    player: &[u8; 32],
) -> (r: Option<usize>)
    ensures
        match r {
            Some(i) => i < s@.len() && s@[i as int].0 == (challenge_id, *player),
            None => forall|k: int|
                0 <= k < s@.len() ==> #[trigger] s@[k].0 != (challenge_id, *player),
        },
{
    let mut i: usize = 0;
    while i < s.len()
        invariant
            i <= s@.len(),
            forall|k: int| 0 <= k < i ==> #[trigger] s@[k].0 != (challenge_id, *player),
        decreases s@.len() - i,
    {
        if s[i].0.0 == challenge_id && bytes32_eq(&s[i].0.1, player) {
            proof {
                assert(s@[i as int].0.1 =~= *player);
                assert(s@[i as int].0 == (challenge_id, *player));
            }
            return Some(i);
        }
        proof {
            if s@[i as int].0.0 == challenge_id {
                assert(s@[i as int].0.1@ != player@);
                assert(s@[i as int].0 != (challenge_id, *player));
            } else {
                assert(s@[i as int].0 != (challenge_id, *player));
            }
        }
        i += 1;
    }
    None
}

} // verus!
