//! The leaderboard ranking engine: rows ordered by descending score with
//! ties broken by ascending player identity, kept in a bounded top table.

use vstd::prelude::*;

use vstd::seq_lib::group_to_multiset_ensures;

use crate::bytes::bytes32_eq;

verus! {

/// The bound on the top table: it never holds more rows than this.
pub const TOP_N: usize = 20;

/// One ranked view row: player identity, display name, and the scored
/// figures — no duration, no timestamp.
#[derive(Debug, PartialEq, Eq)]
pub struct LeaderboardRow {
    pub player: [u8; 32],
    pub name: String,
    pub score: u64,
    pub wpm_x100: u32,
    pub accuracy_bps: u32,
}

/// Lexicographic order on byte sequences of equal length: the first
/// differing byte decides; equal sequences compare as less-or-equal.
pub open spec fn lex_le(a: Seq<u8>, b: Seq<u8>) -> bool
    decreases a.len(),
{
    if a.len() == 0 || b.len() == 0 {
        a.len() == 0
    } else if a[0] < b[0] {
        true
    } else if a[0] > b[0] {
        false
    } else {
        lex_le(a.drop_first(), b.drop_first())
    }
}

/// The ranking order: `a` may stand at or above `b` when `a`'s score is
/// higher, or equal with `a`'s player identity not after `b`'s.
pub open spec fn row_le(a: LeaderboardRow, b: LeaderboardRow) -> bool {
    a.score > b.score || (a.score == b.score && lex_le(a.player@, b.player@))
}

/// The strict ranking order: `a` must stand strictly above `b`.
pub open spec fn row_lt(a: LeaderboardRow, b: LeaderboardRow) -> bool {
    !row_le(b, a)
}

/// Whether a table is sorted by the ranking order.
pub open spec fn sorted_rows(s: Seq<LeaderboardRow>) -> bool {
    forall|i: int, j: int| 0 <= i < j < s.len() ==> #[trigger] row_le(s[i], s[j])
}

/// Whether no player owns two rows of the table.
pub open spec fn no_dup_players(s: Seq<LeaderboardRow>) -> bool {
    forall|i: int, j: int|
        0 <= i < j < s.len() ==> #[trigger] s[i].player@ != #[trigger] s[j].player@
}

/// A well-formed top table: bounded, sorted, no player twice.
pub open spec fn good_top(s: Seq<LeaderboardRow>) -> bool {
    s.len() <= TOP_N && sorted_rows(s) && no_dup_players(s)
}

/// Whether some row of the table belongs to `p`.
pub open spec fn contains_player(s: Seq<LeaderboardRow>, p: [u8; 32]) -> bool {
    exists|i: int| 0 <= i < s.len() && #[trigger] s[i].player@ == p@
}

/// The index of `p`'s row, in a table that holds one.
pub open spec fn player_idx(s: Seq<LeaderboardRow>, p: [u8; 32]) -> int {
    choose|i: int| 0 <= i < s.len() && #[trigger] s[i].player@ == p@
}

/// The index of the first row holding the table's minimum score.
pub open spec fn first_min_idx(s: Seq<LeaderboardRow>) -> int
    decreases s.len(),
{
    if s.len() <= 1 {
        0
    } else {
        let r = first_min_idx(s.drop_last());
        if s.last().score < s[r].score {
            s.len() - 1
        } else {
            r
        }
    }
}

/// The minimum score held by a non-empty table.
pub open spec fn min_score_of(s: Seq<LeaderboardRow>) -> u64 {
    s[first_min_idx(s)].score
}

/// `first_min_idx` names a valid index whose score no row undercuts.
pub proof fn lemma_first_min_idx(s: Seq<LeaderboardRow>)
    requires
        s.len() > 0,
    ensures
        0 <= first_min_idx(s) < s.len(),
        forall|k: int| 0 <= k < s.len() ==> min_score_of(s) <= #[trigger] s[k].score,
    decreases s.len(),
{
    if s.len() > 1 {
        lemma_first_min_idx(s.drop_last());
        assert(forall|k: int| 0 <= k < s.len() - 1 ==> s.drop_last()[k] == s[k]);
    }
}

/// Equal sequences compare less-or-equal.
pub proof fn lemma_lex_le_refl(a: Seq<u8>)
    ensures
        lex_le(a, a),
    decreases a.len(),
{
    if a.len() > 0 {
        lemma_lex_le_refl(a.drop_first());
    }
}

/// Lexicographic order is total on sequences of equal length.
pub proof fn lemma_lex_le_total(a: Seq<u8>, b: Seq<u8>)
    requires
        a.len() == b.len(),
    ensures
        lex_le(a, b) || lex_le(b, a),
    decreases a.len(),
{
    if a.len() > 0 && a[0] == b[0] {
        lemma_lex_le_total(a.drop_first(), b.drop_first());
    }
}

/// Lexicographic order is transitive on sequences of equal length.
pub proof fn lemma_lex_le_trans(a: Seq<u8>, b: Seq<u8>, c: Seq<u8>)
    requires
        a.len() == b.len(),
        b.len() == c.len(),
        lex_le(a, b),
        lex_le(b, c),
    ensures
        lex_le(a, c),
    decreases a.len(),
{
    if a.len() > 0 && a[0] == b[0] && b[0] == c[0] {
        lemma_lex_le_trans(a.drop_first(), b.drop_first(), c.drop_first());
    }
}

/// Skipping an equal prefix does not change the comparison.
proof fn lemma_lex_le_skip(a: Seq<u8>, b: Seq<u8>, i: int)
    requires
        a.len() == b.len(),
        0 <= i <= a.len(),
        forall|j: int| 0 <= j < i ==> a[j] == b[j],
    ensures
        lex_le(a, b) == lex_le(a.skip(i), b.skip(i)),
    decreases i,
{
    if i > 0 {
        lemma_lex_le_skip(a.drop_first(), b.drop_first(), i - 1);
        assert(a.drop_first().skip(i - 1) =~= a.skip(i));
        assert(b.drop_first().skip(i - 1) =~= b.skip(i));
    } else {
        assert(a.skip(0) =~= a);
        assert(b.skip(0) =~= b);
    }
}

/// The ranking order holds of every pair one way or the other.
pub proof fn lemma_row_le_total(a: LeaderboardRow, b: LeaderboardRow)
    ensures
        row_le(a, b) || row_le(b, a),
{
    if a.score == b.score {
        lemma_lex_le_total(a.player@, b.player@);
    }
}

/// The ranking order is transitive.
pub proof fn lemma_row_le_trans(a: LeaderboardRow, b: LeaderboardRow, c: LeaderboardRow)
    requires
        row_le(a, b),
        row_le(b, c),
    ensures
        row_le(a, c),
{
    if a.score == b.score && b.score == c.score {
        lemma_lex_le_trans(a.player@, b.player@, c.player@);
    }
}

/// Lexicographic order is antisymmetric on sequences of equal length.
pub proof fn lemma_lex_le_antisym(a: Seq<u8>, b: Seq<u8>)
    requires
        a.len() == b.len(),
        lex_le(a, b),
        lex_le(b, a),
    ensures
        a == b,
    decreases a.len(),
{
    if a.len() == 0 {
        assert(a =~= b);
    } else {
        assert(a[0] == b[0]);
        lemma_lex_le_antisym(a.drop_first(), b.drop_first());
        assert(forall|i: int| 1 <= i < a.len() ==> a[i] == a.drop_first()[i - 1]);
        assert(forall|i: int| 1 <= i < b.len() ==> b[i] == b.drop_first()[i - 1]);
        assert(a =~= b);
    }
}

/// Reproducible ranking: two sorted tables without duplicate players that
/// hold the same rows are identical — the ranking order leaves no freedom,
/// so the ranked view does not depend on the order rows were merged in.
pub proof fn lemma_sorted_canonical(s1: Seq<LeaderboardRow>, s2: Seq<LeaderboardRow>)
    requires
        sorted_rows(s1),
        sorted_rows(s2),
        no_dup_players(s1),
        s1.to_multiset() == s2.to_multiset(),
    ensures
        s1 == s2,
    decreases s1.len(),
{
    broadcast use group_to_multiset_ensures;

    s1.to_multiset_ensures();
    s2.to_multiset_ensures();
    assert(s1.len() == s1.to_multiset().len());
    assert(s2.len() == s2.to_multiset().len());
    assert(s1.len() == s2.len());
    if s1.len() == 0 {
        assert(s1 =~= s2);
    } else {
        assert(s1.to_multiset().count(s1[0]) > 0);
        assert(s2.to_multiset().count(s2[0]) > 0);
        assert(s2.contains(s1[0]));
        assert(s1.contains(s2[0]));
        let j = choose|j: int| 0 <= j < s2.len() && s2[j] == s1[0];
        let k = choose|k: int| 0 <= k < s1.len() && s1[k] == s2[0];
        if s1[0] != s2[0] {
            assert(j != 0 && k != 0);
            assert(row_le(s2[0], s2[j]));
            assert(row_le(s1[0], s1[k]));
            assert(row_le(s1[0], s2[0]) && row_le(s2[0], s1[0]));
            assert(s1[0].score == s2[0].score);
            lemma_lex_le_antisym(s1[0].player@, s2[0].player@);
            assert(s1[0].player =~= s2[0].player);
            assert(s1[0].player@ == s1[k].player@);
            assert(false);
        }
        let t1 = s1.drop_first();
        let t2 = s2.drop_first();
        assert(t1 =~= s1.remove(0));
        assert(t2 =~= s2.remove(0));
        assert(t1.to_multiset() == t2.to_multiset());
        assert(sorted_rows(t1)) by {
            assert(forall|i: int, j2: int|
                0 <= i < j2 < t1.len() ==> row_le(#[trigger] t1[i], #[trigger] t1[j2])
                    == row_le(s1[i + 1], s1[j2 + 1]));
        }
        assert(sorted_rows(t2)) by {
            assert(forall|i: int, j2: int|
                0 <= i < j2 < t2.len() ==> row_le(#[trigger] t2[i], #[trigger] t2[j2])
                    == row_le(s2[i + 1], s2[j2 + 1]));
        }
        assert(no_dup_players(t1));
        lemma_sorted_canonical(t1, t2);
        assert(forall|i: int| 1 <= i < s1.len() ==> s1[i] == t1[i - 1]);
        assert(forall|i: int| 1 <= i < s2.len() ==> s2[i] == t2[i - 1]);
        assert(s1 =~= s2);
    }
}

/// Tie-break determinism: in a sorted table, two rows with equal score
/// stand in ascending player-identity order, whatever order they were
/// submitted in.
pub proof fn lemma_tie_break(s: Seq<LeaderboardRow>, i: int, j: int)
    requires
        sorted_rows(s),
        0 <= i < j < s.len(),
        s[i].score == s[j].score,
    ensures
        lex_le(s[i].player@, s[j].player@),
{
    assert(row_le(s[i], s[j]));
}

/// Whether `a`'s bytes precede `b`'s in lexicographic order, weakly.
fn player_le(a: &[u8; 32], b: &[u8; 32]) -> (r: bool)
    ensures
        r == lex_le(a@, b@),
{
    let mut i: usize = 0;
    while i < 32
        invariant
            i <= 32,
            forall|j: int| 0 <= j < i ==> a@[j] == b@[j],
        decreases 32 - i,
    {
        if a[i] < b[i] {
            proof {
                lemma_lex_le_skip(a@, b@, i as int);
            }
            return true;
        }
        if a[i] > b[i] {
            proof {
                lemma_lex_le_skip(a@, b@, i as int);
            }
            return false;
        }
        i += 1;
    }
    proof {
        lemma_lex_le_skip(a@, b@, 32);
    }
    true
}

/// Whether `a` must stand strictly above `b` in the ranking order.
fn row_precedes(a: &LeaderboardRow, b: &LeaderboardRow) -> (r: bool)
    ensures
        r == row_lt(*a, *b),
{
    if a.score > b.score {
        true
    } else if a.score < b.score {
        false
    } else {
        !player_le(&b.player, &a.player)
    }
}

/// A table with distinct players holds no duplicate rows.
proof fn lemma_no_dup_players_no_duplicates(s: Seq<LeaderboardRow>)
    requires
        no_dup_players(s),
    ensures
        s.no_duplicates(),
{
    assert forall|i: int, j: int|
        0 <= i < s.len() && 0 <= j < s.len() && i != j implies s[i] != s[j] by {
        if i < j {
            assert(s[i].player@ != s[j].player@);
        } else {
            assert(s[j].player@ != s[i].player@);
        }
    }
}

/// Distinct players survive any reordering: a table with the same rows
/// (as a multiset) as one with distinct players also has distinct players.
proof fn lemma_no_dup_players_preserved(s1: Seq<LeaderboardRow>, s2: Seq<LeaderboardRow>)
    requires
        s1.to_multiset() == s2.to_multiset(),
        no_dup_players(s1),
    ensures
        no_dup_players(s2),
{
    broadcast use group_to_multiset_ensures;

    lemma_no_dup_players_no_duplicates(s1);
    s1.lemma_multiset_has_no_duplicates();
    s2.lemma_multiset_has_no_duplicates_conv();
    assert forall|i: int, j: int| 0 <= i < j < s2.len() implies #[trigger] s2[i].player@
        != #[trigger] s2[j].player@ by {
        let x = s2[i];
        let y = s2[j];
        assert(s2.to_multiset().contains(x));
        assert(s2.to_multiset().contains(y));
        assert(s1.contains(x));
        assert(s1.contains(y));
        let ix = choose|k: int| 0 <= k < s1.len() && s1[k] == x;
        let iy = choose|k: int| 0 <= k < s1.len() && s1[k] == y;
        assert(x != y);
    }
}

/// Sorts a table by the ranking order, keeping exactly its rows.
fn sort_rows(rows: &mut Vec<LeaderboardRow>)
    ensures
        final(rows)@.to_multiset() == old(rows)@.to_multiset(),
        final(rows)@.len() == old(rows)@.len(),
        sorted_rows(final(rows)@),
{
    broadcast use group_to_multiset_ensures;
    broadcast use vstd::multiset::group_multiset_axioms;

    let ghost orig = old(rows)@;
    let mut out: Vec<LeaderboardRow> = Vec::new();
    proof {
        assert(out@.to_multiset().add(rows@.to_multiset()) =~= orig.to_multiset());
    }
    while rows.len() > 0
        invariant
            out@.to_multiset().add(rows@.to_multiset()) == orig.to_multiset(),
            out@.len() + rows@.len() == orig.len(),
            sorted_rows(out@),
            forall|p: int, q: int|
                0 <= p < out@.len() && 0 <= q < rows@.len() ==> #[trigger] row_le(
                    out@[p],
                    rows@[q],
                ),
        decreases rows.len(),
    {
        let mut best: usize = 0;
        let mut j: usize = 1;
        proof {
            lemma_lex_le_refl(rows@[0].player@);
        }
        while j < rows.len()
            invariant
                rows@.len() > 0,
                best < j,
                j <= rows@.len(),
                forall|k: int| 0 <= k < j ==> #[trigger] row_le(rows@[best as int], rows@[k]),
            decreases rows@.len() - j,
        {
            if row_precedes(&rows[j], &rows[best]) {
                proof {
                    lemma_row_le_total(rows@[j as int], rows@[best as int]);
                    assert forall|k: int| 0 <= k < j + 1 implies #[trigger] row_le(
                        rows@[j as int],
                        rows@[k],
                    ) by {
                        if k < j {
                            lemma_row_le_trans(rows@[j as int], rows@[best as int], rows@[k]);
                        } else {
                            lemma_lex_le_refl(rows@[j as int].player@);
                        }
                    }
                }
                best = j;
            } else {
                proof {
                    lemma_lex_le_refl(rows@[j as int].player@);
                }
            }
            j += 1;
        }
        let ghost rows_pre = rows@;
        let ghost out_pre = out@;
        let ghost chosen = rows@[best as int];
        let r = rows.remove(best);
        out.push(r);
        proof {
            assert(rows_pre[best as int] == chosen);
            assert(rows_pre.contains(chosen));
            rows_pre.to_multiset_ensures();
            assert(rows_pre.to_multiset().count(chosen) > 0);
            assert(rows@ == rows_pre.remove(best as int));
            assert(rows@.to_multiset() =~= rows_pre.to_multiset().remove(chosen));
            assert(out@ =~= out_pre.push(r));
            out_pre.to_multiset_ensures();
            assert(out_pre.push(r).to_multiset() =~= out_pre.to_multiset().insert(r));
            assert(out@.to_multiset() =~= out_pre.to_multiset().insert(r));
            assert(out@.to_multiset().add(rows@.to_multiset()) =~= out_pre.to_multiset().add(
                rows_pre.to_multiset(),
            ));
            assert forall|p: int, q: int|
                0 <= p < out@.len() && 0 <= q < rows@.len() implies #[trigger] row_le(
                out@[p],
                rows@[q],
            ) by {
                if q < best {
                    assert(rows@[q] == rows_pre[q]);
                } else {
                    assert(rows@[q] == rows_pre[q + 1]);
                }
            }
        }
    }
    proof {
        assert forall|x: LeaderboardRow| rows@.to_multiset().count(x) == 0 by {
            if rows@.to_multiset().count(x) > 0 {
                assert(rows@.contains(x));
            }
        }
        assert(out@.to_multiset() =~= orig.to_multiset());
    }
    *rows = out;
}

/// The index of `p`'s row in the table, scanning from the front.
fn find_player(top: &Vec<LeaderboardRow>, p: &[u8; 32]) -> (r: Option<usize>)
    ensures
        match r {
            Some(i) => i < top@.len() && top@[i as int].player@ == p@,
            None => forall|j: int| 0 <= j < top@.len() ==> #[trigger] top@[j].player@ != p@,
        },
{
    let mut i: usize = 0;
    while i < top.len()
        invariant
            i <= top@.len(),
            forall|j: int| 0 <= j < i ==> #[trigger] top@[j].player@ != p@,
        decreases top@.len() - i,
    {
        if bytes32_eq(&top[i].player, p) {
            return Some(i);
        }
        i += 1;
    }
    None
}

/// What one upsert does to a table `t0`, yielding `t1`: an existing row of
/// the same player is replaced in place; else the row is appended while
/// the table is short of its bound; else the new row displaces the first
/// minimum-score row exactly when its score strictly exceeds the minimum,
/// and a score at or below the minimum changes nothing.
pub open spec fn upsert_post(
    t0: Seq<LeaderboardRow>,
    row: LeaderboardRow,
    t1: Seq<LeaderboardRow>,
) -> bool {
    if contains_player(t0, row.player) {
        t1.to_multiset() == t0.to_multiset().remove(t0[player_idx(t0, row.player)]).insert(row)
            && t1.len() == t0.len()
    } else if t0.len() < TOP_N {
        t1.to_multiset() == t0.to_multiset().insert(row) && t1.len() == t0.len() + 1
    } else if row.score > min_score_of(t0) {
        t1.to_multiset() == t0.to_multiset().remove(t0[first_min_idx(t0)]).insert(row)
            && t1.len() == t0.len()
    } else {
        t1 == t0
    }
}

/// Merges one row into the top table: the table stays sorted, bounded,
/// and free of duplicate players, and changes exactly as `upsert_post`
/// states.
pub fn upsert_top(top: &mut Vec<LeaderboardRow>, row: LeaderboardRow)
    requires
        old(top)@.len() <= TOP_N,
        sorted_rows(old(top)@),
        no_dup_players(old(top)@),
    ensures
        upsert_post(old(top)@, row, final(top)@),
        final(top)@.len() <= TOP_N,
        sorted_rows(final(top)@),
        no_dup_players(final(top)@),
{
    broadcast use group_to_multiset_ensures;
    broadcast use vstd::multiset::group_multiset_axioms;

    let ghost t0 = top@;
    let n = top.len();
    let existing = find_player(top, &row.player);
    match existing {
        Some(idx) => {
            proof {
                assert(contains_player(t0, row.player));
                let p = player_idx(t0, row.player);
                assert(t0[p].player@ == row.player@);
                if p < idx {
                    assert(t0[p].player@ != t0[idx as int].player@);
                } else if idx < p {
                    assert(t0[idx as int].player@ != t0[p].player@);
                }
                assert(p == idx);
            }
            let _old_row = top.remove(idx);
            top.push(row);
            proof {
                let removed = t0.remove(idx as int);
                assert(forall|j: int| 0 <= j < idx ==> removed[j] == t0[j]);
                assert(forall|j: int|
                    idx <= j < removed.len() ==> removed[j] == t0[j + 1]);
                assert(top@ =~= removed.push(row));
                assert(top@.to_multiset() =~= t0.to_multiset().remove(
                    t0[player_idx(t0, row.player)],
                ).insert(row));
                assert(forall|j: int|
                    0 <= j < removed.len() ==> #[trigger] removed[j].player@ != row.player@);
                assert(no_dup_players(top@));
                assert(upsert_post(t0, row, top@));
            }
        },
        None => {
            proof {
                assert(!contains_player(t0, row.player));
            }
            if n < TOP_N {
                top.push(row);
                proof {
                    assert(top@.to_multiset() =~= t0.to_multiset().insert(row));
                    assert(no_dup_players(top@));
                    assert(upsert_post(t0, row, top@));
                }
            } else {
                let mut min_idx: usize = 0;
                let mut j: usize = 1;
                proof {
                    assert(t0.take(1).drop_last() =~= t0.take(0));
                    assert(first_min_idx(t0.take(1)) == 0);
                }
                while j < n
                    invariant
                        1 <= j <= n,
                        n == top@.len(),
                        top@ == t0,
                        min_idx < j,
                        min_idx == first_min_idx(t0.take(j as int)),
                    decreases n - j,
                {
                    proof {
                        assert(t0.take(j + 1).drop_last() =~= t0.take(j as int));
                        assert(t0.take(j + 1).last() == t0[j as int]);
                        assert(forall|k: int|
                            0 <= k < j ==> t0.take(j + 1)[k] == t0.take(j as int)[k]);
                    }
                    if top[j].score < top[min_idx].score {
                        min_idx = j;
                    }
                    j += 1;
                }
                proof {
                    assert(t0.take(n as int) =~= t0);
                    lemma_first_min_idx(t0);
                }
                if row.score > top[min_idx].score {
                    let _old_row = top.remove(min_idx);
                    top.push(row);
                    proof {
                        let removed = t0.remove(min_idx as int);
                        assert(forall|j2: int| 0 <= j2 < min_idx ==> removed[j2] == t0[j2]);
                        assert(forall|j2: int|
                            min_idx <= j2 < removed.len() ==> removed[j2] == t0[j2 + 1]);
                        assert(top@ =~= removed.push(row));
                        assert(top@.to_multiset() =~= t0.to_multiset().remove(
                            t0[first_min_idx(t0)],
                        ).insert(row));
                        assert(forall|j2: int|
                            0 <= j2 < removed.len() ==> #[trigger] removed[j2].player@
                                != row.player@);
                        assert(no_dup_players(top@));
                        assert(upsert_post(t0, row, top@));
                    }
                } else {
                    proof {
                        assert(upsert_post(t0, row, top@));
                    }
                    return ;
                }
            }
        },
    }
    let ghost mid = top@;
    sort_rows(top);
    proof {
        lemma_no_dup_players_preserved(mid, top@);
        assert(upsert_post(t0, row, top@));
    }
}

} // verus!
