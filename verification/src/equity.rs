//! Exact equity aggregation.
//!
//! Every completion of the board with `missing` cards from the undealt
//! deck is enumerated, each player's best hand is ranked, and the single
//! strict winner takes a win — or the tied best hands split one completion
//! into fixed-point shares of `TIE_SCALE / k`. All counters are integers;
//! the one division into fractions is the caller's final step.

use vstd::prelude::*;

use crate::binom::{binom, lemma_binom_card_bound, lemma_binom_nonneg};
use crate::card::{lemma_valid_concat, lemma_valid_subrange, valid_cards, Card};
use crate::eval::evaluate_cards;
use crate::hand_spec::spec_hand_rank;

verus! {

/// Fixed-point scale for tie shares: a `k`-way tie awards `TIE_SCALE / k`
/// to each tied player per completion.
pub const TIE_SCALE: u64 = 1_000_000;

/// Number of players in a flattened sequence of two-card hands.
pub open spec fn num_players(players: Seq<Card>) -> int {
    players.len() as int / 2
}

/// Player `p`'s two hole cards.
pub open spec fn player_cards(players: Seq<Card>, p: int) -> Seq<Card> {
    players.subrange(2 * p, 2 * p + 2)
}

/// Player `p`'s hand rank on a completed board.
pub open spec fn player_rank(players: Seq<Card>, board: Seq<Card>, p: int) -> int {
    spec_hand_rank(player_cards(players, p) + board)
}

/// Best hand rank among players 0..k.
pub open spec fn best_rank_upto(players: Seq<Card>, board: Seq<Card>, k: int) -> int
    decreases k,
{
    if k <= 1 {
        player_rank(players, board, 0)
    } else {
        let prev = best_rank_upto(players, board, k - 1);
        let r = player_rank(players, board, k - 1);
        if r > prev {
            r
        } else {
            prev
        }
    }
}

/// Best hand rank among all players.
pub open spec fn best_rank(players: Seq<Card>, board: Seq<Card>) -> int {
    best_rank_upto(players, board, num_players(players))
}

/// How many of players 0..k hold the overall best rank.
pub open spec fn winners_upto(players: Seq<Card>, board: Seq<Card>, k: int) -> int
    decreases k,
{
    if k <= 0 {
        0
    } else {
        winners_upto(players, board, k - 1) + if player_rank(players, board, k - 1) == best_rank(
            players,
            board,
        ) {
            1int
        } else {
            0int
        }
    }
}

/// How many players share the best rank on this board.
pub open spec fn num_winners(players: Seq<Card>, board: Seq<Card>) -> int {
    winners_upto(players, board, num_players(players))
}

/// Player `p`'s win count for one completion: 1 exactly when `p` holds
/// the strict best hand.
pub open spec fn win_share(players: Seq<Card>, board: Seq<Card>, p: int) -> int {
    if player_rank(players, board, p) == best_rank(players, board) && num_winners(players, board)
        == 1 {
        1
    } else {
        0
    }
}

/// Player `p`'s fixed-point tie share for one completion: `TIE_SCALE / k`
/// when `p` is one of `k >= 2` tied best hands, 0 otherwise.
pub open spec fn tie_share_fp(players: Seq<Card>, board: Seq<Card>, p: int) -> int {
    if player_rank(players, board, p) == best_rank(players, board) && num_winners(players, board)
        >= 2 {
        TIE_SCALE as int / num_winners(players, board)
    } else {
        0
    }
}

/// Sum of all players' win shares on one completed board, over players
/// 0..k.
pub open spec fn total_win_shares(players: Seq<Card>, board: Seq<Card>, k: int) -> int
    decreases k,
{
    if k <= 0 {
        0
    } else {
        total_win_shares(players, board, k - 1) + win_share(players, board, k - 1)
    }
}

/// Sum of all players' fixed-point tie shares on one completed board,
/// over players 0..k.
pub open spec fn total_tie_shares_fp(players: Seq<Card>, board: Seq<Card>, k: int) -> int
    decreases k,
{
    if k <= 0 {
        0
    } else {
        total_tie_shares_fp(players, board, k - 1) + tie_share_fp(players, board, k - 1)
    }
}

/// Player `p`'s total wins over every completion of `board` with `k`
/// cards drawn from `deck` at indices `lo` and beyond.
pub open spec fn sum_wins(
    players: Seq<Card>,
    board: Seq<Card>,
    deck: Seq<Card>,
    lo: int,
    k: int,
    p: int,
) -> int
    decreases deck.len() - lo, k,
{
    if k <= 0 {
        win_share(players, board, p)
    } else if deck.len() - lo < k {
        0
    } else {
        sum_wins(players, board.push(deck[lo]), deck, lo + 1, k - 1, p) + sum_wins(
            players,
            board,
            deck,
            lo + 1,
            k,
            p,
        )
    }
}

/// Player `p`'s total fixed-point tie shares over the same completions.
pub open spec fn sum_ties_fp(
    players: Seq<Card>,
    board: Seq<Card>,
    deck: Seq<Card>,
    lo: int,
    k: int,
    p: int,
) -> int
    decreases deck.len() - lo, k,
{
    if k <= 0 {
        tie_share_fp(players, board, p)
    } else if deck.len() - lo < k {
        0
    } else {
        sum_ties_fp(players, board.push(deck[lo]), deck, lo + 1, k - 1, p) + sum_ties_fp(
            players,
            board,
            deck,
            lo + 1,
            k,
            p,
        )
    }
}

/// The best rank is attained by some player.
pub proof fn lemma_best_attained(players: Seq<Card>, board: Seq<Card>, k: int)
    requires
        k >= 1,
    ensures
        exists|p: int|
            0 <= p < k && #[trigger] player_rank(players, board, p) == best_rank_upto(
                players,
                board,
                k,
            ),
    decreases k,
{
    if k == 1 {
        assert(player_rank(players, board, 0) == best_rank_upto(players, board, 1));
    } else {
        lemma_best_attained(players, board, k - 1);
        if player_rank(players, board, k - 1) > best_rank_upto(players, board, k - 1) {
            assert(player_rank(players, board, k - 1) == best_rank_upto(players, board, k));
        } else {
            let p = choose|p: int|
                0 <= p < k - 1 && #[trigger] player_rank(players, board, p) == best_rank_upto(
                    players,
                    board,
                    k - 1,
                );
            assert(player_rank(players, board, p) == best_rank_upto(players, board, k));
        }
    }
}

pub proof fn lemma_winners_nonneg(players: Seq<Card>, board: Seq<Card>, k: int)
    ensures
        winners_upto(players, board, k) >= 0,
    decreases k,
{
    if k > 0 {
        lemma_winners_nonneg(players, board, k - 1);
    }
}

pub proof fn lemma_winners_witness(players: Seq<Card>, board: Seq<Card>, q: int, k: int)
    requires
        0 <= q < k,
        player_rank(players, board, q) == best_rank(players, board),
    ensures
        winners_upto(players, board, k) >= 1,
    decreases k,
{
    lemma_winners_nonneg(players, board, k - 1);
    if q < k - 1 {
        lemma_winners_witness(players, board, q, k - 1);
    }
}

/// With at least one player there is always at least one winner.
pub proof fn lemma_num_winners_pos(players: Seq<Card>, board: Seq<Card>)
    requires
        num_players(players) >= 1,
    ensures
        num_winners(players, board) >= 1,
{
    let np = num_players(players);
    lemma_best_attained(players, board, np);
    let q = choose|p: int|
        0 <= p < np && #[trigger] player_rank(players, board, p) == best_rank_upto(
            players,
            board,
            np,
        );
    lemma_winners_witness(players, board, q, np);
}

proof fn lemma_shares_upto(players: Seq<Card>, board: Seq<Card>, k: int)
    ensures
        total_win_shares(players, board, k) == if num_winners(players, board) == 1 {
            winners_upto(players, board, k)
        } else {
            0int
        },
        total_tie_shares_fp(players, board, k) == if num_winners(players, board) >= 2 {
            winners_upto(players, board, k) * (TIE_SCALE as int / num_winners(players, board))
        } else {
            0int
        },
    decreases k,
{
    if k > 0 {
        lemma_shares_upto(players, board, k - 1);
        let nw = num_winners(players, board);
        if nw >= 2 && player_rank(players, board, k - 1) == best_rank(players, board) {
            let q = TIE_SCALE as int / nw;
            let w = winners_upto(players, board, k - 1);
            assert((w + 1) * q == w * q + q) by (nonlinear_arith);
        }
    }
}

/// Each completion is conserved across the player set: either exactly
/// one strict winner takes the whole completion and nobody takes a tie
/// share, or the k tied best hands take no wins and split the completion
/// into exactly k equal fixed-point shares of `TIE_SCALE / k`.
pub proof fn lemma_completion_conservation(players: Seq<Card>, board: Seq<Card>)
    requires
        num_players(players) >= 1,
    ensures
        num_winners(players, board) >= 1,
        num_winners(players, board) == 1 ==> total_win_shares(players, board, num_players(players))
            == 1 && total_tie_shares_fp(players, board, num_players(players)) == 0,
        num_winners(players, board) >= 2 ==> total_win_shares(players, board, num_players(players))
            == 0 && total_tie_shares_fp(players, board, num_players(players)) == num_winners(
            players,
            board,
        ) * (TIE_SCALE as int / num_winners(players, board)),
{
    lemma_num_winners_pos(players, board);
    lemma_shares_upto(players, board, num_players(players));
}

/// Per-completion shares are bounded: a win share is 0 or 1 and a tie
/// share never exceeds the fixed-point scale.
pub proof fn lemma_share_bounds(players: Seq<Card>, board: Seq<Card>, p: int)
    ensures
        0 <= win_share(players, board, p) <= 1,
        0 <= tie_share_fp(players, board, p) <= TIE_SCALE as int,
{
    if player_rank(players, board, p) == best_rank(players, board) && num_winners(players, board)
        >= 2 {
        let w = num_winners(players, board);
        assert(0 <= TIE_SCALE as int / w <= TIE_SCALE as int) by (nonlinear_arith)
            requires
                w >= 2,
        ;
    }
}

/// Win totals over a range of completions stay within the completion count.
pub proof fn lemma_sum_wins_bounds(
    players: Seq<Card>,
    board: Seq<Card>,
    deck: Seq<Card>,
    lo: int,
    k: int,
    p: int,
)
    requires
        k >= 0,
    ensures
        0 <= sum_wins(players, board, deck, lo, k, p) <= binom(deck.len() - lo, k),
    decreases deck.len() - lo, k,
{
    if k <= 0 {
        lemma_share_bounds(players, board, p);
    } else if deck.len() - lo < k {
        lemma_binom_nonneg(deck.len() - lo, k);
    } else {
        lemma_sum_wins_bounds(players, board.push(deck[lo]), deck, lo + 1, k - 1, p);
        lemma_sum_wins_bounds(players, board, deck, lo + 1, k, p);
    }
}

/// Tie totals stay within the completion count times the scale.
pub proof fn lemma_sum_ties_bounds(
    players: Seq<Card>,
    board: Seq<Card>,
    deck: Seq<Card>,
    lo: int,
    k: int,
    p: int,
)
    requires
        k >= 0,
    ensures
        0 <= sum_ties_fp(players, board, deck, lo, k, p) <= binom(deck.len() - lo, k) * (
        TIE_SCALE as int),
    decreases deck.len() - lo, k,
{
    if k <= 0 {
        lemma_share_bounds(players, board, p);
    } else if deck.len() - lo < k {
        lemma_binom_nonneg(deck.len() - lo, k);
    } else {
        lemma_sum_ties_bounds(players, board.push(deck[lo]), deck, lo + 1, k - 1, p);
        lemma_sum_ties_bounds(players, board, deck, lo + 1, k, p);
        lemma_binom_nonneg(deck.len() - lo - 1, k - 1);
        lemma_binom_nonneg(deck.len() - lo - 1, k);
    }
}

/// No player's combined totals exceed one full share per completion:
/// their reported win and tie fractions can never sum past 1.
pub proof fn lemma_player_share_bound(
    players: Seq<Card>,
    board: Seq<Card>,
    deck: Seq<Card>,
    lo: int,
    k: int,
    p: int,
)
    requires
        k >= 0,
    ensures
        sum_wins(players, board, deck, lo, k, p) * (TIE_SCALE as int) + sum_ties_fp(
            players,
            board,
            deck,
            lo,
            k,
            p,
        ) <= binom(deck.len() - lo, k) * (TIE_SCALE as int),
    decreases deck.len() - lo, k,
{
    if k <= 0 {
        lemma_share_bounds(players, board, p);
        if win_share(players, board, p) == 1 {
            // a strict winner takes no tie share
            assert(tie_share_fp(players, board, p) == 0);
        }
    } else if deck.len() - lo < k {
        lemma_binom_nonneg(deck.len() - lo, k);
    } else {
        lemma_player_share_bound(players, board.push(deck[lo]), deck, lo + 1, k - 1, p);
        lemma_player_share_bound(players, board, deck, lo + 1, k, p);
    }
}

/// Integer win and tie counters of one exhaustive enumeration.
pub struct EquityCounts {
    /// Completions each player won outright.
    pub wins: Vec<u64>,
    /// Summed fixed-point tie shares per player, scaled by `TIE_SCALE`.
    pub ties_fp: Vec<u64>,
    /// Total number of board completions enumerated.
    pub samples: u64,
}

/// Rank every player's hand on a completed board and award this
/// completion: one win to a strict best hand, or a fixed-point tie share
/// to each of the tied best hands.
fn tally_completion(
    players: &Vec<Card>,
    board: &Vec<Card>,
    wins: &mut Vec<u64>,
    ties_fp: &mut Vec<u64>,
    scratch: &mut Vec<Card>,
    rank_scratch: &mut Vec<u64>,
)
    requires
        players@.len() == 2 * num_players(players@),
        1 <= num_players(players@) <= 9,
        board@.len() == 5,
        valid_cards(players@),
        valid_cards(board@),
        old(wins)@.len() == num_players(players@),
        old(ties_fp)@.len() == num_players(players@),
        forall|p: int|
            0 <= p < num_players(players@) ==> (#[trigger] old(wins)@[p]) + win_share(
                players@,
                board@,
                p,
            ) <= u64::MAX,
        forall|p: int|
            0 <= p < num_players(players@) ==> (#[trigger] old(ties_fp)@[p]) + tie_share_fp(
                players@,
                board@,
                p,
            ) <= u64::MAX,
    ensures
        final(wins)@.len() == old(wins)@.len(),
        final(ties_fp)@.len() == old(ties_fp)@.len(),
        forall|p: int|
            0 <= p < num_players(players@) ==> final(wins)@[p] == (#[trigger] old(wins)@[p])
                + win_share(players@, board@, p),
        forall|p: int|
            0 <= p < num_players(players@) ==> final(ties_fp)@[p] == (#[trigger] old(ties_fp)@[p])
                + tie_share_fp(players@, board@, p),
{
    let ghost ps = players@;
    let ghost bs = board@;
    let np = players.len() / 2;

    // Rank every player's seven cards.
    rank_scratch.clear();
    let mut p: usize = 0;
    while p < np
        invariant
            p <= np,
            np == num_players(ps),
            ps == players@,
            bs == board@,
            players@.len() == 2 * np,
            board@.len() == 5,
            1 <= np <= 9,
            valid_cards(ps),
            valid_cards(bs),
            rank_scratch@.len() == p,
            forall|q: int|
                0 <= q < p ==> (#[trigger] rank_scratch@[q]) as int == player_rank(ps, bs, q),
        decreases np - p,
    {
        scratch.clear();
        scratch.push(players[2 * p]);
        scratch.push(players[2 * p + 1]);
        scratch.push(board[0]);
        scratch.push(board[1]);
        scratch.push(board[2]);
        scratch.push(board[3]);
        scratch.push(board[4]);
        proof {
            assert(scratch@ =~= player_cards(ps, p as int) + bs);
            lemma_valid_subrange(ps, 2 * p as int, 2 * p as int + 2);
            lemma_valid_concat(player_cards(ps, p as int), bs);
        }
        let r = evaluate_cards(scratch);
        rank_scratch.push(r);
        p = p + 1;
    }

    // The best rank across all players.
    let mut best: u64 = rank_scratch[0];
    let mut q: usize = 1;
    while q < np
        invariant
            1 <= q <= np,
            np == num_players(ps),
            rank_scratch@.len() == np,
            forall|i: int| 0 <= i < np ==> (#[trigger] rank_scratch@[i]) as int == player_rank(ps, bs, i),
            best as int == best_rank_upto(ps, bs, q as int),
        decreases np - q,
    {
        if rank_scratch[q] > best {
            best = rank_scratch[q];
        }
        q = q + 1;
    }
    assert(best as int == best_rank(ps, bs));

    // How many players share it.
    let mut wc: usize = 0;
    let mut j: usize = 0;
    while j < np
        invariant
            j <= np,
            np == num_players(ps),
            rank_scratch@.len() == np,
            forall|i: int| 0 <= i < np ==> (#[trigger] rank_scratch@[i]) as int == player_rank(ps, bs, i),
            best as int == best_rank(ps, bs),
            wc <= j,
            wc as int == winners_upto(ps, bs, j as int),
        decreases np - j,
    {
        if rank_scratch[j] == best {
            wc = wc + 1;
        }
        j = j + 1;
    }
    assert(wc as int == num_winners(ps, bs));
    proof {
        lemma_num_winners_pos(ps, bs);
    }

    // Award the completion.
    if wc == 1 {
        let mut t: usize = 0;
        while t < np
            invariant
                t <= np,
                np == num_players(ps),
                rank_scratch@.len() == np,
                wins@.len() == np,
                ties_fp@.len() == np,
                forall|i: int| 0 <= i < np ==> (#[trigger] rank_scratch@[i]) as int == player_rank(ps, bs, i),
                best as int == best_rank(ps, bs),
                num_winners(ps, bs) == 1,
                old(wins)@.len() == np,
                old(ties_fp)@.len() == np,
                forall|i: int|
                    0 <= i < np ==> (#[trigger] old(wins)@[i]) + win_share(ps, bs, i) <= u64::MAX,
                forall|i: int|
                    0 <= i < t ==> wins@[i] == (#[trigger] old(wins)@[i]) + win_share(ps, bs, i),
                forall|i: int| t <= i < np ==> wins@[i] == #[trigger] old(wins)@[i],
                ties_fp@ == old(ties_fp)@,
            decreases np - t,
        {
            if rank_scratch[t] == best {
                proof {
                    assert(wins@[t as int] == old(wins)@[t as int]);
                    assert(old(wins)@[t as int] + win_share(ps, bs, t as int) <= u64::MAX);
                    assert(win_share(ps, bs, t as int) == 1);
                }
                let w = wins[t];
                wins[t] = w + 1;
            }
            t = t + 1;
        }
        assert forall|i: int| 0 <= i < np implies ties_fp@[i] == #[trigger] old(ties_fp)@[i]
            + tie_share_fp(ps, bs, i) by {}
    } else {
        assert(wc >= 2);
        let share: u64 = TIE_SCALE / (wc as u64);
        assert(share as int == TIE_SCALE as int / num_winners(ps, bs));
        let mut t: usize = 0;
        while t < np
            invariant
                t <= np,
                np == num_players(ps),
                rank_scratch@.len() == np,
                wins@.len() == np,
                ties_fp@.len() == np,
                forall|i: int| 0 <= i < np ==> (#[trigger] rank_scratch@[i]) as int == player_rank(ps, bs, i),
                best as int == best_rank(ps, bs),
                num_winners(ps, bs) >= 2,
                share as int == TIE_SCALE as int / num_winners(ps, bs),
                old(wins)@.len() == np,
                old(ties_fp)@.len() == np,
                forall|i: int|
                    0 <= i < np ==> (#[trigger] old(ties_fp)@[i]) + tie_share_fp(ps, bs, i)
                        <= u64::MAX,
                forall|i: int|
                    0 <= i < t ==> ties_fp@[i] == (#[trigger] old(ties_fp)@[i]) + tie_share_fp(
                        ps,
                        bs,
                        i,
                    ),
                forall|i: int| t <= i < np ==> ties_fp@[i] == #[trigger] old(ties_fp)@[i],
                wins@ == old(wins)@,
            decreases np - t,
        {
            if rank_scratch[t] == best {
                proof {
                    assert(ties_fp@[t as int] == old(ties_fp)@[t as int]);
                    assert(old(ties_fp)@[t as int] + tie_share_fp(ps, bs, t as int) <= u64::MAX);
                    assert(tie_share_fp(ps, bs, t as int) == share as int);
                }
                let w = ties_fp[t];
                ties_fp[t] = w + share;
            }
            t = t + 1;
        }
        assert forall|i: int| 0 <= i < np implies wins@[i] == #[trigger] old(wins)@[i] + win_share(
            ps,
            bs,
            i,
        ) by {}
    }
}

/// Enumerate all `k`-card completions drawn from `deck[lo..]` in order,
/// tallying every player's outcome; returns the number of completions.
fn equity_rec(
    players: &Vec<Card>,
    board: &mut Vec<Card>,
    deck: &Vec<Card>,
    lo: usize,
    k: usize,
    wins: &mut Vec<u64>,
    ties_fp: &mut Vec<u64>,
    scratch: &mut Vec<Card>,
    rank_scratch: &mut Vec<u64>,
) -> (combos: u64)
    requires
        players@.len() == 2 * num_players(players@),
        1 <= num_players(players@) <= 9,
        old(board)@.len() + k == 5,
        lo <= deck@.len() <= 52,
        valid_cards(players@),
        valid_cards(old(board)@),
        valid_cards(deck@),
        old(wins)@.len() == num_players(players@),
        old(ties_fp)@.len() == num_players(players@),
        forall|p: int|
            0 <= p < num_players(players@) ==> (#[trigger] old(wins)@[p]) + sum_wins(
                players@,
                old(board)@,
                deck@,
                lo as int,
                k as int,
                p,
            ) <= u64::MAX,
        forall|p: int|
            0 <= p < num_players(players@) ==> (#[trigger] old(ties_fp)@[p]) + sum_ties_fp(
                players@,
                old(board)@,
                deck@,
                lo as int,
                k as int,
                p,
            ) <= u64::MAX,
    ensures
        final(board)@ == old(board)@,
        final(wins)@.len() == num_players(players@),
        final(ties_fp)@.len() == num_players(players@),
        forall|p: int|
            0 <= p < num_players(players@) ==> final(wins)@[p] == (#[trigger] old(wins)@[p])
                + sum_wins(players@, old(board)@, deck@, lo as int, k as int, p),
        forall|p: int|
            0 <= p < num_players(players@) ==> final(ties_fp)@[p] == (#[trigger] old(ties_fp)@[p])
                + sum_ties_fp(players@, old(board)@, deck@, lo as int, k as int, p),
        combos as int == binom(deck@.len() - lo as int, k as int),
    decreases deck@.len() - lo,
{
    let ghost np = num_players(players@);
    if k == 0 {
        tally_completion(players, board, wins, ties_fp, scratch, rank_scratch);
        return 1;
    }
    if deck.len() - lo < k {
        return 0;
    }
    let ghost board0 = board@;
    let ghost bpushed = board0.push(deck@[lo as int]);
    let ghost m = deck@.len() as int;
    let ghost ki = k as int;
    let ghost loi = lo as int;
    let c = deck[lo];
    board.push(c);
    proof {
        assert(valid_cards(board@)) by {
            lemma_valid_concat(board0, seq![c]);
            assert(board@ =~= board0 + seq![c]);
        }
        assert(board@ == bpushed);
        // The choose/skip split of the pending sums.
        assert forall|p: int| 0 <= p < np implies sum_wins(players@, board0, deck@, loi, ki, p)
            == sum_wins(players@, bpushed, deck@, loi + 1, ki - 1, p) + sum_wins(
            players@,
            board0,
            deck@,
            loi + 1,
            ki,
            p,
        ) by {}
        assert forall|p: int| 0 <= p < np implies sum_ties_fp(players@, board0, deck@, loi, ki, p)
            == sum_ties_fp(players@, bpushed, deck@, loi + 1, ki - 1, p) + sum_ties_fp(
            players@,
            board0,
            deck@,
            loi + 1,
            ki,
            p,
        ) by {}
        assert forall|p: int| 0 <= p < np implies (#[trigger] wins@[p]) + sum_wins(
            players@,
            board@,
            deck@,
            loi + 1,
            ki - 1,
            p,
        ) <= u64::MAX by {
            assert(old(wins)@[p] + sum_wins(players@, board0, deck@, loi, ki, p) <= u64::MAX);
            lemma_sum_wins_bounds(players@, board0, deck@, loi + 1, ki, p);
        }
        assert forall|p: int| 0 <= p < np implies (#[trigger] ties_fp@[p]) + sum_ties_fp(
            players@,
            board@,
            deck@,
            loi + 1,
            ki - 1,
            p,
        ) <= u64::MAX by {
            assert(old(ties_fp)@[p] + sum_ties_fp(players@, board0, deck@, loi, ki, p)
                <= u64::MAX);
            lemma_sum_ties_bounds(players@, board0, deck@, loi + 1, ki, p);
        }
    }
    let c1 = equity_rec(players, board, deck, lo + 1, k - 1, wins, ties_fp, scratch, rank_scratch);
    board.pop();
    let ghost wins_mid = wins@;
    let ghost ties_mid = ties_fp@;
    proof {
        assert(board@ =~= board0);
        assert forall|p: int| 0 <= p < np implies (#[trigger] wins_mid[p]) == old(wins)@[p]
            + sum_wins(players@, bpushed, deck@, loi + 1, ki - 1, p) by {}
        assert forall|p: int| 0 <= p < np implies (#[trigger] ties_mid[p]) == old(ties_fp)@[p]
            + sum_ties_fp(players@, bpushed, deck@, loi + 1, ki - 1, p) by {}
        assert forall|p: int| 0 <= p < np implies (#[trigger] wins@[p]) + sum_wins(
            players@,
            board@,
            deck@,
            loi + 1,
            ki,
            p,
        ) <= u64::MAX by {
            assert(wins_mid[p] == old(wins)@[p] + sum_wins(players@, bpushed, deck@, loi + 1, ki
                - 1, p));
            assert(old(wins)@[p] + sum_wins(players@, board0, deck@, loi, ki, p) <= u64::MAX);
        }
        assert forall|p: int| 0 <= p < np implies (#[trigger] ties_fp@[p]) + sum_ties_fp(
            players@,
            board@,
            deck@,
            loi + 1,
            ki,
            p,
        ) <= u64::MAX by {
            assert(ties_mid[p] == old(ties_fp)@[p] + sum_ties_fp(players@, bpushed, deck@, loi + 1,
                ki - 1, p));
            assert(old(ties_fp)@[p] + sum_ties_fp(players@, board0, deck@, loi, ki, p)
                <= u64::MAX);
        }
    }
    let c2 = equity_rec(players, board, deck, lo + 1, k, wins, ties_fp, scratch, rank_scratch);
    proof {
        lemma_binom_card_bound(m - loi - 1, ki - 1);
        lemma_binom_card_bound(m - loi - 1, ki);
        assert forall|p: int| 0 <= p < np implies wins@[p] == (#[trigger] old(wins)@[p]) + sum_wins(
            players@,
            board0,
            deck@,
            loi,
            ki,
            p,
        ) by {
            assert(wins@[p] == wins_mid[p] + sum_wins(players@, board0, deck@, loi + 1, ki, p));
            assert(wins_mid[p] == old(wins)@[p] + sum_wins(players@, bpushed, deck@, loi + 1, ki
                - 1, p));
        }
        assert forall|p: int| 0 <= p < np implies ties_fp@[p] == (#[trigger] old(ties_fp)@[p])
            + sum_ties_fp(players@, board0, deck@, loi, ki, p) by {
            assert(ties_fp@[p] == ties_mid[p] + sum_ties_fp(players@, board0, deck@, loi + 1, ki,
                p));
            assert(ties_mid[p] == old(ties_fp)@[p] + sum_ties_fp(players@, bpushed, deck@, loi + 1,
                ki - 1, p));
        }
    }
    c1 + c2
}

/// Exact equity by exhaustive enumeration.
///
/// Draws every combination of `missing` cards from `deck` to complete
/// `board`, ranks every player's best hand per completion, and returns
/// per-player win counts, fixed-point tie shares, and the completion
/// count, which always equals C(|deck|, missing).
pub fn calculate_equity(
    players: &Vec<Card>,
    board: &Vec<Card>,
    missing: usize,
    deck: &Vec<Card>,
) -> (res: EquityCounts)
    requires
        players@.len() % 2 == 0,
        1 <= num_players(players@) <= 9,
        board@.len() + missing == 5,
        missing <= deck@.len() <= 52,
        valid_cards(players@),
        valid_cards(board@),
        valid_cards(deck@),
    ensures
        res.wins@.len() == num_players(players@),
        res.ties_fp@.len() == num_players(players@),
        forall|p: int|
            0 <= p < num_players(players@) ==> (#[trigger] res.wins@[p]) as int == sum_wins(
                players@,
                board@,
                deck@,
                0,
                missing as int,
                p,
            ),
        forall|p: int|
            0 <= p < num_players(players@) ==> (#[trigger] res.ties_fp@[p]) as int == sum_ties_fp(
                players@,
                board@,
                deck@,
                0,
                missing as int,
                p,
            ),
        res.samples as int == binom(deck@.len() as int, missing as int),
        forall|p: int|
            0 <= p < num_players(players@) ==> (#[trigger] res.wins@[p]) as int * (TIE_SCALE as int)
                + res.ties_fp@[p] as int <= res.samples as int * (TIE_SCALE as int),
{
    let np = players.len() / 2;
    let mut wins: Vec<u64> = Vec::with_capacity(np);
    let mut ties_fp: Vec<u64> = Vec::with_capacity(np);
    let mut i: usize = 0;
    while i < np
        invariant
            i <= np,
            wins@.len() == i,
            ties_fp@.len() == i,
            forall|p: int| 0 <= p < i ==> (#[trigger] wins@[p]) == 0,
            forall|p: int| 0 <= p < i ==> (#[trigger] ties_fp@[p]) == 0,
        decreases np - i,
    {
        wins.push(0);
        ties_fp.push(0);
        i = i + 1;
    }

    let mut work_board: Vec<Card> = Vec::with_capacity(5);
    let mut b: usize = 0;
    while b < board.len()
        invariant
            b <= board@.len(),
            work_board@ =~= board@.take(b as int),
        decreases board@.len() - b,
    {
        work_board.push(board[b]);
        b = b + 1;
    }
    proof {
        assert(work_board@ =~= board@);
    }

    let mut scratch: Vec<Card> = Vec::with_capacity(7);
    let mut rank_scratch: Vec<u64> = Vec::with_capacity(np);

    proof {
        assert forall|p: int| 0 <= p < num_players(players@) implies #[trigger] wins@[p] + sum_wins(
            players@,
            board@,
            deck@,
            0,
            missing as int,
            p,
        ) <= u64::MAX by {
            lemma_sum_wins_bounds(players@, board@, deck@, 0, missing as int, p);
            lemma_binom_card_bound(deck@.len() as int, missing as int);
        }
        assert forall|p: int| 0 <= p < num_players(players@) implies #[trigger] ties_fp@[p]
            + sum_ties_fp(players@, board@, deck@, 0, missing as int, p) <= u64::MAX by {
            lemma_sum_ties_bounds(players@, board@, deck@, 0, missing as int, p);
            lemma_binom_card_bound(deck@.len() as int, missing as int);
        }
    }
    let ghost wins0 = wins@;
    let ghost ties0 = ties_fp@;
    let samples = equity_rec(
        players,
        &mut work_board,
        deck,
        0,
        missing,
        &mut wins,
        &mut ties_fp,
        &mut scratch,
        &mut rank_scratch,
    );
    proof {
        assert forall|p: int| 0 <= p < num_players(players@) implies (#[trigger] wins@[p]) as int
            == sum_wins(players@, board@, deck@, 0, missing as int, p) by {
            assert(wins0[p] == 0);
            assert(wins@[p] == wins0[p] + sum_wins(players@, board@, deck@, 0, missing as int, p));
        }
        assert forall|p: int| 0 <= p < num_players(players@) implies (#[trigger] ties_fp@[p]) as int
            == sum_ties_fp(players@, board@, deck@, 0, missing as int, p) by {
            assert(ties0[p] == 0);
            assert(ties_fp@[p] == ties0[p] + sum_ties_fp(
                players@,
                board@,
                deck@,
                0,
                missing as int,
                p,
            ));
        }
        assert forall|p: int| 0 <= p < num_players(players@) implies (#[trigger] wins@[p]) as int
            * (TIE_SCALE as int) + ties_fp@[p] as int <= samples as int * (TIE_SCALE as int) by {
            lemma_player_share_bound(players@, board@, deck@, 0, missing as int, p);
        }
    }
    EquityCounts { wins, ties_fp, samples }
}

/// Preflop equity: both hole cards known, all five board cards missing.
pub fn calculate_preflop_equity(players: &Vec<Card>, deck: &Vec<Card>) -> (res: EquityCounts)
    requires
        players@.len() % 2 == 0,
        1 <= num_players(players@) <= 9,
        5 <= deck@.len() <= 52,
        valid_cards(players@),
        valid_cards(deck@),
    ensures
        res.wins@.len() == num_players(players@),
        res.ties_fp@.len() == num_players(players@),
        forall|p: int|
            0 <= p < num_players(players@) ==> (#[trigger] res.wins@[p]) as int == sum_wins(
                players@,
                Seq::<Card>::empty(),
                deck@,
                0,
                5,
                p,
            ),
        forall|p: int|
            0 <= p < num_players(players@) ==> (#[trigger] res.ties_fp@[p]) as int == sum_ties_fp(
                players@,
                Seq::<Card>::empty(),
                deck@,
                0,
                5,
                p,
            ),
        res.samples as int == binom(deck@.len() as int, 5),
        forall|p: int|
            0 <= p < num_players(players@) ==> (#[trigger] res.wins@[p]) as int * (TIE_SCALE as int)
                + res.ties_fp@[p] as int <= res.samples as int * (TIE_SCALE as int),
{
    let empty_board: Vec<Card> = Vec::new();
    proof {
        assert(empty_board@ =~= Seq::<Card>::empty());
    }
    calculate_equity(players, &empty_board, 5, deck)
}

} // verus!
