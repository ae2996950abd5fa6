//! Two-player turn analysis: with four board cards known, classify every
//! candidate river card as a hero win, a tie, or a loss, refine winning
//! and tying rivers into draw-completion categories, and suppress the
//! outs report when the spot is already lopsided.

use vstd::prelude::*;

use crate::card::{
    count_suit, distinct_cards, lemma_counts_take_step, lemma_valid_concat, lemma_valid_subrange,
    valid_card, valid_cards, Card,
};
use crate::eval::evaluate_cards;
use crate::hand_spec::{lemma_hand_rank_wf, spec_category, spec_hand_rank};
use crate::rank::{lemma_encode_category_extract, HandRank};

verus! {

/// One river card that wins or ties for the hero, with its improvement
/// category: 0..=9 are plain hand categories; 10 flush-draw completion,
/// 11 straight-draw completion, 12 pair improvement, 13 two-pair
/// improvement, 14 set improvement.
#[derive(Copy, Clone, Debug, PartialEq, Eq, Structural)]
pub struct OutEntry {
    pub card: Card,
    pub category: u8,
}

/// Why the outs report was suppressed.
#[derive(Copy, Clone, Debug, PartialEq, Eq, Structural)]
pub enum SuppressReason {
    /// The tie probability reached the tie threshold.
    HighTie,
    /// The win probability reached the win threshold.
    HighWin,
}

/// Which boundary check failed.
#[derive(Copy, Clone, Debug, PartialEq, Eq, Structural)]
pub enum TurnOutsError {
    /// The hero must hold exactly two cards.
    HeroCardCount,
    /// The villain must hold exactly two cards.
    VillainCardCount,
    /// The board must hold exactly four cards.
    BoardCardCount,
}

/// Suppression thresholds as exact rationals: the report is suppressed
/// when ties/total >= tie_num/tie_den or wins/total >= win_num/win_den.
pub struct OutsPolicy {
    pub tie_num: u64,
    pub tie_den: u64,
    pub win_num: u64,
    pub win_den: u64,
}

/// Threshold fractions must have nonzero denominators and stay small
/// enough that the cross multiplications cannot overflow.
pub open spec fn valid_policy(p: OutsPolicy) -> bool {
    1 <= p.tie_den <= 1_000_000 && p.tie_num <= 1_000_000 && 1 <= p.win_den <= 1_000_000
        && p.win_num <= 1_000_000
}

/// The default policy: suppress at tie probability 1/2 or win
/// probability 9/20.
pub fn default_outs_policy() -> (p: OutsPolicy)
    ensures
        p.tie_num == 1 && p.tie_den == 2 && p.win_num == 9 && p.win_den == 20,
        valid_policy(p),
{
    OutsPolicy { tie_num: 1, tie_den: 2, win_num: 9, win_den: 20 }
}

/// Integer counts and the classified river cards of one turn analysis.
/// Probabilities are the counts divided by `total`.
#[derive(Debug)]
pub struct TurnOutsResult {
    /// Rivers on which the hero's hand beats the villain's.
    pub wins: u64,
    /// Rivers on which both best hands tie.
    pub ties: u64,
    /// Rivers on which the villain's hand beats the hero's.
    pub loses: u64,
    /// Number of candidate river cards examined.
    pub total: u64,
    /// Set when the suppression policy fired; the outs lists are then empty.
    pub suppressed: Option<SuppressReason>,
    pub win_outs: Vec<OutEntry>,
    pub tie_outs: Vec<OutEntry>,
}

/// The deck card at position `i` of the fixed 52-card order:
/// ranks 2..=14 outermost, suits 0..=3 within each rank.
pub open spec fn card_at(i: int) -> Card {
    Card { rank: (2 + i / 4) as u8, suit: (i % 4) as u8 }
}

/// The deck cards from position `i` on that are not among `known`,
/// in deck order.
pub open spec fn remaining_from(known: Seq<Card>, i: int) -> Seq<Card>
    decreases 52 - i,
{
    if i < 0 || i >= 52 {
        Seq::empty()
    } else if known.contains(card_at(i)) {
        remaining_from(known, i + 1)
    } else {
        seq![card_at(i)] + remaining_from(known, i + 1)
    }
}

/// The undealt deck: all 52 cards minus the known ones.
pub open spec fn remaining_deck(known: Seq<Card>) -> Seq<Card> {
    remaining_from(known, 0)
}

/// Every remaining card is a well-formed card outside the known set.
pub proof fn lemma_remaining_elements(known: Seq<Card>, i: int)
    ensures
        remaining_from(known, i).len() <= 52,
        0 <= i <= 52 ==> remaining_from(known, i).len() <= 52 - i,
        forall|j: int|
            0 <= j < remaining_from(known, i).len() ==> valid_card(
                #[trigger] remaining_from(known, i)[j],
            ) && !known.contains(remaining_from(known, i)[j]),
    decreases 52 - i,
{
    if 0 <= i < 52 {
        lemma_remaining_elements(known, i + 1);
        if !known.contains(card_at(i)) {
            assert(valid_card(card_at(i)));
            assert forall|j: int| 0 <= j < remaining_from(known, i).len() implies valid_card(
                #[trigger] remaining_from(known, i)[j],
            ) && !known.contains(remaining_from(known, i)[j]) by {
                if j > 0 {
                    assert(remaining_from(known, i)[j] == remaining_from(known, i + 1)[j - 1]);
                }
            }
        }
    }
}

/// Hero's (or villain's) hand rank after a candidate river card.
pub open spec fn river_rank(hole: Seq<Card>, board4: Seq<Card>, c: Card) -> int {
    spec_hand_rank(hole + board4.push(c))
}

/// Outcome of one river for the hero: 0 win, 1 tie, 2 loss.
pub open spec fn river_outcome(hero: Seq<Card>, villain: Seq<Card>, board4: Seq<Card>, c: Card) -> int {
    let h = river_rank(hero, board4, c);
    let v = river_rank(villain, board4, c);
    if h > v {
        0
    } else if h == v {
        1
    } else {
        2
    }
}

/// The refined improvement category of a winning or tying river card.
/// Full house or better is reported as is; a flush that reaches three
/// cards of the river's suit on board-plus-river is a flush-draw
/// completion; a straight is a straight-draw completion; trips pairing a
/// hole card are a set improvement; two pair and pair report their
/// improvement codes.
pub open spec fn spec_out_category(hero: Seq<Card>, board4: Seq<Card>, c: Card) -> int {
    let cat = spec_category(hero + board4.push(c));
    if cat >= 6 {
        cat
    } else if cat == 5 {
        if count_suit(board4.push(c), c.suit as int) >= 3 {
            10
        } else {
            5
        }
    } else if cat == 4 {
        11
    } else if cat == 3 {
        if c.rank == hero[0].rank || c.rank == hero[1].rank {
            14
        } else {
            3
        }
    } else if cat == 2 {
        13
    } else if cat == 1 {
        12
    } else {
        cat
    }
}

/// How many rivers among `ds` give outcome `o` for the hero.
pub open spec fn count_outcome(
    hero: Seq<Card>,
    villain: Seq<Card>,
    board4: Seq<Card>,
    ds: Seq<Card>,
    o: int,
) -> int
    decreases ds.len(),
{
    if ds.len() == 0 {
        0
    } else {
        count_outcome(hero, villain, board4, ds.drop_last(), o) + if river_outcome(
            hero,
            villain,
            board4,
            ds.last(),
        ) == o {
            1int
        } else {
            0int
        }
    }
}

/// The rivers among `ds` with outcome `o`, in deck order, each with its
/// improvement category.
pub open spec fn outs_list(
    hero: Seq<Card>,
    villain: Seq<Card>,
    board4: Seq<Card>,
    ds: Seq<Card>,
    o: int,
) -> Seq<OutEntry>
    decreases ds.len(),
{
    if ds.len() == 0 {
        Seq::empty()
    } else {
        outs_list(hero, villain, board4, ds.drop_last(), o) + if river_outcome(
            hero,
            villain,
            board4,
            ds.last(),
        ) == o {
            seq![
                OutEntry {
                    card: ds.last(),
                    category: spec_out_category(hero, board4, ds.last()) as u8,
                },
            ]
        } else {
            Seq::empty()
        }
    }
}

/// Extending the examined prefix by one river extends the counts and the
/// outs lists by that river's contribution.
pub proof fn lemma_outcome_take_step(
    hero: Seq<Card>,
    villain: Seq<Card>,
    board4: Seq<Card>,
    ds: Seq<Card>,
    i: int,
    o: int,
)
    requires
        0 <= i < ds.len(),
    ensures
        count_outcome(hero, villain, board4, ds.take(i + 1), o) == count_outcome(
            hero,
            villain,
            board4,
            ds.take(i),
            o,
        ) + if river_outcome(hero, villain, board4, ds[i]) == o {
            1int
        } else {
            0int
        },
        outs_list(hero, villain, board4, ds.take(i + 1), o) == outs_list(
            hero,
            villain,
            board4,
            ds.take(i),
            o,
        ) + if river_outcome(hero, villain, board4, ds[i]) == o {
            seq![
                OutEntry { card: ds[i], category: spec_out_category(hero, board4, ds[i]) as u8 },
            ]
        } else {
            Seq::<OutEntry>::empty()
        },
{
    assert(ds.take(i + 1).drop_last() =~= ds.take(i));
    assert(ds.take(i + 1).last() == ds[i]);
    if river_outcome(hero, villain, board4, ds[i]) != o {
        assert(outs_list(hero, villain, board4, ds.take(i + 1), o) =~= outs_list(
            hero,
            villain,
            board4,
            ds.take(i),
            o,
        ) + Seq::<OutEntry>::empty());
    }
}

/// Every river is exactly one of win, tie, loss.
pub proof fn lemma_outcome_partition(hero: Seq<Card>, villain: Seq<Card>, board4: Seq<Card>, ds: Seq<Card>)
    ensures
        count_outcome(hero, villain, board4, ds, 0) + count_outcome(hero, villain, board4, ds, 1)
            + count_outcome(hero, villain, board4, ds, 2) == ds.len(),
    decreases ds.len(),
{
    if ds.len() > 0 {
        lemma_outcome_partition(hero, villain, board4, ds.drop_last());
    }
}

/// Does `cards` hold the card `c`?
fn contains_card(cards: &Vec<Card>, c: Card) -> (b: bool)
    ensures
        b == cards@.contains(c),
{
    let mut i: usize = 0;
    while i < cards.len()
        invariant
            i <= cards@.len(),
            forall|j: int| 0 <= j < i ==> cards@[j] != c,
        decreases cards@.len() - i,
    {
        if cards[i] == c {
            return true;
        }
        i = i + 1;
    }
    assert(!cards@.contains(c));
    false
}

/// Classify what kind of improvement a winning or tying river card gives
/// the hero, from the hero's evaluated hand rank on that river.
pub fn categorize_out_detailed(
    hero_hole: &[Card; 2],
    board_4: &[Card; 4],
    river_card: Card,
    hero_rank_after: HandRank,
) -> (cat: u8)
    requires
        hero_rank_after as int == spec_hand_rank(hero_hole@ + board_4@.push(river_card)),
    ensures
        cat as int == spec_out_category(hero_hole@, board_4@, river_card),
{
    let ghost seven = hero_hole@ + board_4@.push(river_card);
    let category_after = (hero_rank_after >> 56) as u8;
    proof {
        lemma_hand_rank_wf(seven);
        lemma_encode_category_extract(spec_category(seven), crate::hand_spec::spec_tiebreaks(seven));
        vstd::bits::lemma_u64_shr_is_div(hero_rank_after, 56);
        vstd::arithmetic::power2::lemma2_to64();
        vstd::arithmetic::power2::lemma2_to64_rest();
        assert(category_after as int == spec_category(seven));
    }
    if category_after >= 6 {
        // full house or better: reported as is
        return category_after;
    }
    if category_after == 5 {
        // flush: a draw completion when the river's suit reaches three
        // cards among board plus river
        let mut suit_count: u8 = 1;
        let mut i: usize = 0;
        while i < 4
            invariant
                i <= 4,
                suit_count as int == 1 + count_suit(board_4@.take(i as int), river_card.suit as int),
                suit_count <= 5,
        decreases 4 - i,
        {
            proof {
                lemma_counts_take_step(board_4@, i as int, 0, river_card.suit as int);
                crate::card::lemma_count_suit_bounds(
                    board_4@.take(i as int),
                    river_card.suit as int,
                );
            }
            if board_4[i].suit == river_card.suit {
                suit_count = suit_count + 1;
            }
            i = i + 1;
        }
        proof {
            assert(board_4@.take(4) =~= board_4@);
            assert((board_4@.push(river_card)).drop_last() =~= board_4@);
            assert(count_suit(board_4@.push(river_card), river_card.suit as int) == count_suit(
                board_4@,
                river_card.suit as int,
            ) + 1);
        }
        if suit_count >= 3 {
            return 10;
        }
        return 5;
    }
    if category_after == 4 {
        // straight: a draw completion
        return 11;
    }
    if category_after == 3 {
        // trips: a set improvement when the river pairs a hole card
        if river_card.rank == hero_hole[0].rank || river_card.rank == hero_hole[1].rank {
            return 14;
        }
        return 3;
    }
    if category_after == 2 {
        return 13;
    }
    if category_after == 1 {
        return 12;
    }
    category_after
}

/// Two-player turn outs under a caller-chosen suppression policy.
///
/// Checks the hand and board sizes, enumerates every candidate river,
/// counts hero wins / ties / losses, classifies the winning and tying
/// rivers, and suppresses the outs lists when a threshold fires.
pub fn compute_turn_outs_with_policy(
    hero: &Vec<Card>,
    villain: &Vec<Card>,
    board: &Vec<Card>,
    policy: &OutsPolicy,
) -> (r: Result<TurnOutsResult, TurnOutsError>)
    requires
        valid_cards(hero@ + villain@ + board@),
        distinct_cards(hero@ + villain@ + board@),
        valid_policy(*policy),
    ensures
        match r {
            Result::Err(e) => (hero@.len() != 2 || villain@.len() != 2 || board@.len() != 4) && (e
                == TurnOutsError::HeroCardCount <==> hero@.len() != 2) && (e
                == TurnOutsError::VillainCardCount <==> hero@.len() == 2 && villain@.len() != 2) && (
            e == TurnOutsError::BoardCardCount <==> hero@.len() == 2 && villain@.len() == 2
                && board@.len() != 4),
            Result::Ok(res) => {
                let ds = remaining_deck(hero@ + villain@ + board@);
                let w = count_outcome(hero@, villain@, board@, ds, 0);
                let t = count_outcome(hero@, villain@, board@, ds, 1);
                &&& hero@.len() == 2
                &&& villain@.len() == 2
                &&& board@.len() == 4
                &&& res.total == ds.len()
                &&& res.wins == w
                &&& res.ties == t
                &&& res.loses == count_outcome(hero@, villain@, board@, ds, 2)
                &&& res.wins + res.ties + res.loses == res.total
                &&& res.suppressed == (if t * policy.tie_den >= ds.len() * policy.tie_num {
                    Option::Some(SuppressReason::HighTie)
                } else if w * policy.win_den >= ds.len() * policy.win_num {
                    Option::Some(SuppressReason::HighWin)
                } else {
                    Option::None
                })
                &&& (res.suppressed is Some ==> res.win_outs@ =~= Seq::<OutEntry>::empty()
                    && res.tie_outs@ =~= Seq::<OutEntry>::empty())
                &&& (res.suppressed is None ==> res.win_outs@ == outs_list(
                    hero@,
                    villain@,
                    board@,
                    ds,
                    0,
                ) && res.tie_outs@ == outs_list(hero@, villain@, board@, ds, 1))
            },
        },
{
    if hero.len() != 2 {
        return Result::Err(TurnOutsError::HeroCardCount);
    }
    if villain.len() != 2 {
        return Result::Err(TurnOutsError::VillainCardCount);
    }
    if board.len() != 4 {
        return Result::Err(TurnOutsError::BoardCardCount);
    }
    let ghost hs = hero@;
    let ghost vs = villain@;
    let ghost bs = board@;
    let ghost ks = hs + vs + bs;

    // All eight known cards.
    let mut known: Vec<Card> = Vec::with_capacity(8);
    known.push(hero[0]);
    known.push(hero[1]);
    known.push(villain[0]);
    known.push(villain[1]);
    known.push(board[0]);
    known.push(board[1]);
    known.push(board[2]);
    known.push(board[3]);
    proof {
        assert(known@ =~= ks);
    }

    // The undealt deck: the 52 cards minus the known ones, in deck order.
    let mut deck: Vec<Card> = Vec::with_capacity(44);
    let mut i: usize = 0;
    while i < 52
        invariant
            i <= 52,
            known@ == ks,
            remaining_deck(ks) =~= deck@ + remaining_from(ks, i as int),
        decreases 52 - i,
    {
        let r: u8 = (2 + i / 4) as u8;
        let s: u8 = (i % 4) as u8;
        let c = Card { rank: r, suit: s };
        proof {
            assert(c == card_at(i as int));
        }
        let ghost deck0 = deck@;
        if !contains_card(&known, c) {
            deck.push(c);
            proof {
                assert(remaining_from(ks, i as int) =~= seq![c] + remaining_from(
                    ks,
                    i as int + 1,
                ));
                assert(deck0 + remaining_from(ks, i as int) =~= deck@ + remaining_from(
                    ks,
                    i as int + 1,
                ));
            }
        }
        i = i + 1;
    }
    proof {
        assert(remaining_from(ks, 52) =~= Seq::<Card>::empty());
        assert(deck@ =~= remaining_deck(ks));
        lemma_remaining_elements(ks, 0);
        lemma_valid_subrange(ks, 0, 2);
        assert(hs =~= ks.subrange(0, 2));
        lemma_valid_subrange(ks, 2, 4);
        assert(vs =~= ks.subrange(2, 4));
        lemma_valid_subrange(ks, 4, 8);
        assert(bs =~= ks.subrange(4, 8));
    }

    let hole_arr: [Card; 2] = [hero[0], hero[1]];
    let villain_arr: [Card; 2] = [villain[0], villain[1]];
    let board_arr: [Card; 4] = [board[0], board[1], board[2], board[3]];
    proof {
        assert(hole_arr@ =~= hs);
        assert(villain_arr@ =~= vs);
        assert(board_arr@ =~= bs);
    }

    let n = deck.len();
    let mut wins: u64 = 0;
    let mut ties: u64 = 0;
    let mut loses: u64 = 0;
    let mut win_outs: Vec<OutEntry> = Vec::new();
    let mut tie_outs: Vec<OutEntry> = Vec::new();
    let mut scratch: Vec<Card> = Vec::with_capacity(7);
    let mut j: usize = 0;
    while j < n
        invariant
            j <= n,
            n == deck@.len() <= 52,
            deck@ == remaining_deck(ks),
            ks == hs + vs + bs,
            hs == hero@,
            vs == villain@,
            bs == board@,
            hs.len() == 2,
            vs.len() == 2,
            bs.len() == 4,
            valid_cards(hs),
            valid_cards(vs),
            valid_cards(bs),
            forall|q: int|
                0 <= q < deck@.len() ==> valid_card(#[trigger] deck@[q]) && !ks.contains(deck@[q]),
            hole_arr@ == hs,
            villain_arr@ == vs,
            board_arr@ == bs,
            wins as int == count_outcome(hs, vs, bs, deck@.take(j as int), 0),
            ties as int == count_outcome(hs, vs, bs, deck@.take(j as int), 1),
            loses as int == count_outcome(hs, vs, bs, deck@.take(j as int), 2),
            wins as int + ties as int + loses as int <= j,
            win_outs@ == outs_list(hs, vs, bs, deck@.take(j as int), 0),
            tie_outs@ == outs_list(hs, vs, bs, deck@.take(j as int), 1),
        decreases n - j,
    {
        let c = deck[j];

        scratch.clear();
        scratch.push(hole_arr[0]);
        scratch.push(hole_arr[1]);
        scratch.push(board_arr[0]);
        scratch.push(board_arr[1]);
        scratch.push(board_arr[2]);
        scratch.push(board_arr[3]);
        scratch.push(c);
        proof {
            assert(scratch@ =~= hs + bs.push(c));
            lemma_valid_concat(hs, bs.push(c));
            assert(valid_cards(bs.push(c))) by {
                lemma_valid_concat(bs, seq![c]);
                assert(bs.push(c) =~= bs + seq![c]);
            }
        }
        let hero_rank = evaluate_cards(&scratch);

        scratch.clear();
        scratch.push(villain_arr[0]);
        scratch.push(villain_arr[1]);
        scratch.push(board_arr[0]);
        scratch.push(board_arr[1]);
        scratch.push(board_arr[2]);
        scratch.push(board_arr[3]);
        scratch.push(c);
        proof {
            assert(scratch@ =~= vs + bs.push(c));
            lemma_valid_concat(vs, bs.push(c));
            assert(valid_cards(bs.push(c))) by {
                lemma_valid_concat(bs, seq![c]);
                assert(bs.push(c) =~= bs + seq![c]);
            }
        }
        let villain_rank = evaluate_cards(&scratch);

        proof {
            lemma_outcome_take_step(hs, vs, bs, deck@, j as int, 0);
            lemma_outcome_take_step(hs, vs, bs, deck@, j as int, 1);
            lemma_outcome_take_step(hs, vs, bs, deck@, j as int, 2);
        }
        if hero_rank > villain_rank {
            let category = categorize_out_detailed(&hole_arr, &board_arr, c, hero_rank);
            win_outs.push(OutEntry { card: c, category });
            wins = wins + 1;
        } else if hero_rank == villain_rank {
            let category = categorize_out_detailed(&hole_arr, &board_arr, c, hero_rank);
            tie_outs.push(OutEntry { card: c, category });
            ties = ties + 1;
        } else {
            loses = loses + 1;
        }
        j = j + 1;
    }
    proof {
        assert(deck@.take(n as int) =~= deck@);
        lemma_outcome_partition(hs, vs, bs, deck@);
    }

    // Suppression policy, as exact rational comparisons.
    let total: u64 = n as u64;
    proof {
        crate::binom::lemma_mul_le(ties as int, 52, policy.tie_den as int, 1_000_000);
        crate::binom::lemma_mul_le(total as int, 52, policy.tie_num as int, 1_000_000);
        crate::binom::lemma_mul_le(wins as int, 52, policy.win_den as int, 1_000_000);
        crate::binom::lemma_mul_le(total as int, 52, policy.win_num as int, 1_000_000);
    }
    let suppressed: Option<SuppressReason> = if ties * policy.tie_den >= total * policy.tie_num {
        Option::Some(SuppressReason::HighTie)
    } else if wins * policy.win_den >= total * policy.win_num {
        Option::Some(SuppressReason::HighWin)
    } else {
        Option::None
    };

    let is_suppressed = match suppressed {
        Option::Some(_) => true,
        Option::None => false,
    };
    let result = TurnOutsResult {
        wins,
        ties,
        loses,
        total,
        suppressed,
        win_outs: if is_suppressed {
            Vec::new()
        } else {
            win_outs
        },
        tie_outs: if is_suppressed {
            Vec::new()
        } else {
            tie_outs
        },
    };
    Result::Ok(result)
}

/// Two-player turn outs under the default suppression policy.
pub fn compute_turn_outs(hero: &Vec<Card>, villain: &Vec<Card>, board: &Vec<Card>) -> (r: Result<
    TurnOutsResult,
    TurnOutsError,
>)
    requires
        valid_cards(hero@ + villain@ + board@),
        distinct_cards(hero@ + villain@ + board@),
    ensures
        match r {
            Result::Err(e) => (hero@.len() != 2 || villain@.len() != 2 || board@.len() != 4) && (e
                == TurnOutsError::HeroCardCount <==> hero@.len() != 2) && (e
                == TurnOutsError::VillainCardCount <==> hero@.len() == 2 && villain@.len() != 2) && (
            e == TurnOutsError::BoardCardCount <==> hero@.len() == 2 && villain@.len() == 2
                && board@.len() != 4),
            Result::Ok(res) => {
                let ds = remaining_deck(hero@ + villain@ + board@);
                let w = count_outcome(hero@, villain@, board@, ds, 0);
                let t = count_outcome(hero@, villain@, board@, ds, 1);
                &&& hero@.len() == 2
                &&& villain@.len() == 2
                &&& board@.len() == 4
                &&& res.total == ds.len()
                &&& res.wins == w
                &&& res.ties == t
                &&& res.loses == count_outcome(hero@, villain@, board@, ds, 2)
                &&& res.wins + res.ties + res.loses == res.total
                &&& res.suppressed == (if 2 * t >= ds.len() {
                    Option::Some(SuppressReason::HighTie)
                } else if 20 * w >= 9 * ds.len() {
                    Option::Some(SuppressReason::HighWin)
                } else {
                    Option::None
                })
                &&& (res.suppressed is Some ==> res.win_outs@ =~= Seq::<OutEntry>::empty()
                    && res.tie_outs@ =~= Seq::<OutEntry>::empty())
                &&& (res.suppressed is None ==> res.win_outs@ == outs_list(
                    hero@,
                    villain@,
                    board@,
                    ds,
                    0,
                ) && res.tie_outs@ == outs_list(hero@, villain@, board@, ds, 1))
            },
        },
{
    let policy = default_outs_policy();
    compute_turn_outs_with_policy(hero, villain, board, &policy)
}

} // verus!
