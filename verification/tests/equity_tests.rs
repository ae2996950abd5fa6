//! The equity aggregator: degenerate boards, small exact enumerations,
//! a cross-check against the enumerator and evaluator, and the full
//! preflop pocket-pair enumeration.

use holdem_equity::card::Card;
use holdem_equity::combos::combinations;
use holdem_equity::equity::{calculate_equity, calculate_preflop_equity, TIE_SCALE};
use holdem_equity::eval::evaluate_7_card_hand;

fn c(rank: u8, suit: u8) -> Card {
    Card { rank, suit }
}

/// The 52-card deck minus the given cards.
fn deck_without(known: &[Card]) -> Vec<Card> {
    let mut deck = Vec::new();
    for rank in 2..=14u8 {
        for suit in 0..4u8 {
            let card = c(rank, suit);
            if !known.contains(&card) {
                deck.push(card);
            }
        }
    }
    deck
}

#[test]
fn deterministic_tie_on_board_straight_flush() {
    // the board alone is a straight flush neither pocket pair improves:
    // one completion, no winner, a half tie share each
    let players: Vec<Card> = vec![c(14, 2), c(14, 1), c(13, 2), c(13, 1)];
    let board: Vec<Card> = vec![c(6, 3), c(7, 3), c(8, 3), c(9, 3), c(10, 3)];
    let deck: Vec<Card> = Vec::new();
    let res = calculate_equity(&players, &board, 0, &deck);
    assert_eq!(res.samples, 1);
    assert_eq!(res.wins, vec![0, 0]);
    assert_eq!(res.ties_fp, vec![TIE_SCALE / 2, TIE_SCALE / 2]);
}

#[test]
fn single_river_exact_counts() {
    // aces against kings with one card to come from a three-card stub
    let players: Vec<Card> = vec![c(14, 3), c(14, 1), c(13, 3), c(13, 1)];
    let board: Vec<Card> = vec![c(12, 3), c(11, 3), c(10, 3), c(2, 0)];
    let deck: Vec<Card> = vec![c(14, 0), c(13, 0), c(2, 1)];
    // river Ac: kings make the ace-high straight and win;
    // river Kc: aces make the ace-high straight over trips and win;
    // river 2d: aces up beat kings up
    let res = calculate_equity(&players, &board, 1, &deck);
    assert_eq!(res.samples, 3);
    assert_eq!(res.wins, vec![2, 1]);
    assert_eq!(res.ties_fp, vec![0, 0]);
}

#[test]
fn split_pot_on_shared_straight() {
    // both players play the board's broadway straight on every completion
    let players: Vec<Card> = vec![c(2, 0), c(3, 0), c(2, 1), c(3, 1)];
    let board: Vec<Card> = vec![c(14, 3), c(13, 2), c(12, 1), c(11, 0), c(10, 3)];
    let deck: Vec<Card> = Vec::new();
    let res = calculate_equity(&players, &board, 0, &deck);
    assert_eq!(res.samples, 1);
    assert_eq!(res.wins, vec![0, 0]);
    assert_eq!(res.ties_fp, vec![TIE_SCALE / 2, TIE_SCALE / 2]);
}

#[test]
fn two_missing_cards_exact_counts() {
    // turn and river to come from a three-card stub: three completions
    let players: Vec<Card> = vec![c(14, 3), c(14, 1), c(13, 3), c(13, 1)];
    let board: Vec<Card> = vec![c(12, 3), c(11, 3), c(2, 0)];
    let deck: Vec<Card> = vec![c(14, 0), c(13, 0), c(3, 1)];
    // {Ac, Kc}: trips aces over trips kings; {Ac, 3d}: trips aces;
    // {Kc, 3d}: trips kings beat the aces
    let res = calculate_equity(&players, &board, 2, &deck);
    assert_eq!(res.samples, 3);
    assert_eq!(res.wins, vec![2, 1]);
    assert_eq!(res.ties_fp, vec![0, 0]);
}

#[test]
fn aggregator_matches_reference_tally() {
    // replay the aggregation by hand through the verified enumerator and
    // evaluator, and compare every counter
    let players: Vec<Card> = vec![c(14, 2), c(13, 2), c(9, 0), c(9, 1)];
    let board: Vec<Card> = vec![c(12, 2), c(11, 2), c(7, 3)];
    let deck: Vec<Card> = vec![
        c(10, 2),
        c(10, 0),
        c(9, 2),
        c(2, 0),
        c(2, 1),
        c(5, 3),
        c(14, 0),
        c(7, 0),
        c(7, 1),
        c(3, 2),
    ];
    let missing = 2usize;
    let res = calculate_equity(&players, &board, missing, &deck);

    let mut wins = vec![0u64; 2];
    let mut ties_fp = vec![0u64; 2];
    let combos = combinations(deck.len(), missing);
    for combo in &combos {
        let mut full = board.clone();
        for &i in combo {
            full.push(deck[i]);
        }
        let board5 = [full[0], full[1], full[2], full[3], full[4]];
        let r0 = evaluate_7_card_hand(&[players[0], players[1]], &board5);
        let r1 = evaluate_7_card_hand(&[players[2], players[3]], &board5);
        if r0 > r1 {
            wins[0] += 1;
        } else if r1 > r0 {
            wins[1] += 1;
        } else {
            ties_fp[0] += TIE_SCALE / 2;
            ties_fp[1] += TIE_SCALE / 2;
        }
    }
    assert_eq!(res.samples as usize, combos.len());
    assert_eq!(res.wins, wins);
    assert_eq!(res.ties_fp, ties_fp);
}

#[test]
fn three_way_tie_splits_into_thirds() {
    // three players all play the board: each gets a third of the
    // completion, as the fixed-point share 1_000_000 / 3
    let players: Vec<Card> = vec![c(2, 0), c(3, 0), c(2, 1), c(3, 1), c(2, 2), c(3, 2)];
    let board: Vec<Card> = vec![c(14, 3), c(13, 3), c(12, 3), c(11, 3), c(10, 3)];
    let deck: Vec<Card> = Vec::new();
    let res = calculate_equity(&players, &board, 0, &deck);
    assert_eq!(res.samples, 1);
    assert_eq!(res.wins, vec![0, 0, 0]);
    assert_eq!(res.ties_fp, vec![333_333, 333_333, 333_333]);
}

#[test]
fn reduced_preflop_enumeration_is_exhaustive_and_conserved() {
    // a cut-down deck keeps the enumeration fast while checking that
    // every completion hands out exactly one full share
    let players: Vec<Card> = vec![c(14, 3), c(14, 1), c(13, 3), c(13, 1)];
    let mut deck = Vec::new();
    for rank in 2..=9u8 {
        deck.push(c(rank, 0));
    }
    // C(8, 5) completions
    let res = calculate_preflop_equity(&players, &deck);
    assert_eq!(res.samples, 56);
    // per completion: one win or two half tie shares
    let win_sum = res.wins[0] + res.wins[1];
    let tie_sum = res.ties_fp[0] + res.ties_fp[1];
    assert_eq!(win_sum * TIE_SCALE + tie_sum, res.samples * TIE_SCALE);
}

#[test]
fn exhaustive_preflop_pocket_pairs() {
    // aces against kings over the full remaining deck: with four hole
    // cards dealt, 48 cards remain and there are exactly C(48, 5)
    // board completions
    let players: Vec<Card> = vec![c(14, 3), c(14, 1), c(13, 3), c(13, 1)];
    let deck = deck_without(&[c(14, 3), c(14, 1), c(13, 3), c(13, 1)]);
    assert_eq!(deck.len(), 48);
    let res = calculate_preflop_equity(&players, &deck);
    assert_eq!(res.samples, 1_712_304);

    // probabilities sum to one for each player
    let samples = res.samples as f64;
    for p in 0..2 {
        let win = res.wins[p] as f64 / samples;
        let tie = res.ties_fp[p] as f64 / TIE_SCALE as f64 / samples;
        let lose = 1.0 - win - tie;
        assert!(win >= 0.0 && tie >= 0.0 && lose >= 0.0);
        assert!((win + tie + lose - 1.0).abs() < 1e-9);
    }
    // the overpair is the clear favorite
    assert!(res.wins[0] > 4 * res.wins[1]);
    // every completion is accounted for
    let win_sum = res.wins[0] + res.wins[1];
    let tie_sum = res.ties_fp[0] + res.ties_fp[1];
    assert_eq!(win_sum * TIE_SCALE + tie_sum, res.samples * TIE_SCALE);
}
