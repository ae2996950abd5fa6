//! The turn-outs analyzer: boundary validation, classification of
//! winning rivers, and the suppression policy.

use holdem_equity::card::Card;
use holdem_equity::eval::evaluate_7_card_hand;
use holdem_equity::outs::{
    categorize_out_detailed, compute_turn_outs, compute_turn_outs_with_policy, OutsPolicy,
    SuppressReason, TurnOutsError,
};

fn c(rank: u8, suit: u8) -> Card {
    Card { rank, suit }
}

#[test]
fn hero_cardinality_is_checked_first() {
    let one_card: Vec<Card> = vec![c(14, 0)];
    let villain: Vec<Card> = vec![c(9, 0), c(9, 1)];
    let board: Vec<Card> = vec![c(12, 2), c(11, 2), c(7, 3), c(2, 0)];
    let r = compute_turn_outs(&one_card, &villain, &board);
    assert_eq!(r.unwrap_err(), TurnOutsError::HeroCardCount);
}

#[test]
fn villain_cardinality_error() {
    let hero: Vec<Card> = vec![c(14, 2), c(13, 2)];
    let villain: Vec<Card> = vec![c(9, 0)];
    let board: Vec<Card> = vec![c(12, 2), c(11, 2), c(7, 3), c(2, 0)];
    let r = compute_turn_outs(&hero, &villain, &board);
    assert_eq!(r.unwrap_err(), TurnOutsError::VillainCardCount);
}

#[test]
fn board_cardinality_error() {
    let hero: Vec<Card> = vec![c(14, 2), c(13, 2)];
    let villain: Vec<Card> = vec![c(9, 0), c(9, 1)];
    let board: Vec<Card> = vec![c(12, 2), c(11, 2), c(7, 3)];
    let r = compute_turn_outs(&hero, &villain, &board);
    assert_eq!(r.unwrap_err(), TurnOutsError::BoardCardCount);
}

#[test]
fn flush_draw_outs_are_classified() {
    // hero holds the nut flush draw and two overcards against a pair of
    // nines: 44 candidate rivers, 18 of them winning
    let hero: Vec<Card> = vec![c(14, 2), c(13, 2)];
    let villain: Vec<Card> = vec![c(9, 0), c(9, 1)];
    let board: Vec<Card> = vec![c(12, 2), c(11, 2), c(7, 3), c(2, 0)];
    let res = compute_turn_outs(&hero, &villain, &board).unwrap();

    assert_eq!(res.total, 44);
    assert_eq!(res.wins, 18);
    assert_eq!(res.ties, 0);
    assert_eq!(res.loses, 26);
    assert!(res.suppressed.is_none());
    assert_eq!(res.win_outs.len(), 18);
    assert_eq!(res.tie_outs.len(), 0);

    for out in &res.win_outs {
        let card = out.card;
        if card.rank == 10 && card.suit == 2 {
            // the ten of hearts completes a royal flush, reported as-is
            assert_eq!(out.category, 9, "river {:?}", card);
        } else if card.suit == 2 {
            // any other heart completes the flush draw
            assert_eq!(out.category, 10, "river {:?}", card);
        } else if card.rank == 10 {
            // an offsuit ten completes the broadway straight draw
            assert_eq!(out.category, 11, "river {:?}", card);
        } else {
            // offsuit aces and kings pair a hole card
            assert!(card.rank == 14 || card.rank == 13);
            assert_eq!(out.category, 12, "river {:?}", card);
        }
    }
    // all nine hearts are among the outs
    let hearts = res.win_outs.iter().filter(|o| o.card.suit == 2).count();
    assert_eq!(hearts, 9);
}

#[test]
fn set_improvement_is_detected() {
    // hero's pocket eights against an overpair of aces: only the two
    // remaining eights win, each by making a set
    let hero: Vec<Card> = vec![c(8, 0), c(8, 1)];
    let villain: Vec<Card> = vec![c(14, 3), c(14, 1)];
    let board: Vec<Card> = vec![c(2, 2), c(5, 3), c(9, 0), c(12, 1)];
    let res = compute_turn_outs(&hero, &villain, &board).unwrap();
    assert!(res.suppressed.is_none());
    assert_eq!(res.wins, 2);
    assert_eq!(res.win_outs.len(), 2);
    for out in &res.win_outs {
        assert_eq!(out.card.rank, 8);
        assert_eq!(out.category, 14);
    }
}

#[test]
fn nuts_suppress_the_outs_report() {
    // hero has an unbeatable royal flush: every river wins, the win
    // probability of 1.0 crosses the threshold, and the report is
    // suppressed with empty outs lists
    let hero: Vec<Card> = vec![c(10, 3), c(3, 1)];
    let villain: Vec<Card> = vec![c(8, 0), c(8, 1)];
    let board: Vec<Card> = vec![c(14, 3), c(13, 3), c(12, 3), c(11, 3)];
    let res = compute_turn_outs(&hero, &villain, &board).unwrap();

    assert_eq!(res.total, 44);
    assert_eq!(res.wins, 44);
    assert_eq!(res.suppressed, Some(SuppressReason::HighWin));
    assert!(res.win_outs.is_empty());
    assert!(res.tie_outs.is_empty());
    let baseline_win = res.wins as f64 / res.total as f64;
    assert_eq!(baseline_win, 1.0);
}

#[test]
fn symmetric_hands_suppress_on_ties() {
    // mirrored low offsuit hands under a one-suit broadway board: every
    // river splits, and the tie threshold fires before the win threshold
    let hero: Vec<Card> = vec![c(2, 0), c(3, 1)];
    let villain: Vec<Card> = vec![c(2, 1), c(3, 0)];
    let board: Vec<Card> = vec![c(14, 3), c(13, 3), c(12, 3), c(11, 3)];
    let res = compute_turn_outs(&hero, &villain, &board).unwrap();
    assert_eq!(res.total, 44);
    assert_eq!(res.ties, 44);
    assert_eq!(res.suppressed, Some(SuppressReason::HighTie));
    assert!(res.win_outs.is_empty());
    assert!(res.tie_outs.is_empty());
}

#[test]
fn made_flush_rivers_distinguish_draw_completion_from_plain_flush() {
    // hero already holds a made heart flush on the turn; rivers must be
    // classified as royal (as-is), flush-draw completion (a fourth board
    // heart), or plain flush (an offsuit river that completes nothing)
    let hero: Vec<Card> = vec![c(14, 2), c(13, 2)];
    let villain: Vec<Card> = vec![c(3, 0), c(3, 1)];
    let board: Vec<Card> = vec![c(12, 2), c(11, 2), c(9, 2), c(2, 0)];
    // hero always wins; lift the thresholds so nothing is suppressed
    let open = OutsPolicy { tie_num: 2, tie_den: 1, win_num: 2, win_den: 1 };
    let res = compute_turn_outs_with_policy(&hero, &villain, &board, &open).unwrap();
    assert_eq!(res.total, 44);
    assert_eq!(res.wins, 44);
    assert!(res.suppressed.is_none());
    assert_eq!(res.win_outs.len(), 44);
    for out in &res.win_outs {
        let card = out.card;
        if card.rank == 10 && card.suit == 2 {
            // the ten of hearts upgrades the flush to a royal
            assert_eq!(out.category, 9, "river {:?}", card);
        } else if card.suit == 2 {
            // a fourth board heart reads as a completed flush draw
            assert_eq!(out.category, 10, "river {:?}", card);
        } else {
            // the flush was already made: a plain flush, no draw completed
            assert_eq!(out.category, 5, "river {:?}", card);
        }
    }
}

#[test]
fn categorize_reads_the_evaluated_hand() {
    // a river eight pairs a hole card into a set
    let hole = [c(8, 0), c(8, 1)];
    let board4 = [c(2, 2), c(5, 3), c(9, 0), c(12, 1)];
    let river = c(8, 2);
    let rank = evaluate_7_card_hand(
        &hole,
        &[board4[0], board4[1], board4[2], board4[3], river],
    );
    assert_eq!(categorize_out_detailed(&hole, &board4, river, rank), 14);

    // a river two makes trips from the board pair side: plain trips
    let hole2 = [c(14, 0), c(13, 1)];
    let board42 = [c(2, 2), c(2, 1), c(9, 0), c(12, 1)];
    let river2 = c(2, 3);
    let rank2 = evaluate_7_card_hand(
        &hole2,
        &[board42[0], board42[1], board42[2], board42[3], river2],
    );
    assert_eq!(categorize_out_detailed(&hole2, &board42, river2, rank2), 3);
}

#[test]
fn policy_thresholds_are_overridable() {
    // the flush-draw spot is not suppressed by default, but a stricter
    // win threshold of 1/10 suppresses it
    let hero: Vec<Card> = vec![c(14, 2), c(13, 2)];
    let villain: Vec<Card> = vec![c(9, 0), c(9, 1)];
    let board: Vec<Card> = vec![c(12, 2), c(11, 2), c(7, 3), c(2, 0)];
    let strict = OutsPolicy { tie_num: 1, tie_den: 2, win_num: 1, win_den: 10 };
    let res = compute_turn_outs_with_policy(&hero, &villain, &board, &strict).unwrap();
    assert_eq!(res.wins, 18);
    assert_eq!(res.suppressed, Some(SuppressReason::HighWin));
    assert!(res.win_outs.is_empty());
}
