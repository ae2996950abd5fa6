//! The seven-card evaluator: one scenario per category, the special
//! cases, and the differential check against the 21-subset oracle.

use holdem_equity::card::Card;
use holdem_equity::eval::evaluate_7_card_hand;
use holdem_equity::oracle::best_five_of_seven;
use holdem_equity::rank::encode_hand_rank;

fn c(rank: u8, suit: u8) -> Card {
    Card { rank, suit }
}

// suits: 0 = clubs, 1 = diamonds, 2 = hearts, 3 = spades

#[test]
fn royal_flush_tie_across_suits() {
    // spades royal vs hearts royal on disjoint card sets: both category 9
    // with no tiebreaks, and exactly equal
    let spades = evaluate_7_card_hand(
        &[c(14, 3), c(13, 3)],
        &[c(12, 3), c(11, 3), c(10, 3), c(3, 1), c(4, 0)],
    );
    let hearts = evaluate_7_card_hand(
        &[c(14, 2), c(13, 2)],
        &[c(12, 2), c(11, 2), c(10, 2), c(3, 0), c(4, 1)],
    );
    assert_eq!(spades, encode_hand_rank(9, &[]));
    assert_eq!(hearts, encode_hand_rank(9, &[]));
    assert_eq!(spades, hearts);
}

#[test]
fn wheel_straight_reports_five_high() {
    // A-2-3-4-5 of mixed suits: a straight with high card 5, not 14
    let r = evaluate_7_card_hand(
        &[c(14, 2), c(2, 0)],
        &[c(3, 1), c(4, 3), c(5, 2), c(9, 0), c(11, 1)],
    );
    assert_eq!(r, encode_hand_rank(4, &[5]));
}

#[test]
fn straight_flush_high_card() {
    let r = evaluate_7_card_hand(
        &[c(5, 3), c(6, 3)],
        &[c(7, 3), c(8, 3), c(9, 3), c(2, 0), c(13, 2)],
    );
    assert_eq!(r, encode_hand_rank(8, &[9]));
}

#[test]
fn four_of_a_kind_with_kicker() {
    let r = evaluate_7_card_hand(
        &[c(14, 0), c(14, 1)],
        &[c(14, 2), c(14, 3), c(13, 0), c(2, 1), c(3, 2)],
    );
    assert_eq!(r, encode_hand_rank(7, &[14, 13]));
}

#[test]
fn quads_take_best_kicker_from_trips() {
    // the kicker scan may pick a rank that appears three times
    let r = evaluate_7_card_hand(
        &[c(14, 0), c(14, 1)],
        &[c(14, 2), c(14, 3), c(13, 0), c(13, 1), c(13, 2)],
    );
    assert_eq!(r, encode_hand_rank(7, &[14, 13]));
}

#[test]
fn full_house_two_triples_higher_is_the_triple() {
    // 333 222 7: the higher triple leads, the lower serves as the pair
    let r = evaluate_7_card_hand(
        &[c(3, 0), c(3, 1)],
        &[c(3, 2), c(2, 0), c(2, 1), c(2, 2), c(7, 3)],
    );
    assert_eq!(r, encode_hand_rank(6, &[3, 2]));
}

#[test]
fn flush_takes_top_five_suited_ranks() {
    let r = evaluate_7_card_hand(
        &[c(2, 2), c(5, 2)],
        &[c(9, 2), c(11, 2), c(13, 2), c(3, 0), c(4, 1)],
    );
    assert_eq!(r, encode_hand_rank(5, &[13, 11, 9, 5, 2]));
}

#[test]
fn flush_with_six_suited_cards_drops_the_lowest() {
    let r = evaluate_7_card_hand(
        &[c(2, 2), c(5, 2)],
        &[c(9, 2), c(11, 2), c(13, 2), c(6, 2), c(4, 1)],
    );
    assert_eq!(r, encode_hand_rank(5, &[13, 11, 9, 6, 5]));
}

#[test]
fn plain_straight_highest_window_wins() {
    // 5 6 7 8 9 T present: the straight is T-high
    let r = evaluate_7_card_hand(
        &[c(5, 0), c(6, 1)],
        &[c(7, 2), c(8, 3), c(9, 0), c(10, 1), c(2, 2)],
    );
    assert_eq!(r, encode_hand_rank(4, &[10]));
}

#[test]
fn three_of_a_kind_with_two_kickers() {
    let r = evaluate_7_card_hand(
        &[c(7, 0), c(7, 1)],
        &[c(7, 2), c(13, 3), c(9, 0), c(3, 1), c(2, 2)],
    );
    assert_eq!(r, encode_hand_rank(3, &[7, 13, 9]));
}

#[test]
fn two_pair_with_kicker() {
    let r = evaluate_7_card_hand(
        &[c(11, 0), c(11, 1)],
        &[c(4, 0), c(4, 1), c(9, 3), c(2, 2), c(3, 2)],
    );
    assert_eq!(r, encode_hand_rank(2, &[11, 4, 9]));
}

#[test]
fn three_pairs_keep_top_two_and_best_remaining_kicker() {
    // pairs J, 9, 4: the two best pairs play, the third pair's rank is
    // still eligible as the kicker but 4 loses to no higher card here
    let r = evaluate_7_card_hand(
        &[c(11, 0), c(11, 1)],
        &[c(4, 0), c(4, 1), c(9, 3), c(9, 2), c(2, 2)],
    );
    assert_eq!(r, encode_hand_rank(2, &[11, 9, 4]));
}

#[test]
fn one_pair_with_three_kickers() {
    let r = evaluate_7_card_hand(
        &[c(10, 0), c(10, 1)],
        &[c(2, 0), c(5, 1), c(7, 2), c(8, 3), c(13, 0)],
    );
    assert_eq!(r, encode_hand_rank(1, &[10, 13, 8, 7]));
}

#[test]
fn high_card_takes_top_five_ranks() {
    let r = evaluate_7_card_hand(
        &[c(14, 0), c(3, 1)],
        &[c(5, 2), c(7, 3), c(9, 0), c(11, 1), c(12, 2)],
    );
    assert_eq!(r, encode_hand_rank(0, &[14, 12, 11, 9, 7]));
}

#[test]
fn royal_needs_the_flush_suit() {
    // A K Q J T present but scattered over suits, hearts make a plain flush
    let r = evaluate_7_card_hand(
        &[c(14, 3), c(13, 2)],
        &[c(12, 2), c(11, 2), c(10, 2), c(2, 2), c(5, 0)],
    );
    // hearts flush K Q J T 2, not a royal and not a straight flush
    assert_eq!(r, encode_hand_rank(5, &[13, 12, 11, 10, 2]));
}

fn pool_differential(pool: &[Card]) {
    // every 7-card subset of the pool: direct evaluation must equal the
    // best of the 21 five-card subsets
    let n = pool.len();
    for a in 0..n {
        for b in (a + 1)..n {
            for cc in (b + 1)..n {
                for d in (cc + 1)..n {
                    for e in (d + 1)..n {
                        for f in (e + 1)..n {
                            for g in (f + 1)..n {
                                let hole = [pool[a], pool[b]];
                                let board = [pool[cc], pool[d], pool[e], pool[f], pool[g]];
                                let fast = evaluate_7_card_hand(&hole, &board);
                                let oracle = best_five_of_seven(&hole, &board);
                                assert_eq!(fast, oracle);
                            }
                        }
                    }
                }
            }
        }
    }
}

#[test]
fn differential_suited_and_connected_pool() {
    // straights, flushes, straight flushes, royals
    pool_differential(&[
        c(14, 3),
        c(13, 3),
        c(12, 3),
        c(11, 3),
        c(10, 3),
        c(9, 3),
        c(14, 2),
        c(13, 2),
        c(12, 2),
        c(11, 2),
    ]);
}

#[test]
fn differential_paired_pool() {
    // quads, full houses, trips, two pair
    pool_differential(&[
        c(2, 0),
        c(2, 1),
        c(2, 2),
        c(2, 3),
        c(3, 0),
        c(3, 1),
        c(3, 2),
        c(3, 3),
        c(4, 0),
        c(4, 1),
    ]);
}

#[test]
fn differential_mixed_pool() {
    // wheels and mixed shapes
    pool_differential(&[
        c(14, 0),
        c(2, 1),
        c(3, 2),
        c(4, 3),
        c(5, 0),
        c(6, 1),
        c(9, 2),
        c(9, 3),
        c(13, 0),
        c(13, 1),
    ]);
}
