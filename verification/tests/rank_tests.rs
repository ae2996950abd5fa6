//! Encoding and ordering of packed hand ranks.

use holdem_equity::rank::{compare_hand_ranks, encode_hand_rank, HandOrdering};

#[test]
fn encode_royal_flush_is_category_only() {
    // category 9, empty tiebreaks: just the category byte
    assert_eq!(encode_hand_rank(9, &[]), 9u64 << 56);
}

#[test]
fn encode_straight_packs_high_card() {
    assert_eq!(encode_hand_rank(4, &[5]), (4u64 << 56) | (5u64 << 48));
}

#[test]
fn encode_full_tiebreaks() {
    let r = encode_hand_rank(0, &[14, 12, 11, 9, 7]);
    let expected = (14u64 << 48) | (12u64 << 40) | (11u64 << 32) | (9u64 << 24) | (7u64 << 16);
    assert_eq!(r, expected);
}

#[test]
fn category_dominates_any_tiebreaks() {
    // the weakest possible flush still beats the strongest straight
    let weak_flush = encode_hand_rank(5, &[7, 5, 4, 3, 2]);
    let strong_straight = encode_hand_rank(4, &[14]);
    assert!(weak_flush > strong_straight);

    // and across every adjacent category pair
    for cat in 0..9u8 {
        let strong_low = encode_hand_rank(cat, &[14, 14, 14, 14, 14]);
        let weak_high = encode_hand_rank(cat + 1, &[]);
        assert!(weak_high > strong_low);
    }
}

#[test]
fn populated_slot_beats_absent_slot() {
    // same leading tiebreak; an extra populated slot must rank higher
    let with_kicker = encode_hand_rank(1, &[5, 3]);
    let without_kicker = encode_hand_rank(1, &[5]);
    assert!(with_kicker > without_kicker);
}

#[test]
fn tiebreaks_compare_lexicographically() {
    let a = encode_hand_rank(2, &[11, 9, 4]);
    let b = encode_hand_rank(2, &[11, 4, 14]);
    assert!(a > b);
}

#[test]
fn compare_is_reflexive_and_trichotomous() {
    let ranks = [
        encode_hand_rank(9, &[]),
        encode_hand_rank(4, &[5]),
        encode_hand_rank(0, &[14, 12, 11, 9, 7]),
        0u64,
        u64::MAX,
    ];
    for &a in ranks.iter() {
        assert_eq!(compare_hand_ranks(a, a), HandOrdering::Equal);
        for &b in ranks.iter() {
            let lt = compare_hand_ranks(a, b) == HandOrdering::Weaker;
            let eq = compare_hand_ranks(a, b) == HandOrdering::Equal;
            let gt = compare_hand_ranks(a, b) == HandOrdering::Stronger;
            // exactly one of the three holds
            assert_eq!(usize::from(lt) + usize::from(eq) + usize::from(gt), 1);
        }
    }
}
