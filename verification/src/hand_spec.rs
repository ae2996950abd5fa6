//! The mathematical model of hand evaluation.
//!
//! A hand's category and tiebreaks are defined directly over the card
//! multiset: rank counts decide pairs, trips and quads; per-suit counts
//! decide flushes; consecutive rank presence decides straights, with the
//! wheel (A-2-3-4-5) as the one special case. The ladder below is tested
//! strongest category first, exactly as the evaluator reports hands.

use vstd::prelude::*;

use crate::card::{count_rank, count_rank_suit, count_suit, valid_cards, Card};
use crate::rank::{encode_spec, lemma_category_dominance, lemma_encode_fits_u64, valid_category, valid_tiebreaks};

verus! {

/// Does rank `r` occur in `cs`, restricted to suit `suit`?
/// `suit == -1` means any suit.
pub open spec fn rank_here(cs: Seq<Card>, r: int, suit: int) -> bool {
    if suit < 0 {
        count_rank(cs, r) > 0
    } else {
        count_rank_suit(cs, r, suit) > 0
    }
}

/// Whether `cs` holds a rank matching the scan pattern: count equal to
/// (`exact`) or at least `min_count`, skipping the ranks `e1` and `e2`
/// (0 disables an exclusion, since 0 is not a card rank).
pub open spec fn rank_matches(cs: Seq<Card>, r: int, min_count: int, exact: bool, e1: int, e2: int) -> bool {
    r != e1 && r != e2 && (if exact {
        count_rank(cs, r) == min_count
    } else {
        count_rank(cs, r) >= min_count
    })
}

/// Highest rank at most `h` matching the scan pattern; 0 when none does.
pub open spec fn top_match_from(
    cs: Seq<Card>,
    min_count: int,
    exact: bool,
    e1: int,
    e2: int,
    h: int,
) -> int
    decreases h,
{
    if h < 2 {
        0
    } else if rank_matches(cs, h, min_count, exact, e1, e2) {
        h
    } else {
        top_match_from(cs, min_count, exact, e1, e2, h - 1)
    }
}

/// Highest rank at most `h` present in suit `s`; 0 when none is.
pub open spec fn top_suit_rank_from(cs: Seq<Card>, s: int, h: int) -> int
    decreases h,
{
    if h < 2 {
        0
    } else if count_rank_suit(cs, h, s) > 0 {
        h
    } else {
        top_suit_rank_from(cs, s, h - 1)
    }
}

/// A straight topped by `h` within suit `suit` (-1 for any-suit straights):
/// five consecutive ranks ending at `h`, or the wheel A-2-3-4-5 when
/// `h == 5`, where the ace plays low.
pub open spec fn straight_at(cs: Seq<Card>, suit: int, h: int) -> bool {
    if h == 5 {
        rank_here(cs, 14, suit) && rank_here(cs, 2, suit) && rank_here(cs, 3, suit) && rank_here(
            cs,
            4,
            suit,
        ) && rank_here(cs, 5, suit)
    } else {
        rank_here(cs, h, suit) && rank_here(cs, h - 1, suit) && rank_here(cs, h - 2, suit)
            && rank_here(cs, h - 3, suit) && rank_here(cs, h - 4, suit)
    }
}

/// High card of the best straight topped by at most `h`; 0 when none exists.
pub open spec fn straight_high_from(cs: Seq<Card>, suit: int, h: int) -> int
    decreases h,
{
    if h < 5 {
        0
    } else if straight_at(cs, suit, h) {
        h
    } else {
        straight_high_from(cs, suit, h - 1)
    }
}

/// High card of the best straight in `cs` (restricted to `suit` unless -1).
pub open spec fn straight_high_of(cs: Seq<Card>, suit: int) -> int {
    straight_high_from(cs, suit, 14)
}

/// Lowest suit holding at least five cards, tried in suit order; -1 when
/// none does. With at most seven cards no two suits can both reach five.
pub open spec fn flush_suit_from(cs: Seq<Card>, s: int) -> int
    decreases 4 - s,
{
    if s < 0 || s >= 4 {
        -1
    } else if count_suit(cs, s) >= 5 {
        s
    } else {
        flush_suit_from(cs, s + 1)
    }
}

/// The flush suit of `cs`, or -1 when there is no flush.
pub open spec fn flush_suit_of(cs: Seq<Card>) -> int {
    flush_suit_from(cs, 0)
}

/// Rank of the four-of-a-kind; 0 when there is none.
pub open spec fn quad_rank(cs: Seq<Card>) -> int {
    top_match_from(cs, 4, true, 0, 0, 14)
}

/// Highest rank outside the quads; the quads' kicker.
pub open spec fn quad_kicker(cs: Seq<Card>) -> int {
    top_match_from(cs, 1, false, quad_rank(cs), 0, 14)
}

/// Highest rank held three times; 0 when there is none.
pub open spec fn trip_rank(cs: Seq<Card>) -> int {
    top_match_from(cs, 3, true, 0, 0, 14)
}

/// Highest rank besides the triple held at least twice — the pair of a
/// full house (a second triple may serve as the pair); 0 when none.
pub open spec fn full_house_pair(cs: Seq<Card>) -> int {
    top_match_from(cs, 2, false, trip_rank(cs), 0, 14)
}

/// Highest rank held exactly twice; 0 when there is none.
pub open spec fn pair_rank(cs: Seq<Card>) -> int {
    top_match_from(cs, 2, true, 0, 0, 14)
}

/// Second-highest rank held exactly twice; 0 when there is none.
pub open spec fn second_pair_rank(cs: Seq<Card>) -> int {
    top_match_from(cs, 2, true, 0, 0, pair_rank(cs) - 1)
}

/// The category of the best five-card hand within `cs`, tested strongest
/// first: royal flush, straight flush, quads, full house, flush, straight,
/// trips, two pair, pair, high card.
pub open spec fn spec_category(cs: Seq<Card>) -> int {
    let fs = flush_suit_of(cs);
    let sfh = if fs >= 0 {
        straight_high_of(cs, fs)
    } else {
        0
    };
    if sfh == 14 {
        9
    } else if sfh != 0 {
        8
    } else if quad_rank(cs) != 0 {
        7
    } else if trip_rank(cs) != 0 && full_house_pair(cs) != 0 {
        6
    } else if fs >= 0 {
        5
    } else if straight_high_of(cs, -1) != 0 {
        4
    } else if trip_rank(cs) != 0 {
        3
    } else if pair_rank(cs) != 0 && second_pair_rank(cs) != 0 {
        2
    } else if pair_rank(cs) != 0 {
        1
    } else {
        0
    }
}

/// Top five ranks of the flush suit, highest first.
pub open spec fn flush_tiebreaks(cs: Seq<Card>) -> Seq<int> {
    let s = flush_suit_of(cs);
    let f1 = top_suit_rank_from(cs, s, 14);
    let f2 = top_suit_rank_from(cs, s, f1 - 1);
    let f3 = top_suit_rank_from(cs, s, f2 - 1);
    let f4 = top_suit_rank_from(cs, s, f3 - 1);
    let f5 = top_suit_rank_from(cs, s, f4 - 1);
    seq![f1, f2, f3, f4, f5]
}

/// The tiebreak ranks reported alongside `spec_category(cs)`.
pub open spec fn spec_tiebreaks(cs: Seq<Card>) -> Seq<int> {
    let cat = spec_category(cs);
    if cat == 9 {
        seq![]
    } else if cat == 8 {
        seq![straight_high_of(cs, flush_suit_of(cs))]
    } else if cat == 7 {
        seq![quad_rank(cs), quad_kicker(cs)]
    } else if cat == 6 {
        seq![trip_rank(cs), full_house_pair(cs)]
    } else if cat == 5 {
        flush_tiebreaks(cs)
    } else if cat == 4 {
        seq![straight_high_of(cs, -1)]
    } else if cat == 3 {
        let t = trip_rank(cs);
        let k1 = top_match_from(cs, 1, false, t, 0, 14);
        let k2 = top_match_from(cs, 1, false, t, 0, k1 - 1);
        seq![t, k1, k2]
    } else if cat == 2 {
        let p1 = pair_rank(cs);
        let p2 = second_pair_rank(cs);
        let k = top_match_from(cs, 1, false, p1, p2, 14);
        seq![p1, p2, k]
    } else if cat == 1 {
        let p = pair_rank(cs);
        let k1 = top_match_from(cs, 1, false, p, 0, 14);
        let k2 = top_match_from(cs, 1, false, p, 0, k1 - 1);
        let k3 = top_match_from(cs, 1, false, p, 0, k2 - 1);
        seq![p, k1, k2, k3]
    } else {
        let h1 = top_match_from(cs, 1, false, 0, 0, 14);
        let h2 = top_match_from(cs, 1, false, 0, 0, h1 - 1);
        let h3 = top_match_from(cs, 1, false, 0, 0, h2 - 1);
        let h4 = top_match_from(cs, 1, false, 0, 0, h3 - 1);
        let h5 = top_match_from(cs, 1, false, 0, 0, h4 - 1);
        seq![h1, h2, h3, h4, h5]
    }
}

/// The packed hand rank of the best five-card hand within `cs`.
pub open spec fn spec_hand_rank(cs: Seq<Card>) -> int {
    encode_spec(spec_category(cs), spec_tiebreaks(cs))
}

pub proof fn lemma_top_match_bounds(cs: Seq<Card>, min_count: int, exact: bool, e1: int, e2: int, h: int)
    requires
        h <= 14,
    ensures
        0 <= top_match_from(cs, min_count, exact, e1, e2, h) <= 14,
        top_match_from(cs, min_count, exact, e1, e2, h) != 0 ==> 2 <= top_match_from(
            cs,
            min_count,
            exact,
            e1,
            e2,
            h,
        ) <= h,
    decreases h,
{
    if h >= 2 && !rank_matches(cs, h, min_count, exact, e1, e2) {
        lemma_top_match_bounds(cs, min_count, exact, e1, e2, h - 1);
    }
}

pub proof fn lemma_top_suit_rank_bounds(cs: Seq<Card>, s: int, h: int)
    requires
        h <= 14,
    ensures
        0 <= top_suit_rank_from(cs, s, h) <= 14,
        top_suit_rank_from(cs, s, h) != 0 ==> 2 <= top_suit_rank_from(cs, s, h) <= h,
    decreases h,
{
    if h >= 2 && !(count_rank_suit(cs, h, s) > 0) {
        lemma_top_suit_rank_bounds(cs, s, h - 1);
    }
}

pub proof fn lemma_straight_high_bounds(cs: Seq<Card>, suit: int, h: int)
    requires
        h <= 14,
    ensures
        straight_high_from(cs, suit, h) == 0 || 5 <= straight_high_from(cs, suit, h) <= h,
    decreases h,
{
    if h >= 5 && !straight_at(cs, suit, h) {
        lemma_straight_high_bounds(cs, suit, h - 1);
    }
}

pub proof fn lemma_flush_suit_bounds(cs: Seq<Card>)
    ensures
        -1 <= flush_suit_of(cs) <= 3,
        flush_suit_of(cs) >= 0 ==> count_suit(cs, flush_suit_of(cs)) >= 5,
{
    reveal_with_fuel(flush_suit_from, 6);
}

/// A nonzero scan result really matches the scan pattern.
pub proof fn lemma_top_match_sound(
    cs: Seq<Card>,
    min_count: int,
    exact: bool,
    e1: int,
    e2: int,
    h: int,
)
    requires
        top_match_from(cs, min_count, exact, e1, e2, h) != 0,
    ensures
        rank_matches(cs, top_match_from(cs, min_count, exact, e1, e2, h), min_count, exact, e1, e2),
    decreases h,
{
    if h >= 2 && !rank_matches(cs, h, min_count, exact, e1, e2) {
        lemma_top_match_sound(cs, min_count, exact, e1, e2, h - 1);
    }
}

/// Any matching rank within the scanned range bounds the scan result
/// from below.
pub proof fn lemma_top_match_witness(
    cs: Seq<Card>,
    min_count: int,
    exact: bool,
    e1: int,
    e2: int,
    r: int,
    h: int,
)
    requires
        2 <= r <= h,
        rank_matches(cs, r, min_count, exact, e1, e2),
    ensures
        top_match_from(cs, min_count, exact, e1, e2, h) >= r,
    decreases h,
{
    if h > r && !rank_matches(cs, h, min_count, exact, e1, e2) {
        lemma_top_match_witness(cs, min_count, exact, e1, e2, r, h - 1);
    }
}

/// A nonzero straight scan result really tops a straight.
pub proof fn lemma_straight_high_sound(cs: Seq<Card>, suit: int, h: int)
    requires
        straight_high_from(cs, suit, h) != 0,
    ensures
        straight_at(cs, suit, straight_high_from(cs, suit, h)),
    decreases h,
{
    if h >= 5 && !straight_at(cs, suit, h) {
        lemma_straight_high_sound(cs, suit, h - 1);
    }
}

/// Any straight within the scanned range bounds the scan result from
/// below.
pub proof fn lemma_straight_high_witness(cs: Seq<Card>, suit: int, r: int, h: int)
    requires
        5 <= r <= h,
        straight_at(cs, suit, r),
    ensures
        straight_high_from(cs, suit, h) >= r,
    decreases h,
{
    if h > r && !straight_at(cs, suit, h) {
        lemma_straight_high_witness(cs, suit, r, h - 1);
    }
}

/// In a hand of at most seven well-formed cards only one suit can reach
/// five, so that suit is the flush suit.
pub proof fn lemma_flush_suit_is(cs: Seq<Card>, s: int)
    requires
        valid_cards(cs),
        cs.len() <= 7,
        0 <= s <= 3,
        count_suit(cs, s) >= 5,
    ensures
        flush_suit_of(cs) == s,
{
    crate::card::lemma_count_suit_total(cs);
    crate::card::lemma_count_suit_bounds(cs, 0);
    crate::card::lemma_count_suit_bounds(cs, 1);
    crate::card::lemma_count_suit_bounds(cs, 2);
    crate::card::lemma_count_suit_bounds(cs, 3);
    reveal_with_fuel(flush_suit_from, 6);
}

/// The category is one of the ten classes and every tiebreak slot is 0 or
/// a card rank, so the pair always encodes into a `u64`.
pub proof fn lemma_hand_rank_wf(cs: Seq<Card>)
    ensures
        valid_category(spec_category(cs)),
        valid_tiebreaks(spec_tiebreaks(cs)),
        0 <= spec_hand_rank(cs) <= u64::MAX,
{
    lemma_flush_suit_bounds(cs);
    let fs = flush_suit_of(cs);
    if fs >= 0 {
        lemma_straight_high_bounds(cs, fs, 14);
    }
    lemma_straight_high_bounds(cs, -1, 14);
    lemma_top_match_bounds(cs, 4, true, 0, 0, 14);
    lemma_top_match_bounds(cs, 1, false, quad_rank(cs), 0, 14);
    lemma_top_match_bounds(cs, 3, true, 0, 0, 14);
    lemma_top_match_bounds(cs, 2, false, trip_rank(cs), 0, 14);
    lemma_top_match_bounds(cs, 2, true, 0, 0, 14);
    lemma_top_match_bounds(cs, 2, true, 0, 0, pair_rank(cs) - 1);
    let t = trip_rank(cs);
    let tk1 = top_match_from(cs, 1, false, t, 0, 14);
    lemma_top_match_bounds(cs, 1, false, t, 0, 14);
    lemma_top_match_bounds(cs, 1, false, t, 0, tk1 - 1);
    let p1 = pair_rank(cs);
    let p2 = second_pair_rank(cs);
    lemma_top_match_bounds(cs, 1, false, p1, p2, 14);
    let pk1 = top_match_from(cs, 1, false, p1, 0, 14);
    lemma_top_match_bounds(cs, 1, false, p1, 0, 14);
    let pk2 = top_match_from(cs, 1, false, p1, 0, pk1 - 1);
    lemma_top_match_bounds(cs, 1, false, p1, 0, pk1 - 1);
    lemma_top_match_bounds(cs, 1, false, p1, 0, pk2 - 1);
    let h1 = top_match_from(cs, 1, false, 0, 0, 14);
    lemma_top_match_bounds(cs, 1, false, 0, 0, 14);
    let h2 = top_match_from(cs, 1, false, 0, 0, h1 - 1);
    lemma_top_match_bounds(cs, 1, false, 0, 0, h1 - 1);
    let h3 = top_match_from(cs, 1, false, 0, 0, h2 - 1);
    lemma_top_match_bounds(cs, 1, false, 0, 0, h2 - 1);
    let h4 = top_match_from(cs, 1, false, 0, 0, h3 - 1);
    lemma_top_match_bounds(cs, 1, false, 0, 0, h3 - 1);
    lemma_top_match_bounds(cs, 1, false, 0, 0, h4 - 1);
    lemma_top_suit_rank_bounds(cs, fs, 14);
    let f1 = top_suit_rank_from(cs, fs, 14);
    lemma_top_suit_rank_bounds(cs, fs, f1 - 1);
    let f2 = top_suit_rank_from(cs, fs, f1 - 1);
    lemma_top_suit_rank_bounds(cs, fs, f2 - 1);
    let f3 = top_suit_rank_from(cs, fs, f2 - 1);
    lemma_top_suit_rank_bounds(cs, fs, f3 - 1);
    let f4 = top_suit_rank_from(cs, fs, f3 - 1);
    lemma_top_suit_rank_bounds(cs, fs, f4 - 1);
    lemma_encode_fits_u64(spec_category(cs), spec_tiebreaks(cs));
}

/// Category dominance for whole card sets: a strictly higher category
/// always means a strictly higher hand rank.
pub proof fn lemma_hand_category_dominance(cs1: Seq<Card>, cs2: Seq<Card>)
    requires
        spec_category(cs1) > spec_category(cs2),
    ensures
        spec_hand_rank(cs1) > spec_hand_rank(cs2),
{
    lemma_hand_rank_wf(cs1);
    lemma_hand_rank_wf(cs2);
    lemma_category_dominance(
        spec_category(cs1),
        spec_tiebreaks(cs1),
        spec_category(cs2),
        spec_tiebreaks(cs2),
    );
}

} // verus!
