//! The brute-force oracle evaluator: the best hand over all C(7,5) = 21
//! five-card subsets of seven cards, kept as an independent check of the
//! direct seven-card evaluator.

use vstd::prelude::*;

use crate::card::{
    count_rank, count_rank_suit, count_suit, distinct_cards, lemma_count_rank_le_four,
    lemma_counts_take_step, valid_card, valid_cards, Card,
};
use crate::eval::evaluate_cards;
use crate::hand_spec::{
    flush_suit_of, full_house_pair, lemma_flush_suit_bounds, lemma_flush_suit_is,
    lemma_straight_high_bounds, lemma_straight_high_sound, lemma_straight_high_witness,
    lemma_top_match_bounds, lemma_top_match_sound, lemma_top_match_witness, pair_rank, quad_rank,
    rank_matches, second_pair_rank, spec_category, spec_hand_rank, straight_at, straight_high_from,
    straight_high_of, trip_rank,
};
use crate::rank::HandRank;

verus! {

/// The first `k` positions of `cs` with positions `a` and `b` left out.
pub open spec fn drop_two_prefix(cs: Seq<Card>, a: int, b: int, k: int) -> Seq<Card>
    decreases k,
{
    if k <= 0 {
        Seq::empty()
    } else if k - 1 == a || k - 1 == b {
        drop_two_prefix(cs, a, b, k - 1)
    } else {
        drop_two_prefix(cs, a, b, k - 1).push(cs[k - 1])
    }
}

/// `cs` with the two positions `a` and `b` removed.
pub open spec fn remove_two(cs: Seq<Card>, a: int, b: int) -> Seq<Card> {
    drop_two_prefix(cs, a, b, cs.len() as int)
}

/// Dropping two in-range positions shortens the prefix by how many of
/// them it covers, and keeps every card well formed.
pub proof fn lemma_drop_two_prefix_props(cs: Seq<Card>, a: int, b: int, k: int)
    requires
        0 <= a < b < cs.len(),
        0 <= k <= cs.len(),
    ensures
        drop_two_prefix(cs, a, b, k).len() == k - (if a < k {
            1int
        } else {
            0int
        }) - (if b < k {
            1int
        } else {
            0int
        }),
        valid_cards(cs) ==> valid_cards(drop_two_prefix(cs, a, b, k)),
    decreases k,
{
    if k > 0 {
        lemma_drop_two_prefix_props(cs, a, b, k - 1);
        if !(k - 1 == a || k - 1 == b) && valid_cards(cs) {
            let prev = drop_two_prefix(cs, a, b, k - 1);
            assert forall|j: int| 0 <= j < prev.push(cs[k - 1]).len() implies valid_card(
                #[trigger] prev.push(cs[k - 1])[j],
            ) by {
                if j < prev.len() {
                    assert(prev.push(cs[k - 1])[j] == prev[j]);
                } else {
                    assert(prev.push(cs[k - 1])[j] == cs[k - 1]);
                }
            }
        }
    }
}

proof fn lemma_drop_two_prefix_counts(cs: Seq<Card>, a: int, b: int, k: int)
    requires
        0 <= a < b < cs.len(),
        0 <= k <= cs.len(),
    ensures
        forall|r: int| #[trigger] count_rank(drop_two_prefix(cs, a, b, k), r) <= count_rank(
            cs.take(k),
            r,
        ),
        forall|r: int, s: int| #[trigger] count_rank_suit(drop_two_prefix(cs, a, b, k), r, s)
            <= count_rank_suit(cs.take(k), r, s),
        forall|s: int| #[trigger] count_suit(drop_two_prefix(cs, a, b, k), s) <= count_suit(
            cs.take(k),
            s,
        ),
    decreases k,
{
    if k > 0 {
        lemma_drop_two_prefix_counts(cs, a, b, k - 1);
        let prev = drop_two_prefix(cs, a, b, k - 1);
        let cur = drop_two_prefix(cs, a, b, k);
        if !(k - 1 == a || k - 1 == b) {
            assert(cur.drop_last() =~= prev);
        }
        assert forall|r: int| #[trigger] count_rank(cur, r) <= count_rank(cs.take(k), r) by {
            assert(count_rank(prev, r) <= count_rank(cs.take(k - 1), r));
            lemma_counts_take_step(cs, k - 1, r, 0);
        }
        assert forall|r: int, s: int| #[trigger] count_rank_suit(cur, r, s) <= count_rank_suit(
            cs.take(k),
            r,
            s,
        ) by {
            assert(count_rank_suit(prev, r, s) <= count_rank_suit(cs.take(k - 1), r, s));
            lemma_counts_take_step(cs, k - 1, r, s);
        }
        assert forall|s: int| #[trigger] count_suit(cur, s) <= count_suit(cs.take(k), s) by {
            assert(count_suit(prev, s) <= count_suit(cs.take(k - 1), s));
            lemma_counts_take_step(cs, k - 1, 0, s);
        }
    }
}

/// Removing two cards never increases any rank or suit count.
pub proof fn lemma_remove_two_counts(cs: Seq<Card>, a: int, b: int)
    requires
        0 <= a < b < cs.len(),
    ensures
        forall|r: int| #[trigger] count_rank(remove_two(cs, a, b), r) <= count_rank(cs, r),
        forall|r: int, s: int| #[trigger] count_rank_suit(remove_two(cs, a, b), r, s)
            <= count_rank_suit(cs, r, s),
        forall|s: int| #[trigger] count_suit(remove_two(cs, a, b), s) <= count_suit(cs, s),
{
    lemma_drop_two_prefix_counts(cs, a, b, cs.len() as int);
    assert(cs.take(cs.len() as int) =~= cs);
}

/// One half of the differential claim, at the category level: no
/// five-card subset of seven cards reaches a strictly higher category
/// than the seven cards evaluate to.
pub proof fn lemma_subset_category_le(cs: Seq<Card>, a: int, b: int)
    requires
        cs.len() == 7,
        valid_cards(cs),
        distinct_cards(cs),
        0 <= a < b < 7,
    ensures
        spec_category(remove_two(cs, a, b)) <= spec_category(cs),
{
    let five = remove_two(cs, a, b);
    lemma_remove_two_counts(cs, a, b);
    lemma_drop_two_prefix_props(cs, a, b, 7);

    let fs5 = flush_suit_of(five);
    let sfh5 = if fs5 >= 0 {
        straight_high_of(five, fs5)
    } else {
        0int
    };
    lemma_flush_suit_bounds(five);

    // a flush in the subset forces the same, unique flush suit in all
    // seven cards
    if fs5 >= 0 {
        lemma_flush_suit_is(cs, fs5);
    }

    if sfh5 != 0 {
        // straight or royal flush in the subset
        lemma_straight_high_bounds(five, fs5, 14);
        lemma_straight_high_sound(five, fs5, 14);
        assert(straight_at(cs, fs5, sfh5));
        lemma_straight_high_witness(cs, fs5, sfh5, 14);
        if sfh5 == 14 {
            assert(straight_high_from(cs, fs5, 14) == 14);
            assert(spec_category(cs) == 9);
        } else {
            assert(spec_category(cs) >= 8);
        }
        return ;
    }

    let qr5 = quad_rank(five);
    if qr5 != 0 {
        lemma_top_match_bounds(five, 4, true, 0, 0, 14);
        lemma_top_match_sound(five, 4, true, 0, 0, 14);
        lemma_count_rank_le_four(cs, qr5);
        lemma_quad_transfer(cs, qr5);
        return ;
    }

    let t5 = trip_rank(five);
    let f5 = full_house_pair(five);
    if t5 != 0 && f5 != 0 {
        // full house in the subset
        lemma_top_match_bounds(five, 3, true, 0, 0, 14);
        lemma_top_match_sound(five, 3, true, 0, 0, 14);
        lemma_top_match_bounds(five, 2, false, t5, 0, 14);
        lemma_top_match_sound(five, 2, false, t5, 0, 14);
        assert(count_rank(five, t5) == 3 && count_rank(five, f5) >= 2 && f5 != t5);
        lemma_count_rank_le_four(cs, t5);
        lemma_count_rank_le_four(cs, f5);
        if count_rank(cs, t5) == 4 {
            lemma_quad_transfer(cs, t5);
        } else if count_rank(cs, f5) == 4 {
            assert(rank_matches(cs, f5, 4, true, 0, 0));
            lemma_top_match_witness(cs, 4, true, 0, 0, f5, 14);
            assert(spec_category(cs) >= 7);
        } else {
            assert(rank_matches(cs, t5, 3, true, 0, 0));
            lemma_top_match_witness(cs, 3, true, 0, 0, t5, 14);
            let t7 = trip_rank(cs);
            lemma_top_match_bounds(cs, 3, true, 0, 0, 14);
            lemma_top_match_sound(cs, 3, true, 0, 0, 14);
            if t5 != t7 {
                assert(rank_matches(cs, t5, 2, false, t7, 0));
                lemma_top_match_witness(cs, 2, false, t7, 0, t5, 14);
            } else {
                assert(count_rank(cs, f5) >= 2 && f5 != t7);
                assert(rank_matches(cs, f5, 2, false, t7, 0));
                lemma_top_match_witness(cs, 2, false, t7, 0, f5, 14);
            }
            assert(trip_rank(cs) != 0 && full_house_pair(cs) != 0);
            assert(spec_category(cs) >= 6);
        }
        return ;
    }

    if fs5 >= 0 {
        // plain flush in the subset: the seven cards flush in that suit
        assert(spec_category(cs) >= 5);
        return ;
    }

    let sh5 = straight_high_of(five, -1);
    if sh5 != 0 {
        // plain straight in the subset
        lemma_straight_high_bounds(five, -1, 14);
        lemma_straight_high_sound(five, -1, 14);
        assert(straight_at(cs, -1, sh5));
        lemma_straight_high_witness(cs, -1, sh5, 14);
        assert(spec_category(cs) >= 4);
        return ;
    }

    if t5 != 0 {
        // trips in the subset
        lemma_top_match_bounds(five, 3, true, 0, 0, 14);
        lemma_top_match_sound(five, 3, true, 0, 0, 14);
        lemma_count_rank_le_four(cs, t5);
        if count_rank(cs, t5) == 4 {
            lemma_quad_transfer(cs, t5);
        } else {
            assert(rank_matches(cs, t5, 3, true, 0, 0));
            lemma_top_match_witness(cs, 3, true, 0, 0, t5, 14);
            assert(spec_category(cs) >= 3);
        }
        return ;
    }

    let p5 = pair_rank(five);
    let q5 = second_pair_rank(five);
    if p5 != 0 && q5 != 0 {
        // two pair in the subset
        lemma_top_match_bounds(five, 2, true, 0, 0, 14);
        lemma_top_match_sound(five, 2, true, 0, 0, 14);
        lemma_top_match_bounds(five, 2, true, 0, 0, p5 - 1);
        lemma_top_match_sound(five, 2, true, 0, 0, p5 - 1);
        assert(count_rank(five, p5) == 2 && count_rank(five, q5) == 2 && 2 <= q5 < p5);
        lemma_pair_rank_transfer(cs, p5);
        lemma_pair_rank_transfer(cs, q5);
        if count_rank(cs, p5) == 2 && count_rank(cs, q5) == 2 {
            lemma_top_match_witness(cs, 2, true, 0, 0, p5, 14);
            let p7 = pair_rank(cs);
            lemma_top_match_bounds(cs, 2, true, 0, 0, 14);
            lemma_top_match_sound(cs, 2, true, 0, 0, 14);
            assert(p7 >= p5);
            if p7 == p5 {
                assert(rank_matches(cs, q5, 2, true, 0, 0) && q5 <= p7 - 1);
                lemma_top_match_witness(cs, 2, true, 0, 0, q5, p7 - 1);
            } else {
                assert(rank_matches(cs, p5, 2, true, 0, 0) && p5 <= p7 - 1);
                lemma_top_match_witness(cs, 2, true, 0, 0, p5, p7 - 1);
            }
            assert(pair_rank(cs) != 0 && second_pair_rank(cs) != 0);
            assert(spec_category(cs) >= 2);
        }
        return ;
    }

    if p5 != 0 {
        // one pair in the subset
        lemma_top_match_bounds(five, 2, true, 0, 0, 14);
        lemma_top_match_sound(five, 2, true, 0, 0, 14);
        lemma_pair_rank_transfer(cs, p5);
        if count_rank(cs, p5) == 2 {
            lemma_top_match_witness(cs, 2, true, 0, 0, p5, 14);
            assert(spec_category(cs) >= 1);
        }
        return ;
    }

    assert(spec_category(five) == 0);
}

/// A rank held four times in the seven cards puts their category at
/// quads or better.
proof fn lemma_quad_transfer(cs: Seq<Card>, r: int)
    requires
        2 <= r <= 14,
        count_rank(cs, r) == 4,
    ensures
        spec_category(cs) >= 7,
{
    assert(rank_matches(cs, r, 4, true, 0, 0));
    lemma_top_match_witness(cs, 4, true, 0, 0, r, 14);
    assert(quad_rank(cs) != 0);
}

/// A rank paired in the subset pairs, trips, or quads the seven cards;
/// each outcome keeps their category at least as high as a pair's.
proof fn lemma_pair_rank_transfer(cs: Seq<Card>, r: int)
    requires
        2 <= r <= 14,
        valid_cards(cs),
        distinct_cards(cs),
        2 <= count_rank(cs, r),
    ensures
        count_rank(cs, r) == 2 || spec_category(cs) >= 3,
{
    lemma_count_rank_le_four(cs, r);
    if count_rank(cs, r) == 4 {
        lemma_quad_transfer(cs, r);
    } else if count_rank(cs, r) == 3 {
        assert(rank_matches(cs, r, 3, true, 0, 0));
        lemma_top_match_witness(cs, 3, true, 0, 0, r, 14);
        assert(trip_rank(cs) != 0);
    }
}

/// Evaluate the five cards left when positions `a` and `b` are removed.
fn subset_eval(cards: &Vec<Card>, a: usize, b: usize) -> (r: u64)
    requires
        cards@.len() == 7,
        valid_cards(cards@),
        a < b < 7,
    ensures
        r as int == spec_hand_rank(remove_two(cards@, a as int, b as int)),
{
    let mut five: Vec<Card> = Vec::with_capacity(5);
    let mut k: usize = 0;
    while k < 7
        invariant
            k <= 7,
            cards@.len() == 7,
            valid_cards(cards@),
            a < b < 7,
            five@ == drop_two_prefix(cards@, a as int, b as int, k as int),
        decreases 7 - k,
    {
        if k != a && k != b {
            five.push(cards[k]);
        }
        k = k + 1;
    }
    proof {
        lemma_drop_two_prefix_props(cards@, a as int, b as int, 7);
    }
    evaluate_cards(&five)
}

/// The oracle: evaluate all 21 five-card subsets of the seven cards and
/// keep the strongest, which the direct evaluator must match.
pub fn best_five_of_seven(hole: &[Card; 2], board: &[Card; 5]) -> (r: HandRank)
    requires
        valid_cards(hole@ + board@),
    ensures
        exists|a: int, b: int|
            0 <= a < b < 7 && r as int == #[trigger] spec_hand_rank(
                remove_two(hole@ + board@, a, b),
            ),
        forall|a: int, b: int|
            0 <= a < b < 7 ==> r as int >= #[trigger] spec_hand_rank(
                remove_two(hole@ + board@, a, b),
            ),
{
    let mut cards: Vec<Card> = Vec::with_capacity(7);
    cards.push(hole[0]);
    cards.push(hole[1]);
    cards.push(board[0]);
    cards.push(board[1]);
    cards.push(board[2]);
    cards.push(board[3]);
    cards.push(board[4]);
    proof {
        assert(cards@ =~= hole@ + board@);
    }
    let ghost cs = cards@;

    let mut best: u64 = subset_eval(&cards, 0, 1);
    let mut a: usize = 0;
    while a < 7
        invariant
            a <= 7,
            cs == cards@,
            cards@.len() == 7,
            valid_cards(cs),
            exists|x: int, y: int|
                0 <= x < y < 7 && best as int == #[trigger] spec_hand_rank(remove_two(cs, x, y)),
            forall|x: int, y: int|
                0 <= x < y < 7 && x < a ==> best as int >= #[trigger] spec_hand_rank(
                    remove_two(cs, x, y),
                ),
        decreases 7 - a,
    {
        let mut b: usize = a + 1;
        while b < 7
            invariant
                a < 7,
                a + 1 <= b <= 7,
                cs == cards@,
                cards@.len() == 7,
                valid_cards(cs),
                exists|x: int, y: int|
                    0 <= x < y < 7 && best as int == #[trigger] spec_hand_rank(
                        remove_two(cs, x, y),
                    ),
                forall|x: int, y: int|
                    0 <= x < y < 7 && x < a ==> best as int >= #[trigger] spec_hand_rank(
                        remove_two(cs, x, y),
                    ),
                forall|y: int|
                    a < y < b ==> best as int >= #[trigger] spec_hand_rank(
                        remove_two(cs, a as int, y),
                    ),
            decreases 7 - b,
        {
            let v = subset_eval(&cards, a, b);
            if v > best {
                best = v;
            }
            b = b + 1;
        }
        a = a + 1;
    }
    best
}

} // verus!
