//! The production hand evaluator.
//!
//! One pass over the cards fills per-rank and per-suit count tables; the
//! category ladder is then decided from those tables, strongest category
//! first, and proved to return exactly `spec_hand_rank` of the cards.

use vstd::prelude::*;

use crate::card::{
    count_rank, count_rank_suit, count_suit, lemma_count_rank_bounds, lemma_count_suit_bounds,
    lemma_counts_take_step, valid_card, valid_cards, Card,
};
use crate::hand_spec::{
    flush_suit_from, flush_suit_of, full_house_pair, lemma_flush_suit_bounds, lemma_hand_rank_wf,
    pair_rank, quad_kicker, quad_rank, rank_here, rank_matches, second_pair_rank, spec_category,
    spec_hand_rank, spec_tiebreaks, straight_at, straight_high_from, straight_high_of,
    top_match_from, top_suit_rank_from, trip_rank,
};
use crate::rank::{encode_parts, HandRank};

verus! {

/// Scan ranks downward from `start` for the highest rank whose count
/// matches the pattern, skipping excluded ranks; 0 when none matches.
fn top_match_exec(
    rank_counts: &[u8; 15],
    min_count: u8,
    exact: bool,
    e1: u8,
    e2: u8,
    start: u8,
    Ghost(cs): Ghost<Seq<Card>>,
) -> (res: u8)
    requires
        start <= 14,
        forall|r: int| 0 <= r < 15 ==> (#[trigger] rank_counts@[r]) as int == count_rank(cs, r),
    ensures
        res as int == top_match_from(cs, min_count as int, exact, e1 as int, e2 as int, start as int),
        res <= 14,
{
    let mut h: u8 = start;
    while h >= 2
        invariant
            h <= 14,
            forall|r: int| 0 <= r < 15 ==> (#[trigger] rank_counts@[r]) as int == count_rank(cs, r),
            top_match_from(cs, min_count as int, exact, e1 as int, e2 as int, start as int)
                == top_match_from(cs, min_count as int, exact, e1 as int, e2 as int, h as int),
        decreases h,
    {
        let cnt = rank_counts[h as usize];
        let matched = if exact {
            cnt == min_count
        } else {
            cnt >= min_count
        };
        if matched && h != e1 && h != e2 {
            assert(rank_matches(cs, h as int, min_count as int, exact, e1 as int, e2 as int));
            return h;
        }
        assert(!rank_matches(cs, h as int, min_count as int, exact, e1 as int, e2 as int));
        h = h - 1;
    }
    0
}

/// Scan ranks downward from `start` for the highest rank present in the
/// suit whose presence table `fp` holds; 0 when none is present.
fn top_suit_rank_exec(fp: &[bool; 15], start: u8, Ghost(cs): Ghost<Seq<Card>>, Ghost(s): Ghost<int>) -> (res: u8)
    requires
        start <= 14,
        forall|r: int| 2 <= r <= 14 ==> ((#[trigger] fp@[r]) <==> count_rank_suit(cs, r, s) > 0),
    ensures
        res as int == top_suit_rank_from(cs, s, start as int),
        res <= 14,
{
    let mut h: u8 = start;
    while h >= 2
        invariant
            h <= 14,
            forall|r: int| 2 <= r <= 14 ==> ((#[trigger] fp@[r]) <==> count_rank_suit(cs, r, s) > 0),
            top_suit_rank_from(cs, s, start as int) == top_suit_rank_from(cs, s, h as int),
        decreases h,
    {
        if fp[h as usize] {
            return h;
        }
        h = h - 1;
    }
    0
}

/// Scan for the best straight within the rank presence table `present`
/// (restricted to `suit`, or any suit for -1): the highest window of five
/// consecutive present ranks, else the wheel, else none (0).
fn straight_high_exec(present: &[bool; 15], Ghost(cs): Ghost<Seq<Card>>, Ghost(suit): Ghost<int>) -> (res: u8)
    requires
        forall|r: int| 2 <= r <= 14 ==> ((#[trigger] present@[r]) <==> rank_here(cs, r, suit)),
    ensures
        res as int == straight_high_of(cs, suit),
{
    let mut h: u8 = 14;
    while h >= 6
        invariant
            5 <= h <= 14,
            forall|r: int| 2 <= r <= 14 ==> ((#[trigger] present@[r]) <==> rank_here(cs, r, suit)),
            straight_high_from(cs, suit, 14) == straight_high_from(cs, suit, h as int),
        decreases h,
    {
        if present[h as usize] && present[(h - 1) as usize] && present[(h - 2) as usize] && present[(
        h - 3) as usize] && present[(h - 4) as usize] {
            assert(straight_at(cs, suit, h as int));
            return h;
        }
        assert(!straight_at(cs, suit, h as int));
        h = h - 1;
    }
    if present[14] && present[2] && present[3] && present[4] && present[5] {
        assert(straight_at(cs, suit, 5));
        5
    } else {
        assert(straight_high_from(cs, suit, 5) == 0) by {
            reveal_with_fuel(straight_high_from, 3);
        }
        0
    }
}

/// Evaluate the best five-card hand formable within `cards` (5 to 7 cards)
/// and return its packed rank.
pub fn evaluate_cards(cards: &Vec<Card>) -> (r: HandRank)
    requires
        5 <= cards@.len() <= 7,
        valid_cards(cards@),
    ensures
        r as int == spec_hand_rank(cards@),
{
    let ghost cs = cards@;
    proof {
        lemma_hand_rank_wf(cs);
    }
    let n = cards.len();

    // Count cards per rank and per suit.
    let mut rank_counts: [u8; 15] = [0; 15];
    let mut suit_counts: [u8; 4] = [0; 4];
    let mut i: usize = 0;
    while i < n
        invariant
            i <= n,
            n == cs.len(),
            cs == cards@,
            5 <= n <= 7,
            valid_cards(cs),
            forall|r: int|
                0 <= r < 15 ==> (#[trigger] rank_counts@[r]) as int == count_rank(
                    cs.take(i as int),
                    r,
                ),
            forall|s: int|
                0 <= s < 4 ==> (#[trigger] suit_counts@[s]) as int == count_suit(
                    cs.take(i as int),
                    s,
                ),
        decreases n - i,
    {
        let c = cards[i];
        proof {
            assert(valid_card(cs[i as int])) by {
                assert(valid_cards(cs));
            }
            assert forall|r: int| 0 <= r < 15 implies count_rank(cs.take(i as int + 1), r)
                == count_rank(cs.take(i as int), r) + (if cs[i as int].rank == r {
                1int
            } else {
                0int
            }) by {
                lemma_counts_take_step(cs, i as int, r, 0);
            }
            assert forall|s: int| 0 <= s < 4 implies count_suit(cs.take(i as int + 1), s)
                == count_suit(cs.take(i as int), s) + (if cs[i as int].suit == s {
                1int
            } else {
                0int
            }) by {
                lemma_counts_take_step(cs, i as int, 0, s);
            }
            lemma_count_rank_bounds(cs.take(i as int), c.rank as int);
            lemma_count_suit_bounds(cs.take(i as int), c.suit as int);
            assert(cs.take(i as int).len() == i);
        }
        rank_counts[c.rank as usize] = rank_counts[c.rank as usize] + 1;
        suit_counts[c.suit as usize] = suit_counts[c.suit as usize] + 1;
        i = i + 1;
    }
    proof {
        assert(cs.take(n as int) =~= cs);
    }

    // Rank presence, any suit.
    let mut present: [bool; 15] = [false; 15];
    let mut r: usize = 2;
    while r < 15
        invariant
            2 <= r <= 15,
            forall|k: int| 0 <= k < 15 ==> (#[trigger] rank_counts@[k]) as int == count_rank(cs, k),
            forall|k: int| 2 <= k < r ==> ((#[trigger] present@[k]) <==> count_rank(cs, k) > 0),
        decreases 15 - r,
    {
        present[r] = rank_counts[r] > 0;
        r = r + 1;
    }

    // Flush detection: lowest suit holding five or more cards.
    let fs: Option<u8> = if suit_counts[0] >= 5 {
        Some(0)
    } else if suit_counts[1] >= 5 {
        Some(1)
    } else if suit_counts[2] >= 5 {
        Some(2)
    } else if suit_counts[3] >= 5 {
        Some(3)
    } else {
        None
    };
    let ghost fsi = flush_suit_of(cs);
    proof {
        reveal_with_fuel(flush_suit_from, 6);
        assert(match fs {
            Option::Some(s) => fsi == s as int,
            Option::None => fsi == -1,
        });
    }

    // Best straight within the flush suit, if any (0 when no flush).
    let sfh: u8 = match fs {
        Option::Some(s) => {
            let mut flush_present: [bool; 15] = [false; 15];
            let mut j: usize = 0;
            while j < n
                invariant
                    j <= n,
                    n == cs.len(),
                    cs == cards@,
                    valid_cards(cs),
                    s <= 3,
                    forall|k: int|
                        0 <= k < 15 ==> ((#[trigger] flush_present@[k]) <==> count_rank_suit(
                            cs.take(j as int),
                            k,
                            s as int,
                        ) > 0),
                decreases n - j,
            {
                let c = cards[j];
                proof {
                    assert(valid_card(cs[j as int])) by {
                        assert(valid_cards(cs));
                    }
                    assert forall|k: int| 0 <= k < 15 implies count_rank_suit(
                        cs.take(j as int + 1),
                        k,
                        s as int,
                    ) == count_rank_suit(cs.take(j as int), k, s as int) + (if cs[j as int].rank
                        == k && cs[j as int].suit == s as int {
                        1int
                    } else {
                        0int
                    }) by {
                        lemma_counts_take_step(cs, j as int, k, s as int);
                    }
                    crate::card::lemma_count_rank_suit_bounds(
                        cs.take(j as int),
                        c.rank as int,
                        s as int,
                    );
                }
                if c.suit == s {
                    flush_present[c.rank as usize] = true;
                }
                j = j + 1;
            }
            proof {
                assert(cs.take(n as int) =~= cs);
            }
            straight_high_exec(&flush_present, Ghost(cs), Ghost(s as int))
        },
        Option::None => 0,
    };
    let ghost sfh_spec: int = if fsi >= 0 {
        straight_high_of(cs, fsi)
    } else {
        0
    };
    assert(sfh as int == sfh_spec);

    // Best straight over all suits.
    let sh: u8 = straight_high_exec(&present, Ghost(cs), Ghost(-1int));

    // The category ladder, strongest first.
    if sfh == 14 {
        // royal flush
        return encode_parts(9, 0, 0, 0, 0, 0);
    }
    if sfh != 0 {
        // straight flush
        return encode_parts(8, sfh, 0, 0, 0, 0);
    }
    let quad = top_match_exec(&rank_counts, 4, true, 0, 0, 14, Ghost(cs));
    if quad != 0 {
        // four of a kind: quad rank, then the best remaining rank
        let qk = top_match_exec(&rank_counts, 1, false, quad, 0, 14, Ghost(cs));
        assert(qk as int == quad_kicker(cs));
        return encode_parts(7, quad, qk, 0, 0, 0);
    }
    let trip = top_match_exec(&rank_counts, 3, true, 0, 0, 14, Ghost(cs));
    if trip != 0 {
        // full house: highest triple plus the best other rank paired or better
        let fhp = top_match_exec(&rank_counts, 2, false, trip, 0, 14, Ghost(cs));
        assert(fhp as int == full_house_pair(cs));
        if fhp != 0 {
            return encode_parts(6, trip, fhp, 0, 0, 0);
        }
    }
    match fs {
        Option::Some(s) => {
            // flush: top five ranks of the flush suit
            let mut flush_present: [bool; 15] = [false; 15];
            let mut j: usize = 0;
            while j < n
                invariant
                    j <= n,
                    n == cs.len(),
                    cs == cards@,
                    valid_cards(cs),
                    s <= 3,
                    forall|k: int|
                        0 <= k < 15 ==> ((#[trigger] flush_present@[k]) <==> count_rank_suit(
                            cs.take(j as int),
                            k,
                            s as int,
                        ) > 0),
                decreases n - j,
            {
                let c = cards[j];
                proof {
                    assert(valid_card(cs[j as int])) by {
                        assert(valid_cards(cs));
                    }
                    assert forall|k: int| 0 <= k < 15 implies count_rank_suit(
                        cs.take(j as int + 1),
                        k,
                        s as int,
                    ) == count_rank_suit(cs.take(j as int), k, s as int) + (if cs[j as int].rank
                        == k && cs[j as int].suit == s as int {
                        1int
                    } else {
                        0int
                    }) by {
                        lemma_counts_take_step(cs, j as int, k, s as int);
                    }
                    crate::card::lemma_count_rank_suit_bounds(
                        cs.take(j as int),
                        c.rank as int,
                        s as int,
                    );
                }
                if c.suit == s {
                    flush_present[c.rank as usize] = true;
                }
                j = j + 1;
            }
            proof {
                assert(cs.take(n as int) =~= cs);
            }
            let f1 = top_suit_rank_exec(&flush_present, 14, Ghost(cs), Ghost(s as int));
            let f2 = top_suit_rank_exec(
                &flush_present,
                if f1 > 0 {
                    f1 - 1
                } else {
                    0
                },
                Ghost(cs),
                Ghost(s as int),
            );
            let f3 = top_suit_rank_exec(
                &flush_present,
                if f2 > 0 {
                    f2 - 1
                } else {
                    0
                },
                Ghost(cs),
                Ghost(s as int),
            );
            let f4 = top_suit_rank_exec(
                &flush_present,
                if f3 > 0 {
                    f3 - 1
                } else {
                    0
                },
                Ghost(cs),
                Ghost(s as int),
            );
            let f5 = top_suit_rank_exec(
                &flush_present,
                if f4 > 0 {
                    f4 - 1
                } else {
                    0
                },
                Ghost(cs),
                Ghost(s as int),
            );
            return encode_parts(5, f1, f2, f3, f4, f5);
        },
        Option::None => {},
    }
    if sh != 0 {
        // straight
        return encode_parts(4, sh, 0, 0, 0, 0);
    }
    if trip != 0 {
        // three of a kind: triple plus the two best remaining ranks
        let k1 = top_match_exec(&rank_counts, 1, false, trip, 0, 14, Ghost(cs));
        let k2 = top_match_exec(
            &rank_counts,
            1,
            false,
            trip,
            0,
            if k1 > 0 {
                k1 - 1
            } else {
                0
            },
            Ghost(cs),
        );
        return encode_parts(3, trip, k1, k2, 0, 0);
    }
    let p1 = top_match_exec(&rank_counts, 2, true, 0, 0, 14, Ghost(cs));
    if p1 != 0 {
        let p2 = top_match_exec(
            &rank_counts,
            2,
            true,
            0,
            0,
            if p1 > 0 {
                p1 - 1
            } else {
                0
            },
            Ghost(cs),
        );
        assert(p2 as int == second_pair_rank(cs));
        if p2 != 0 {
            // two pair: both pairs plus the best remaining rank
            let k = top_match_exec(&rank_counts, 1, false, p1, p2, 14, Ghost(cs));
            return encode_parts(2, p1, p2, k, 0, 0);
        }
        // one pair: the pair plus the three best remaining ranks
        let k1 = top_match_exec(&rank_counts, 1, false, p1, 0, 14, Ghost(cs));
        let k2 = top_match_exec(
            &rank_counts,
            1,
            false,
            p1,
            0,
            if k1 > 0 {
                k1 - 1
            } else {
                0
            },
            Ghost(cs),
        );
        let k3 = top_match_exec(
            &rank_counts,
            1,
            false,
            p1,
            0,
            if k2 > 0 {
                k2 - 1
            } else {
                0
            },
            Ghost(cs),
        );
        return encode_parts(1, p1, k1, k2, k3, 0);
    }
    // high card: the five best ranks
    let h1 = top_match_exec(&rank_counts, 1, false, 0, 0, 14, Ghost(cs));
    let h2 = top_match_exec(
        &rank_counts,
        1,
        false,
        0,
        0,
        if h1 > 0 {
            h1 - 1
        } else {
            0
        },
        Ghost(cs),
    );
    let h3 = top_match_exec(
        &rank_counts,
        1,
        false,
        0,
        0,
        if h2 > 0 {
            h2 - 1
        } else {
            0
        },
        Ghost(cs),
    );
    let h4 = top_match_exec(
        &rank_counts,
        1,
        false,
        0,
        0,
        if h3 > 0 {
            h3 - 1
        } else {
            0
        },
        Ghost(cs),
    );
    let h5 = top_match_exec(
        &rank_counts,
        1,
        false,
        0,
        0,
        if h4 > 0 {
            h4 - 1
        } else {
            0
        },
        Ghost(cs),
    );
    encode_parts(0, h1, h2, h3, h4, h5)
}

/// Evaluate the best five-card hand from two hole cards and a full board.
pub fn evaluate_7_card_hand(hole: &[Card; 2], board: &[Card; 5]) -> (r: HandRank)
    requires
        valid_cards(hole@ + board@),
    ensures
        r as int == spec_hand_rank(hole@ + board@),
{
    let mut cards: Vec<Card> = Vec::with_capacity(7);
    cards.push(hole[0]);
    cards.push(hole[1]);
    cards.push(board[0]);
    cards.push(board[1]);
    cards.push(board[2]);
    cards.push(board[3]);
    cards.push(board[4]);
    proof {
        assert(cards@ =~= hole@ + board@);
    }
    evaluate_cards(&cards)
}

} // verus!
