//! The card model: ranks, suits, and counting specifications used by the
//! hand evaluator and the enumeration components.

use vstd::prelude::*;

verus! {

/// A playing card. `rank` is 2..=14 (11 = jack, 12 = queen, 13 = king,
/// 14 = ace); `suit` is 0..=3 (clubs, diamonds, hearts, spades).
#[derive(Copy, Clone, Debug, PartialEq, Eq, Structural)]
pub struct Card {
    pub rank: u8,
    pub suit: u8,
}

/// A card is well formed: rank in 2..=14, suit in 0..=3.
pub open spec fn valid_card(c: Card) -> bool {
    2 <= c.rank <= 14 && c.suit <= 3
}

/// Every card of the sequence is well formed.
pub open spec fn valid_cards(cs: Seq<Card>) -> bool {
    forall|i: int| 0 <= i < cs.len() ==> valid_card(#[trigger] cs[i])
}

/// No (rank, suit) pair occurs twice in the sequence.
pub open spec fn distinct_cards(cs: Seq<Card>) -> bool {
    forall|i: int, j: int| 0 <= i < j < cs.len() ==> cs[i] != cs[j]
}

/// Number of cards in `cs` whose rank is `r`.
pub open spec fn count_rank(cs: Seq<Card>, r: int) -> int
    decreases cs.len(),
{
    if cs.len() == 0 {
        0
    } else {
        count_rank(cs.drop_last(), r) + if cs.last().rank == r {
            1int
        } else {
            0int
        }
    }
}

/// Number of cards in `cs` whose suit is `s`.
pub open spec fn count_suit(cs: Seq<Card>, s: int) -> int
    decreases cs.len(),
{
    if cs.len() == 0 {
        0
    } else {
        count_suit(cs.drop_last(), s) + if cs.last().suit == s {
            1int
        } else {
            0int
        }
    }
}

/// Number of cards in `cs` with rank `r` and suit `s`.
pub open spec fn count_rank_suit(cs: Seq<Card>, r: int, s: int) -> int
    decreases cs.len(),
{
    if cs.len() == 0 {
        0
    } else {
        count_rank_suit(cs.drop_last(), r, s) + if cs.last().rank == r && cs.last().suit == s {
            1int
        } else {
            0int
        }
    }
}

pub proof fn lemma_count_rank_bounds(cs: Seq<Card>, r: int)
    ensures
        0 <= count_rank(cs, r) <= cs.len(),
    decreases cs.len(),
{
    if cs.len() > 0 {
        lemma_count_rank_bounds(cs.drop_last(), r);
    }
}

pub proof fn lemma_count_suit_bounds(cs: Seq<Card>, s: int)
    ensures
        0 <= count_suit(cs, s) <= cs.len(),
    decreases cs.len(),
{
    if cs.len() > 0 {
        lemma_count_suit_bounds(cs.drop_last(), s);
    }
}

pub proof fn lemma_count_rank_suit_bounds(cs: Seq<Card>, r: int, s: int)
    ensures
        0 <= count_rank_suit(cs, r, s) <= cs.len(),
    decreases cs.len(),
{
    if cs.len() > 0 {
        lemma_count_rank_suit_bounds(cs.drop_last(), r, s);
    }
}

/// Counting one more card of the prefix adds exactly the new card's
/// contribution to each counter.
pub proof fn lemma_counts_take_step(cs: Seq<Card>, i: int, r: int, s: int)
    requires
        0 <= i < cs.len(),
    ensures
        count_rank(cs.take(i + 1), r) == count_rank(cs.take(i), r) + if cs[i].rank == r {
            1int
        } else {
            0int
        },
        count_suit(cs.take(i + 1), s) == count_suit(cs.take(i), s) + if cs[i].suit == s {
            1int
        } else {
            0int
        },
        count_rank_suit(cs.take(i + 1), r, s) == count_rank_suit(cs.take(i), r, s) + if cs[i].rank
            == r && cs[i].suit == s {
            1int
        } else {
            0int
        },
{
    assert(cs.take(i + 1).drop_last() =~= cs.take(i));
    assert(cs.take(i + 1).last() == cs[i]);
}

/// A positive count exhibits a card of that rank and suit.
pub proof fn lemma_count_rank_suit_pos_witness(cs: Seq<Card>, r: int, s: int)
    requires
        count_rank_suit(cs, r, s) > 0,
    ensures
        exists|i: int| 0 <= i < cs.len() && (#[trigger] cs[i]).rank == r && cs[i].suit == s,
    decreases cs.len(),
{
    if cs.last().rank == r && cs.last().suit == s {
        assert(cs[cs.len() - 1].rank == r && cs[cs.len() - 1].suit == s);
    } else {
        lemma_count_rank_suit_pos_witness(cs.drop_last(), r, s);
        let i = choose|i: int|
            0 <= i < cs.drop_last().len() && (#[trigger] cs.drop_last()[i]).rank == r
                && cs.drop_last()[i].suit == s;
        assert(cs[i].rank == r && cs[i].suit == s);
    }
}

/// Distinct cards carry each (rank, suit) pair at most once.
pub proof fn lemma_count_rank_suit_at_most_one(cs: Seq<Card>, r: int, s: int)
    requires
        distinct_cards(cs),
    ensures
        count_rank_suit(cs, r, s) <= 1,
    decreases cs.len(),
{
    if cs.len() > 0 {
        assert(distinct_cards(cs.drop_last())) by {
            assert forall|i: int, j: int|
                0 <= i < j < cs.drop_last().len() implies cs.drop_last()[i] != cs.drop_last()[j] by {
                assert(cs[i] != cs[j]);
            }
        }
        lemma_count_rank_suit_at_most_one(cs.drop_last(), r, s);
        if cs.last().rank == r && cs.last().suit == s && count_rank_suit(cs.drop_last(), r, s)
            > 0 {
            lemma_count_rank_suit_pos_witness(cs.drop_last(), r, s);
            let i = choose|i: int|
                0 <= i < cs.drop_last().len() && (#[trigger] cs.drop_last()[i]).rank == r
                    && cs.drop_last()[i].suit == s;
            assert(cs[i] == cs[cs.len() - 1]);
        }
    }
}

/// A rank's count splits over the four suits.
pub proof fn lemma_count_rank_split_suits(cs: Seq<Card>, r: int)
    requires
        valid_cards(cs),
    ensures
        count_rank(cs, r) == count_rank_suit(cs, r, 0) + count_rank_suit(cs, r, 1)
            + count_rank_suit(cs, r, 2) + count_rank_suit(cs, r, 3),
    decreases cs.len(),
{
    if cs.len() > 0 {
        assert(valid_cards(cs.drop_last())) by {
            assert forall|i: int| 0 <= i < cs.drop_last().len() implies valid_card(
                #[trigger] cs.drop_last()[i],
            ) by {
                assert(valid_card(cs[i]));
            }
        }
        lemma_count_rank_split_suits(cs.drop_last(), r);
        assert(valid_card(cs[cs.len() - 1]));
    }
}

/// Distinct well-formed cards hold at most four of any rank: one per suit.
pub proof fn lemma_count_rank_le_four(cs: Seq<Card>, r: int)
    requires
        valid_cards(cs),
        distinct_cards(cs),
    ensures
        count_rank(cs, r) <= 4,
{
    lemma_count_rank_split_suits(cs, r);
    lemma_count_rank_suit_at_most_one(cs, r, 0);
    lemma_count_rank_suit_at_most_one(cs, r, 1);
    lemma_count_rank_suit_at_most_one(cs, r, 2);
    lemma_count_rank_suit_at_most_one(cs, r, 3);
}

/// The four suit counts partition the whole hand.
pub proof fn lemma_count_suit_total(cs: Seq<Card>)
    requires
        valid_cards(cs),
    ensures
        count_suit(cs, 0) + count_suit(cs, 1) + count_suit(cs, 2) + count_suit(cs, 3) == cs.len(),
    decreases cs.len(),
{
    if cs.len() > 0 {
        assert(valid_cards(cs.drop_last())) by {
            assert forall|i: int| 0 <= i < cs.drop_last().len() implies valid_card(
                #[trigger] cs.drop_last()[i],
            ) by {
                assert(valid_card(cs[i]));
            }
        }
        lemma_count_suit_total(cs.drop_last());
        assert(valid_card(cs[cs.len() - 1]));
    }
}

/// Validity of cards is preserved by concatenation.
pub proof fn lemma_valid_concat(a: Seq<Card>, b: Seq<Card>)
    requires
        valid_cards(a),
        valid_cards(b),
    ensures
        valid_cards(a + b),
{
    assert forall|i: int| 0 <= i < (a + b).len() implies valid_card(#[trigger] (a + b)[i]) by {
        if i < a.len() {
            assert((a + b)[i] == a[i]);
        } else {
            assert((a + b)[i] == b[i - a.len()]);
        }
    }
}

/// Validity of cards is inherited by any subrange.
pub proof fn lemma_valid_subrange(cs: Seq<Card>, lo: int, hi: int)
    requires
        valid_cards(cs),
        0 <= lo <= hi <= cs.len(),
    ensures
        valid_cards(cs.subrange(lo, hi)),
{
    assert forall|i: int| 0 <= i < hi - lo implies valid_card(#[trigger] cs.subrange(lo, hi)[i]) by {
        assert(cs.subrange(lo, hi)[i] == cs[lo + i]);
    }
}

} // verus!
