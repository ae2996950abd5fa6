//! Hand-strength encoding and ordering.
//!
//! A hand's strength is a category (0 = high card .. 9 = royal flush) plus
//! up to five tiebreak ranks in descending significance. The pair is packed
//! into a `u64` — category in the most significant byte, tiebreaks one byte
//! each below it — so that plain integer ordering compares hands.

use vstd::prelude::*;

verus! {

/// Packed hand strength; larger value means stronger hand.
pub type HandRank = u64;

/// Weight of the category byte in the packed encoding.
pub open spec fn category_weight() -> int {
    0x100_0000_0000_0000
}

/// Weight of tiebreak slot `i` (0 is the most significant slot).
pub open spec fn tiebreak_weight(i: int) -> int {
    if i == 0 {
        0x1_0000_0000_0000
    } else if i == 1 {
        0x100_0000_0000
    } else if i == 2 {
        0x1_0000_0000
    } else if i == 3 {
        0x100_0000
    } else if i == 4 {
        0x1_0000
    } else {
        0
    }
}

/// Tiebreak slot `i`, with absent slots reading as 0.
pub open spec fn tb_at(tb: Seq<int>, i: int) -> int {
    if 0 <= i < tb.len() {
        tb[i]
    } else {
        0
    }
}

/// A category is one of the ten hand classes.
pub open spec fn valid_category(cat: int) -> bool {
    0 <= cat <= 9
}

/// At most five tiebreak ranks, each an absent slot (0) or a card rank.
pub open spec fn valid_tiebreaks(tb: Seq<int>) -> bool {
    tb.len() <= 5 && forall|i: int| 0 <= i < tb.len() ==> 0 <= #[trigger] tb[i] <= 14
}

/// The packed integer encoding of (category, tiebreaks).
pub open spec fn encode_spec(cat: int, tb: Seq<int>) -> int {
    cat * category_weight() + tb_at(tb, 0) * tiebreak_weight(0) + tb_at(tb, 1) * tiebreak_weight(1)
        + tb_at(tb, 2) * tiebreak_weight(2) + tb_at(tb, 3) * tiebreak_weight(3) + tb_at(tb, 4)
        * tiebreak_weight(4)
}

/// View of a byte sequence as mathematical tiebreak ranks.
pub open spec fn tb_of_bytes(s: Seq<u8>) -> Seq<int> {
    s.map_values(|b: u8| b as int)
}

/// The tiebreak portion of a valid encoding never reaches the category
/// weight, so the category byte dominates the packed value.
pub proof fn lemma_tiebreak_part_bounds(tb: Seq<int>)
    requires
        valid_tiebreaks(tb),
    ensures
        0 <= encode_spec(0, tb) < category_weight(),
{
    assert(0 <= tb_at(tb, 0) <= 14);
    assert(0 <= tb_at(tb, 1) <= 14);
    assert(0 <= tb_at(tb, 2) <= 14);
    assert(0 <= tb_at(tb, 3) <= 14);
    assert(0 <= tb_at(tb, 4) <= 14);
}

/// A valid encoding fits in a `u64`.
pub proof fn lemma_encode_fits_u64(cat: int, tb: Seq<int>)
    requires
        valid_category(cat),
        valid_tiebreaks(tb),
    ensures
        0 <= encode_spec(cat, tb) <= u64::MAX,
{
    lemma_tiebreak_part_bounds(tb);
}

/// Category dominance: a hand of a strictly higher category outranks any
/// hand of a strictly lower category, whatever the tiebreaks hold.
pub proof fn lemma_category_dominance(c1: int, t1: Seq<int>, c2: int, t2: Seq<int>)
    requires
        valid_category(c1),
        valid_category(c2),
        c1 > c2,
        valid_tiebreaks(t1),
        valid_tiebreaks(t2),
    ensures
        encode_spec(c1, t1) > encode_spec(c2, t2),
{
    lemma_tiebreak_part_bounds(t1);
    lemma_tiebreak_part_bounds(t2);
}

/// Within one category the encoding orders lexicographically: if the first
/// differing tiebreak slot is larger, the whole encoding is larger. In
/// particular an absent slot (0) never outranks a populated slot (2..=14).
pub proof fn lemma_tiebreak_lexicographic(c: int, t1: Seq<int>, t2: Seq<int>, i: int)
    requires
        valid_category(c),
        valid_tiebreaks(t1),
        valid_tiebreaks(t2),
        0 <= i < 5,
        forall|j: int| 0 <= j < i ==> tb_at(t1, j) == tb_at(t2, j),
        tb_at(t1, i) > tb_at(t2, i),
    ensures
        encode_spec(c, t1) > encode_spec(c, t2),
{
    assert(0 <= tb_at(t1, 0) <= 14 && 0 <= tb_at(t2, 0) <= 14);
    assert(0 <= tb_at(t1, 1) <= 14 && 0 <= tb_at(t2, 1) <= 14);
    assert(0 <= tb_at(t1, 2) <= 14 && 0 <= tb_at(t2, 2) <= 14);
    assert(0 <= tb_at(t1, 3) <= 14 && 0 <= tb_at(t2, 3) <= 14);
    assert(0 <= tb_at(t1, 4) <= 14 && 0 <= tb_at(t2, 4) <= 14);
    if i == 0 {
    } else if i == 1 {
        assert(tb_at(t1, 0) == tb_at(t2, 0));
    } else if i == 2 {
        assert(tb_at(t1, 0) == tb_at(t2, 0) && tb_at(t1, 1) == tb_at(t2, 1));
    } else if i == 3 {
        assert(tb_at(t1, 0) == tb_at(t2, 0) && tb_at(t1, 1) == tb_at(t2, 1) && tb_at(t1, 2)
            == tb_at(t2, 2));
    } else {
        assert(tb_at(t1, 0) == tb_at(t2, 0) && tb_at(t1, 1) == tb_at(t2, 1) && tb_at(t1, 2)
            == tb_at(t2, 2) && tb_at(t1, 3) == tb_at(t2, 3));
    }
}

/// The category byte is recovered from a valid encoding by dividing out
/// the category weight.
pub proof fn lemma_encode_category_extract(cat: int, tb: Seq<int>)
    requires
        valid_category(cat),
        valid_tiebreaks(tb),
    ensures
        encode_spec(cat, tb) / 0x100_0000_0000_0000 == cat,
{
    lemma_tiebreak_part_bounds(tb);
    let rest = encode_spec(0, tb);
    assert(encode_spec(cat, tb) == cat * 0x100_0000_0000_0000 + rest);
    vstd::arithmetic::div_mod::lemma_fundamental_div_mod_converse(
        cat * 0x100_0000_0000_0000 + rest,
        0x100_0000_0000_0000,
        cat,
        rest,
    );
}

/// Hand ranks are totally ordered: comparing a rank with itself is always
/// "equal", and for any two ranks exactly one of less, equal, greater holds.
pub proof fn lemma_hand_rank_order_total(a: HandRank, b: HandRank)
    ensures
        a == b ==> !(a < b) && !(a > b),
        a < b ==> !(a == b) && !(a > b),
        a > b ==> !(a == b) && !(a < b),
        (a < b) || (a == b) || (a > b),
{
}

/// Outcome of comparing two hand ranks.
#[derive(Copy, Clone, Debug, PartialEq, Eq, Structural)]
pub enum HandOrdering {
    Weaker,
    Equal,
    Stronger,
}

/// Compare two packed hand ranks; the packed layout makes this a single
/// integer comparison.
pub fn compare_hand_ranks(a: HandRank, b: HandRank) -> (o: HandOrdering)
    ensures
        o == HandOrdering::Weaker <==> a < b,
        o == HandOrdering::Equal <==> a == b,
        o == HandOrdering::Stronger <==> a > b,
{
    if a < b {
        HandOrdering::Weaker
    } else if a == b {
        HandOrdering::Equal
    } else {
        HandOrdering::Stronger
    }
}

/// Pack a category and five tiebreak slots (absent slots passed as 0).
pub(crate) fn encode_parts(category: u8, t0: u8, t1: u8, t2: u8, t3: u8, t4: u8) -> (r: u64)
    requires
        category <= 9,
        t0 <= 14,
        t1 <= 14,
        t2 <= 14,
        t3 <= 14,
        t4 <= 14,
    ensures
        r as int == encode_spec(
            category as int,
            seq![t0 as int, t1 as int, t2 as int, t3 as int, t4 as int],
        ),
{
    (category as u64) * 0x100_0000_0000_0000 + (t0 as u64) * 0x1_0000_0000_0000 + (t1 as u64)
        * 0x100_0000_0000 + (t2 as u64) * 0x1_0000_0000 + (t3 as u64) * 0x100_0000 + (t4 as u64)
        * 0x1_0000
}

/// Pack a category and up to five tiebreak ranks into a `HandRank`.
pub fn encode_hand_rank(category: u8, tiebreak: &[u8]) -> (r: HandRank)
    requires
        category <= 9,
        tiebreak@.len() <= 5,
        forall|i: int| 0 <= i < tiebreak@.len() ==> #[trigger] tiebreak@[i] <= 14,
    ensures
        r as int == encode_spec(category as int, tb_of_bytes(tiebreak@)),
{
    let t0: u8 = if tiebreak.len() > 0 {
        tiebreak[0]
    } else {
        0
    };
    let t1: u8 = if tiebreak.len() > 1 {
        tiebreak[1]
    } else {
        0
    };
    let t2: u8 = if tiebreak.len() > 2 {
        tiebreak[2]
    } else {
        0
    };
    let t3: u8 = if tiebreak.len() > 3 {
        tiebreak[3]
    } else {
        0
    };
    let t4: u8 = if tiebreak.len() > 4 {
        tiebreak[4]
    } else {
        0
    };
    encode_parts(category, t0, t1, t2, t3, t4)
}

} // verus!
