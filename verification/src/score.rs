//! Hand scoring with the simultaneous soft-ace demotion, and the textual
//! rendering of a hand.

use vstd::prelude::*;

use crate::card::Card;
use crate::card::count_rank;
use crate::card::lemma_ace_value;
use crate::card::valid_hand;

verus! {

/// The raw point total of a hand: every card counts its full value,
/// an ace counts 11.
pub open spec fn raw_points(s: Seq<Card>) -> int
    decreases s.len(),
{
    if s.len() == 0 {
        0
    } else {
        raw_points(s.drop_last()) + s.last().value
    }
}

/// The Blackjack score of a hand. When the raw total busts (exceeds 21),
/// every ace in the hand is demoted from 11 to 1 at once, i.e. 10 points
/// are taken back per ace. A hand with enough aces can stay above 21 even
/// after demotion; that is accepted as a bust.
pub open spec fn score(s: Seq<Card>) -> int {
    if raw_points(s) > 21 {
        raw_points(s) - 10 * count_rank(s, "A"@)
    } else {
        raw_points(s)
    }
}

/// The rank labels of a hand joined with a comma, in hand order.
pub open spec fn stringify_spec(s: Seq<Card>) -> Seq<char>
    decreases s.len(),
{
    if s.len() == 0 {
        Seq::empty()
    } else if s.len() == 1 {
        s[0].name@
    } else {
        stringify_spec(s.drop_last()) + ","@ + s.last().name@
    }
}

/// Appending a card adds its full value to the raw total.
pub proof fn lemma_raw_points_push(s: Seq<Card>, c: Card)
    ensures
        raw_points(s.push(c)) == raw_points(s) + c.value,
{
    assert(s.push(c).drop_last() =~= s);
    assert(s.push(c).last() == c);
}

pub proof fn lemma_raw_points_take_succ(s: Seq<Card>, i: int)
    requires
        0 <= i < s.len(),
    ensures
        raw_points(s.take(i + 1)) == raw_points(s.take(i)) + s[i].value,
{
    assert(s.take(i + 1).drop_last() =~= s.take(i));
    assert(s.take(i + 1).last() == s[i]);
}

pub proof fn lemma_raw_points_take_le(s: Seq<Card>, i: int)
    requires
        0 <= i <= s.len(),
    ensures
        0 <= raw_points(s.take(i)) <= raw_points(s),
    decreases s.len() - i,
{
    if i == s.len() {
        assert(s.take(i) =~= s);
        lemma_raw_points_nonneg(s);
    } else {
        lemma_raw_points_take_succ(s, i);
        lemma_raw_points_take_le(s, i + 1);
        lemma_raw_points_nonneg(s.take(i));
    }
}

pub proof fn lemma_raw_points_nonneg(s: Seq<Card>)
    ensures
        raw_points(s) >= 0,
    decreases s.len(),
{
    if s.len() > 0 {
        lemma_raw_points_nonneg(s.drop_last());
    }
}

pub proof fn lemma_count_rank_take_succ(s: Seq<Card>, name: Seq<char>, i: int)
    requires
        0 <= i < s.len(),
    ensures
        count_rank(s.take(i + 1), name) == count_rank(s.take(i), name) + if s[i].name@ == name {
            1int
        } else {
            0int
        },
{
    assert(s.take(i + 1).drop_last() =~= s.take(i));
    assert(s.take(i + 1).last() == s[i]);
}

pub proof fn lemma_count_rank_nonneg(s: Seq<Card>, name: Seq<char>)
    ensures
        count_rank(s, name) >= 0,
    decreases s.len(),
{
    if s.len() > 0 {
        lemma_count_rank_nonneg(s.drop_last(), name);
    }
}

pub proof fn lemma_count_rank_take_le(s: Seq<Card>, name: Seq<char>, i: int)
    requires
        0 <= i <= s.len(),
    ensures
        0 <= count_rank(s.take(i), name) <= count_rank(s, name),
    decreases s.len() - i,
{
    if i == s.len() {
        assert(s.take(i) =~= s);
        lemma_count_rank_nonneg(s, name);
    } else {
        lemma_count_rank_take_succ(s, name, i);
        lemma_count_rank_take_le(s, name, i + 1);
        lemma_count_rank_nonneg(s.take(i), name);
    }
}

/// In a valid hand the aces alone account for 11 points each, so the
/// demotion of 10 points per ace can never underflow the raw total.
pub proof fn lemma_ace_points(s: Seq<Card>)
    requires
        valid_hand(s),
    ensures
        0 <= 11 * count_rank(s, "A"@) <= raw_points(s),
    decreases s.len(),
{
    if s.len() > 0 {
        assert(valid_hand(s.drop_last())) by {
            assert(forall|i: int|
                0 <= i < s.len() - 1 ==> s.drop_last()[i] == #[trigger] s[i]);
        }
        lemma_ace_points(s.drop_last());
        if s.last().name@ == "A"@ {
            lemma_ace_value(s.last());
        }
    }
}

/// The Blackjack point total of a hand, per the original scoring rule:
/// sum all values; if the sum busts, take back 10 points for every ace.
pub fn count_points(hand: &Vec<Card>) -> (r: u8)
    requires
        valid_hand(hand@),
        raw_points(hand@) <= u8::MAX,
    ensures
        r == score(hand@),
{
    let ghost s = hand@;
    let mut total: u8 = 0;
    let mut i: usize = 0;
    while i < hand.len()
        invariant
            0 <= i <= hand.len(),
            hand@ == s,
            raw_points(s) <= u8::MAX,
            total == raw_points(s.take(i as int)),
        decreases hand.len() - i,
    {
        proof {
            lemma_raw_points_take_succ(s, i as int);
            lemma_raw_points_take_le(s, i + 1);
        }
        total = total + hand[i].value;
        i = i + 1;
    }
    assert(s.take(s.len() as int) =~= s);
    if total > 21 {
        let ace = String::from_str("A");
        let mut aces: u8 = 0;
        let mut j: usize = 0;
        while j < hand.len()
            invariant
                0 <= j <= hand.len(),
                hand@ == s,
                valid_hand(s),
                raw_points(s) <= u8::MAX,
                ace@ == "A"@,
                aces == count_rank(s.take(j as int), "A"@),
            decreases hand.len() - j,
        {
            proof {
                lemma_count_rank_take_succ(s, "A"@, j as int);
                lemma_count_rank_take_le(s, "A"@, j + 1);
                lemma_ace_points(s);
            }
            if hand[j].name == ace {
                aces = aces + 1;
            }
            j = j + 1;
        }
        proof {
            lemma_ace_points(s);
        }
        total - aces * 10
    } else {
        total
    }
}

/// The rank labels of the hand joined with commas, e.g. `"A,10"`.
pub fn stringify(hand: &Vec<Card>) -> (r: String)
    ensures
        r@ == stringify_spec(hand@),
{
    let ghost s = hand@;
    let mut r = String::new();
    let mut i: usize = 0;
    while i < hand.len()
        invariant
            0 <= i <= hand.len(),
            hand@ == s,
            r@ == stringify_spec(s.take(i as int)),
        decreases hand.len() - i,
    {
        if i > 0 {
            r.append(",");
        }
        r.append(hand[i].name.as_str());
        proof {
            assert(s.take(i + 1).drop_last() =~= s.take(i as int));
            assert(s.take(i + 1).last() == s[i as int]);
            if i == 0 {
                assert(s.take(1)[0] == s[0]);
            }
        }
        i = i + 1;
    }
    assert(s.take(s.len() as int) =~= s);
    r
}

} // verus!
