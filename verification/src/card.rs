//! The card value type and the 52-card deck factory.

use vstd::prelude::*;

verus! {

/// A playing card: a rank label ("2".."10", "J", "Q", "K", "A") and its
/// Blackjack point value (number cards count themselves, faces count 10,
/// an ace counts 11 until scoring demotes it).
pub struct Card {
    pub name: String,
    pub value: u8,
}

/// The 13 rank/value pairs the deck is built from.
pub open spec fn valid_rank(name: Seq<char>, value: u8) -> bool {
    ||| (name == "2"@ && value == 2)
    ||| (name == "3"@ && value == 3)
    ||| (name == "4"@ && value == 4)
    ||| (name == "5"@ && value == 5)
    ||| (name == "6"@ && value == 6)
    ||| (name == "7"@ && value == 7)
    ||| (name == "8"@ && value == 8)
    ||| (name == "9"@ && value == 9)
    ||| (name == "10"@ && value == 10)
    ||| (name == "J"@ && value == 10)
    ||| (name == "Q"@ && value == 10)
    ||| (name == "K"@ && value == 10)
    ||| (name == "A"@ && value == 11)
}

/// A card is one of the 13 rank/value pairs the deck is built from.
pub open spec fn valid_card(c: Card) -> bool {
    valid_rank(c.name@, c.value)
}

/// Every card of the hand is one of the 13 rank/value pairs.
pub open spec fn valid_hand(s: Seq<Card>) -> bool {
    forall|i: int| 0 <= i < s.len() ==> valid_card(#[trigger] s[i])
}

/// How many cards of `s` carry the rank label `name`.
pub open spec fn count_rank(s: Seq<Card>, name: Seq<char>) -> int
    decreases s.len(),
{
    if s.len() == 0 {
        0
    } else {
        count_rank(s.drop_last(), name) + if s.last().name@ == name {
            1int
        } else {
            0int
        }
    }
}

/// Appending a card to a hand raises the count of its own rank by one and
/// leaves every other count alone.
pub proof fn lemma_count_rank_push(s: Seq<Card>, c: Card)
    ensures
        forall|n: Seq<char>| #[trigger] count_rank(s.push(c), n) == count_rank(s, n) + if c.name@
            == n {
            1int
        } else {
            0int
        },
{
    assert forall|n: Seq<char>| #[trigger] count_rank(s.push(c), n) == count_rank(s, n)
        + if c.name@ == n {
        1int
    } else {
        0int
    } by {
        assert(s.push(c).drop_last() =~= s);
        assert(s.push(c).last() == c);
    }
}

/// Appending a valid card keeps a hand valid.
pub proof fn lemma_valid_hand_push(s: Seq<Card>, c: Card)
    requires
        valid_hand(s),
        valid_card(c),
    ensures
        valid_hand(s.push(c)),
{
    assert forall|i: int| 0 <= i < s.push(c).len() implies valid_card(#[trigger] s.push(c)[i]) by {
        if i < s.len() {
            assert(s.push(c)[i] == s[i]);
        } else {
            assert(s.push(c)[i] == c);
        }
    }
}

/// A valid ace is worth 11 points.
pub proof fn lemma_ace_value(c: Card)
    requires
        valid_card(c),
        c.name@ == "A"@,
    ensures
        c.value == 11,
{
    reveal_strlit("A");
    reveal_strlit("2");
    reveal_strlit("3");
    reveal_strlit("4");
    reveal_strlit("5");
    reveal_strlit("6");
    reveal_strlit("7");
    reveal_strlit("8");
    reveal_strlit("9");
    reveal_strlit("10");
    reveal_strlit("J");
    reveal_strlit("Q");
    reveal_strlit("K");
    assert("A"@.len() == 1 && "A"@.index(0) == 'A');
    assert("2"@.index(0) == '2');
    assert("3"@.index(0) == '3');
    assert("4"@.index(0) == '4');
    assert("5"@.index(0) == '5');
    assert("6"@.index(0) == '6');
    assert("7"@.index(0) == '7');
    assert("8"@.index(0) == '8');
    assert("9"@.index(0) == '9');
    assert("10"@.len() == 2);
    assert("J"@.index(0) == 'J');
    assert("Q"@.index(0) == 'Q');
    assert("K"@.index(0) == 'K');
}

} // verus!
