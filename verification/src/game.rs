//! The round engine: deck construction, the dealer's fixed drawing policy,
//! the player decision loop over scripted input, and the round orchestrator.

use vstd::prelude::*;

use rand::seq::SliceRandom;

use crate::card::Card;
use crate::card::count_rank;
use crate::card::lemma_count_rank_push;
use crate::card::lemma_valid_hand_push;
use crate::card::valid_hand;
use crate::card::valid_rank;
use crate::console::Choice;
use crate::console::InputScript;
use crate::console::lemma_lines_push;
use crate::console::lines_of;
use crate::console::normalize_choice;
use crate::score::lemma_raw_points_push;
use crate::score::raw_points;
use crate::score::score;
use crate::score::stringify;
use crate::score::stringify_spec;

verus! {

/// How a party's loop ended: it hit exactly 21 (`Won`), it busted (`Lost`),
/// or neither, leaving the round to the final comparison (`Unknown`).
#[derive(Clone, Copy, Debug, PartialEq, Eq, Structural)]
pub enum RoundOutcome {
    Won,
    Lost,
    Unknown,
}

/// The two fatal faults of a round: a draw from an exhausted deck, and an
/// input provider that ran out of lines mid-prompt.
#[derive(Clone, Copy, Debug, PartialEq, Eq, Structural)]
pub enum GameError {
    EmptyDeck,
    EndOfInput,
}

/// One round's state: the deck, the dealer's hand (`cards`) and the
/// player's hand, all owned by the round for its lifetime.
pub struct Dealer {
    pub deck: Vec<Card>,
    pub cards: Vec<Card>,
    pub player_cards: Vec<Card>,
}

/// The three status lines reported together: a headline, then both hands.
pub open spec fn status_msgs(m: Seq<char>, dealer: Seq<Card>, player: Seq<Card>) -> Seq<Seq<char>> {
    seq![
        m,
        "Dealer's cards are: "@ + stringify_spec(dealer),
        "Your cards are: "@ + stringify_spec(player),
    ]
}

fn push_four(deck: &mut Vec<Card>, name: &str, value: u8)
    ensures
        final(deck)@.len() == old(deck)@.len() + 4,
        forall|n: Seq<char>| #[trigger]
            count_rank(final(deck)@, n) == count_rank(old(deck)@, n) + if name@ == n {
                4int
            } else {
                0int
            },
        raw_points(final(deck)@) == raw_points(old(deck)@) + 4 * value,
        valid_rank(name@, value) && valid_hand(old(deck)@) ==> valid_hand(final(deck)@),
{
    let mut k: usize = 0;
    while k < 4
        invariant
            k <= 4,
            deck@.len() == old(deck)@.len() + k,
            forall|n: Seq<char>| #[trigger]
                count_rank(deck@, n) == count_rank(old(deck)@, n) + if name@ == n {
                    k as int
                } else {
                    0int
                },
            raw_points(deck@) == raw_points(old(deck)@) + k * value,
            valid_rank(name@, value) && valid_hand(old(deck)@) ==> valid_hand(deck@),
        decreases 4 - k,
    {
        let card = Card { name: String::from_str(name), value };
        proof {
            lemma_count_rank_push(deck@, card);
            lemma_raw_points_push(deck@, card);
            assert((k + 1) * value == k * value + value) by (nonlinear_arith);
            if valid_rank(name@, value) && valid_hand(old(deck)@) {
                lemma_valid_hand_push(deck@, card);
            }
        }
        deck.push(card);
        k = k + 1;
    }
}

impl Dealer {
    /// A fresh round: both hands empty and an unshuffled deck holding, for
    /// each of the 13 ranks, exactly 4 cards with that rank's value, 52
    /// cards and 380 raw points in all.
    pub fn new() -> (d: Dealer)
        ensures
            d.cards@.len() == 0,
            d.player_cards@.len() == 0,
            d.deck@.len() == 52,
            valid_hand(d.deck@),
            raw_points(d.deck@) == 380,
            count_rank(d.deck@, "2"@) == 4,
            count_rank(d.deck@, "3"@) == 4,
            count_rank(d.deck@, "4"@) == 4,
            count_rank(d.deck@, "5"@) == 4,
            count_rank(d.deck@, "6"@) == 4,
            count_rank(d.deck@, "7"@) == 4,
            count_rank(d.deck@, "8"@) == 4,
            count_rank(d.deck@, "9"@) == 4,
            count_rank(d.deck@, "10"@) == 4,
            count_rank(d.deck@, "J"@) == 4,
            count_rank(d.deck@, "Q"@) == 4,
            count_rank(d.deck@, "K"@) == 4,
            count_rank(d.deck@, "A"@) == 4,
    {
        let mut deck: Vec<Card> = Vec::new();
        push_four(&mut deck, "2", 2);
        push_four(&mut deck, "3", 3);
        push_four(&mut deck, "4", 4);
        push_four(&mut deck, "5", 5);
        push_four(&mut deck, "6", 6);
        push_four(&mut deck, "7", 7);
        push_four(&mut deck, "8", 8);
        push_four(&mut deck, "9", 9);
        push_four(&mut deck, "10", 10);
        push_four(&mut deck, "J", 10);
        push_four(&mut deck, "Q", 10);
        push_four(&mut deck, "K", 10);
        push_four(&mut deck, "A", 11);
        proof {
            reveal_strlit("2");
            reveal_strlit("3");
            reveal_strlit("4");
            reveal_strlit("5");
            reveal_strlit("6");
            reveal_strlit("7");
            reveal_strlit("8");
            reveal_strlit("9");
            reveal_strlit("10");
            reveal_strlit("J");
            reveal_strlit("Q");
            reveal_strlit("K");
            reveal_strlit("A");
            assert("2"@.index(0) == '2');
            assert("3"@.index(0) == '3');
            assert("4"@.index(0) == '4');
            assert("5"@.index(0) == '5');
            assert("6"@.index(0) == '6');
            assert("7"@.index(0) == '7');
            assert("8"@.index(0) == '8');
            assert("9"@.index(0) == '9');
            assert("10"@.len() == 2);
            assert("J"@.index(0) == 'J');
            assert("Q"@.index(0) == 'Q');
            assert("K"@.index(0) == 'K');
            assert("A"@.len() == 1 && "A"@.index(0) == 'A');
        }
        Dealer { deck, cards: Vec::new(), player_cards: Vec::new() }
    }

    /// Relies on rand's `SliceRandom::shuffle` (a Fisher-Yates pass of
    /// swaps driven by `rand::thread_rng`): it permutes the deck in place,
    /// so the same cards remain in some order.
    #[verifier::external_body]
    pub fn shuffle(&mut self)
        ensures
            final(self).deck@.len() == old(self).deck@.len(),
            final(self).deck@.to_multiset() == old(self).deck@.to_multiset(),
            final(self).cards@ == old(self).cards@,
            final(self).player_cards@ == old(self).player_cards@,
    {
        self.deck.shuffle(&mut rand::thread_rng());
    }

    /// Deals the first two cards to each hand, alternating dealer, player,
    /// dealer, player, each draw removing the top (last) card of the deck.
    pub fn game_init(&mut self)
        requires
            old(self).deck@.len() >= 4,
        ensures
            final(self).deck@ == old(self).deck@.take(old(self).deck@.len() - 4),
            final(self).cards@ == old(self).cards@ + seq![
                old(self).deck@[old(self).deck@.len() - 1],
                old(self).deck@[old(self).deck@.len() - 3],
            ],
            final(self).player_cards@ == old(self).player_cards@ + seq![
                old(self).deck@[old(self).deck@.len() - 2],
                old(self).deck@[old(self).deck@.len() - 4],
            ],
    {
        let c0 = match self.deck.pop() {
            Some(c) => c,
            None => vstd::pervasive::unreached(),
        };
        self.cards.push(c0);
        let c1 = match self.deck.pop() {
            Some(c) => c,
            None => vstd::pervasive::unreached(),
        };
        self.player_cards.push(c1);
        let c2 = match self.deck.pop() {
            Some(c) => c,
            None => vstd::pervasive::unreached(),
        };
        self.cards.push(c2);
        let c3 = match self.deck.pop() {
            Some(c) => c,
            None => vstd::pervasive::unreached(),
        };
        self.player_cards.push(c3);
        proof {
            let d0 = old(self).deck@;
            assert(self.deck@ =~= d0.take(d0.len() - 4));
            assert(self.cards@ =~= old(self).cards@ + seq![d0[d0.len() - 1], d0[d0.len() - 3]]);
            assert(self.player_cards@ =~= old(self).player_cards@ + seq![
                d0[d0.len() - 2],
                d0[d0.len() - 4],
            ]);
        }
    }
    /// Reports a headline and then both hands through the output sink.
    pub fn print_msg(&self, message: &str, out: &mut Vec<String>)
        ensures
            lines_of(final(out)@) == lines_of(old(out)@) + status_msgs(
                message@,
                self.cards@,
                self.player_cards@,
            ),
    {
        let m0 = message.to_owned();
        let ghost g0 = m0;
        let ghost s0 = out@;
        out.push(m0);
        proof {
            lemma_lines_push(s0, g0);
        }
        let dealer_line = String::from_str("Dealer's cards are: ").concat(
            stringify(&self.cards).as_str(),
        );
        let ghost g1 = dealer_line;
        let ghost s1 = out@;
        out.push(dealer_line);
        proof {
            lemma_lines_push(s1, g1);
        }
        let player_line = String::from_str("Your cards are: ").concat(
            stringify(&self.player_cards).as_str(),
        );
        let ghost g2 = player_line;
        let ghost s2 = out@;
        out.push(player_line);
        proof {
            lemma_lines_push(s2, g2);
            assert(lines_of(out@) =~= lines_of(old(out)@) + status_msgs(
                message@,
                self.cards@,
                self.player_cards@,
            ));
        }
    }

    /// The dealer's fixed policy: draw while under 17, then stop; exactly
    /// 21 wins, above 21 busts, 17 to 20 leaves the round undecided. The
    /// returned state and transcript are `dealer_run` of the entry state.
    pub fn game_dealer(&mut self, out: &mut Vec<String>) -> (res: Result<RoundOutcome, GameError>)
        requires
            valid_hand(old(self).deck@),
            valid_hand(old(self).cards@),
            raw_points(old(self).cards@) <= u8::MAX,
        ensures
            final(self).player_cards@ == old(self).player_cards@,
            valid_hand(final(self).deck@),
            valid_hand(final(self).cards@),
            raw_points(final(self).cards@) <= u8::MAX,
            ({
                let init = dealer_run(old(self).deck@, old(self).cards@);
                &&& (init matches Ok(t) ==> res == Ok::<RoundOutcome, GameError>(t.3)
                    && final(self).deck@ == t.0 && final(self).cards@ == t.1 && lines_of(
                    final(out)@,
                ) == lines_of(old(out)@) + t.2)
                &&& (init matches Err(e) ==> res == Err::<RoundOutcome, GameError>(e) && lines_of(
                    old(out)@,
                ).is_prefix_of(lines_of(final(out)@)))
            }),
    {
        let ghost deck0 = self.deck@;
        let ghost hand0 = self.cards@;
        let ghost pc0 = self.player_cards@;
        let ghost out0 = lines_of(out@);
        loop
            invariant
                deck0 == old(self).deck@,
                hand0 == old(self).cards@,
                pc0 == old(self).player_cards@,
                out0 == lines_of(old(out)@),
                valid_hand(self.deck@),
                valid_hand(self.cards@),
                raw_points(self.cards@) <= u8::MAX,
                self.player_cards@ == pc0,
                out0.is_prefix_of(lines_of(out@)),
                ({
                    let init = dealer_run(deck0, hand0);
                    let cur = dealer_run(self.deck@, self.cards@);
                    let emitted = lines_of(out@).skip(out0.len() as int);
                    &&& (cur matches Ok(t) ==> init == Ok::<_, GameError>(
                        (t.0, t.1, emitted + t.2, t.3),
                    ))
                    &&& (cur matches Err(e) ==> init == Err::<(
                        Seq<Card>,
                        Seq<Card>,
                        Seq<Seq<char>>,
                        RoundOutcome,
                    ), _>(e))
                }),
            decreases self.deck@.len(),
        {
            let points = crate::score::count_points(&self.cards);
            if points < 17 {
                let ghost pre_deck = self.deck@;
                let ghost pre_hand = self.cards@;
                let ghost pre_out = lines_of(out@);
                match draw(&mut self.deck) {
                    Err(e) => {
                        return Err(e);
                    },
                    Ok(card) => {
                        let line = String::from_str("Dealer's card is ").concat(card.name.as_str());
                        let ghost gline = line;
                        let ghost souts = out@;
                        out.push(line);
                        proof {
                            lemma_lines_push(souts, gline);
                        }
                        let ghost gcard = card;
                        self.cards.push(card);
                        proof {
                            lemma_valid_hand_push(pre_hand, gcard);
                            lemma_raw_points_push(pre_hand, gcard);
                            crate::score::lemma_ace_points(pre_hand);
                            assert(self.deck@ == pre_deck.drop_last());
                            assert(pre_deck.last() == gcard);
                            let emitted0 = pre_out.skip(out0.len() as int);
                            let emitted1 = lines_of(out@).skip(out0.len() as int);
                            assert(emitted1 =~= emitted0.push(dealer_card_msg(gcard)));
                            if let Ok(t) = dealer_run(self.deck@, self.cards@) {
                                assert(emitted1 + t.2 =~= emitted0 + (seq![
                                    dealer_card_msg(gcard),
                                ] + t.2));
                            }
                        }
                    },
                }
            } else {
                proof {
                    let emitted = lines_of(out@).skip(out0.len() as int);
                    assert(emitted + Seq::<Seq<char>>::empty() =~= emitted);
                    assert(lines_of(out@) =~= out0 + emitted);
                }
                if points == 21 {
                    return Ok(RoundOutcome::Won);
                } else if points > 21 {
                    return Ok(RoundOutcome::Lost);
                } else {
                    return Ok(RoundOutcome::Unknown);
                }
            }
        }
    }

    /// The player decision loop: exactly 21 wins and above 21 busts at
    /// once; otherwise the player is prompted and one input line decides:
    /// "y" draws, "n" stands, anything else is rejected and asked again.
    /// The returned state and transcript are `player_run` of the entry
    /// state over the scripted input.
    pub fn game_player(&mut self, input: &mut InputScript, out: &mut Vec<String>) -> (res: Result<
        RoundOutcome,
        GameError,
    >)
        requires
            old(input).wf(),
            valid_hand(old(self).deck@),
            valid_hand(old(self).player_cards@),
            raw_points(old(self).player_cards@) <= u8::MAX,
        ensures
            final(input).wf(),
            final(self).cards@ == old(self).cards@,
            valid_hand(final(self).deck@),
            valid_hand(final(self).player_cards@),
            raw_points(final(self).player_cards@) <= u8::MAX,
            ({
                let init = player_run(
                    old(self).deck@,
                    old(self).player_cards@,
                    old(input).remaining(),
                );
                &&& (init matches Ok(t) ==> res == Ok::<RoundOutcome, GameError>(t.4)
                    && final(self).deck@ == t.0 && final(self).player_cards@ == t.1
                    && final(input).remaining() == t.2
                    && lines_of(final(out)@) == lines_of(old(out)@) + t.3)
                &&& (init matches Err(e) ==> res == Err::<RoundOutcome, GameError>(e) && lines_of(
                    old(out)@,
                ).is_prefix_of(lines_of(final(out)@)))
            }),
    {
        let ghost deck0 = self.deck@;
        let ghost hand0 = self.player_cards@;
        let ghost dc0 = self.cards@;
        let ghost lines0 = input.remaining();
        let ghost out0 = lines_of(out@);
        loop
            invariant
                deck0 == old(self).deck@,
                hand0 == old(self).player_cards@,
                dc0 == old(self).cards@,
                lines0 == old(input).remaining(),
                out0 == lines_of(old(out)@),
                input.wf(),
                valid_hand(self.deck@),
                valid_hand(self.player_cards@),
                raw_points(self.player_cards@) <= u8::MAX,
                self.cards@ == dc0,
                out0.is_prefix_of(lines_of(out@)),
                ({
                    let init = player_run(deck0, hand0, lines0);
                    let cur = player_run(self.deck@, self.player_cards@, input.remaining());
                    let emitted = lines_of(out@).skip(out0.len() as int);
                    &&& (cur matches Ok(t) ==> init == Ok::<_, GameError>(
                        (t.0, t.1, t.2, emitted + t.3, t.4),
                    ))
                    &&& (cur matches Err(e) ==> init == Err::<(
                        Seq<Card>,
                        Seq<Card>,
                        Seq<Seq<char>>,
                        Seq<Seq<char>>,
                        RoundOutcome,
                    ), _>(e))
                }),
            decreases input.remaining().len(),
        {
            let points = crate::score::count_points(&self.player_cards);
            if points == 21 || points > 21 {
                proof {
                    let emitted = lines_of(out@).skip(out0.len() as int);
                    assert(emitted + Seq::<Seq<char>>::empty() =~= emitted);
                    assert(lines_of(out@) =~= out0 + emitted);
                }
                if points == 21 {
                    return Ok(RoundOutcome::Won);
                } else {
                    return Ok(RoundOutcome::Lost);
                }
            }
            let ghost pre_deck = self.deck@;
            let ghost pre_hand = self.player_cards@;
            let ghost pre_emitted = lines_of(out@).skip(out0.len() as int);
            let prompt = String::from_str("Do you want one more card: y/n");
            let ghost gprompt = prompt;
            let ghost souts0 = out@;
            out.push(prompt);
            proof {
                lemma_lines_push(souts0, gprompt);
            }
            match input.next_line() {
                None => {
                    return Err(GameError::EndOfInput);
                },
                Some(line) => {
                    match normalize_choice(line.as_str()) {
                        Choice::Yes => {
                            match draw(&mut self.deck) {
                                Err(e) => {
                                    return Err(e);
                                },
                                Ok(card) => {
                                    let cline = String::from_str("Your card is ").concat(
                                        card.name.as_str(),
                                    );
                                    let ghost gcline = cline;
                                    let ghost souts1 = out@;
                                    out.push(cline);
                                    proof {
                                        lemma_lines_push(souts1, gcline);
                                    }
                                    let ghost gcard = card;
                                    self.player_cards.push(card);
                                    proof {
                                        lemma_valid_hand_push(pre_hand, gcard);
                                        lemma_raw_points_push(pre_hand, gcard);
                                        crate::score::lemma_ace_points(pre_hand);
                                        assert(self.deck@ == pre_deck.drop_last());
                                        assert(pre_deck.last() == gcard);
                                        let emitted1 = lines_of(out@).skip(out0.len() as int);
                                        assert(emitted1 =~= pre_emitted.push(prompt_msg()).push(
                                            player_card_msg(gcard),
                                        ));
                                        if let Ok(t) = player_run(
                                            self.deck@,
                                            self.player_cards@,
                                            input.remaining(),
                                        ) {
                                            assert(emitted1 + t.3 =~= pre_emitted + (seq![
                                                prompt_msg(),
                                                player_card_msg(gcard),
                                            ] + t.3));
                                        }
                                    }
                                },
                            }
                        },
                        Choice::No => {
                            proof {
                                let emitted1 = lines_of(out@).skip(out0.len() as int);
                                assert(emitted1 =~= pre_emitted + seq![prompt_msg()]);
                                assert(lines_of(out@) =~= out0 + emitted1);
                            }
                            return Ok(RoundOutcome::Unknown);
                        },
                        Choice::Other => {
                            let wrong = String::from_str("Wrong choice: y/n");
                            let ghost gwrong = wrong;
                            let ghost souts2 = out@;
                            out.push(wrong);
                            proof {
                                lemma_lines_push(souts2, gwrong);
                                let emitted1 = lines_of(out@).skip(out0.len() as int);
                                assert(emitted1 =~= pre_emitted.push(prompt_msg()).push(
                                    wrong_choice_msg(),
                                ));
                                if let Ok(t) = player_run(
                                    self.deck@,
                                    self.player_cards@,
                                    input.remaining(),
                                ) {
                                    assert(emitted1 + t.3 =~= pre_emitted + (seq![
                                        prompt_msg(),
                                        wrong_choice_msg(),
                                    ] + t.3));
                                }
                            }
                        },
                    }
                },
            }
        }
    }

    /// One round on the deck as it lies: deal both hands, announce the
    /// start, run the player loop and then, if the player neither won nor
    /// busted, the dealer policy; announce the result. The whole round is
    /// `round_run` of the entry state.
    pub fn run_round(&mut self, input: &mut InputScript, out: &mut Vec<String>) -> (res: Result<
        (),
        GameError,
    >)
        requires
            old(input).wf(),
            valid_hand(old(self).deck@),
            old(self).cards@.len() == 0,
            old(self).player_cards@.len() == 0,
        ensures
            final(input).wf(),
            round_post(
                old(self).deck@,
                old(self).cards@,
                old(self).player_cards@,
                old(input).remaining(),
                res,
                *final(self),
                lines_of(old(out)@),
                lines_of(final(out)@),
                final(input).remaining(),
            ),
    {
        let ghost deck0 = self.deck@;
        let ghost lines0 = input.remaining();
        let ghost out0 = lines_of(out@);
        if self.deck.len() < 4 {
            proof {
                assert(out0.is_prefix_of(lines_of(out@))) by {
                    assert(lines_of(out@).subrange(0, out0.len() as int) =~= out0);
                }
            }
            return Err(GameError::EmptyDeck);
        }
        self.game_init();
        let ghost dealer1 = self.cards@;
        let ghost player1 = self.player_cards@;
        proof {
            assert(valid_hand(dealer1) && valid_hand(player1)) by {
                assert(dealer1[0] == deck0[deck0.len() - 1] && dealer1[1] == deck0[deck0.len() - 3]
                    && player1[0] == deck0[deck0.len() - 2] && player1[1] == deck0[deck0.len()
                    - 4]);
            }
            assert(dealer1 =~= seq![dealer1[0], dealer1[1]]);
            assert(player1 =~= seq![player1[0], player1[1]]);
            lemma_raw_points_two(dealer1[0], dealer1[1]);
            lemma_raw_points_two(player1[0], player1[1]);
            assert(valid_hand(self.deck@)) by {
                assert(forall|i: int|
                    0 <= i < self.deck@.len() ==> #[trigger] self.deck@[i] == deck0[i]);
            }
        }
        self.print_msg("Game started!", out);
        let ghost start = status_msgs("Game started!"@, dealer1, player1);
        match self.game_player(input, out) {
            Err(e) => {
                proof {
                    lemma_prefix_of_concat(out0, start, lines_of(out@));
                }
                return Err(e);
            },
            Ok(RoundOutcome::Won) => {
                let ghost pm = lines_of(out@).skip((out0.len() + 3) as int);
                self.print_msg("Blackjack! You won!", out);
                proof {
                    if let Ok(t) = player_run(deck0.take(deck0.len() - 4), player1, lines0) {
                        assert(pm =~= t.3);
                    }
                    assert(lines_of(out@) =~= out0 + (start + pm + status_msgs(
                        "Blackjack! You won!"@,
                        dealer1,
                        self.player_cards@,
                    )));
                }
                Ok(())
            },
            Ok(RoundOutcome::Lost) => {
                let ghost pm = lines_of(out@).skip((out0.len() + 3) as int);
                self.print_msg("You lose.", out);
                proof {
                    if let Ok(t) = player_run(deck0.take(deck0.len() - 4), player1, lines0) {
                        assert(pm =~= t.3);
                    }
                    assert(lines_of(out@) =~= out0 + (start + pm + status_msgs(
                        "You lose."@,
                        dealer1,
                        self.player_cards@,
                    )));
                }
                Ok(())
            },
            Ok(RoundOutcome::Unknown) => {
                let ghost pm = lines_of(out@).skip((out0.len() + 3) as int);
                match self.game_dealer(out) {
                    Err(e) => {
                        proof {
                            lemma_prefix_of_concat(out0, start + pm, lines_of(out@));
                        }
                        return Err(e);
                    },
                    Ok(dres) => {
                        let ghost dm = lines_of(out@).skip(
                            (out0.len() + 3 + pm.len()) as int,
                        );
                        proof {
                            assert(lines_of(out@) =~= (out0 + start + pm) + dm);
                            if let Ok(t) = player_run(
                                deck0.take(deck0.len() - 4),
                                player1,
                                lines0,
                            ) {
                                assert(pm =~= t.3);
                                if let Ok(d) = dealer_run(t.0, dealer1) {
                                    assert(dm =~= d.2);
                                }
                            }
                        }
                        match dres {
                            RoundOutcome::Won => {
                                self.print_msg("Blackjack! Computer won!", out);
                                proof {
                                    assert(lines_of(out@) =~= out0 + (start + pm + dm
                                        + status_msgs(
                                        "Blackjack! Computer won!"@,
                                        self.cards@,
                                        self.player_cards@,
                                    )));
                                }
                                Ok(())
                            },
                            RoundOutcome::Lost => {
                                self.print_msg("You won!", out);
                                proof {
                                    assert(lines_of(out@) =~= out0 + (start + pm + dm
                                        + status_msgs(
                                        "You won!"@,
                                        self.cards@,
                                        self.player_cards@,
                                    )));
                                }
                                Ok(())
                            },
                            RoundOutcome::Unknown => {
                                let player_points = crate::score::count_points(&self.player_cards);
                                let dealer_points = crate::score::count_points(&self.cards);
                                if player_points > dealer_points {
                                    self.print_msg("You won!", out);
                                    proof {
                                        assert(lines_of(out@) =~= out0 + (start + pm + dm
                                            + status_msgs(
                                            "You won!"@,
                                            self.cards@,
                                            self.player_cards@,
                                        )));
                                    }
                                } else if dealer_points > player_points {
                                    self.print_msg("You lose.", out);
                                    proof {
                                        assert(lines_of(out@) =~= out0 + (start + pm + dm
                                            + status_msgs(
                                            "You lose."@,
                                            self.cards@,
                                            self.player_cards@,
                                        )));
                                    }
                                } else {
                                    self.print_msg("That's a draw.", out);
                                    proof {
                                        assert(lines_of(out@) =~= out0 + (start + pm + dm
                                            + status_msgs(
                                            "That's a draw."@,
                                            self.cards@,
                                            self.player_cards@,
                                        )));
                                    }
                                }
                                Ok(())
                            },
                        }
                    },
                }
            },
        }
    }

    /// One full round as the original plays it: shuffle the deck, then run
    /// the round on it. Whatever order the shuffle produced, it is a
    /// permutation of the deck handed in and the round is `round_run` on it.
    pub fn play(&mut self, input: &mut InputScript, out: &mut Vec<String>) -> (res: Result<
        (),
        GameError,
    >)
        requires
            old(input).wf(),
            valid_hand(old(self).deck@),
            old(self).cards@.len() == 0,
            old(self).player_cards@.len() == 0,
        ensures
            final(input).wf(),
            exists|shuffled: Seq<Card>|
                {
                    &&& shuffled.to_multiset() == old(self).deck@.to_multiset()
                    &&& #[trigger] round_post(
                        shuffled,
                        old(self).cards@,
                        old(self).player_cards@,
                        old(input).remaining(),
                        res,
                        *final(self),
                        lines_of(old(out)@),
                        lines_of(final(out)@),
                        final(input).remaining(),
                    )
                },
    {
        self.shuffle();
        proof {
            lemma_permutation_preserves_valid(old(self).deck@, self.deck@);
        }
        let ghost shuffled = self.deck@;
        let res = self.run_round(input, out);
        proof {
            assert(round_post(
                shuffled,
                old(self).cards@,
                old(self).player_cards@,
                old(input).remaining(),
                res,
                *self,
                lines_of(old(out)@),
                lines_of(out@),
                input.remaining(),
            ));
        }
        res
    }
}

/// When an extension `a + b` leads a sequence, so does `a` alone.
proof fn lemma_prefix_of_concat(a: Seq<Seq<char>>, b: Seq<Seq<char>>, c: Seq<Seq<char>>)
    requires
        (a + b).is_prefix_of(c),
    ensures
        a.is_prefix_of(c),
{
    assert(c.subrange(0, a.len() as int) =~= (a + b).subrange(0, a.len() as int));
    assert((a + b).subrange(0, a.len() as int) =~= a);
}

/// One line reporting a card drawn by the dealer.
pub open spec fn dealer_card_msg(c: Card) -> Seq<char> {
    "Dealer's card is "@ + c.name@
}

/// One line reporting a card drawn by the player.
pub open spec fn player_card_msg(c: Card) -> Seq<char> {
    "Your card is "@ + c.name@
}

/// The dealer policy as a function of deck and hand: while the score is
/// under 17 the top deck card moves to the hand and its rank is reported;
/// then 21 is a win, above 21 a bust, and 17 to 20 undecided. Fails when
/// the deck runs out first.
pub open spec fn dealer_run(deck: Seq<Card>, hand: Seq<Card>) -> Result<
    (Seq<Card>, Seq<Card>, Seq<Seq<char>>, RoundOutcome),
    GameError,
>
    decreases deck.len(),
{
    let p = score(hand);
    if p < 17 {
        if deck.len() == 0 {
            Err(GameError::EmptyDeck)
        } else {
            match dealer_run(deck.drop_last(), hand.push(deck.last())) {
                Ok(t) => Ok((t.0, t.1, seq![dealer_card_msg(deck.last())] + t.2, t.3)),
                Err(e) => Err(e),
            }
        }
    } else if p == 21 {
        Ok((deck, hand, seq![], RoundOutcome::Won))
    } else if p > 21 {
        Ok((deck, hand, seq![], RoundOutcome::Lost))
    } else {
        Ok((deck, hand, seq![], RoundOutcome::Unknown))
    }
}

/// The prompt put out before each player decision.
pub open spec fn prompt_msg() -> Seq<char> {
    "Do you want one more card: y/n"@
}

/// The line put out when an input line is neither "y" nor "n".
pub open spec fn wrong_choice_msg() -> Seq<char> {
    "Wrong choice: y/n"@
}

/// The player loop as a function of deck, hand and the input lines: exactly
/// 21 wins and above 21 busts at once; otherwise one line is consumed after
/// a prompt. A normalized "y" draws the top deck card and reports it, "n"
/// stands (undecided), anything else is rejected with a report and asked
/// again. Fails when the lines run out mid-prompt, or the deck on a draw.
pub open spec fn player_run(deck: Seq<Card>, hand: Seq<Card>, lines: Seq<Seq<char>>) -> Result<
    (Seq<Card>, Seq<Card>, Seq<Seq<char>>, Seq<Seq<char>>, RoundOutcome),
    GameError,
>
    decreases lines.len(),
{
    let p = score(hand);
    if p == 21 {
        Ok((deck, hand, lines, seq![], RoundOutcome::Won))
    } else if p > 21 {
        Ok((deck, hand, lines, seq![], RoundOutcome::Lost))
    } else if lines.len() == 0 {
        Err(GameError::EndOfInput)
    } else {
        let c = crate::console::choice_of(
            crate::console::lower_of(crate::console::trim_of(lines[0])),
        );
        if c is Yes {
            if deck.len() == 0 {
                Err(GameError::EmptyDeck)
            } else {
                match player_run(deck.drop_last(), hand.push(deck.last()), lines.drop_first()) {
                    Ok(t) => Ok(
                        (
                            t.0,
                            t.1,
                            t.2,
                            seq![prompt_msg(), player_card_msg(deck.last())] + t.3,
                            t.4,
                        ),
                    ),
                    Err(e) => Err(e),
                }
            }
        } else if c is No {
            Ok((deck, hand, lines.drop_first(), seq![prompt_msg()], RoundOutcome::Unknown))
        } else {
            match player_run(deck, hand, lines.drop_first()) {
                Ok(t) => Ok((t.0, t.1, t.2, seq![prompt_msg(), wrong_choice_msg()] + t.3, t.4)),
                Err(e) => Err(e),
            }
        }
    }
}

/// One whole round as a function of the (already shuffled) deck, the two
/// starting hands and the input lines: deal two cards to each hand
/// alternating dealer, player, dealer, player; announce the start; run the
/// player loop; on a win or bust announce it, otherwise run the dealer
/// policy and announce its result, comparing scores when both stand. On
/// success: final deck, dealer hand, player hand, transcript, input left.
pub open spec fn round_run(
    deck: Seq<Card>,
    dealer0: Seq<Card>,
    player0: Seq<Card>,
    lines: Seq<Seq<char>>,
) -> Result<(Seq<Card>, Seq<Card>, Seq<Card>, Seq<Seq<char>>, Seq<Seq<char>>), GameError> {
    if deck.len() < 4 {
        Err(GameError::EmptyDeck)
    } else {
        let deck1 = deck.take(deck.len() - 4);
        let dealer1 = dealer0 + seq![deck[deck.len() - 1], deck[deck.len() - 3]];
        let player1 = player0 + seq![deck[deck.len() - 2], deck[deck.len() - 4]];
        let start = status_msgs("Game started!"@, dealer1, player1);
        match player_run(deck1, player1, lines) {
            Err(e) => Err(e),
            Ok(pt) => {
                if pt.4 is Won {
                    Ok(
                        (
                            pt.0,
                            dealer1,
                            pt.1,
                            start + pt.3 + status_msgs("Blackjack! You won!"@, dealer1, pt.1),
                            pt.2,
                        ),
                    )
                } else if pt.4 is Lost {
                    Ok(
                        (
                            pt.0,
                            dealer1,
                            pt.1,
                            start + pt.3 + status_msgs("You lose."@, dealer1, pt.1),
                            pt.2,
                        ),
                    )
                } else {
                    match dealer_run(pt.0, dealer1) {
                        Err(e) => Err(e),
                        Ok(dt) => {
                            let m = if dt.3 is Won {
                                "Blackjack! Computer won!"@
                            } else if dt.3 is Lost {
                                "You won!"@
                            } else if score(pt.1) > score(dt.1) {
                                "You won!"@
                            } else if score(dt.1) > score(pt.1) {
                                "You lose."@
                            } else {
                                "That's a draw."@
                            };
                            Ok(
                                (
                                    dt.0,
                                    dt.1,
                                    pt.1,
                                    start + pt.3 + dt.2 + status_msgs(m, dt.1, pt.1),
                                    pt.2,
                                ),
                            )
                        },
                    }
                }
            },
        }
    }
}

/// What a finished round guarantees: result, final state, transcript growth
/// and remaining input are `round_run` of the starting state.
pub open spec fn round_post(
    deck: Seq<Card>,
    dealer0: Seq<Card>,
    player0: Seq<Card>,
    lines: Seq<Seq<char>>,
    res: Result<(), GameError>,
    g: Dealer,
    out_old: Seq<Seq<char>>,
    out_new: Seq<Seq<char>>,
    lines_left: Seq<Seq<char>>,
) -> bool {
    let init = round_run(deck, dealer0, player0, lines);
    &&& (init matches Ok(t) ==> res is Ok && g.deck@ == t.0 && g.cards@ == t.1 && g.player_cards@
        == t.2 && out_new == out_old + t.3 && lines_left == t.4)
    &&& (init matches Err(e) ==> res == Err::<(), GameError>(e) && out_old.is_prefix_of(out_new))
}

/// Both cards of a freshly dealt hand count their full value.
proof fn lemma_raw_points_two(a: Card, b: Card)
    ensures
        raw_points(seq![a, b]) == a.value + b.value,
{
    assert(raw_points(Seq::<Card>::empty()) == 0);
    assert(raw_points(seq![a]) == a.value) by {
        assert(seq![a].drop_last() =~= Seq::<Card>::empty());
        assert(seq![a].last() == a);
    }
    assert(seq![a, b].drop_last() =~= seq![a]);
    assert(seq![a, b].last() == b);
}

/// Law: the dealer's loop neither creates nor destroys cards — whenever it
/// reaches a result, the deck and the dealer's hand together hold exactly
/// the cards they held together at its start.
pub proof fn lemma_dealer_run_conserves_cards(deck: Seq<Card>, hand: Seq<Card>)
    ensures
        dealer_run(deck, hand) matches Ok(t) ==> t.0.to_multiset().add(t.1.to_multiset())
            == deck.to_multiset().add(hand.to_multiset()),
    decreases deck.len(),
{
    broadcast use vstd::seq_lib::group_to_multiset_ensures;

    if score(hand) < 17 && deck.len() > 0 {
        lemma_dealer_run_conserves_cards(deck.drop_last(), hand.push(deck.last()));
        assert(deck =~= deck.drop_last().push(deck.last()));
        assert(deck.drop_last().to_multiset().add(hand.push(deck.last()).to_multiset())
            =~= deck.to_multiset().add(hand.to_multiset()));
    }
}

/// Law: the player's loop neither creates nor destroys cards — whenever it
/// reaches a result, the deck and the player's hand together hold exactly
/// the cards they held together at its start.
pub proof fn lemma_player_run_conserves_cards(deck: Seq<Card>, hand: Seq<Card>, lines: Seq<Seq<char>>)
    ensures
        player_run(deck, hand, lines) matches Ok(t) ==> t.0.to_multiset().add(t.1.to_multiset())
            == deck.to_multiset().add(hand.to_multiset()),
    decreases lines.len(),
{
    broadcast use vstd::seq_lib::group_to_multiset_ensures;

    let p = score(hand);
    if p == 21 || p > 21 || lines.len() == 0 {
    } else {
        let c = crate::console::choice_of(
            crate::console::lower_of(crate::console::trim_of(lines[0])),
        );
        if c is Yes {
            if deck.len() > 0 {
                lemma_player_run_conserves_cards(
                    deck.drop_last(),
                    hand.push(deck.last()),
                    lines.drop_first(),
                );
                assert(deck =~= deck.drop_last().push(deck.last()));
                assert(deck.drop_last().to_multiset().add(hand.push(deck.last()).to_multiset())
                    =~= deck.to_multiset().add(hand.to_multiset()));
            }
        } else if c is No {
        } else {
            lemma_player_run_conserves_cards(deck, hand, lines.drop_first());
        }
    }
}

/// Law: a whole round only redistributes the deck — whenever it resolves,
/// the final deck and both hands together hold exactly the cards that the
/// starting deck and hands held together, so no card is ever drawn twice.
pub proof fn lemma_round_run_conserves_cards(
    deck: Seq<Card>,
    dealer0: Seq<Card>,
    player0: Seq<Card>,
    lines: Seq<Seq<char>>,
)
    ensures
        round_run(deck, dealer0, player0, lines) matches Ok(t) ==> t.0.to_multiset().add(
            t.1.to_multiset(),
        ).add(t.2.to_multiset()) == deck.to_multiset().add(dealer0.to_multiset()).add(
            player0.to_multiset(),
        ),
{
    broadcast use vstd::seq_lib::group_to_multiset_ensures;

    if deck.len() >= 4 {
        let l = deck.len() as int;
        let deck1 = deck.take(l - 4);
        let dealer1 = dealer0 + seq![deck[l - 1], deck[l - 3]];
        let player1 = player0 + seq![deck[l - 2], deck[l - 4]];
        assert(deck =~= deck1.push(deck[l - 4]).push(deck[l - 3]).push(deck[l - 2]).push(
            deck[l - 1],
        ));
        assert(dealer1 =~= dealer0.push(deck[l - 1]).push(deck[l - 3]));
        assert(player1 =~= player0.push(deck[l - 2]).push(deck[l - 4]));
        assert(deck1.to_multiset().add(dealer1.to_multiset()).add(player1.to_multiset())
            =~= deck.to_multiset().add(dealer0.to_multiset()).add(player0.to_multiset()));
        if let Ok(pt) = player_run(deck1, player1, lines) {
            lemma_player_run_conserves_cards(deck1, player1, lines);
            if pt.4 is Won || pt.4 is Lost {
                assert(pt.0.to_multiset().add(dealer1.to_multiset()).add(pt.1.to_multiset())
                    =~= pt.0.to_multiset().add(pt.1.to_multiset()).add(dealer1.to_multiset()));
                assert(deck1.to_multiset().add(player1.to_multiset()).add(dealer1.to_multiset())
                    =~= deck1.to_multiset().add(dealer1.to_multiset()).add(
                    player1.to_multiset(),
                ));
            } else {
                if let Ok(dt) = dealer_run(pt.0, dealer1) {
                    lemma_dealer_run_conserves_cards(pt.0, dealer1);
                    assert(dt.0.to_multiset().add(dt.1.to_multiset()).add(pt.1.to_multiset())
                        =~= pt.0.to_multiset().add(dealer1.to_multiset()).add(
                        pt.1.to_multiset(),
                    ));
                    assert(pt.0.to_multiset().add(dealer1.to_multiset()).add(pt.1.to_multiset())
                        =~= pt.0.to_multiset().add(pt.1.to_multiset()).add(
                        dealer1.to_multiset(),
                    ));
                    assert(deck1.to_multiset().add(player1.to_multiset()).add(
                        dealer1.to_multiset(),
                    ) =~= deck1.to_multiset().add(dealer1.to_multiset()).add(
                        player1.to_multiset(),
                    ));
                }
            }
        }
    }
}

/// A permutation of a valid deck is a valid deck.
pub proof fn lemma_permutation_preserves_valid(s1: Seq<Card>, s2: Seq<Card>)
    requires
        valid_hand(s1),
        s2.to_multiset() == s1.to_multiset(),
    ensures
        valid_hand(s2),
{
    broadcast use vstd::seq_lib::group_to_multiset_ensures;

    assert forall|i: int| 0 <= i < s2.len() implies crate::card::valid_card(#[trigger] s2[i]) by {
        assert(s2.contains(s2[i]));
        assert(s2.to_multiset().count(s2[i]) > 0);
        assert(s1.contains(s2[i]));
        let j = choose|j: int| 0 <= j < s1.len() && s1[j] == s2[i];
        assert(crate::card::valid_card(s1[j]));
    }
}

/// Draws the top card, or reports the fatal empty-deck fault.
fn draw(deck: &mut Vec<Card>) -> (r: Result<Card, GameError>)
    ensures
        old(deck)@.len() > 0 ==> (r matches Ok(c) && c == old(deck)@.last() && final(deck)@ == old(
            deck,
        )@.drop_last()),
        old(deck)@.len() == 0 ==> (r matches Err(e) && e == GameError::EmptyDeck && final(deck)@
            == old(deck)@),
{
    match deck.pop() {
        Some(c) => {
            proof {
                assert(deck@ =~= old(deck)@.drop_last());
            }
            Ok(c)
        },
        None => Err(GameError::EmptyDeck),
    }
}

} // verus!
