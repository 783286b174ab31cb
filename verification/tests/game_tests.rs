use blackjack::card::Card;
use blackjack::console::InputScript;
use blackjack::game::Dealer;
use blackjack::game::GameError;
use blackjack::game::RoundOutcome;
use blackjack::score::count_points;

fn card(name: &str, value: u8) -> Card {
    Card { name: String::from(name), value }
}

fn script(lines: &[&str]) -> InputScript {
    InputScript::new(lines.iter().map(|l| String::from(*l)).collect())
}

#[test]
fn fresh_deck_has_52_cards_4_of_each_rank_380_points() {
    let d = Dealer::new();
    assert_eq!(d.deck.len(), 52);
    assert_eq!(d.cards.len(), 0);
    assert_eq!(d.player_cards.len(), 0);
    let ranks = [
        "2", "3", "4", "5", "6", "7", "8", "9", "10", "J", "Q", "K", "A",
    ];
    for rank in ranks.iter() {
        let n = d.deck.iter().filter(|c| c.name == *rank).count();
        assert_eq!(n, 4, "rank {} should appear 4 times", rank);
    }
    let total: u32 = d.deck.iter().map(|c| c.value as u32).sum();
    assert_eq!(total, 380);
}

#[test]
fn shuffle_keeps_the_same_multiset_of_cards() {
    let mut d = Dealer::new();
    let mut before: Vec<(String, u8)> =
        d.deck.iter().map(|c| (c.name.clone(), c.value)).collect();
    d.shuffle();
    let mut after: Vec<(String, u8)> =
        d.deck.iter().map(|c| (c.name.clone(), c.value)).collect();
    assert_eq!(after.len(), 52);
    before.sort();
    after.sort();
    assert_eq!(before, after);
}

#[test]
fn count_points_ace_and_ten_is_21() {
    let hand = vec![card("A", 11), card("10", 10)];
    assert_eq!(count_points(&hand), 21);
}

#[test]
fn count_points_two_aces_and_ten_demotes_both_aces() {
    let hand = vec![card("A", 11), card("A", 11), card("10", 10)];
    assert_eq!(count_points(&hand), 12);
}

#[test]
fn count_points_busted_hand_without_aces_stays_busted() {
    let hand = vec![card("10", 10), card("9", 9), card("5", 5)];
    assert_eq!(count_points(&hand), 24);
}

#[test]
fn stringify_joins_ranks_with_commas() {
    let hand = vec![card("A", 11), card("10", 10)];
    assert_eq!(blackjack::score::stringify(&hand), "A,10");
    let empty: Vec<Card> = vec![];
    assert_eq!(blackjack::score::stringify(&empty), "");
}

#[test]
fn game_init_deals_two_cards_each_alternating() {
    let mut g = Dealer {
        deck: vec![card("5", 5), card("4", 4), card("3", 3), card("2", 2)],
        cards: vec![],
        player_cards: vec![],
    };
    g.game_init();
    assert_eq!(g.deck.len(), 0);
    assert_eq!(g.cards.len(), 2);
    assert_eq!(g.player_cards.len(), 2);
    assert_eq!(g.cards[0].name, "2");
    assert_eq!(g.player_cards[0].name, "3");
    assert_eq!(g.cards[1].name, "4");
    assert_eq!(g.player_cards[1].name, "5");
}

#[test]
fn player_draws_twice_then_stands_on_scripted_input() {
    let mut g = Dealer {
        deck: vec![card("3", 3), card("2", 2)],
        cards: vec![],
        player_cards: vec![card("10", 10), card("2", 2)],
    };
    let mut input = script(&["y", "y", "n"]);
    let mut out: Vec<String> = Vec::new();
    let res = g.game_player(&mut input, &mut out);
    assert_eq!(res, Ok(RoundOutcome::Unknown));
    assert_eq!(g.player_cards.len(), 4);
    assert_eq!(g.deck.len(), 0);
    assert_eq!(count_points(&g.player_cards), 17);
    assert!(out.contains(&String::from("Do you want one more card: y/n")));
    assert!(out.contains(&String::from("Your card is 2")));
    assert!(out.contains(&String::from("Your card is 3")));
}

#[test]
fn round_fails_when_the_deck_cannot_deal_two_hands() {
    let mut g = Dealer {
        deck: vec![card("5", 5), card("4", 4), card("3", 3)],
        cards: vec![],
        player_cards: vec![],
    };
    let mut input = script(&["n"]);
    let mut out: Vec<String> = Vec::new();
    assert_eq!(g.run_round(&mut input, &mut out), Err(GameError::EmptyDeck));
}

#[test]
fn player_rejects_an_invalid_line_without_touching_hand_or_deck() {
    let mut g = Dealer {
        deck: vec![card("5", 5)],
        cards: vec![],
        player_cards: vec![card("10", 10), card("2", 2)],
    };
    let mut input = script(&["x", "n"]);
    let mut out: Vec<String> = Vec::new();
    let res = g.game_player(&mut input, &mut out);
    assert_eq!(res, Ok(RoundOutcome::Unknown));
    assert_eq!(g.player_cards.len(), 2);
    assert_eq!(g.deck.len(), 1);
    assert!(out.contains(&String::from("Wrong choice: y/n")));
}

#[test]
fn player_input_is_trimmed_and_lowercased() {
    let mut g = Dealer {
        deck: vec![card("5", 5)],
        cards: vec![],
        player_cards: vec![card("10", 10), card("2", 2)],
    };
    let mut input = script(&["  Y ", " N"]);
    let mut out: Vec<String> = Vec::new();
    let res = g.game_player(&mut input, &mut out);
    assert_eq!(res, Ok(RoundOutcome::Unknown));
    assert_eq!(g.player_cards.len(), 3, "\" Y \" must draw a card");
    assert_eq!(g.deck.len(), 0);
}

#[test]
fn player_wins_at_once_on_21() {
    let mut g = Dealer {
        deck: vec![card("5", 5)],
        cards: vec![],
        player_cards: vec![card("A", 11), card("10", 10)],
    };
    let mut input = script(&[]);
    let mut out: Vec<String> = Vec::new();
    assert_eq!(g.game_player(&mut input, &mut out), Ok(RoundOutcome::Won));
    assert_eq!(g.player_cards.len(), 2);
}

#[test]
fn player_busts_when_a_draw_passes_21() {
    let mut g = Dealer {
        deck: vec![card("10", 10)],
        cards: vec![],
        player_cards: vec![card("10", 10), card("5", 5)],
    };
    let mut input = script(&["y"]);
    let mut out: Vec<String> = Vec::new();
    assert_eq!(g.game_player(&mut input, &mut out), Ok(RoundOutcome::Lost));
    assert_eq!(count_points(&g.player_cards), 25);
}

#[test]
fn player_loop_fails_when_input_runs_out() {
    let mut g = Dealer {
        deck: vec![card("5", 5)],
        cards: vec![],
        player_cards: vec![card("10", 10), card("2", 2)],
    };
    let mut input = script(&[]);
    let mut out: Vec<String> = Vec::new();
    assert_eq!(
        g.game_player(&mut input, &mut out),
        Err(GameError::EndOfInput)
    );
}

#[test]
fn player_draw_fails_on_an_empty_deck() {
    let mut g = Dealer {
        deck: vec![],
        cards: vec![],
        player_cards: vec![card("10", 10), card("2", 2)],
    };
    let mut input = script(&["y"]);
    let mut out: Vec<String> = Vec::new();
    assert_eq!(
        g.game_player(&mut input, &mut out),
        Err(GameError::EmptyDeck)
    );
}

#[test]
fn dealer_at_16_draws_until_17_or_more_then_stops() {
    let mut g = Dealer {
        deck: vec![card("9", 9), card("2", 2)],
        cards: vec![card("10", 10), card("6", 6)],
        player_cards: vec![],
    };
    let mut out: Vec<String> = Vec::new();
    let res = g.game_dealer(&mut out);
    assert_eq!(res, Ok(RoundOutcome::Unknown));
    assert_eq!(g.cards.len(), 3);
    assert_eq!(count_points(&g.cards), 18);
    assert_eq!(g.deck.len(), 1, "only one card may be drawn");
    assert!(out.contains(&String::from("Dealer's card is 2")));
}

#[test]
fn dealer_at_19_draws_no_card() {
    let mut g = Dealer {
        deck: vec![card("5", 5)],
        cards: vec![card("10", 10), card("9", 9)],
        player_cards: vec![],
    };
    let mut out: Vec<String> = Vec::new();
    assert_eq!(g.game_dealer(&mut out), Ok(RoundOutcome::Unknown));
    assert_eq!(g.cards.len(), 2);
    assert_eq!(g.deck.len(), 1);
    assert!(out.is_empty());
}

#[test]
fn dealer_wins_on_exactly_21_and_busts_above() {
    let mut g = Dealer {
        deck: vec![card("5", 5)],
        cards: vec![card("10", 10), card("6", 6), card("5", 5)],
        player_cards: vec![],
    };
    let mut out: Vec<String> = Vec::new();
    assert_eq!(g.game_dealer(&mut out), Ok(RoundOutcome::Won));

    let mut busted = Dealer {
        deck: vec![card("10", 10)],
        cards: vec![card("10", 10), card("6", 6)],
        player_cards: vec![],
    };
    assert_eq!(busted.game_dealer(&mut out), Ok(RoundOutcome::Lost));
    assert_eq!(count_points(&busted.cards), 26);
}

#[test]
fn round_player_stands_at_20_dealer_draws_to_18_player_wins() {
    // pops deal: dealer 10, player 10, dealer 6, player 10; dealer then draws 2
    let mut g = Dealer {
        deck: vec![
            card("2", 2),
            card("10", 10),
            card("6", 6),
            card("10", 10),
            card("10", 10),
        ],
        cards: vec![],
        player_cards: vec![],
    };
    let mut input = script(&["n"]);
    let mut out: Vec<String> = Vec::new();
    assert_eq!(g.run_round(&mut input, &mut out), Ok(()));
    assert_eq!(count_points(&g.player_cards), 20);
    assert_eq!(count_points(&g.cards), 18);
    let n = out.len();
    assert_eq!(out[n - 3], "You won!");
    assert_eq!(out[n - 2], "Dealer's cards are: 10,6,2");
    assert_eq!(out[n - 1], "Your cards are: 10,10");
}

#[test]
fn round_both_stand_at_18_is_a_draw() {
    // pops deal: dealer 10, player 10, dealer 6, player 8; dealer then draws 2
    let mut g = Dealer {
        deck: vec![
            card("2", 2),
            card("8", 8),
            card("6", 6),
            card("10", 10),
            card("10", 10),
        ],
        cards: vec![],
        player_cards: vec![],
    };
    let mut input = script(&["n"]);
    let mut out: Vec<String> = Vec::new();
    assert_eq!(g.run_round(&mut input, &mut out), Ok(()));
    assert_eq!(count_points(&g.player_cards), 18);
    assert_eq!(count_points(&g.cards), 18);
    let n = out.len();
    assert_eq!(out[n - 3], "That's a draw.");
    assert_eq!(out[0], "Game started!");
}

#[test]
fn play_finishes_a_full_round_on_a_fresh_deck() {
    // stand at once: the round always resolves and reports both hands
    let mut g = Dealer::new();
    let mut input = script(&["n"]);
    let mut out: Vec<String> = Vec::new();
    let res = g.play(&mut input, &mut out);
    assert_eq!(res, Ok(()));
    assert_eq!(g.cards.len() + g.player_cards.len() + g.deck.len(), 52);
    assert_eq!(out[0], "Game started!");
    let last = &out[out.len() - 3];
    assert!(
        last == "You won!"
            || last == "You lose."
            || last == "That's a draw."
            || last == "Blackjack! You won!"
            || last == "Blackjack! Computer won!"
    );
}
