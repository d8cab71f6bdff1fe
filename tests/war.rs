use std::collections::VecDeque;

use war::card::{create_deck, Card};
use war::deal::{deal, deal_cards};
use war::game::{play, play_game, play_hands, play_shuffled, GameResult};
use war::round::play_round;

#[test]
fn card_eq() {
    let ace_spades = Card(1);
    let ace_hearts = Card(1);
    assert_eq!(ace_spades, ace_hearts);
}

#[test]
fn card_ord() {
    let five_clubs = Card(5);
    let jack_diamonds = Card(11);
    assert!(five_clubs < jack_diamonds);
}

#[test]
fn check_deck() {
    let deck = create_deck();

    assert_eq!(deck.len(), 52);

    assert_eq!(deck[0], Card(1));
    assert_eq!(deck[10], Card(3));
    assert_eq!(deck[51], Card(13));
}

#[test]
fn check_deal_basics() {
    let mut deck = create_deck();

    let (deck_1, deck_2) = deal_cards(&mut deck);

    assert_eq!(deck_1.len(), deck_2.len());
    assert_eq!(deck_1.len(), 26);
}

#[test]
fn check_empty_round() {
    let mut deck_1 = VecDeque::new();
    let mut deck_2 = VecDeque::new();

    play_round(&mut deck_1, &mut deck_2);
    assert_eq!(deck_1, deck_2);
}

#[test]
fn check_simple_round() {
    let mut deck_1 = VecDeque::from([Card(2)]);
    let mut deck_2 = VecDeque::from([Card(5)]);

    play_round(&mut deck_1, &mut deck_2);
    assert_ne!(deck_1, deck_2);
    assert_eq!(deck_2, VecDeque::from([Card(5), Card(2)]));
    assert!(deck_1.is_empty());
}

#[test]
fn check_war_round() {
    let mut deck_1 = VecDeque::from([Card(2), Card(3), Card(5)]);
    let mut deck_2 = VecDeque::from([Card(2), Card(3), Card(6)]);

    play_round(&mut deck_1, &mut deck_2);
    assert_ne!(deck_1, deck_2);
    assert_eq!(
        deck_2,
        VecDeque::from([Card(6), Card(5), Card(3), Card(3), Card(2), Card(2)])
    );
    assert!(deck_1.is_empty());
}

#[test]
fn check_integration_sanity() {
    let res = play();
    assert!(res == "Player 1" || res == "Player 2" || res == "Draw!");
}

fn rank_counts(cards: &[Card]) -> Vec<usize> {
    let mut counts = vec![0usize; 14];
    for c in cards {
        counts[c.0 as usize] += 1;
    }
    counts
}

#[test]
fn deck_has_four_of_each_rank() {
    let deck = create_deck();
    let counts = rank_counts(&deck);
    assert_eq!(counts[0], 0);
    for rank in 1..14 {
        assert_eq!(counts[rank], 4);
    }
    for i in 0..52 {
        assert_eq!(deck[i], Card((i / 4 + 1) as u8));
    }
}

#[test]
fn deal_keeps_every_card() {
    let mut deck = create_deck();
    let (h1, h2) = deal_cards(&mut deck);
    assert!(deck.is_empty());
    assert_eq!(h1.len(), 26);
    assert_eq!(h2.len(), 26);
    let mut all: Vec<Card> = h1.iter().copied().collect();
    all.extend(h2.iter().copied());
    assert_eq!(rank_counts(&all), rank_counts(&create_deck()));
}

#[test]
fn deal_alternates_from_the_back() {
    let mut deck = create_deck();
    let (h1, h2) = deal(&mut deck);
    assert!(deck.is_empty());
    assert_eq!(h1[0], Card(13));
    assert_eq!(h2[0], Card(13));
    assert_eq!(h1[2], Card(12));
    assert_eq!(h1[25], Card(1));
    assert_eq!(h2[25], Card(1));
}

#[test]
fn round_player_one_wins() {
    let mut h1 = VecDeque::from([Card(9), Card(4)]);
    let mut h2 = VecDeque::from([Card(3), Card(7)]);
    play_round(&mut h1, &mut h2);
    assert_eq!(h1, VecDeque::from([Card(4), Card(3), Card(9)]));
    assert_eq!(h2, VecDeque::from([Card(7)]));
}

#[test]
fn round_with_one_empty_hand_is_noop() {
    let mut h1 = VecDeque::from([Card(9), Card(4)]);
    let mut h2: VecDeque<Card> = VecDeque::new();
    play_round(&mut h1, &mut h2);
    assert_eq!(h1, VecDeque::from([Card(9), Card(4)]));
    assert!(h2.is_empty());
}

#[test]
fn war_that_empties_a_hand_abandons_the_stack() {
    let mut h1 = VecDeque::from([Card(7)]);
    let mut h2 = VecDeque::from([Card(7), Card(2), Card(3)]);
    play_round(&mut h1, &mut h2);
    assert!(h1.is_empty());
    assert_eq!(h2, VecDeque::from([Card(2), Card(3)]));
}

#[test]
fn war_with_face_down_cards_exhausting_hand() {
    let mut h1 = VecDeque::from([Card(5), Card(8)]);
    let mut h2 = VecDeque::from([Card(5), Card(1), Card(4)]);
    play_round(&mut h1, &mut h2);
    assert!(h1.is_empty());
    assert_eq!(h2, VecDeque::from([Card(4)]));
}

#[test]
fn game_results() {
    assert_eq!(
        play_hands(VecDeque::from([Card(2)]), VecDeque::from([Card(5)])),
        GameResult::Player2Wins
    );
    assert_eq!(
        play_hands(VecDeque::from([Card(9), Card(8)]), VecDeque::from([Card(5)])),
        GameResult::Player1Wins
    );
    assert_eq!(
        play_hands(VecDeque::from([Card(4)]), VecDeque::from([Card(4)])),
        GameResult::Draw
    );
    assert_eq!(play_hands(VecDeque::new(), VecDeque::new()), GameResult::Draw);
}

#[test]
fn endless_game_is_a_draw() {
    // Each player wins one card back and forth forever.
    assert_eq!(
        play_hands(
            VecDeque::from([Card(2), Card(9)]),
            VecDeque::from([Card(8), Card(3)])
        ),
        GameResult::Draw
    );
}

#[test]
fn same_deck_order_same_result() {
    let first = play_shuffled(create_deck());
    let second = play_shuffled(create_deck());
    assert_eq!(first, second);
    let mut reversed = create_deck();
    reversed.reverse();
    assert_eq!(play_shuffled(reversed.clone()), play_shuffled(reversed));
}

#[test]
fn unshuffled_deck_is_all_wars() {
    // Both players receive identical hands: every reveal ties until the
    // hands are exhausted and the piles are abandoned.
    assert_eq!(play_shuffled(create_deck()), GameResult::Draw);
}

#[test]
fn play_game_returns_a_result() {
    let r = play_game();
    assert!(matches!(
        r,
        GameResult::Player1Wins | GameResult::Player2Wins | GameResult::Draw
    ));
}

#[test]
fn labels() {
    assert_eq!(GameResult::Player1Wins.label(), "Player 1");
    assert_eq!(GameResult::Player2Wins.label(), "Player 2");
    assert_eq!(GameResult::Draw.label(), "Draw!");
}

#[test]
fn deal_cards_shuffles_the_deck() {
    let mut unshuffled = create_deck();
    let (u1, u2) = deal(&mut unshuffled);
    let mut deck = create_deck();
    let (h1, h2) = deal_cards(&mut deck);
    assert!(h1 != u1 || h2 != u2);
}

#[test]
fn running_game_keeps_fifty_two_cards() {
    let mut deck = create_deck();
    let (mut h1, mut h2) = deal_cards(&mut deck);
    let mut rounds = 0;
    while !h1.is_empty() && !h2.is_empty() && rounds < 10_000 {
        assert_eq!(h1.len() + h2.len(), 52);
        play_round(&mut h1, &mut h2);
        rounds += 1;
    }
}
