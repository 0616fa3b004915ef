use std::collections::VecDeque;

use planar::{set_default_deck, Card, CardType, Deck};

fn card(name: &str) -> Card {
    Card {
        card_type: CardType::Plane,
        desc: format!("{} description", name),
        image: String::new(),
        name: name.to_string(),
    }
}

fn names(deck: &Deck) -> Vec<String> {
    deck.deck.iter().map(|c| c.name.clone()).collect()
}

fn sorted(mut v: Vec<String>) -> Vec<String> {
    v.sort();
    v
}

fn sample_pile() -> Vec<Card> {
    vec![
        card("Academy at Tolaria West"),
        card("Agyrem"),
        card("Akoum"),
        card("Aretopolis"),
        card("Chaotic Aether"),
    ]
}

#[test]
fn test_create_deck() {
    let pile = sample_pile();
    let mut deck = Deck { deck: VecDeque::new() };
    for card in pile {
        let expected = card.name.clone();
        deck._add_card(card);
        match deck.top_card() {
            Some(x) => {
                println!("Current Top Card: {}", x.name);
                assert_eq!(x.name, expected);
            }
            None => panic!("No top card found!"),
        }
    }
    deck.shuffle();
    for (i, card) in deck.deck.iter().clone().enumerate() {
        println!("Card {}: {}", i, card.name);
    }
    assert_eq!(deck.deck.len(), 5);
    assert_eq!(
        sorted(names(&deck)),
        sorted(sample_pile().into_iter().map(|c| c.name).collect())
    );
}

#[test]
fn add_card_puts_it_on_top() {
    let mut deck = Deck::default();
    assert!(deck.top_card().is_none());
    deck._add_card(card("A"));
    deck._add_card(card("B"));
    assert_eq!(deck.top_card().unwrap().name, "B");
    assert_eq!(names(&deck), vec!["A", "B"]);
}

#[test]
fn next_card_moves_bottom_card_to_top() {
    let mut deck = Deck::default();
    for n in ["A", "B", "C"] {
        deck._add_card(card(n));
    }
    deck.next_card();
    assert_eq!(names(&deck), vec!["B", "C", "A"]);
    assert_eq!(deck.top_card().unwrap().name, "A");
}

#[test]
fn previous_card_moves_top_card_to_bottom() {
    let mut deck = Deck::default();
    for n in ["A", "B", "C"] {
        deck._add_card(card(n));
    }
    deck.previous_card();
    assert_eq!(names(&deck), vec!["C", "A", "B"]);
    assert_eq!(deck.top_card().unwrap().name, "B");
}

#[test]
fn next_then_previous_restores_deck() {
    let mut deck = Deck::default();
    for n in ["A", "B", "C", "D"] {
        deck._add_card(card(n));
    }
    deck.next_card();
    deck.previous_card();
    assert_eq!(names(&deck), vec!["A", "B", "C", "D"]);
    deck.previous_card();
    deck.next_card();
    assert_eq!(names(&deck), vec!["A", "B", "C", "D"]);
}

#[test]
fn full_cycle_of_next_card_restores_deck() {
    let mut deck = Deck::default();
    for n in ["A", "B", "C", "D"] {
        deck._add_card(card(n));
    }
    for _ in 0..4 {
        deck.next_card();
    }
    assert_eq!(names(&deck), vec!["A", "B", "C", "D"]);
}

#[test]
fn turning_an_empty_deck_does_nothing() {
    let mut deck = Deck::default();
    deck.next_card();
    deck.previous_card();
    deck.shuffle();
    assert_eq!(deck.deck.len(), 0);
    assert!(deck.top_card().is_none());
}

#[test]
fn shuffle_with_draws_follows_them() {
    let mut deck = Deck::default();
    for n in ["A", "B", "C", "D"] {
        deck._add_card(card(n));
    }
    deck.shuffle_with(&vec![1, 0, 1, 0]);
    assert_eq!(names(&deck), vec!["B", "A", "D", "C"]);
}

#[test]
fn shuffle_with_last_positions_reverses() {
    let mut deck = Deck::default();
    for n in ["A", "B", "C"] {
        deck._add_card(card(n));
    }
    deck.shuffle_with(&vec![2, 1, 0]);
    assert_eq!(names(&deck), vec!["C", "B", "A"]);
}

#[test]
fn shuffle_keeps_every_card() {
    let mut deck = Deck::default();
    for n in ["A", "B", "C", "D", "E", "F", "G"] {
        deck._add_card(card(n));
    }
    for _ in 0..20 {
        deck.shuffle();
        assert_eq!(
            sorted(names(&deck)),
            vec!["A", "B", "C", "D", "E", "F", "G"]
        );
    }
}

#[test]
fn default_deck_holds_all_cards() {
    let deck = set_default_deck(sample_pile());
    assert_eq!(deck.deck.len(), 5);
    assert_eq!(
        sorted(names(&deck)),
        sorted(sample_pile().into_iter().map(|c| c.name).collect())
    );
}
