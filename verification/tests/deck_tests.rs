use gofish::deck::{Card, Deck, Hand, Rank, Suit};

fn all_suits() -> Vec<Suit> {
    vec![Suit::Club, Suit::Spade, Suit::Heart, Suit::Diamond]
}

fn all_ranks() -> Vec<Rank> {
    vec![
        Rank::Ace,
        Rank::Two,
        Rank::Three,
        Rank::Four,
        Rank::Five,
        Rank::Six,
        Rank::Seven,
        Rank::Eight,
        Rank::Nine,
        Rank::Ten,
        Rank::Jack,
        Rank::Queen,
        Rank::King,
    ]
}

#[test]
fn test_deck_has_52_unique_cards() {
    let mut deck = Deck::new();
    assert_eq!(deck.get_cards_left(), 52);
    let mut drawn: Vec<Card> = Vec::new();
    while let Some(card) = deck.pop() {
        drawn.push(card);
    }
    assert_eq!(drawn.len(), 52);
    for suit in all_suits() {
        for rank in all_ranks() {
            let card = Card { suit, rank };
            let occurrences = drawn.iter().filter(|c| **c == card).count();
            assert_eq!(occurrences, 1);
        }
    }
}

#[test]
fn test_deck_draw_decrements_by_one() {
    let mut deck = Deck::new();
    for i in 0..52usize {
        assert_eq!(deck.get_cards_left(), 52 - i);
        assert!(!deck.is_empty());
        let card = deck.pop();
        assert!(card.is_some());
        assert_eq!(deck.get_cards_left(), 51 - i);
    }
    assert!(deck.is_empty());
    assert_eq!(deck.get_cards_left(), 0);
    assert_eq!(deck.pop(), None);
    assert_eq!(deck.get_cards_left(), 0);
}

#[test]
fn test_suit_glyphs() {
    assert_eq!(Suit::Club.to_char(), '♣');
    assert_eq!(Suit::Spade.to_char(), '♠');
    assert_eq!(Suit::Heart.to_char(), '♥');
    assert_eq!(Suit::Diamond.to_char(), '♦');
}

#[test]
fn test_rank_glyphs() {
    let expected = vec![
        (Rank::Ace, 'A'),
        (Rank::Two, '2'),
        (Rank::Three, '3'),
        (Rank::Four, '4'),
        (Rank::Five, '5'),
        (Rank::Six, '6'),
        (Rank::Seven, '7'),
        (Rank::Eight, '8'),
        (Rank::Nine, '9'),
        (Rank::Ten, 'T'),
        (Rank::Jack, 'J'),
        (Rank::Queen, 'Q'),
        (Rank::King, 'K'),
    ];
    for (rank, glyph) in expected {
        assert_eq!(rank.to_char(), glyph);
    }
}

#[test]
fn test_hand_add_remove_contains_size() {
    let five_d = Card { suit: Suit::Diamond, rank: Rank::Five };
    let three_c = Card { suit: Suit::Club, rank: Rank::Three };
    let ace_s = Card { suit: Suit::Spade, rank: Rank::Ace };

    let mut hand = Hand::new();
    assert_eq!(hand.size(), 0);
    hand.add(five_d);
    hand.add(three_c);
    assert_eq!(hand.size(), 2);
    assert!(hand.contains(five_d));
    assert!(hand.contains(three_c));
    assert!(!hand.contains(ace_s));
    assert_eq!(*hand.get_cards(), vec![five_d, three_c]);
    assert_eq!(*hand.ittr(), vec![five_d, three_c]);

    let removed = hand.remove(0);
    assert_eq!(removed, five_d);
    assert_eq!(hand.size(), 1);
    assert!(!hand.contains(five_d));
    assert_eq!(*hand.get_cards(), vec![three_c]);
}

#[test]
fn test_hand_new_with_cards() {
    let cards = vec![
        Card { suit: Suit::Heart, rank: Rank::Queen },
        Card { suit: Suit::Club, rank: Rank::Queen },
    ];
    let hand = Hand::new_with_cards(cards.clone());
    assert_eq!(hand.size(), 2);
    assert_eq!(*hand.get_cards(), cards);
}
