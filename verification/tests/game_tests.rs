use gofish::deck::{Card, Hand, Rank, Suit};
use gofish::game::{next_state, parse_start_input, Game, Player, StartChoice, TurnState};

#[test]
fn test_dealing() {
    let mut g = Game::new();
    let hand = Hand::new_with_cards(g.deal());

    assert_eq!(g.deck.get_cards_left(), 47);
    assert_eq!(hand.size(), 5);
}

#[test]
fn test_check_pairs1() {
    let g = Game::new();
    let hand = Hand::new_with_cards(vec![
        Card { rank: Rank::Five, suit: Suit::Diamond },
        Card { rank: Rank::Five, suit: Suit::Club },
        Card { rank: Rank::Three, suit: Suit::Diamond },
        Card { rank: Rank::Two, suit: Suit::Heart },
        Card { rank: Rank::Three, suit: Suit::Club },
    ]);
    assert_eq!(
        *g.check_pairs(&hand).get_cards(),
        vec![
            Card { rank: Rank::Five, suit: Suit::Diamond },
            Card { rank: Rank::Five, suit: Suit::Club },
            Card { rank: Rank::Three, suit: Suit::Diamond },
            Card { rank: Rank::Three, suit: Suit::Club },
        ]
    );
}

#[test]
fn test_check_selection() {
    let mut g = Game::new();
    let hand1 = Hand::new_with_cards(g.deal());
    let hand2 = Hand::new_with_cards(g.deal());
    g.player.set_cards(hand1);
    g.opponent.set_cards(hand2);

    for card in g.player.hand.get_cards() {
        let _selection = g.check_selection(card, &g.opponent);
    }
}

#[test]
fn test_start_deals_five_to_each() {
    let mut g = Game::new();
    g.start();
    assert_eq!(g.player.hand.size(), 5);
    assert_eq!(g.opponent.hand.size(), 5);
    assert_eq!(g.player.pairs, 0);
    assert_eq!(g.opponent.pairs, 0);
    assert_eq!(g.deck.get_cards_left(), 42);
    assert_eq!(g.turn, 1);
}

#[test]
fn test_settle_pairs_example() {
    let mut p = Player::new();
    p.set_cards(Hand::new_with_cards(vec![
        Card { rank: Rank::Five, suit: Suit::Diamond },
        Card { rank: Rank::Five, suit: Suit::Club },
        Card { rank: Rank::Three, suit: Suit::Diamond },
        Card { rank: Rank::Two, suit: Suit::Heart },
        Card { rank: Rank::Three, suit: Suit::Club },
    ]));
    let found = p.settle_pairs();
    assert!(found);
    assert_eq!(p.pairs, 2);
    assert_eq!(*p.hand.get_cards(), vec![Card { rank: Rank::Two, suit: Suit::Heart }]);
}

#[test]
fn test_settle_pairs_three_of_a_kind() {
    let g = Game::new();
    let hand = Hand::new_with_cards(vec![
        Card { rank: Rank::Five, suit: Suit::Diamond },
        Card { rank: Rank::Five, suit: Suit::Club },
        Card { rank: Rank::Three, suit: Suit::Diamond },
        Card { rank: Rank::Five, suit: Suit::Heart },
        Card { rank: Rank::Three, suit: Suit::Club },
    ]);
    assert_eq!(
        *g.check_pairs(&hand).get_cards(),
        vec![
            Card { rank: Rank::Five, suit: Suit::Diamond },
            Card { rank: Rank::Five, suit: Suit::Club },
            Card { rank: Rank::Three, suit: Suit::Diamond },
            Card { rank: Rank::Three, suit: Suit::Club },
        ]
    );

    let mut p = Player::new();
    p.set_cards(hand);
    let found = p.settle_pairs();
    assert!(found);
    assert_eq!(p.pairs, 2);
    assert_eq!(*p.hand.get_cards(), vec![Card { rank: Rank::Five, suit: Suit::Heart }]);
}

#[test]
fn test_settle_pairs_twice_finds_nothing_more() {
    let mut p = Player::new();
    p.set_cards(Hand::new_with_cards(vec![
        Card { rank: Rank::Five, suit: Suit::Diamond },
        Card { rank: Rank::Five, suit: Suit::Club },
        Card { rank: Rank::Three, suit: Suit::Diamond },
        Card { rank: Rank::Two, suit: Suit::Heart },
        Card { rank: Rank::Three, suit: Suit::Club },
    ]));
    assert!(p.settle_pairs());
    let remainder: Vec<Card> = p.hand.get_cards().clone();
    let found_again = p.settle_pairs();
    assert!(!found_again);
    assert_eq!(p.pairs, 2);
    assert_eq!(*p.hand.get_cards(), remainder);
}

#[test]
fn test_settle_pairs_no_pairs() {
    let mut p = Player::new();
    let cards = vec![
        Card { rank: Rank::Ace, suit: Suit::Club },
        Card { rank: Rank::Two, suit: Suit::Heart },
        Card { rank: Rank::King, suit: Suit::Spade },
    ];
    p.set_cards(Hand::new_with_cards(cards.clone()));
    let found = p.settle_pairs();
    assert!(!found);
    assert_eq!(p.pairs, 0);
    assert_eq!(*p.hand.get_cards(), cards);
}

#[test]
fn test_check_selection_finds_first_rank_match() {
    let g = Game::new();
    let mut opponent = Player::new();
    opponent.set_cards(Hand::new_with_cards(vec![
        Card { rank: Rank::Nine, suit: Suit::Club },
        Card { rank: Rank::Five, suit: Suit::Spade },
        Card { rank: Rank::Five, suit: Suit::Heart },
    ]));

    let called = Card { rank: Rank::Five, suit: Suit::Diamond };
    let selection = g.check_selection(&called, &opponent);
    assert_eq!(selection, Some(Card { rank: Rank::Five, suit: Suit::Spade }));

    let absent = Card { rank: Rank::Queen, suit: Suit::Club };
    assert_eq!(g.check_selection(&absent, &opponent), None);
}

#[test]
fn test_pick_card() {
    let mut g = Game::new();
    let five_d = Card { rank: Rank::Five, suit: Suit::Diamond };
    let ace_s = Card { rank: Rank::Ace, suit: Suit::Spade };
    g.player.set_cards(Hand::new_with_cards(vec![five_d, ace_s]));
    assert_eq!(g.pick_card(0), Some(five_d));
    assert_eq!(g.pick_card(1), Some(ace_s));
    assert_eq!(g.pick_card(2), None);
}

#[test]
fn test_add_pairs_accumulates() {
    let mut p = Player::new();
    p.add_pairs(2);
    p.add_pairs(1);
    assert_eq!(p.pairs, 3);
}

#[test]
fn test_parse_start_input() {
    assert_eq!(parse_start_input("Y"), StartChoice::Yes);
    assert_eq!(parse_start_input("y"), StartChoice::Yes);
    assert_eq!(parse_start_input("N"), StartChoice::No);
    assert_eq!(parse_start_input("n"), StartChoice::No);
    assert_eq!(parse_start_input(""), StartChoice::Invalid);
    assert_eq!(parse_start_input("x"), StartChoice::Invalid);
    assert_eq!(parse_start_input("YY"), StartChoice::Invalid);
    assert_eq!(parse_start_input("yes"), StartChoice::Invalid);
}

#[test]
fn test_next_state_transitions() {
    assert_eq!(next_state(TurnState::AwaitingStart, StartChoice::Yes), TurnState::ShowingStatus);
    assert_eq!(next_state(TurnState::AwaitingStart, StartChoice::No), TurnState::Done);
    assert_eq!(
        next_state(TurnState::AwaitingStart, StartChoice::Invalid),
        TurnState::AwaitingStart
    );
    assert_eq!(next_state(TurnState::ShowingStatus, StartChoice::Invalid), TurnState::Done);
    assert_eq!(next_state(TurnState::Done, StartChoice::Yes), TurnState::Done);
}
