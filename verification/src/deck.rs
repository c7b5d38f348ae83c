use vstd::prelude::*;

verus! {

/// One of the four suits of a standard playing card.
#[derive(Clone, Copy, PartialEq, Eq, Structural, Debug)]
pub enum Suit {
    Club,
    Spade,
    Heart,
    Diamond,
}

/// The display glyph of a suit.
pub open spec fn suit_glyph(s: Suit) -> char {
    match s {
        Suit::Diamond => '♦',
        Suit::Spade => '♠',
        Suit::Heart => '♥',
        Suit::Club => '♣',
    }
}

impl Suit {
    pub fn to_char(self) -> (c: char)
        ensures
            c == suit_glyph(self),
    {
        match self {
            Self::Diamond => '♦',
            Self::Spade => '♠',
            Self::Heart => '♥',
            Self::Club => '♣',
        }
    }
}

/// One of the thirteen ranks, ordered Ace low.
#[derive(Clone, Copy, PartialEq, Eq, Structural, Debug)]
pub enum Rank {
    Ace,
    Two,
    Three,
    Four,
    Five,
    Six,
    Seven,
    Eight,
    Nine,
    Ten,
    Jack,
    Queen,
    King,
}

/// The display glyph of a rank.
pub open spec fn rank_glyph(r: Rank) -> char {
    match r {
        Rank::Ace => 'A',
        Rank::King => 'K',
        Rank::Queen => 'Q',
        Rank::Jack => 'J',
        Rank::Ten => 'T',
        Rank::Nine => '9',
        Rank::Eight => '8',
        Rank::Seven => '7',
        Rank::Six => '6',
        Rank::Five => '5',
        Rank::Four => '4',
        Rank::Three => '3',
        Rank::Two => '2',
    }
}

impl Rank {
    pub fn to_char(self) -> (c: char)
        ensures
            c == rank_glyph(self),
    {
        match self {
            Self::Ace => 'A',
            Self::King => 'K',
            Self::Queen => 'Q',
            Self::Jack => 'J',
            Self::Ten => 'T',
            Self::Nine => '9',
            Self::Eight => '8',
            Self::Seven => '7',
            Self::Six => '6',
            Self::Five => '5',
            Self::Four => '4',
            Self::Three => '3',
            Self::Two => '2',
        }
    }
}

/// An immutable (suit, rank) pair.
#[derive(Clone, Copy, PartialEq, Eq, Structural, Debug)]
pub struct Card {
    pub suit: Suit,
    pub rank: Rank,
}

/// The position of a suit in declaration order.
pub open spec fn suit_index(s: Suit) -> int {
    match s {
        Suit::Club => 0,
        Suit::Spade => 1,
        Suit::Heart => 2,
        Suit::Diamond => 3,
    }
}

/// The position of a rank in declaration order (Ace low).
pub open spec fn rank_index(r: Rank) -> int {
    match r {
        Rank::Ace => 0,
        Rank::Two => 1,
        Rank::Three => 2,
        Rank::Four => 3,
        Rank::Five => 4,
        Rank::Six => 5,
        Rank::Seven => 6,
        Rank::Eight => 7,
        Rank::Nine => 8,
        Rank::Ten => 9,
        Rank::Jack => 10,
        Rank::Queen => 11,
        Rank::King => 12,
    }
}

/// A number in 0..52 that identifies a card; distinct cards get distinct codes.
pub open spec fn card_code(c: Card) -> int {
    suit_index(c.suit) * 13 + rank_index(c.rank)
}

fn suit_of(i: usize) -> (s: Suit)
    requires
        i < 4,
    ensures
        suit_index(s) == i as int,
{
    match i {
        0 => Suit::Club,
        1 => Suit::Spade,
        2 => Suit::Heart,
        _ => Suit::Diamond,
    }
}

fn rank_of(i: usize) -> (r: Rank)
    requires
        i < 13,
    ensures
        rank_index(r) == i as int,
{
    match i {
        0 => Rank::Ace,
        1 => Rank::Two,
        2 => Rank::Three,
        3 => Rank::Four,
        4 => Rank::Five,
        5 => Rank::Six,
        6 => Rank::Seven,
        7 => Rank::Eight,
        8 => Rank::Nine,
        9 => Rank::Ten,
        10 => Rank::Jack,
        11 => Rank::Queen,
        _ => Rank::King,
    }
}

/// Whether the vector holds the given card.
pub(crate) fn vec_contains_card(v: &Vec<Card>, c: Card) -> (r: bool)
    ensures
        r == v@.contains(c),
{
    let mut k: usize = 0;
    while k < v.len()
        invariant
            k <= v@.len(),
            forall|m: int| 0 <= m < k ==> v@[m] != c,
        decreases v@.len() - k,
    {
        if v[k] == c {
            assert(v@[k as int] == c);
            return true;
        }
        k = k + 1;
    }
    false
}

/// A player's unordered, mutable collection of cards.
pub struct Hand {
    cards: Vec<Card>,
}

impl View for Hand {
    type V = Seq<Card>;

    closed spec fn view(&self) -> Seq<Card> {
        self.cards@
    }
}

impl Hand {
    pub fn new() -> (h: Hand)
        ensures
            h@ == Seq::<Card>::empty(),
    {
        Hand { cards: Vec::new() }
    }

    pub fn new_with_cards(cards: Vec<Card>) -> (h: Hand)
        ensures
            h@ == cards@,
    {
        Hand { cards }
    }

    pub fn add(&mut self, c: Card)
        ensures
            final(self)@ == old(self)@.push(c),
    {
        self.cards.push(c)
    }

    pub fn remove(&mut self, i: usize) -> (c: Card)
        requires
            i < old(self)@.len(),
        ensures
            c == old(self)@[i as int],
            final(self)@ == old(self)@.remove(i as int),
    {
        self.cards.remove(i)
    }

    pub fn contains(&self, c: Card) -> (r: bool)
        ensures
            r == self@.contains(c),
    {
        vec_contains_card(&self.cards, c)
    }

    pub fn size(&self) -> (n: usize)
        ensures
            n == self@.len(),
    {
        self.cards.len()
    }

    /// A read-only view of the cards, in hand order.
    pub fn ittr(&self) -> (r: &Vec<Card>)
        ensures
            r@ == self@,
    {
        &self.cards
    }

    /// A read-only view of the cards, in hand order.
    pub fn get_cards(&self) -> (r: &Vec<Card>)
        ensures
            r@ == self@,
    {
        &self.cards
    }
}

/// Relies on rand::seq::SliceRandom::shuffle with rand::thread_rng: it permutes
/// the slice in place by swapping elements, so the multiset of cards is unchanged.
#[verifier::external_body]
fn shuffle_cards(cards: &mut Vec<Card>)
    ensures
        final(cards)@.to_multiset() == old(cards)@.to_multiset(),
{
    rand::seq::SliceRandom::shuffle(cards.as_mut_slice(), &mut rand::thread_rng())
}

/// Distinct cards have distinct codes, and every code lies in 0..52.
proof fn lemma_card_code_injective()
    ensures
        forall|a: Card, b: Card| card_code(a) == card_code(b) ==> a == b,
        forall|c: Card| 0 <= #[trigger] card_code(c) < 52,
{
    assert forall|a: Card, b: Card| card_code(a) == card_code(b) implies a == b by {
        assert(0 <= suit_index(a.suit) < 4 && 0 <= rank_index(a.rank) < 13);
        assert(0 <= suit_index(b.suit) < 4 && 0 <= rank_index(b.rank) < 13);
        assert(suit_index(a.suit) == suit_index(b.suit) && rank_index(a.rank) == rank_index(b.rank));
        assert(a.suit == b.suit && a.rank == b.rank);
    }
    assert forall|c: Card| 0 <= #[trigger] card_code(c) < 52 by {
        assert(0 <= suit_index(c.suit) < 4 && 0 <= rank_index(c.rank) < 13);
    }
}

/// A sequence whose k-th card has code k, for all 52 codes, is a full deck:
/// no duplicates, and every card occurs.
proof fn lemma_full_sequence(s: Seq<Card>)
    requires
        s.len() == 52,
        forall|k: int| 0 <= k < s.len() ==> card_code(#[trigger] s[k]) == k,
    ensures
        s.no_duplicates(),
        forall|c: Card| s.contains(c),
{
    lemma_card_code_injective();
    assert forall|c: Card| s.contains(c) by {
        let k = card_code(c);
        assert(card_code(s[k]) == k);
        assert(s[k] == c);
    }
}

/// A permutation of a full deck is a full deck.
proof fn lemma_shuffle_keeps_full(pre: Seq<Card>, post: Seq<Card>)
    requires
        pre.to_multiset() == post.to_multiset(),
        pre.len() == 52,
        pre.no_duplicates(),
        forall|c: Card| pre.contains(c),
    ensures
        post.len() == 52,
        post.no_duplicates(),
        forall|c: Card| post.contains(c),
{
    broadcast use vstd::seq_lib::group_to_multiset_ensures;

    pre.lemma_multiset_has_no_duplicates();
    post.lemma_multiset_has_no_duplicates_conv();
    assert forall|c: Card| post.contains(c) by {
        assert(pre.contains(c));
        assert(pre.to_multiset().count(c) > 0);
        assert(post.to_multiset().count(c) > 0);
    }
    assert(post.len() == post.to_multiset().len());
    assert(pre.len() == pre.to_multiset().len());
}

/// An ordered, shuffled sequence of all 52 unique cards; draws come off the end
/// and the deck is never refilled.
pub struct Deck {
    cards: Vec<Card>,
}

impl View for Deck {
    type V = Seq<Card>;

    closed spec fn view(&self) -> Seq<Card> {
        self.cards@
    }
}

impl Deck {
    /// Builds all 52 (suit, rank) combinations and shuffles them.
    pub fn new() -> (d: Deck)
        ensures
            d@.len() == 52,
            d@.no_duplicates(),
            forall|c: Card| d@.contains(c),
    {
        let mut cards: Vec<Card> = Vec::new();
        let mut s: usize = 0;
        while s < 4
            invariant
                s <= 4,
                cards@.len() == 13 * s,
                forall|k: int| 0 <= k < cards@.len() ==> card_code(#[trigger] cards@[k]) == k,
            decreases 4 - s,
        {
            let mut r: usize = 0;
            while r < 13
                invariant
                    s < 4,
                    r <= 13,
                    cards@.len() == 13 * s + r,
                    forall|k: int| 0 <= k < cards@.len() ==> card_code(#[trigger] cards@[k]) == k,
                decreases 13 - r,
            {
                let c = Card { suit: suit_of(s), rank: rank_of(r) };
                assert(card_code(c) == 13 * s + r);
                cards.push(c);
                r = r + 1;
            }
            s = s + 1;
        }
        let ghost pre = cards@;
        proof {
            lemma_full_sequence(pre);
        }
        shuffle_cards(&mut cards);
        proof {
            lemma_shuffle_keeps_full(pre, cards@);
        }
        Deck { cards }
    }

    /// Removes and returns the top card, or nothing when the deck is empty.
    pub fn pop(&mut self) -> (c: Option<Card>)
        ensures
            old(self)@.len() == 0 ==> c is None && final(self)@ == old(self)@,
            old(self)@.len() > 0 ==> c == Some(old(self)@.last()) && final(self)@ == old(
                self,
            )@.drop_last(),
    {
        self.cards.pop()
    }

    pub fn get_cards_left(&self) -> (n: usize)
        ensures
            n == self@.len(),
    {
        self.cards.len()
    }

    pub fn is_empty(&self) -> (r: bool)
        ensures
            r == (self@.len() == 0),
    {
        self.cards.len() == 0
    }
}

} // verus!
