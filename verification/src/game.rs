use vstd::prelude::*;

use vstd::string::StrSliceExecFns;

use crate::deck::{Card, Deck, Hand, Rank};
use crate::pairing::{drop_claimed, find_pairs, pairs_of, remainder_of};

verus! {

/// One participant: a hand of cards plus a pair-score counter.
pub struct Player {
    pub pairs: usize,
    pub hand: Hand,
}

impl Player {
    pub fn new() -> (p: Player)
        ensures
            p.pairs == 0,
            p.hand@ == Seq::<Card>::empty(),
    {
        Player { pairs: 0, hand: Hand::new() }
    }

    pub fn get_cards(&self) -> (h: &Hand)
        ensures
            h@ == self.hand@,
    {
        &self.hand
    }

    pub fn set_cards(&mut self, new_hand: Hand)
        ensures
            final(self).hand@ == new_hand@,
            final(self).pairs == old(self).pairs,
    {
        self.hand = new_hand;
    }

    pub fn add_pairs(&mut self, pairs: usize)
        requires
            old(self).pairs + pairs <= usize::MAX,
        ensures
            final(self).pairs == old(self).pairs + pairs,
            final(self).hand@ == old(self).hand@,
    {
        self.pairs = self.pairs + pairs;
    }

    /// One pairing pass over this player's hand: the hand keeps only its
    /// unpaired remainder, and the score grows by half the number of cards
    /// that left the hand. Reports whether any pair was found.
    pub fn settle_pairs(&mut self) -> (found: bool)
        requires
            old(self).pairs + old(self).hand@.len() <= usize::MAX,
        ensures
            final(self).hand@ == remainder_of(old(self).hand@),
            final(self).pairs == old(self).pairs + (old(self).hand@.len() - remainder_of(
                old(self).hand@,
            ).len()) / 2,
            found == (remainder_of(old(self).hand@).len() != old(self).hand@.len()),
    {
        let claimed = find_pairs(self.hand.get_cards());
        let rem = drop_claimed(self.hand.get_cards(), &claimed);
        let found = rem.len() != self.hand.size();
        let gain = (self.hand.size() - rem.len()) / 2;
        self.add_pairs(gain);
        self.set_cards(Hand::new_with_cards(rem));
        found
    }
}

/// The states of the interactive turn loop.
#[derive(Clone, Copy, PartialEq, Eq, Structural, Debug)]
pub enum TurnState {
    AwaitingStart,
    ShowingStatus,
    Done,
}

/// What a line of input at the start prompt asks for.
#[derive(Clone, Copy, PartialEq, Eq, Structural, Debug)]
pub enum StartChoice {
    Yes,
    No,
    Invalid,
}

/// The meaning of a trimmed input line at the "Start a game?" prompt: exactly
/// the literals "Y" and "y" accept, "N" and "n" decline, and everything else
/// is invalid.
pub open spec fn start_choice_of(s: Seq<char>) -> StartChoice {
    if s.len() == 1 && (s[0] == 'Y' || s[0] == 'y') {
        StartChoice::Yes
    } else if s.len() == 1 && (s[0] == 'N' || s[0] == 'n') {
        StartChoice::No
    } else {
        StartChoice::Invalid
    }
}

pub fn parse_start_input(input: &str) -> (c: StartChoice)
    ensures
        c == start_choice_of(input@),
{
    let n = input.unicode_len();
    if n != 1 {
        StartChoice::Invalid
    } else {
        let ch = input.get_char(0);
        if ch == 'Y' || ch == 'y' {
            StartChoice::Yes
        } else if ch == 'N' || ch == 'n' {
            StartChoice::No
        } else {
            StartChoice::Invalid
        }
    }
}

/// The transition function of the turn loop: an accepted start shows the
/// status, a declined start ends the game, an invalid line re-prompts, and
/// one full playthrough of a shown turn ends the game.
pub open spec fn spec_next_state(s: TurnState, c: StartChoice) -> TurnState {
    match s {
        TurnState::AwaitingStart => match c {
            StartChoice::Yes => TurnState::ShowingStatus,
            StartChoice::No => TurnState::Done,
            StartChoice::Invalid => TurnState::AwaitingStart,
        },
        TurnState::ShowingStatus => TurnState::Done,
        TurnState::Done => TurnState::Done,
    }
}

pub fn next_state(s: TurnState, c: StartChoice) -> (t: TurnState)
    ensures
        t == spec_next_state(s, c),
{
    match s {
        TurnState::AwaitingStart => match c {
            StartChoice::Yes => TurnState::ShowingStatus,
            StartChoice::No => TurnState::Done,
            StartChoice::Invalid => TurnState::AwaitingStart,
        },
        TurnState::ShowingStatus => TurnState::Done,
        TurnState::Done => TurnState::Done,
    }
}

/// The first card of the sequence that has the given rank, if any.
pub open spec fn first_rank_match(s: Seq<Card>, r: Rank) -> Option<Card>
    decreases s.len(),
{
    if s.len() == 0 {
        None
    } else if s.first().rank == r {
        Some(s.first())
    } else {
        first_rank_match(s.drop_first(), r)
    }
}

/// Whether some card of the sequence has the given rank.
pub open spec fn has_rank(s: Seq<Card>, r: Rank) -> bool {
    exists|k: int| 0 <= k < s.len() && (#[trigger] s[k]).rank == r
}

/// The whole game state: the stock deck, the two players, and the turn counter.
pub struct Game {
    pub deck: Deck,
    pub player: Player,
    pub opponent: Player,
    pub turn: usize,
}

impl Game {
    /// A fresh game: a full shuffled deck, two empty players, turn one.
    pub fn new() -> (g: Game)
        ensures
            g.deck@.len() == 52,
            g.deck@.no_duplicates(),
            forall|c: Card| g.deck@.contains(c),
            g.player.pairs == 0,
            g.player.hand@ == Seq::<Card>::empty(),
            g.opponent.pairs == 0,
            g.opponent.hand@ == Seq::<Card>::empty(),
            g.turn == 1,
    {
        Game { deck: Deck::new(), player: Player::new(), opponent: Player::new(), turn: 1 }
    }

    /// Draws the top five cards of the deck, in draw order.
    pub fn deal(&mut self) -> (cards: Vec<Card>)
        requires
            old(self).deck@.len() >= 5,
        ensures
            cards@.len() == 5,
            forall|k: int|
                0 <= k < 5 ==> cards@[k] == old(self).deck@[old(self).deck@.len() - 1 - k],
            final(self).deck@ == old(self).deck@.take(old(self).deck@.len() - 5),
            final(self).player == old(self).player,
            final(self).opponent == old(self).opponent,
            final(self).turn == old(self).turn,
    {
        let ghost deck0 = old(self).deck@;
        let mut cards: Vec<Card> = Vec::new();
        let mut k: usize = 0;
        while k < 5
            invariant
                deck0.len() >= 5,
                k <= 5,
                cards@.len() == k,
                self.deck@ == deck0.take(deck0.len() - k),
                forall|m: int| 0 <= m < k ==> cards@[m] == deck0[deck0.len() - 1 - m],
                self.player == old(self).player,
                self.opponent == old(self).opponent,
                self.turn == old(self).turn,
            decreases 5 - k,
        {
            proof {
                assert(deck0.take(deck0.len() - k).last() == deck0[deck0.len() - 1 - k]);
                assert(deck0.take(deck0.len() - k).drop_last() =~= deck0.take(
                    deck0.len() - (k + 1),
                ));
            }
            let c = self.deck.pop();
            match c {
                Some(card) => cards.push(card),
                None => {
                    proof {
                        assert(false);
                    }
                },
            }
            k = k + 1;
        }
        cards
    }

    /// Deals five cards to each player in turn, the human player first, and
    /// resets both scores. The interactive loop that follows is driven by the
    /// program around the library.
    pub fn start(&mut self)
        requires
            old(self).deck@.len() >= 10,
        ensures
            final(self).player.pairs == 0,
            final(self).opponent.pairs == 0,
            final(self).player.hand@.len() == 5,
            final(self).opponent.hand@.len() == 5,
            forall|k: int|
                0 <= k < 5 ==> final(self).player.hand@[k] == old(self).deck@[old(
                    self,
                ).deck@.len() - 1 - k],
            forall|k: int|
                0 <= k < 5 ==> final(self).opponent.hand@[k] == old(self).deck@[old(
                    self,
                ).deck@.len() - 6 - k],
            final(self).deck@ == old(self).deck@.take(old(self).deck@.len() - 10),
            final(self).turn == old(self).turn,
    {
        let ghost deck0 = old(self).deck@;
        let dealt = self.deal();
        self.player = Player { pairs: 0, hand: Hand::new_with_cards(dealt) };
        let dealt = self.deal();
        self.opponent = Player { pairs: 0, hand: Hand::new_with_cards(dealt) };
        proof {
            assert(deck0.take(deck0.len() - 5).take(deck0.len() - 10) =~= deck0.take(
                deck0.len() - 10,
            ));
        }
    }

    /// Scans a hand for all disjoint rank-matched pairs with the greedy
    /// earliest-index-first scan; returns the claimed cards, in claim order.
    pub fn check_pairs(&self, h: &Hand) -> (r: Hand)
        ensures
            r@ == pairs_of(h@),
    {
        Hand::new_with_cards(find_pairs(h.get_cards()))
    }

    /// Returns the card at the chosen index of the player's own hand, or
    /// nothing when the index is out of range.
    pub fn pick_card(&self, selection: usize) -> (r: Option<Card>)
        ensures
            selection < self.player.hand@.len() ==> r == Some(
                self.player.hand@[selection as int],
            ),
            selection >= self.player.hand@.len() ==> r is None,
    {
        let cards = self.player.get_cards().get_cards();
        if selection < cards.len() {
            Some(cards[selection])
        } else {
            None
        }
    }

    /// Scans the target player's hand for a card sharing the called card's
    /// rank; returns the first match, or nothing when no rank matches.
    pub fn check_selection(&self, c: &Card, p: &Player) -> (r: Option<Card>)
        ensures
            r == first_rank_match(p.hand@, c.rank),
            (r is Some) == has_rank(p.hand@, c.rank),
            match r {
                Some(m) => m.rank == c.rank && p.hand@.contains(m),
                None => true,
            },
    {
        let ghost s = p.hand@;
        let cards = p.get_cards().get_cards();
        proof {
            assert(s.skip(0) =~= s);
        }
        let mut k: usize = 0;
        while k < cards.len()
            invariant
                s == p.hand@,
                s == cards@,
                k <= s.len(),
                first_rank_match(s, c.rank) == first_rank_match(s.skip(k as int), c.rank),
                forall|m: int| 0 <= m < k ==> (#[trigger] s[m]).rank != c.rank,
            decreases s.len() - k,
        {
            proof {
                assert(s.skip(k as int).first() == s[k as int]);
                assert(s.skip(k as int).drop_first() =~= s.skip(k as int + 1));
            }
            if cards[k].rank == c.rank {
                assert(first_rank_match(s, c.rank) == Some(s[k as int]));
                assert(has_rank(s, c.rank)) by {
                    assert(s[k as int].rank == c.rank);
                }
                assert(s.contains(s[k as int]));
                return Some(cards[k]);
            }
            k = k + 1;
        }
        proof {
            assert(s.skip(s.len() as int) =~= Seq::<Card>::empty());
            assert(!has_rank(s, c.rank));
        }
        None
    }
}

} // verus!
