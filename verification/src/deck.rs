//! Cards, the standard 52-card deck, and the shoe: the live pool of
//! shuffled cards that refills itself from fresh decks before it runs low.

use rand::seq::SliceRandom;
use vstd::prelude::*;

verus! {

use vstd::arithmetic::div_mod::{
    lemma_div_is_ordered, lemma_div_is_ordered_by_denominator, lemma_div_multiples_vanish,
};

/// A card's suit.
#[derive(PartialEq, Eq, Structural, Clone, Copy, Debug)]
pub enum CardSuit {
    Heart,
    Spade,
    Club,
    Diamond,
}

/// A card's rank.
#[derive(PartialEq, Eq, Structural, Clone, Copy, Debug)]
pub enum CardValue {
    Ace,
    Two,
    Three,
    Four,
    Five,
    Six,
    Seven,
    Eight,
    Nine,
    Ten,
    Jack,
    Queen,
    King,
}

/// One playing card.
#[derive(PartialEq, Eq, Structural, Clone, Copy, Debug)]
pub struct Card {
    pub suit: CardSuit,
    pub value: CardValue,
}

impl Card {
    /// The card's rank.
    pub fn value(&self) -> (v: &CardValue)
        ensures
            v == self.value,
    {
        &self.value
    }
}

/// The suit at a position of the deck layout.
pub open spec fn suit_of(i: int) -> CardSuit {
    if i == 0 {
        CardSuit::Heart
    } else if i == 1 {
        CardSuit::Spade
    } else if i == 2 {
        CardSuit::Club
    } else {
        CardSuit::Diamond
    }
}

/// The rank at a position of the deck layout.
pub open spec fn value_of(i: int) -> CardValue {
    if i == 0 {
        CardValue::Ace
    } else if i == 1 {
        CardValue::Two
    } else if i == 2 {
        CardValue::Three
    } else if i == 3 {
        CardValue::Four
    } else if i == 4 {
        CardValue::Five
    } else if i == 5 {
        CardValue::Six
    } else if i == 6 {
        CardValue::Seven
    } else if i == 7 {
        CardValue::Eight
    } else if i == 8 {
        CardValue::Nine
    } else if i == 9 {
        CardValue::Ten
    } else if i == 10 {
        CardValue::Jack
    } else if i == 11 {
        CardValue::Queen
    } else {
        CardValue::King
    }
}

/// The card at a position of a fresh deck: thirteen ranks per suit.
pub open spec fn card_at(i: int) -> Card {
    Card { suit: suit_of(i / 13), value: value_of(i % 13) }
}

/// A fresh deck in layout order.
pub open spec fn full_deck() -> Seq<Card> {
    Seq::new(52, |i: int| card_at(i))
}

/// `n` fresh decks, one after another.
pub open spec fn decks_seq(n: int) -> Seq<Card>
    decreases n,
{
    if n <= 0 {
        Seq::empty()
    } else {
        decks_seq(n - 1) + full_deck()
    }
}

/// `n` fresh decks hold `52 * n` cards.
pub proof fn lemma_decks_seq_len(n: int)
    requires
        n >= 0,
    ensures
        decks_seq(n).len() == 52 * n,
    decreases n,
{
    if n > 0 {
        lemma_decks_seq_len(n - 1);
    }
}

/// One standard deck of 52 distinct cards.
pub struct Deck {
    cards: Vec<Card>,
}

impl View for Deck {
    type V = Seq<Card>;

    closed spec fn view(&self) -> Seq<Card> {
        self.cards@
    }
}

impl Deck {
    /// The number of cards in a fresh deck.
    pub const SIZE: u8 = 52;

    /// Builds a fresh deck in layout order.
    pub fn new() -> (deck: Deck)
        ensures
            deck@ == full_deck(),
    {
        let mut cards: Vec<Card> = Vec::new();
        let mut i: u8 = 0;
        while i < 52
            invariant
                i <= 52,
                cards@ == full_deck().take(i as int),
            decreases 52 - i,
        {
            let card = Card { suit: suit_from(i / 13), value: value_from(i % 13) };
            cards.push(card);
            proof {
                assert(card == card_at(i as int));
                assert(full_deck().take(i + 1) =~= full_deck().take(i as int).push(
                    full_deck()[i as int],
                ));
            }
            i = i + 1;
        }
        proof {
            assert(full_deck().take(52) =~= full_deck());
        }
        Deck { cards }
    }

    /// The number of cards still in the deck.
    pub fn len(&self) -> (n: usize)
        ensures
            n == self@.len(),
    {
        self.cards.len()
    }

    /// Whether the deck holds this card.
    pub fn contains(&self, card: &Card) -> (r: bool)
        ensures
            r == self@.contains(*card),
    {
        let n = self.cards.len();
        let mut i: usize = 0;
        while i < n
            invariant
                i <= n == self@.len(),
                forall|m: int| 0 <= m < i as int ==> self@[m] != *card,
            decreases n - i,
        {
            if self.cards[i] == *card {
                return true;
            }
            i = i + 1;
        }
        false
    }

    /// Removes and returns the top card.
    pub fn pop(&mut self) -> (r: Option<Card>)
        ensures
            old(self)@.len() == 0 ==> r is None && final(self)@ == old(self)@,
            old(self)@.len() > 0 ==> r == Option::Some(old(self)@.last()) && final(self)@ == old(
                self,
            )@.drop_last(),
    {
        self.cards.pop()
    }

    /// Hands the deck's cards over.
    pub fn cards(self) -> (cards: Vec<Card>)
        ensures
            cards@ == self@,
    {
        self.cards
    }
}

/// The suit of each thirteen-card block.
fn suit_from(i: u8) -> (s: CardSuit)
    requires
        i < 4,
    ensures
        s == suit_of(i as int),
{
    if i == 0 {
        CardSuit::Heart
    } else if i == 1 {
        CardSuit::Spade
    } else if i == 2 {
        CardSuit::Club
    } else {
        CardSuit::Diamond
    }
}

/// The rank at a position within a suit's block.
fn value_from(i: u8) -> (v: CardValue)
    requires
        i < 13,
    ensures
        v == value_of(i as int),
{
    if i == 0 {
        CardValue::Ace
    } else if i == 1 {
        CardValue::Two
    } else if i == 2 {
        CardValue::Three
    } else if i == 3 {
        CardValue::Four
    } else if i == 4 {
        CardValue::Five
    } else if i == 5 {
        CardValue::Six
    } else if i == 6 {
        CardValue::Seven
    } else if i == 7 {
        CardValue::Eight
    } else if i == 8 {
        CardValue::Nine
    } else if i == 9 {
        CardValue::Ten
    } else if i == 10 {
        CardValue::Jack
    } else if i == 11 {
        CardValue::Queen
    } else {
        CardValue::King
    }
}

/// The remaining-card threshold under which the shoe rebuilds itself:
/// thirty percent of its full size, rounded down.
pub open spec fn min_cards_spec(deck_count: int) -> int {
    52 * deck_count * 30 / 100
}

/// The threshold lies between 15 cards and the full shoe.
pub proof fn lemma_min_cards(deck_count: int)
    requires
        1 <= deck_count <= 255,
    ensures
        15 <= min_cards_spec(deck_count) <= 52 * deck_count,
        min_cards_spec(deck_count) <= 3978,
{
    let z = 52 * deck_count * 30;
    assert(z == 1560 * deck_count);
    assert(1560 <= z <= 397800);
    lemma_div_is_ordered(1560, z, 100);
    lemma_div_is_ordered(z, 397800, 100);
    assert(1560int / 100 == 15);
    assert(397800int / 100 == 3978);
    lemma_div_is_ordered_by_denominator(z, 30, 100);
    assert(z == 30 * (52 * deck_count));
    lemma_div_multiples_vanish(52 * deck_count, 30);
    assert(z / 30 == 52 * deck_count);
}

/// The live pool of shuffled cards: `deck_count` decks, rebuilt and
/// reshuffled whenever a draw leaves fewer than `minimum_cards` cards.
pub struct Shoe {
    deck_count: u8,
    /// Minimum number of cards allowed before the shoe refills itself.
    minimum_cards: u16,
    cards: Vec<Card>,
}

impl View for Shoe {
    type V = Seq<Card>;

    closed spec fn view(&self) -> Seq<Card> {
        self.cards@
    }
}

impl Shoe {
    /// How many decks this shoe was built from.
    pub closed spec fn deck_count_spec(&self) -> int {
        self.deck_count as int
    }

    /// The refill threshold this shoe was built with.
    pub closed spec fn minimum_cards_spec(&self) -> int {
        self.minimum_cards as int
    }

    /// The shoe's invariant: a true threshold, and never fewer remaining
    /// cards than the threshold, nor more than the full size.
    pub open spec fn wf(&self) -> bool {
        &&& 1 <= self.deck_count_spec() <= 255
        &&& self.minimum_cards_spec() == min_cards_spec(self.deck_count_spec())
        &&& self.minimum_cards_spec() <= self@.len() <= 52 * self.deck_count_spec()
        &&& self@.len() >= 1
    }

    /// Reports how many decks the shoe was built from.
    pub fn deck_count(&self) -> (n: u8)
        ensures
            n as int == self.deck_count_spec(),
    {
        self.deck_count
    }

    /// Reports the refill threshold.
    pub fn minimum_cards(&self) -> (n: u16)
        ensures
            n as int == self.minimum_cards_spec(),
    {
        self.minimum_cards
    }

    /// Reports how many cards remain.
    pub fn card_count(&self) -> (n: usize)
        ensures
            n == self@.len(),
    {
        self.cards.len()
    }

    /// Builds a shoe of `deck_count` freshly shuffled decks; at least one
    /// deck is required.
    pub fn new(deck_count: u8) -> (r: Result<Shoe, &'static str>)
        ensures
            deck_count == 0 ==> (r matches Result::Err(e) && e@ == "Deck count has to be at least 1"@),
            deck_count >= 1 ==> (r matches Result::Ok(shoe) && shoe.wf()
                && shoe.deck_count_spec() == deck_count as int && shoe@.len() == 52
                * deck_count as int && shoe@.to_multiset() == decks_seq(
                deck_count as int,
            ).to_multiset()),
    {
        if deck_count < 1 {
            return Err("Deck count has to be at least 1");
        }
        let minimum_cards = 52u32 * deck_count as u32 * 30 / 100;
        proof {
            lemma_min_cards(deck_count as int);
        }
        let mut shoe = Shoe {
            deck_count,
            minimum_cards: minimum_cards as u16,
            cards: Vec::with_capacity(deck_count as usize * 52),
        };
        shoe.refill();
        Ok(shoe)
    }

    /// Removes and returns the top card; if that leaves the shoe under its
    /// threshold, it first rebuilds itself from fresh shuffled decks, so
    /// the pool is topped up well before exhaustion.
    pub fn pull_card(&mut self) -> (card: Card)
        requires
            old(self).wf(),
        ensures
            final(self).wf(),
            final(self).deck_count_spec() == old(self).deck_count_spec(),
            final(self).minimum_cards_spec() == old(self).minimum_cards_spec(),
            card == old(self)@.last(),
            old(self)@.len() - 1 >= old(self).minimum_cards_spec() ==> final(self)@ == old(
                self,
            )@.drop_last(),
            old(self)@.len() - 1 < old(self).minimum_cards_spec() ==> final(self)@.len() == 52
                * old(self).deck_count_spec() && final(self)@.to_multiset() == decks_seq(
                old(self).deck_count_spec(),
            ).to_multiset(),
    {
        let card = match self.cards.pop() {
            Some(card) => card,
            None => {
                proof {
                    assert(false);
                }
                vstd::pervasive::unreached()
            },
        };
        if (self.cards.len() as u16) < self.minimum_cards {
            self.refill();
        }
        card
    }

    /// Empties the shoe and refills it with fresh shuffled decks.
    fn refill(&mut self)
        requires
            1 <= old(self).deck_count_spec() <= 255,
            old(self).minimum_cards_spec() == min_cards_spec(old(self).deck_count_spec()),
        ensures
            final(self).deck_count_spec() == old(self).deck_count_spec(),
            final(self).minimum_cards_spec() == old(self).minimum_cards_spec(),
            final(self)@.len() == 52 * old(self).deck_count_spec(),
            final(self)@.to_multiset() == decks_seq(old(self).deck_count_spec()).to_multiset(),
            final(self).wf(),
    {
        self.cards.clear();
        let n = self.deck_count;
        let mut d: u8 = 0;
        while d < n
            invariant
                d <= n,
                n as int == self.deck_count_spec(),
                self.minimum_cards_spec() == old(self).minimum_cards_spec(),
                self.deck_count_spec() == old(self).deck_count_spec(),
                self@ == decks_seq(d as int),
            decreases n - d,
        {
            let deck = Deck::new();
            let mut fresh = deck.cards();
            let ghost before = self.cards@;
            self.cards.append(&mut fresh);
            proof {
                assert(self.cards@ =~= decks_seq(d + 1));
            }
            d = d + 1;
        }
        proof {
            lemma_decks_seq_len(n as int);
        }
        let mut rng = fresh_rng();
        shuffle_cards(&mut self.cards, &mut rng);
        proof {
            lemma_min_cards(self.deck_count_spec());
        }
    }
}

#[verifier::external_type_specification]
#[verifier::external_body]
pub struct ExThreadRng(rand::rngs::ThreadRng);

/// Relies on rand::thread_rng: it hands out this thread's generator.
#[verifier::external_body]
fn fresh_rng() -> rand::rngs::ThreadRng {
    rand::thread_rng()
}

/// Relies on SliceRandom::shuffle of the rand crate: a Fisher-Yates pass
/// that permutes the slice in place, so the cards and their count stand.
#[verifier::external_body]
fn shuffle_cards(cards: &mut Vec<Card>, rng: &mut rand::rngs::ThreadRng)
    ensures
        final(cards)@.len() == old(cards)@.len(),
        final(cards)@.to_multiset() == old(cards)@.to_multiset(),
{
    cards.shuffle(rng);
}

} // verus!
