//! The blackjack state machine: one session's balance, bet, hands and
//! shoe, driven by `deposit`, `start`, `hit` and `stand`.  Hand totals fix
//! the ace at one point; the dealer draws only while it is behind the
//! player and under sixteen.

use vstd::prelude::*;

use crate::deck::{Card, CardValue, Shoe};
use crate::text::dec_digits;

verus! {

use vstd::string::StringExecFns;

/// Whether a round is underway.
#[derive(PartialEq, Eq, Structural, Clone, Copy, Debug)]
enum State {
    Ongoing,
    Finished,
}

/// Who took the round.
#[derive(PartialEq, Eq, Structural, Clone, Copy, Debug)]
pub enum Winner {
    Player,
    Dealer,
    Draw,
}

impl Winner {
    /// The announcement for this outcome.
    pub fn text(&self) -> (s: String)
        ensures
            s@ == winner_text_spec(*self),
    {
        match self {
            Winner::Player => "Player Won".to_owned(),
            Winner::Dealer => "Dealer Won".to_owned(),
            Winner::Draw => "Draw".to_owned(),
        }
    }
}

/// The announcement text for an outcome.
pub open spec fn winner_text_spec(w: Winner) -> Seq<char> {
    match w {
        Winner::Player => "Player Won"@,
        Winner::Dealer => "Dealer Won"@,
        Winner::Draw => "Draw"@,
    }
}

/// What one draw did to the player's hand.
#[derive(PartialEq, Eq, Structural, Clone, Copy, Debug)]
pub enum HitResult {
    Continue,
    Bust,
}

/// The points a rank counts for: the ace one, face cards ten, the rest
/// their face value.
pub open spec fn points_of(v: CardValue) -> int {
    match v {
        CardValue::Ace => 1,
        CardValue::Two => 2,
        CardValue::Three => 3,
        CardValue::Four => 4,
        CardValue::Five => 5,
        CardValue::Six => 6,
        CardValue::Seven => 7,
        CardValue::Eight => 8,
        CardValue::Nine => 9,
        CardValue::Ten => 10,
        CardValue::Jack => 10,
        CardValue::Queen => 10,
        CardValue::King => 10,
    }
}

/// The points a card counts for.
pub open spec fn card_points(c: Card) -> int {
    points_of(c.value)
}

impl CardValue {
    /// Counts the points of this rank.
    pub fn value(&self) -> (p: u8)
        ensures
            p as int == points_of(*self),
    {
        match self {
            CardValue::Ace => 1,
            CardValue::Two => 2,
            CardValue::Three => 3,
            CardValue::Four => 4,
            CardValue::Five => 5,
            CardValue::Six => 6,
            CardValue::Seven => 7,
            CardValue::Eight => 8,
            CardValue::Nine => 9,
            CardValue::Ten => 10,
            CardValue::Jack => 10,
            CardValue::Queen => 10,
            CardValue::King => 10,
        }
    }
}

/// A hand's total: the sum of its cards' points.
pub open spec fn hand_points(hand: Seq<Card>) -> int
    decreases hand.len(),
{
    if hand.len() == 0 {
        0
    } else {
        hand_points(hand.drop_last()) + card_points(hand.last())
    }
}

/// A hand's total lies between its card count and ten times that count.
pub proof fn lemma_hand_points_bounds(hand: Seq<Card>)
    ensures
        hand.len() <= hand_points(hand) <= 10 * hand.len(),
    decreases hand.len(),
{
    if hand.len() > 0 {
        lemma_hand_points_bounds(hand.drop_last());
    }
}

/// Who takes a round that ends with these totals: the player on a
/// twenty-one, a dealer bust, or a lead; the dealer on any other
/// difference; nobody on a tie.
pub open spec fn winner_spec(player: int, dealer: int) -> Winner {
    if player == 21 || dealer > 21 || player > dealer {
        Winner::Player
    } else if player != dealer {
        Winner::Dealer
    } else {
        Winner::Draw
    }
}

type Hand = Vec<Card>;

/// One session: balance, bet, both hands, the round's state and the shoe
/// the cards come from.
pub struct Blackjack {
    shoe: Shoe,
    state: State,
    dealer_hand: Hand,
    player_hand: Hand,
    bet: u32,
    balance: u32,
}

/// The complaint when a bet exceeds the balance.
pub open spec fn insufficient_balance_msg(balance: int, bet: int) -> Seq<char> {
    "Not enough balance ("@ + dec_digits(balance as nat) + ") to accept the bet ("@ + dec_digits(
        bet as nat,
    ) + ")"@
}

impl Blackjack {
    /// The session's balance.
    pub closed spec fn balance_spec(&self) -> int {
        self.balance as int
    }

    /// The bet the running round was started with.
    pub closed spec fn bet_spec(&self) -> int {
        self.bet as int
    }

    /// Whether a round is underway.
    pub closed spec fn is_ongoing(&self) -> bool {
        self.state is Ongoing
    }

    /// The player's hand.
    pub closed spec fn player_hand_spec(&self) -> Seq<Card> {
        self.player_hand@
    }

    /// The dealer's hand.
    pub closed spec fn dealer_hand_spec(&self) -> Seq<Card> {
        self.dealer_hand@
    }

    /// The session invariant: a sound three-deck shoe; during a round the
    /// bet is covered, the player stands at twenty-one or under and the
    /// dealer at twenty or under; and totals never pass thirty-one.
    pub closed spec fn wf(&self) -> bool {
        &&& self.shoe.wf()
        &&& self.shoe.deck_count_spec() == 3
        &&& (self.state is Ongoing ==> self.bet as int <= self.balance as int)
        &&& (self.state is Ongoing ==> hand_points(self.player_hand@) <= 21)
        &&& (self.state is Ongoing ==> hand_points(self.dealer_hand@) <= 20)
        &&& hand_points(self.player_hand@) <= 31
        &&& hand_points(self.dealer_hand@) <= 31
    }

    /// A fresh session: no balance, no bet, empty hands, three decks.
    pub fn new() -> (g: Blackjack)
        ensures
            g.wf(),
            !g.is_ongoing(),
            g.balance_spec() == 0,
            g.bet_spec() == 0,
            g.player_hand_spec().len() == 0,
            g.dealer_hand_spec().len() == 0,
    {
        let g = Blackjack {
            shoe: Shoe::new(3).unwrap(),
            state: State::Finished,
            dealer_hand: Vec::new(),
            player_hand: Vec::new(),
            bet: 0,
            balance: 0,
        };
        proof {
            lemma_hand_points_bounds(g.player_hand@);
            lemma_hand_points_bounds(g.dealer_hand@);
        }
        g
    }

    /// Reports the balance.
    pub fn balance(&self) -> (b: u32)
        ensures
            b as int == self.balance_spec(),
    {
        self.balance
    }

    /// Reports the running round's bet.
    pub fn bet(&self) -> (b: u32)
        ensures
            b as int == self.bet_spec(),
    {
        self.bet
    }

    /// Adds a positive amount to the balance; zero is refused and changes
    /// nothing.
    pub fn deposit(&mut self, deposit: u32) -> (r: Result<(), String>)
        requires
            old(self).wf(),
            old(self).balance_spec() + deposit as int <= u32::MAX as int,
        ensures
            final(self).wf(),
            final(self).bet_spec() == old(self).bet_spec(),
            final(self).is_ongoing() == old(self).is_ongoing(),
            final(self).player_hand_spec() == old(self).player_hand_spec(),
            final(self).dealer_hand_spec() == old(self).dealer_hand_spec(),
            match r {
                Result::Ok(u) => deposit > 0 && final(self).balance_spec() == old(self).balance_spec() + deposit as int,
                Result::Err(e) => deposit == 0 && e@ == "Deposit has to be bigger than 0"@ && final(self).balance_spec() == old(self).balance_spec(),
            },
    {
        if deposit == 0 {
            return Err("Deposit has to be bigger than 0".to_owned());
        }
        self.balance = self.balance + deposit;
        Ok(())
    }

    /// Starts a round on a bet: refused while a round runs or when the bet
    /// passes the balance; otherwise both hands are dealt two cards,
    /// alternating dealer first.
    pub fn start(&mut self, bet: u32) -> (r: Result<(), String>)
        requires
            old(self).wf(),
        ensures
            final(self).wf(),
            final(self).balance_spec() == old(self).balance_spec(),
            match r {
                Result::Err(e) => *final(self) == *old(self) && (if old(self).is_ongoing() {
                    e@ == "This instance is already running"@
                } else {
                    bet as int > old(self).balance_spec() && e@ == insufficient_balance_msg(
                        old(self).balance_spec(),
                        bet as int,
                    )
                }),
                Result::Ok(u) => !old(self).is_ongoing() && bet as int <= old(self).balance_spec()
                    && final(self).is_ongoing() && final(self).bet_spec() == bet as int && final(self).player_hand_spec().len() == 2 && final(self).dealer_hand_spec().len() == 2
                    && hand_points(final(self).player_hand_spec()) <= 20 && hand_points(
                    final(self).dealer_hand_spec(),
                ) <= 20,
            },
    {
        if self.state == State::Ongoing {
            return Err("This instance is already running".to_owned());
        }
        if bet > self.balance {
            let mut e = "Not enough balance (".to_owned();
            let b = crate::text::u64_to_string(self.balance as u64);
            e.append(b.as_str());
            e.append(") to accept the bet (");
            let w = crate::text::u64_to_string(bet as u64);
            e.append(w.as_str());
            e.append(")");
            proof {
                assert(e@ =~= insufficient_balance_msg(self.balance_spec(), bet as int));
            }
            return Err(e);
        }
        self.bet = bet;
        self.dealer_hand.clear();
        self.player_hand.clear();
        self.state = State::Ongoing;
        proof {
            lemma_hand_points_bounds(self.dealer_hand@);
            lemma_hand_points_bounds(self.player_hand@);
        }
        let mut round: u8 = 0;
        while round < 2
            invariant
                round <= 2,
                self.shoe.wf(),
                self.shoe.deck_count_spec() == 3,
                self.state is Ongoing,
                self.bet == bet,
                self.balance == old(self).balance,
                self.dealer_hand@.len() == round as int,
                self.player_hand@.len() == round as int,
                hand_points(self.dealer_hand@) <= 10 * round as int,
                hand_points(self.player_hand@) <= 10 * round as int,
                0 <= hand_points(self.dealer_hand@),
                0 <= hand_points(self.player_hand@),
            decreases 2 - round,
        {
            Self::add_card(&mut self.shoe, &mut self.dealer_hand);
            Self::add_card(&mut self.shoe, &mut self.player_hand);
            round = round + 1;
        }
        Ok(())
    }

    /// Draws one card for the player: a total past twenty-one loses the
    /// bet and ends the round as a bust; otherwise the round goes on.
    pub fn hit(&mut self) -> (r: Result<HitResult, String>)
        requires
            old(self).wf(),
        ensures
            final(self).wf(),
            final(self).bet_spec() == old(self).bet_spec(),
            final(self).dealer_hand_spec() == old(self).dealer_hand_spec(),
            match r {
                Result::Err(e) => *final(self) == *old(self) && !old(self).is_ongoing() && e@
                    == "Instance not ongoing"@,
                Result::Ok(h) => old(self).is_ongoing() && final(self).player_hand_spec().len()
                    == old(self).player_hand_spec().len() + 1 && old(self).player_hand_spec().is_prefix_of(final(self).player_hand_spec()) && (match h {
                    HitResult::Bust => hand_points(final(self).player_hand_spec()) > 21 && final(self).balance_spec() == old(self).balance_spec() - old(self).bet_spec() && !final(self).is_ongoing(),
                    HitResult::Continue => hand_points(final(self).player_hand_spec()) <= 21
                        && final(self).balance_spec() == old(self).balance_spec() && final(self).is_ongoing(),
                }),
            },
    {
        if self.state != State::Ongoing {
            return Err("Instance not ongoing".to_owned());
        }
        Self::add_card(&mut self.shoe, &mut self.player_hand);
        if Self::hand_value(&self.player_hand) > 21 {
            self.balance = self.balance - self.bet;
            self.state = State::Finished;
            return Ok(HitResult::Bust);
        }
        Ok(HitResult::Continue)
    }

    /// Draws one card from the shoe into a hand.
    fn add_card(shoe: &mut Shoe, hand: &mut Hand) -> (card: Card)
        requires
            shoe.wf(),
        ensures
            final(shoe).wf(),
            final(shoe).deck_count_spec() == old(shoe).deck_count_spec(),
            final(shoe).minimum_cards_spec() == old(shoe).minimum_cards_spec(),
            final(hand)@ == old(hand)@.push(card),
            1 <= card_points(card) <= 10,
            hand_points(final(hand)@) == hand_points(old(hand)@) + card_points(card),
    {
        let card = shoe.pull_card();
        hand.push(card.clone());
        proof {
            assert(final(hand)@.drop_last() =~= old(hand)@);
        }
        card
    }

    /// Ends the round: the dealer draws while it is behind the player and
    /// under sixteen, then the totals decide the round and settle the bet.
    pub fn stand(&mut self) -> (r: Result<Winner, String>)
        requires
            old(self).wf(),
            old(self).is_ongoing() ==> old(self).balance_spec() + old(self).bet_spec()
                <= u32::MAX as int,
        ensures
            final(self).wf(),
            final(self).bet_spec() == old(self).bet_spec(),
            final(self).player_hand_spec() == old(self).player_hand_spec(),
            match r {
                Result::Err(e) => *final(self) == *old(self) && !old(self).is_ongoing() && e@
                    == "Instance not ongoing"@,
                Result::Ok(w) => {
                    let p = hand_points(old(self).player_hand_spec());
                    let d = hand_points(final(self).dealer_hand_spec());
                    &&& old(self).is_ongoing()
                    &&& !final(self).is_ongoing()
                    &&& old(self).dealer_hand_spec().is_prefix_of(final(self).dealer_hand_spec())
                    &&& d >= 16 || d >= p
                    &&& (hand_points(old(self).dealer_hand_spec()) >= 16 || hand_points(
                        old(self).dealer_hand_spec(),
                    ) >= p ==> final(self).dealer_hand_spec() == old(self).dealer_hand_spec())
                    &&& (hand_points(old(self).dealer_hand_spec()) < 16 && hand_points(
                        old(self).dealer_hand_spec(),
                    ) < p ==> final(self).dealer_hand_spec().len() > old(self).dealer_hand_spec().len())
                    &&& w == winner_spec(p, d)
                    &&& final(self).balance_spec() == (match winner_spec(p, d) {
                        Winner::Player => old(self).balance_spec() + old(self).bet_spec(),
                        Winner::Dealer => old(self).balance_spec() - old(self).bet_spec(),
                        Winner::Draw => old(self).balance_spec(),
                    })
                },
            },
    {
        if self.state != State::Ongoing {
            return Err("Instance not ongoing".to_owned());
        }
        let player_value = Self::hand_value(&self.player_hand);
        let mut dealer_value = Self::hand_value(&self.dealer_hand);
        let ghost start_dealer = self.dealer_hand@;
        while dealer_value < player_value && dealer_value < 16
            invariant
                self.shoe.wf(),
                self.shoe.deck_count_spec() == 3,
                self.state == old(self).state,
                self.balance == old(self).balance,
                self.bet == old(self).bet,
                self.player_hand@ == old(self).player_hand@,
                player_value as int == hand_points(self.player_hand@),
                start_dealer == old(self).dealer_hand@,
                start_dealer.is_prefix_of(self.dealer_hand@),
                dealer_value as int == hand_points(self.dealer_hand@),
                hand_points(self.dealer_hand@) <= 25,
                hand_points(start_dealer) >= 16 || hand_points(start_dealer)
                    >= player_value as int ==> self.dealer_hand@ == start_dealer,
            decreases 26 - dealer_value,
        {
            let card = Self::add_card(&mut self.shoe, &mut self.dealer_hand);
            dealer_value = dealer_value + card.value().value();
            proof {
                assert(start_dealer.is_prefix_of(self.dealer_hand@));
            }
        }
        proof {
            if hand_points(start_dealer) < 16 && hand_points(start_dealer) < player_value as int {
                if self.dealer_hand@.len() == start_dealer.len() {
                    assert(self.dealer_hand@ =~= start_dealer);
                }
            }
        }
        let winner = if player_value == 21 || Self::is_bust(&self.dealer_hand) || player_value
            > dealer_value {
            self.balance = self.balance + self.bet;
            Winner::Player
        } else if player_value != dealer_value {
            self.balance = self.balance - self.bet;
            Winner::Dealer
        } else {
            Winner::Draw
        };
        self.state = State::Finished;
        Ok(winner)
    }

    /// Reports the player's total.
    pub fn player_total(&self) -> (t: u8)
        requires
            self.wf(),
        ensures
            t as int == hand_points(self.player_hand_spec()),
    {
        Self::hand_value(&self.player_hand)
    }

    /// Reports the dealer's total.
    pub fn dealer_total(&self) -> (t: u8)
        requires
            self.wf(),
        ensures
            t as int == hand_points(self.dealer_hand_spec()),
    {
        Self::hand_value(&self.dealer_hand)
    }

    /// Sums a hand's points.
    fn hand_value(hand: &Hand) -> (t: u8)
        requires
            hand_points(hand@) <= 255,
        ensures
            t as int == hand_points(hand@),
    {
        let n = hand.len();
        let mut total: u8 = 0;
        let mut i: usize = 0;
        proof {
            lemma_hand_points_bounds(hand@);
        }
        while i < n
            invariant
                i <= n == hand@.len(),
                hand_points(hand@) <= 255,
                total as int == hand_points(hand@.take(i as int)),
            decreases n - i,
        {
            proof {
                assert(hand@.take(i + 1).drop_last() =~= hand@.take(i as int));
                assert(hand@.take(i + 1).last() == hand@[i as int]);
                assert(hand@.take(i + 1) =~= hand@.take(i as int).push(hand@[i as int]));
                lemma_hand_points_prefix(hand@, i + 1);
                lemma_hand_points_bounds(hand@.take(i + 1));
            }
            total = total + hand[i].value().value();
            i = i + 1;
        }
        proof {
            assert(hand@.take(n as int) =~= hand@);
        }
        total
    }

    /// Whether a hand's total passes twenty-one.
    fn is_bust(hand: &Hand) -> (r: bool)
        requires
            hand_points(hand@) <= 255,
        ensures
            r == (hand_points(hand@) > 21),
    {
        let total = Self::hand_value(&hand);
        total > 21
    }
}

/// A prefix of a hand never counts more than the whole hand.
pub proof fn lemma_hand_points_prefix(hand: Seq<Card>, i: int)
    requires
        0 <= i <= hand.len(),
    ensures
        hand_points(hand.take(i)) <= hand_points(hand),
    decreases hand.len() - i,
{
    if i < hand.len() {
        lemma_hand_points_prefix(hand, i + 1);
        assert(hand.take(i + 1).drop_last() =~= hand.take(i));
        lemma_hand_points_bounds(hand.take(i + 1));
    } else {
        assert(hand.take(i) =~= hand);
    }
}

/// A player standing at twenty-one against a dealer at eighteen takes the
/// round, and the dealer, at sixteen or over, draws no card; by `stand`'s
/// contract the balance then grows by the bet.
pub proof fn lemma_player_twentyone_beats_eighteen(player: int, dealer: int)
    requires
        player == 21,
        dealer == 18,
    ensures
        winner_spec(player, dealer) == Winner::Player,
        dealer >= 16,
{
}

} // verus!
