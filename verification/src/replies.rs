//! The replies a connection sends: each request's handler calls the game
//! engine and renders the outcome as the exact text the peer sees.  The
//! transport around these functions only reads requests and writes the
//! returned text.

use vstd::prelude::*;

use crate::blackjack::{
    hand_points, insufficient_balance_msg, winner_spec, winner_text_spec, Blackjack, HitResult,
    Winner,
};
use crate::text::dec_digits;

verus! {

use vstd::string::StringExecFns;

/// A pair of hand totals between two texts, as every round reply shows it.
pub open spec fn hands_text_spec(prefix: Seq<char>, d: int, p: int, tail: Seq<char>) -> Seq<char> {
    prefix + dec_digits(d as nat) + "\r\nPlayer Hand: "@ + dec_digits(p as nat) + tail
}

/// The prompt while the round goes on.
pub open spec fn hit_or_stand_prompt_spec(d: int, p: int) -> Seq<char> {
    hands_text_spec("Dealer Hand: "@, d, p, "\r\nType \"hit\" or \"stand\""@)
}

/// The closing text once a round is over.
pub open spec fn new_game_tail_spec() -> Seq<char> {
    "\r\nType \"start <int>\" to start a new game"@
}

/// The reply to a hit that busts the player.
pub open spec fn bust_reply_spec(d: int, p: int) -> Seq<char> {
    hands_text_spec("Bust! Dealer Hand: "@, d, p, new_game_tail_spec())
}

/// The reply that announces the round's winner.
pub open spec fn stand_reply_spec(w: Winner, d: int, p: int) -> Seq<char> {
    hands_text_spec(winner_text_spec(w) + "! Dealer Hand: "@, d, p, new_game_tail_spec())
}

/// The confirmation of a deposit.
pub open spec fn deposited_spec(amount: int) -> Seq<char> {
    dec_digits(amount as nat) + " deposited to the account"@
}

/// The reply to a successful login.
pub open spec fn login_reply_spec(balance: int) -> Seq<char> {
    "Successfully logged in. Current balance: "@ + dec_digits(balance as nat)
        + ". Type \"deposit <int>\" to add to your balance or \"start <int>\" to start a new game"@
}

/// Renders two totals between a prefix and a tail.
fn hands_text(prefix: String, d: u8, p: u8, tail: &str) -> (s: String)
    ensures
        s@ == hands_text_spec(prefix@, d as int, p as int, tail@),
{
    let mut s = prefix;
    let dd = crate::text::u64_to_string(d as u64);
    s.append(dd.as_str());
    s.append("\r\nPlayer Hand: ");
    let pd = crate::text::u64_to_string(p as u64);
    s.append(pd.as_str());
    s.append(tail);
    s
}

/// The text a fresh connection is greeted with.
pub fn greeting() -> (s: String)
    ensures
        s@
            == "Type \"exit\" any time to stop the process. Type \"login <name>\" to start a new game (or if such a name already exists, resume the game)."@,
{
    "Type \"exit\" any time to stop the process. Type \"login <name>\" to start a new game (or if such a name already exists, resume the game).".to_owned()
}

/// The reply to any game command before a login.
pub fn not_logged_in_reply() -> (s: String)
    ensures
        s@ == "Not logged in"@,
{
    "Not logged in".to_owned()
}

/// The reply to a request that could not be read or parsed.
pub fn misunderstood_reply() -> (s: String)
    ensures
        s@ == "Server couldn't understand the command"@,
{
    "Server couldn't understand the command".to_owned()
}

/// The reply to a login, showing the session's balance.
pub fn login_reply(balance: u32) -> (s: String)
    ensures
        s@ == login_reply_spec(balance as int),
{
    let mut s = "Successfully logged in. Current balance: ".to_owned();
    let b = crate::text::u64_to_string(balance as u64);
    s.append(b.as_str());
    s.append(
        ". Type \"deposit <int>\" to add to your balance or \"start <int>\" to start a new game",
    );
    s
}

/// The reply to a balance request: the balance as decimal text.
pub fn balance_reply(game: &Blackjack) -> (s: String)
    requires
        game.wf(),
    ensures
        s@ == dec_digits(game.balance_spec() as nat),
{
    crate::text::u64_to_string(game.balance() as u64)
}

/// Handles a deposit: adds the amount and confirms it, or hands the
/// engine's complaint back.
pub fn deposit_reply(game: &mut Blackjack, amount: u32) -> (s: String)
    requires
        old(game).wf(),
        old(game).balance_spec() + amount as int <= u32::MAX as int,
    ensures
        final(game).wf(),
        final(game).is_ongoing() == old(game).is_ongoing(),
        final(game).bet_spec() == old(game).bet_spec(),
        amount > 0 ==> final(game).balance_spec() == old(game).balance_spec() + amount as int && s@
            == deposited_spec(amount as int),
        amount == 0 ==> final(game).balance_spec() == old(game).balance_spec() && s@
            == "Deposit has to be bigger than 0"@,
{
    match game.deposit(amount) {
        Ok(_) => {
            let mut s = crate::text::u64_to_string(amount as u64);
            s.append(" deposited to the account");
            s
        },
        Err(e) => e,
    }
}

/// Handles a start: deals the round and prompts for hit or stand, or hands
/// the engine's complaint back.
pub fn start_reply(game: &mut Blackjack, amount: u32) -> (s: String)
    requires
        old(game).wf(),
    ensures
        final(game).wf(),
        final(game).balance_spec() == old(game).balance_spec(),
        old(game).is_ongoing() ==> s@ == "This instance is already running"@ && *final(game)
            == *old(game),
        !old(game).is_ongoing() && amount as int > old(game).balance_spec() ==> s@
            == insufficient_balance_msg(old(game).balance_spec(), amount as int) && *final(game)
            == *old(game),
        !old(game).is_ongoing() && amount as int <= old(game).balance_spec() ==> final(game).is_ongoing() && final(game).bet_spec() == amount as int && s@ == hit_or_stand_prompt_spec(
            hand_points(final(game).dealer_hand_spec()),
            hand_points(final(game).player_hand_spec()),
        ),
{
    match game.start(amount) {
        Ok(_) => {
            let d = game.dealer_total();
            let p = game.player_total();
            hands_text("Dealer Hand: ".to_owned(), d, p, "\r\nType \"hit\" or \"stand\"")
        },
        Err(e) => e,
    }
}

/// Handles a hit: draws for the player and prompts again, reports a bust,
/// or hands the engine's complaint back.
pub fn hit_reply(game: &mut Blackjack) -> (s: String)
    requires
        old(game).wf(),
    ensures
        final(game).wf(),
        final(game).bet_spec() == old(game).bet_spec(),
        final(game).dealer_hand_spec() == old(game).dealer_hand_spec(),
        !old(game).is_ongoing() ==> s@ == "Instance not ongoing"@ && *final(game) == *old(game),
        old(game).is_ongoing() ==> {
            let p = hand_points(final(game).player_hand_spec());
            let d = hand_points(final(game).dealer_hand_spec());
            &&& final(game).player_hand_spec().len() == old(game).player_hand_spec().len() + 1
            &&& (p > 21 ==> !final(game).is_ongoing() && final(game).balance_spec() == old(game).balance_spec() - old(game).bet_spec() && s@ == bust_reply_spec(d, p))
            &&& (p <= 21 ==> final(game).is_ongoing() && final(game).balance_spec() == old(game).balance_spec() && s@ == hit_or_stand_prompt_spec(d, p))
        },
{
    match game.hit() {
        Ok(result) => {
            let d = game.dealer_total();
            let p = game.player_total();
            match result {
                HitResult::Continue => hands_text(
                    "Dealer Hand: ".to_owned(),
                    d,
                    p,
                    "\r\nType \"hit\" or \"stand\"",
                ),
                HitResult::Bust => hands_text(
                    "Bust! Dealer Hand: ".to_owned(),
                    d,
                    p,
                    "\r\nType \"start <int>\" to start a new game",
                ),
            }
        },
        Err(e) => e,
    }
}

/// Handles a stand: the dealer finishes its hand, the totals decide the
/// round, and the reply names the winner; or hands the engine's complaint
/// back.
pub fn stand_reply(game: &mut Blackjack) -> (s: String)
    requires
        old(game).wf(),
        old(game).is_ongoing() ==> old(game).balance_spec() + old(game).bet_spec()
            <= u32::MAX as int,
    ensures
        final(game).wf(),
        final(game).bet_spec() == old(game).bet_spec(),
        final(game).player_hand_spec() == old(game).player_hand_spec(),
        !old(game).is_ongoing() ==> s@ == "Instance not ongoing"@ && *final(game) == *old(game),
        old(game).is_ongoing() ==> {
            let p = hand_points(old(game).player_hand_spec());
            let d = hand_points(final(game).dealer_hand_spec());
            &&& !final(game).is_ongoing()
            &&& (d >= 16 || d >= p)
            &&& s@ == stand_reply_spec(winner_spec(p, d), d, p)
            &&& final(game).balance_spec() == (match winner_spec(p, d) {
                Winner::Player => old(game).balance_spec() + old(game).bet_spec(),
                Winner::Dealer => old(game).balance_spec() - old(game).bet_spec(),
                Winner::Draw => old(game).balance_spec(),
            })
        },
{
    match game.stand() {
        Ok(winner) => {
            let d = game.dealer_total();
            let p = game.player_total();
            let mut prefix = winner.text();
            prefix.append("! Dealer Hand: ");
            hands_text(prefix, d, p, "\r\nType \"start <int>\" to start a new game")
        },
        Err(e) => e,
    }
}

} // verus!
