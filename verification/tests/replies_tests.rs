use cardgame::blackjack::Blackjack;
use cardgame::replies::{
    balance_reply, deposit_reply, greeting, hit_reply, login_reply, misunderstood_reply,
    not_logged_in_reply, stand_reply, start_reply,
};

#[test]
fn fixed_replies_match_the_protocol() {
    assert_eq!("Not logged in", not_logged_in_reply().as_str());
    assert_eq!(
        "Server couldn't understand the command",
        misunderstood_reply().as_str()
    );
    assert!(greeting().starts_with("Type \"exit\" any time to stop the process."));
}

#[test]
fn login_reply_shows_the_balance() {
    assert_eq!(
        "Successfully logged in. Current balance: 75. Type \"deposit <int>\" to add to your balance or \"start <int>\" to start a new game",
        login_reply(75).as_str()
    );
}

#[test]
fn deposit_reply_confirms_or_complains() {
    let mut game = Blackjack::new();
    assert_eq!("50 deposited to the account", deposit_reply(&mut game, 50).as_str());
    assert_eq!("50", balance_reply(&game).as_str());
    assert_eq!("Deposit has to be bigger than 0", deposit_reply(&mut game, 0).as_str());
    assert_eq!("50", balance_reply(&game).as_str());
}

#[test]
fn start_reply_prompts_with_both_totals() {
    let mut game = Blackjack::new();
    deposit_reply(&mut game, 100);
    let reply = start_reply(&mut game, 10);
    assert!(reply.starts_with("Dealer Hand: "));
    assert!(reply.contains("\r\nPlayer Hand: "));
    assert!(reply.ends_with("\r\nType \"hit\" or \"stand\""));
    let expected = format!(
        "Dealer Hand: {}\r\nPlayer Hand: {}\r\nType \"hit\" or \"stand\"",
        game.dealer_total(),
        game.player_total()
    );
    assert_eq!(expected, reply);
    assert_eq!(
        "This instance is already running",
        start_reply(&mut game, 10).as_str()
    );
}

#[test]
fn start_reply_reports_a_short_balance() {
    let mut game = Blackjack::new();
    deposit_reply(&mut game, 5);
    assert_eq!(
        "Not enough balance (5) to accept the bet (10)",
        start_reply(&mut game, 10).as_str()
    );
}

#[test]
fn hit_reply_prompts_or_reports_the_bust() {
    let mut game = Blackjack::new();
    assert_eq!("Instance not ongoing", hit_reply(&mut game).as_str());
    deposit_reply(&mut game, 100);
    start_reply(&mut game, 10);
    for _ in 0..30 {
        let reply = hit_reply(&mut game);
        if reply.starts_with("Bust! Dealer Hand: ") {
            assert!(reply.ends_with("\r\nType \"start <int>\" to start a new game"));
            assert_eq!("90", balance_reply(&game).as_str());
            return;
        }
        let expected = format!(
            "Dealer Hand: {}\r\nPlayer Hand: {}\r\nType \"hit\" or \"stand\"",
            game.dealer_total(),
            game.player_total()
        );
        assert_eq!(expected, reply);
    }
    panic!("drawing one-point cards at least busts within 30 draws");
}

#[test]
fn stand_reply_announces_the_winner() {
    let mut game = Blackjack::new();
    assert_eq!("Instance not ongoing", stand_reply(&mut game).as_str());
    deposit_reply(&mut game, 100);
    start_reply(&mut game, 10);
    let reply = stand_reply(&mut game);
    assert!(
        reply.starts_with("Player Won! ")
            || reply.starts_with("Dealer Won! ")
            || reply.starts_with("Draw! ")
    );
    let expected_tail = format!(
        "Dealer Hand: {}\r\nPlayer Hand: {}\r\nType \"start <int>\" to start a new game",
        game.dealer_total(),
        game.player_total()
    );
    assert!(reply.ends_with(expected_tail.as_str()));
}
