use cardgame::blackjack::{Blackjack, HitResult};

#[test]
fn new_game_starts_empty() {
    let game = Blackjack::new();
    assert_eq!(0, game.balance());
}

#[test]
fn deposit_adds_and_zero_is_refused() {
    let mut game = Blackjack::new();
    assert!(game.deposit(0).is_err());
    assert_eq!(0, game.balance());
    assert!(game.deposit(50).is_ok());
    assert_eq!(50, game.balance());
    assert!(game.deposit(25).is_ok());
    assert_eq!(75, game.balance());
}

#[test]
fn start_with_bet_over_balance_fails_and_keeps_balance() {
    let mut game = Blackjack::new();
    game.deposit(10).unwrap();
    let r = game.start(11);
    assert!(r.is_err());
    assert_eq!(
        "Not enough balance (10) to accept the bet (11)",
        r.unwrap_err()
    );
    assert_eq!(10, game.balance());
    // The refused start left no round running: a covered bet is accepted.
    assert!(game.start(10).is_ok());
}

#[test]
fn start_while_ongoing_fails() {
    let mut game = Blackjack::new();
    game.deposit(100).unwrap();
    game.start(10).unwrap();
    let r = game.start(10);
    assert!(r.is_err());
    assert_eq!("This instance is already running", r.unwrap_err());
}

#[test]
fn hit_and_stand_require_a_round() {
    let mut game = Blackjack::new();
    game.deposit(100).unwrap();
    assert_eq!("Instance not ongoing", game.hit().unwrap_err());
    assert_eq!("Instance not ongoing", game.stand().unwrap_err());
}

#[test]
fn start_deals_two_cards_each() {
    let mut game = Blackjack::new();
    game.deposit(100).unwrap();
    game.start(10).unwrap();
    let dealer = game.dealer_total();
    let player = game.player_total();
    assert!(2 <= dealer && dealer <= 20);
    assert!(2 <= player && player <= 20);
    assert_eq!(100, game.balance());
}

#[test]
fn bust_deducts_bet_and_finishes_round() {
    let mut game = Blackjack::new();
    game.deposit(100).unwrap();
    game.start(10).unwrap();
    let mut busted = false;
    for _ in 0..30 {
        match game.hit() {
            Ok(HitResult::Continue) => {
                assert!(game.player_total() <= 21);
                assert_eq!(100, game.balance());
            }
            Ok(HitResult::Bust) => {
                assert!(game.player_total() > 21);
                busted = true;
                break;
            }
            Err(e) => panic!("hit refused during a round: {}", e),
        }
    }
    assert!(busted, "drawing one-point cards at least busts within 30 draws");
    assert_eq!(90, game.balance());
    // The round is over: a new start is accepted.
    assert!(game.start(10).is_ok());
}

#[test]
fn dealer_draw_halts_at_sixteen_or_when_not_behind() {
    for _ in 0..20 {
        let mut game = Blackjack::new();
        game.deposit(1000).unwrap();
        game.start(10).unwrap();
        let player = game.player_total();
        game.stand().unwrap();
        let dealer = game.dealer_total();
        assert!(dealer >= 16 || dealer >= player);
    }
}

#[test]
fn stand_settles_the_bet_by_the_announced_winner() {
    for _ in 0..20 {
        let mut game = Blackjack::new();
        game.deposit(100).unwrap();
        game.start(10).unwrap();
        let player = game.player_total();
        let winner = game.stand().unwrap();
        let dealer = game.dealer_total();
        let text = winner.text();
        match text.as_str() {
            "Player Won" => {
                assert!(player == 21 || dealer > 21 || player > dealer);
                assert_eq!(110, game.balance());
            }
            "Dealer Won" => {
                assert!(player != 21 && dealer <= 21 && dealer >= player && player != dealer);
                assert_eq!(90, game.balance());
            }
            "Draw" => {
                assert!(player == dealer);
                assert_eq!(100, game.balance());
            }
            other => panic!("unknown winner text: {}", other),
        }
        // The round is over either way.
        assert!(game.start(10).is_ok());
    }
}
