use cardgame::message::Message;

#[test]
fn valid_parsing() {
    assert_eq!(Message::Exit, "exit".parse().unwrap());
    assert_eq!(Message::Exit, "EXIT".parse().unwrap());
    assert_eq!(Message::Exit, "eXIt".parse().unwrap());
    assert_eq!(Message::Exit, "  exit  ".parse().unwrap());
}

#[test]
fn parse_all_types() {
    assert_eq!(Message::Exit, "exit".parse().unwrap());
    assert_eq!(
        Message::Login("fooBAR".to_string()),
        "login fooBAR".parse().unwrap()
    );
    assert_eq!(Message::Balance, "balance".parse().unwrap());
    assert_eq!(Message::Deposit(50), "deposit 50".parse().unwrap());
    assert_eq!(Message::Start(25), "start 25".parse().unwrap());
    assert_eq!(Message::Hit, "hit".parse().unwrap());
    assert_eq!(Message::Stand, "stand".parse().unwrap());
}

#[test]
fn zero_amounts_are_rejected() {
    let e = Message::parse("deposit 0").unwrap_err();
    assert_eq!(
        "Deposit amount has to be a positive number",
        e.message().as_str()
    );
    let e = Message::parse("start 0").unwrap_err();
    assert_eq!("Bet amount has to be a positive number", e.message().as_str());
}

#[test]
fn non_numeric_amounts_are_rejected() {
    let e = Message::parse("deposit abc").unwrap_err();
    assert_eq!("Unable to parse input to integer", e.message().as_str());
    let e = Message::parse("start 12x").unwrap_err();
    assert_eq!("Unable to parse input to integer", e.message().as_str());
    let e = Message::parse("deposit 99999999999").unwrap_err();
    assert_eq!("Unable to parse input to integer", e.message().as_str());
}

#[test]
fn missing_pieces_are_rejected() {
    let e = Message::parse("deposit").unwrap_err();
    assert_eq!("Amount missing", e.message().as_str());
    let e = Message::parse("start").unwrap_err();
    assert_eq!("Amount missing", e.message().as_str());
    let e = Message::parse("").unwrap_err();
    assert_eq!("Keyword missing", e.message().as_str());
    let e = Message::parse("   ").unwrap_err();
    assert_eq!("Keyword missing", e.message().as_str());
}

#[test]
fn unknown_keyword_echoes_trimmed_input() {
    let e = Message::parse("  shuffle please  ").unwrap_err();
    assert_eq!("shuffle please", e.message().as_str());
}

#[test]
fn login_joins_words_with_single_spaces() {
    assert_eq!(
        Message::Login("a b".to_string()),
        "login   a    b ".parse().unwrap()
    );
    assert_eq!(Message::Login(String::new()), "login".parse().unwrap());
}

#[test]
fn render_writes_canonical_lowercase() {
    assert_eq!("exit", Message::Exit.render().as_str());
    assert_eq!("deposit 50", Message::Deposit(50).render().as_str());
    assert_eq!("start 25", Message::Start(25).render().as_str());
    assert_eq!("balance", Message::Balance.render().as_str());
    assert_eq!("hit", Message::Hit.render().as_str());
    assert_eq!("stand", Message::Stand.render().as_str());
    assert_eq!(
        "login fooBAR",
        Message::Login("fooBAR".to_string()).render().as_str()
    );
}

#[test]
fn parse_render_roundtrip() {
    for text in [
        "DEPOSIT 50",
        "deposit +7",
        "Start 25",
        "  exit  ",
        "login   Bob   the   GREAT",
        "BALANCE",
        "hIt",
        "STAND",
    ] {
        let m = Message::parse(text).unwrap();
        let again = Message::parse(m.render().as_str()).unwrap();
        assert_eq!(m, again);
    }
}

#[test]
fn plus_sign_amounts_parse() {
    assert_eq!(Message::Deposit(7), "deposit +7".parse().unwrap());
    let e = Message::parse("deposit ++7").unwrap_err();
    assert_eq!("Unable to parse input to integer", e.message().as_str());
}
