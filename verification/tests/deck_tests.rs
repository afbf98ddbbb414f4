use cardgame::deck::{Card, CardSuit, CardValue, Deck, Shoe};

#[test]
fn deck_has_correct_number_of_cards() {
    assert_eq!(52, Deck::SIZE);
    assert_eq!(Deck::SIZE, Deck::new().len() as u8);
}

#[test]
fn deck_pop_removes_card() {
    let mut deck = Deck::new();
    let len = deck.len();
    let card = deck.pop();
    assert_eq!(len - 1, deck.len());

    assert!(card.is_some());
    let card = card.unwrap();
    assert!(!deck.contains(&card));
}

#[test]
fn deck_cards_are_unique() {
    let suits = [
        CardSuit::Heart,
        CardSuit::Spade,
        CardSuit::Club,
        CardSuit::Diamond,
    ];
    let values = [
        CardValue::Ace,
        CardValue::Two,
        CardValue::Three,
        CardValue::Four,
        CardValue::Five,
        CardValue::Six,
        CardValue::Seven,
        CardValue::Eight,
        CardValue::Nine,
        CardValue::Ten,
        CardValue::Jack,
        CardValue::Queen,
        CardValue::King,
    ];
    let mut cards = Vec::new();
    for suit in suits {
        for value in values {
            cards.push(Card { suit, value });
        }
    }
    assert_eq!(52, cards.len());

    let deck = Deck::new();

    for card in cards.iter() {
        assert!(deck.contains(card));
    }
}

#[test]
fn invalid_deck_count() {
    assert!(Shoe::new(0).is_err());
}

fn create_shoe(deck_count: u8) -> Shoe {
    let shoe = Shoe::new(deck_count);
    assert!(shoe.is_ok());

    shoe.unwrap()
}

#[test]
fn valid_deck_sizes() {
    let shoe = create_shoe(1);
    assert_eq!(shoe.card_count(), 52);
    assert_eq!(shoe.minimum_cards(), 15);

    let shoe = create_shoe(5);
    assert_eq!(shoe.card_count(), 260);
    assert_eq!(shoe.minimum_cards(), 78);

    let shoe = create_shoe(50);
    assert_eq!(shoe.card_count(), 2600);
    assert_eq!(shoe.minimum_cards(), 780);

    let shoe = create_shoe(255);
    assert_eq!(shoe.card_count(), 13260);
    assert_eq!(shoe.minimum_cards(), 3978);
}

#[test]
fn refill() {
    let mut shoe = create_shoe(3);

    while (shoe.card_count() as u16) > shoe.minimum_cards() {
        shoe.pull_card();
    }

    assert_eq!(shoe.card_count() as u16, shoe.minimum_cards());
    shoe.pull_card();
    assert_eq!(
        shoe.card_count() as u16,
        shoe.deck_count() as u16 * Deck::SIZE as u16
    );
}

#[test]
fn shoe_holds_one_of_each_card_per_deck() {
    let mut shoe = create_shoe(3);
    let mut seen = Vec::new();
    while shoe.card_count() as u16 > shoe.minimum_cards() {
        seen.push(shoe.pull_card());
    }
    let deck = Deck::new();
    let mut full = Vec::new();
    let mut rest = deck.cards();
    full.append(&mut rest);
    for card in full.iter() {
        let count = seen.iter().filter(|c| *c == card).count();
        assert!(count <= 3);
    }
    for card in seen.iter() {
        assert!(Deck::new().contains(card));
    }
}
