use cardgame::blackjack::Blackjack;
use cardgame::directory::SessionDirectory;

#[test]
fn login_is_case_insensitive() {
    let mut directory = SessionDirectory::new();
    let (id1, created1) = directory.login_lookup_or_create("Bob");
    let (id2, created2) = directory.login_lookup_or_create("BOB");
    assert!(created1);
    assert!(!created2);
    assert_eq!(id1, id2);
    assert_eq!(1, directory.session_count());
}

#[test]
fn one_session_per_new_name() {
    // Two connections race to log in under a brand-new name; the directory
    // serves them one after the other, so the second sees the first's slot.
    let mut directory = SessionDirectory::new();
    let (id1, created1) = directory.login_lookup_or_create("newname");
    let (id2, created2) = directory.login_lookup_or_create("newname");
    assert!(created1);
    assert!(!created2);
    assert_eq!(id1, id2);
    assert_eq!(1, directory.session_count());
}

#[test]
fn distinct_names_get_distinct_sessions() {
    let mut directory = SessionDirectory::new();
    let (id1, _) = directory.login_lookup_or_create("alice");
    let (id2, _) = directory.login_lookup_or_create("bob");
    assert_ne!(id1, id2);
    assert_eq!(2, directory.session_count());
}

#[test]
fn deposit_is_visible_through_either_binding() {
    // The slot index is the handle to the shared game: both casings bind
    // to the same slot, so a deposit through one shows through the other.
    let mut directory = SessionDirectory::new();
    let mut games: Vec<Blackjack> = Vec::new();

    let (id1, created1) = directory.login_lookup_or_create("Bob");
    if created1 {
        games.push(Blackjack::new());
    }
    games[id1].deposit(75).unwrap();

    let (id2, created2) = directory.login_lookup_or_create("BOB");
    if created2 {
        games.push(Blackjack::new());
    }
    assert_eq!(id1, id2);
    assert_eq!(75, games[id2].balance());
}
