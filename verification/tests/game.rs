use arrayvec::ArrayString;
use regicide::action::Action;
use regicide::card::{Card, Combo, Suit};
use regicide::deck::Deck;
use regicide::game::RegicideAction;
use regicide::ident::UserId;
use regicide::phase::Phase;
use regicide::state::{ServerMsg, SharedState, UserState};
use regicide::table::UserMap;

fn uid(name: &str) -> UserId {
    ArrayString::from(name).unwrap()
}

fn order() -> [UserId; 4] {
    [uid("north"), uid("east"), uid("south"), uid("west")]
}

fn gathered(names: &[&str]) -> UserMap<UserState> {
    let mut users = UserMap::new();
    for name in names {
        users.insert(uid(name), UserState::default());
    }
    users
}

/// Four players with the given hands, seated north, east, south, west.
fn seated(hands: [Vec<Card>; 4]) -> UserMap<UserState> {
    let mut users = UserMap::new();
    for (id, hand) in order().into_iter().zip(hands) {
        users.insert(id, UserState::Init { hand });
    }
    users
}

/// A game in which the first jack is in battle.
fn in_battle(phase: Phase, damage: u8) -> SharedState {
    let mut deck = Deck::new(2, rand::rng());
    deck.next_battle(false);
    SharedState::Init { phase, deck, turn_order: order(), damage }
}

fn hand_of(users: &UserMap<UserState>, name: &str) -> Vec<Card> {
    match users.get(&uid(name)) {
        Some(UserState::Init { hand }) => hand.clone(),
        other => panic!("no hand: {other:?}"),
    }
}

fn phase_of(shared: &SharedState) -> Phase {
    match shared {
        SharedState::Init { phase, .. } => *phase,
        SharedState::Uninit => panic!("not started"),
    }
}

fn damage_of(shared: &SharedState) -> u8 {
    match shared {
        SharedState::Init { damage, .. } => *damage,
        SharedState::Uninit => panic!("not started"),
    }
}

fn deck_of(shared: &SharedState) -> &Deck {
    match shared {
        SharedState::Init { deck, .. } => deck,
        SharedState::Uninit => panic!("not started"),
    }
}

fn low_hands() -> [Vec<Card>; 4] {
    [
        vec![Card::HeartAce, Card::ClubTen, Card::SpadeFive, Card::DiamondThree, Card::Joker],
        vec![Card::HeartTwo, Card::SpadeTwo],
        vec![Card::HeartThree],
        vec![],
    ]
}

#[test]
fn a_lobby_takes_four_players_until_the_game_starts() {
    let open = SharedState::default();
    assert!(RegicideAction::can_join(&open, &gathered(&[])));
    assert!(RegicideAction::can_join(&open, &gathered(&["a", "b", "c"])));
    assert!(!RegicideAction::can_join(&open, &gathered(&["a", "b", "c", "d"])));
    assert!(!RegicideAction::can_join(&in_battle(Phase::Victory, 0), &gathered(&["a"])));
}

#[test]
fn shared_state_can_be_copied() {
    assert!(matches!(SharedState::Uninit.clone(), SharedState::Uninit));
    let shared = in_battle(Phase::Defend(uid("east")), 6);
    let copy = shared.clone();
    assert_eq!(phase_of(&copy), Phase::Defend(uid("east")));
    assert_eq!(damage_of(&copy), 6);
    assert_eq!(deck_of(&copy).battling(), deck_of(&shared).battling());
    assert_eq!(deck_of(&copy).library_count(), 42);
    match copy {
        SharedState::Init { turn_order, .. } => assert_eq!(turn_order, order()),
        SharedState::Uninit => panic!("not started"),
    }
}

#[test]
fn join_message_names_the_lobby() {
    assert!(matches!(RegicideAction::join_msg(42), ServerMsg::Join { joined: 42 }));
}

#[test]
fn a_game_starts_with_four_players_only() {
    for names in [&["a"][..], &["a", "b", "c"][..], &["a", "b", "c", "d", "e"][..]] {
        let mut shared = SharedState::default();
        let mut users = gathered(names);
        RegicideAction::Init.update(&mut shared, &mut users, uid("a"));
        assert!(matches!(shared, SharedState::Uninit));
        assert!(matches!(users.get(&uid("a")), Some(UserState::Uninit)));
    }
}

#[test]
fn starting_deals_five_cards_to_each_of_four() {
    let mut shared = SharedState::default();
    let names = ["north", "east", "south", "west"];
    let mut users = gathered(&names);
    RegicideAction::Init.update(&mut shared, &mut users, uid("east"));
    assert_eq!(damage_of(&shared), 0);
    let turn_order = match &shared {
        SharedState::Init { turn_order, .. } => *turn_order,
        SharedState::Uninit => panic!("not started"),
    };
    assert_eq!(phase_of(&shared), Phase::Play(turn_order[0]));
    let mut seats: Vec<String> = turn_order.iter().map(|id| id.to_string()).collect();
    seats.sort();
    assert_eq!(seats, vec!["east", "north", "south", "west"]);
    assert_eq!(users.len(), 4);

    let mut cards: Vec<String> = Vec::new();
    for name in names {
        let hand = hand_of(&users, name);
        assert_eq!(hand.len(), 5);
        cards.extend(hand.iter().map(|c| c.to_string()));
    }
    let mut shared = shared;
    let deck = match &mut shared {
        SharedState::Init { deck, .. } => deck,
        SharedState::Uninit => panic!("not started"),
    };
    assert_eq!(deck.library_count(), 22);
    assert_eq!(deck.discard_count(), 0);
    assert!(deck.battling().is_none());
    while deck.library_count() > 0 {
        cards.push(deck.draw().to_string());
    }
    cards.sort();
    let mut expected: Vec<String> =
        Deck::library(&mut rand::rng(), 2).iter().map(|c| c.to_string()).collect();
    expected.sort();
    assert_eq!(cards, expected);

    // Starting again changes nothing.
    let before = hand_of(&users, "north");
    RegicideAction::Init.update(&mut shared, &mut users, uid("north"));
    assert_eq!(hand_of(&users, "north"), before);
}

#[test]
fn playing_out_of_turn_changes_nothing() {
    let mut shared = in_battle(Phase::Play(uid("north")), 3);
    let mut users = seated(low_hands());
    RegicideAction::Play { cards: vec![0] }.update(&mut shared, &mut users, uid("east"));
    RegicideAction::Discard { cards: vec![0] }.update(&mut shared, &mut users, uid("north"));
    RegicideAction::Jester { player: uid("east") }.update(&mut shared, &mut users, uid("north"));
    RegicideAction::Init.update(&mut shared, &mut users, uid("north"));
    RegicideAction::Play { cards: vec![0] }.update(&mut shared, &mut users, uid("nobody"));
    assert_eq!(phase_of(&shared), Phase::Play(uid("north")));
    assert_eq!(damage_of(&shared), 3);
    assert_eq!(hand_of(&users, "north"), low_hands()[0]);
    assert_eq!(hand_of(&users, "east"), low_hands()[1]);
    assert_eq!(deck_of(&shared).resolving_count(), 0);
}

#[test]
fn playing_without_an_enemy_changes_nothing() {
    let mut shared = SharedState::Init {
        phase: Phase::Play(uid("north")),
        deck: Deck::new(2, rand::rng()),
        turn_order: order(),
        damage: 0,
    };
    let mut users = seated(low_hands());
    RegicideAction::Play { cards: vec![0] }.update(&mut shared, &mut users, uid("north"));
    assert_eq!(hand_of(&users, "north"), low_hands()[0]);
    assert_eq!(deck_of(&shared).resolving_count(), 0);
    assert!(RegicideAction::msg(&shared, &users).is_empty());
}

#[test]
fn a_weak_play_adds_damage_and_leaves_the_turn() {
    let mut shared = in_battle(Phase::Play(uid("north")), 2);
    let mut users = seated(low_hands());
    // The five of spades: no hearts, no diamonds, five damage.
    RegicideAction::Play { cards: vec![2] }.update(&mut shared, &mut users, uid("north"));
    assert_eq!(damage_of(&shared), 7);
    assert_eq!(phase_of(&shared), Phase::Play(uid("north")));
    assert_eq!(
        hand_of(&users, "north"),
        vec![Card::HeartAce, Card::ClubTen, Card::DiamondThree, Card::Joker]
    );
    let deck = deck_of(&shared);
    assert_eq!(deck.resolving_count(), 1);
    assert_eq!(deck.defense_value(), 5);
    assert_eq!(deck.battling().unwrap().value(), 10);
    assert_eq!(deck.library_count(), 42);
    assert_eq!(hand_of(&users, "east"), low_hands()[1]);
}

#[test]
fn an_exact_blow_puts_the_enemy_on_top_of_the_library() {
    let mut shared = in_battle(Phase::Play(uid("north")), 0);
    let jack = *deck_of(&shared).battling().unwrap();
    let mut users = seated(low_hands());
    // The ten of clubs counts twenty, twice the jack's ten.
    RegicideAction::Play { cards: vec![1] }.update(&mut shared, &mut users, uid("north"));
    assert_eq!(damage_of(&shared), 20);
    assert_eq!(phase_of(&shared), Phase::Defend(uid("north")));
    let deck = match &mut shared {
        SharedState::Init { deck, .. } => deck,
        SharedState::Uninit => panic!("not started"),
    };
    assert_eq!(deck.resolving_count(), 0);
    assert_eq!(deck.discard_count(), 1);
    assert_eq!(deck.library_count(), 43);
    assert_ne!(*deck.battling().unwrap(), jack);
    assert_eq!(deck.battling().unwrap().value(), 10);
    assert_eq!(deck.draw(), jack);
}

#[test]
fn an_ace_with_a_club_counts_double() {
    let mut shared = in_battle(Phase::Play(uid("north")), 0);
    let mut users = seated(low_hands());
    // Ten of clubs with the ace of hearts: (10 + 1) * 2 = 22, more than
    // enough, so the jack goes under the library. Eleven hearts heal what
    // little is discarded: nothing yet.
    RegicideAction::Play { cards: vec![0, 1] }.update(&mut shared, &mut users, uid("north"));
    assert_eq!(damage_of(&shared), 22);
    assert_eq!(phase_of(&shared), Phase::Defend(uid("north")));
    assert_eq!(deck_of(&shared).discard_count(), 2);
    assert_eq!(deck_of(&shared).library_count(), 43);
    assert_eq!(hand_of(&users, "north"), vec![Card::SpadeFive, Card::DiamondThree, Card::Joker]);
}

#[test]
fn diamonds_let_players_draw_in_turn() {
    let mut shared = in_battle(Phase::Play(uid("east")), 0);
    let mut hands = low_hands();
    hands[1] = vec![Card::DiamondThree, Card::HeartTwo];
    hands[2] = vec![Card::HeartThree; 5];
    let mut users = seated(hands);
    // Three draws, starting with the player: east, south, west. South's
    // hand is full with five cards in a game of four.
    RegicideAction::Play { cards: vec![0] }.update(&mut shared, &mut users, uid("east"));
    assert_eq!(damage_of(&shared), 3);
    assert_eq!(deck_of(&shared).library_count(), 40);
    let east = hand_of(&users, "east");
    assert_eq!(east.len(), 2);
    assert_eq!(east[0], Card::HeartTwo);
    assert_eq!(hand_of(&users, "south"), vec![Card::HeartThree; 5]);
    assert_eq!(hand_of(&users, "west").len(), 1);
    assert_eq!(hand_of(&users, "north"), low_hands()[0]);
}

#[test]
fn hearts_heal_from_the_discard_pile() {
    let mut deck = Deck::new(0, rand::rng());
    deck.next_battle(false);
    let mut pile = vec![Card::SpadeAce, Card::SpadeTwo, Card::SpadeThree, Card::SpadeFour];
    deck.discard(&mut pile);
    let mut shared =
        SharedState::Init { phase: Phase::Play(uid("south")), deck, turn_order: order(), damage: 0 };
    let mut users = seated(low_hands());
    RegicideAction::Play { cards: vec![0] }.update(&mut shared, &mut users, uid("south"));
    assert_eq!(damage_of(&shared), 3);
    assert_eq!(deck_of(&shared).discard_count(), 1);
    assert_eq!(deck_of(&shared).library_count(), 43);
    assert_eq!(hand_of(&users, "south"), vec![]);
}

#[test]
fn the_joker_lets_its_player_name_the_next() {
    let mut shared = in_battle(Phase::Play(uid("north")), 9);
    let mut users = seated(low_hands());
    RegicideAction::Play { cards: vec![4] }.update(&mut shared, &mut users, uid("north"));
    assert_eq!(phase_of(&shared), Phase::Jester(uid("north")));
    assert_eq!(damage_of(&shared), 9);
    assert_eq!(deck_of(&shared).resolving_count(), 1);
    assert_eq!(deck_of(&shared).library_count(), 42);
    assert_eq!(hand_of(&users, "north").len(), 4);

    RegicideAction::Jester { player: uid("nobody") }.update(&mut shared, &mut users, uid("north"));
    assert_eq!(phase_of(&shared), Phase::Jester(uid("north")));
    RegicideAction::Jester { player: uid("south") }.update(&mut shared, &mut users, uid("east"));
    assert_eq!(phase_of(&shared), Phase::Jester(uid("north")));
    RegicideAction::Jester { player: uid("south") }.update(&mut shared, &mut users, uid("north"));
    assert_eq!(phase_of(&shared), Phase::Play(uid("south")));
}

#[test]
fn cards_that_make_no_combo_are_gone() {
    let mut shared = in_battle(Phase::Play(uid("north")), 0);
    let mut users = seated(low_hands());
    RegicideAction::Play { cards: vec![2, 3] }.update(&mut shared, &mut users, uid("north"));
    assert_eq!(hand_of(&users, "north"), vec![Card::HeartAce, Card::ClubTen, Card::Joker]);
    assert_eq!(phase_of(&shared), Phase::Play(uid("north")));
    assert_eq!(damage_of(&shared), 0);
    assert_eq!(deck_of(&shared).resolving_count(), 0);
    assert_eq!(deck_of(&shared).discard_count(), 0);
    // No cards, no combo.
    RegicideAction::Play { cards: vec![9] }.update(&mut shared, &mut users, uid("north"));
    assert_eq!(hand_of(&users, "north").len(), 3);
    assert_eq!(deck_of(&shared).resolving_count(), 0);
}

#[test]
fn a_full_row_takes_no_combo() {
    let mut deck = Deck::new(0, rand::rng());
    deck.next_battle(false);
    for _ in 0..17 {
        deck.play_cards(Combo::Jester);
    }
    let mut shared =
        SharedState::Init { phase: Phase::Play(uid("north")), deck, turn_order: order(), damage: 0 };
    let mut users = seated(low_hands());
    RegicideAction::Play { cards: vec![1] }.update(&mut shared, &mut users, uid("north"));
    assert_eq!(hand_of(&users, "north"), low_hands()[0]);
    assert_eq!(damage_of(&shared), 0);
    assert_eq!(deck_of(&shared).resolving_count(), 17);
}

#[test]
fn damage_stops_at_what_a_byte_holds() {
    let mut shared = in_battle(Phase::Play(uid("north")), 250);
    let jack = *deck_of(&shared).battling().unwrap();
    let mut users = seated(low_hands());
    RegicideAction::Play { cards: vec![1] }.update(&mut shared, &mut users, uid("north"));
    assert_eq!(damage_of(&shared), 255);
    assert_eq!(phase_of(&shared), Phase::Defend(uid("north")));
    // Not an exact blow: the jack went under the library.
    let mut shared = shared;
    match &mut shared {
        SharedState::Init { deck, .. } => {
            assert_eq!(deck.library_count(), 43);
            assert_ne!(deck.draw(), jack);
        }
        SharedState::Uninit => panic!("not started"),
    }
}

#[test]
fn the_last_enemy_beaten_is_victory() {
    let mut deck = Deck::new(0, rand::rng());
    for _ in 0..12 {
        deck.next_battle(false);
    }
    assert_eq!(deck.battling().unwrap().value(), 20);
    let mut shared =
        SharedState::Init { phase: Phase::Play(uid("north")), deck, turn_order: order(), damage: 25 };
    let mut users = seated(low_hands());
    RegicideAction::Play { cards: vec![1] }.update(&mut shared, &mut users, uid("north"));
    assert_eq!(damage_of(&shared), 45);
    assert_eq!(phase_of(&shared), Phase::Victory);
    assert!(deck_of(&shared).battling().is_none());
    let msgs = RegicideAction::msg(&shared, &users);
    assert_eq!(msgs.len(), 4);
    assert!(msgs.iter().all(|(_, msg)| matches!(msg, ServerMsg::Victory)));
    let to: Vec<UserId> = msgs.iter().map(|(id, _)| *id).collect();
    assert_eq!(to, order().to_vec());
}

#[test]
fn a_defence_that_holds_passes_the_turn() {
    // The jack attacks with ten: the five of spades and the ten of clubs
    // count 25.
    let mut shared = in_battle(Phase::Defend(uid("north")), 0);
    let mut users = seated(low_hands());
    RegicideAction::Discard { cards: vec![1, 2] }.update(&mut shared, &mut users, uid("north"));
    assert_eq!(phase_of(&shared), Phase::Play(uid("east")));
    assert_eq!(deck_of(&shared).discard_count(), 2);
    assert_eq!(hand_of(&users, "north"), vec![Card::HeartAce, Card::DiamondThree, Card::Joker]);

    // After west comes north again.
    let mut shared = in_battle(Phase::Defend(uid("west")), 0);
    let mut hands = low_hands();
    hands[3] = vec![Card::HeartTen];
    let mut users = seated(hands);
    RegicideAction::Discard { cards: vec![0] }.update(&mut shared, &mut users, uid("west"));
    assert_eq!(phase_of(&shared), Phase::Play(uid("north")));
    assert_eq!(hand_of(&users, "west"), vec![]);
}

#[test]
fn a_defence_that_fails_is_defeat() {
    let mut shared = in_battle(Phase::Defend(uid("north")), 0);
    let mut users = seated(low_hands());
    // Nine is not ten.
    RegicideAction::Discard { cards: vec![0, 2, 3] }.update(&mut shared, &mut users, uid("north"));
    assert_eq!(phase_of(&shared), Phase::Defeat);
    assert_eq!(deck_of(&shared).discard_count(), 0);
    assert_eq!(hand_of(&users, "north"), vec![Card::ClubTen, Card::Joker]);
    let msgs = RegicideAction::msg(&shared, &users);
    assert_eq!(msgs.len(), 4);
    assert!(msgs.iter().all(|(_, msg)| matches!(msg, ServerMsg::Defeat)));
}

#[test]
fn spades_in_battle_shield_unless_the_enemy_is_a_spade() {
    for shields in [true, false] {
        let mut deck = Deck::new(0, rand::rng());
        deck.next_battle(false);
        while (deck.battling().unwrap().suit() == Some(Suit::Spade)) == shields {
            deck.next_battle(false);
            assert_eq!(deck.battling().unwrap().value(), 10);
        }
        deck.play_cards(Combo::Single(Card::SpadeNine));
        let mut shared = SharedState::Init {
            phase: Phase::Defend(uid("north")),
            deck,
            turn_order: order(),
            damage: 0,
        };
        let mut users = seated(low_hands());
        // The ace alone counts one.
        RegicideAction::Discard { cards: vec![0] }.update(&mut shared, &mut users, uid("north"));
        if shields {
            assert_eq!(phase_of(&shared), Phase::Play(uid("east")));
        } else {
            assert_eq!(phase_of(&shared), Phase::Defeat);
        }
    }
}

#[test]
fn the_game_as_each_player_sees_it() {
    let mut shared = in_battle(Phase::Play(uid("east")), 4);
    match &mut shared {
        SharedState::Init { deck, .. } => {
            deck.play_cards(Combo::Pair { one: Card::HeartFour, two: Card::SpadeFour });
            let mut pile = vec![Card::ClubAce];
            deck.discard(&mut pile);
        }
        SharedState::Uninit => panic!("not started"),
    }
    let mut users = seated(low_hands());
    users.insert(uid("east"), UserState::Uninit);
    let enemy = *deck_of(&shared).battling().unwrap();
    let msgs = RegicideAction::msg(&shared, &users);
    // East holds no hand and is told nothing.
    let to: Vec<UserId> = msgs.iter().map(|(id, _)| *id).collect();
    assert_eq!(to, vec![uid("north"), uid("south"), uid("west")]);
    match &msgs[0].1 {
        ServerMsg::Game {
            phase,
            players,
            library_size,
            discard_size,
            damage,
            enemy: shown,
            hand,
            resolving,
        } => {
            assert_eq!(*phase, Phase::Play(uid("east")));
            assert_eq!(*players, vec![(uid("north"), 5), (uid("south"), 1), (uid("west"), 0)]);
            assert_eq!(*library_size, 42);
            assert_eq!(*discard_size, 1);
            assert_eq!(*damage, 4);
            assert_eq!(shown.rank, enemy.to_string());
            assert_eq!(shown.value, 10);
            let ranks: Vec<&str> = hand.iter().map(|c| c.rank.as_str()).collect();
            assert_eq!(ranks, vec!["HeartAce", "ClubTen", "SpadeFive", "DiamondThree", "Joker"]);
            assert_eq!(resolving.len(), 1);
            assert_eq!(resolving[0][0].rank, "HeartFour");
            assert_eq!(resolving[0][1].rank, "SpadeFour");
        }
        other => panic!("unexpected message {other:?}"),
    }
    match &msgs[2].1 {
        ServerMsg::Game { hand, .. } => assert!(hand.is_empty()),
        other => panic!("unexpected message {other:?}"),
    }
    assert!(RegicideAction::msg(&SharedState::Uninit, &users).is_empty());
}
