//! The rules of Regicide as a ruleset that lobbies can host.

use vstd::prelude::*;
use crate::action::Action;
use crate::card::{Card, Combo, JsCard, Suit};
use crate::deck::{is_full_court, Deck};
use crate::ident::{user_token, ActorId, Key, UserId};
use crate::phase::Phase;
use crate::random::{shuffle, thread_rng};
use crate::state::{kept_from, picked_from, ServerMsg, SharedState, UserState};
use crate::table::UserMap;

verus! {

broadcast use vstd::seq_lib::group_to_multiset_ensures;

/// The number of players that make a game.
pub const MAX_PLAYERS: usize = 4;

/// A hand holds this many cards less one for every player.
pub const HAND_SIZE: usize = 9;

/// Games of more players than this get a joker for each one more.
pub const JESTERS: usize = 2;

/// What a player may ask for.
#[derive(Debug)]
pub enum RegicideAction {
    /// Start the game.
    Init,
    /// Play the cards at these places of the hand as a combo.
    Play { cards: Vec<u8> },
    /// Discard the cards at these places of the hand against the attack.
    Discard { cards: Vec<u8> },
    /// After the joker: let `player` play next.
    Jester { player: UserId },
}

/// The size of a full hand in a game of `players` players.
pub open spec fn full_hand(players: nat) -> nat {
    if players <= HAND_SIZE {
        (HAND_SIZE - players) as nat
    } else {
        0
    }
}

/// The first seat of the turn order at which `token` sits, or 4 if it sits
/// at none.
pub open spec fn seat_of(turn_order: Seq<UserId>, token: Seq<char>) -> int
    decreases turn_order.len(),
{
    if turn_order.len() == 0 {
        0
    } else if user_token(turn_order[0]) == token {
        0
    } else {
        1 + seat_of(turn_order.drop_first(), token)
    }
}

/// What the cards count for in defence, taken together.
pub open spec fn total_strength(cards: Seq<Card>) -> nat
    decreases cards.len(),
{
    if cards.len() == 0 {
        0
    } else {
        total_strength(cards.drop_last()) + cards.last().spec_strength() as nat
    }
}

/// The seat of `user_id` in the turn order, if they have one.
fn find_seat(turn_order: &[UserId; 4], user_id: &UserId) -> (seat: Option<usize>)
    ensures
        match seat {
            Some(k) => k < 4 && k == seat_of(turn_order@, user_token(*user_id)),
            None => seat_of(turn_order@, user_token(*user_id)) >= 4,
        },
{
    let mut k: usize = 0;
    while k < 4
        invariant
            k <= 4,
            seat_of(turn_order@, user_token(*user_id)) == k + seat_of(
                turn_order@.subrange(k as int, 4),
                user_token(*user_id),
            ),
        decreases 4 - k,
    {
        proof {
            let rest = turn_order@.subrange(k as int, 4);
            assert(rest[0] == turn_order@[k as int]);
            assert(rest.drop_first() =~= turn_order@.subrange(k as int + 1, 4));
        }
        if turn_order[k].same(user_id) {
            return Some(k);
        }
        k += 1;
    }
    proof {
        assert(turn_order@.subrange(0, 4) =~= turn_order@);
    }
    None
}

/// The sum of the cards' strengths, counted up to a thousand.
fn strength_of(cards: &Vec<Card>) -> (sum: usize)
    ensures
        sum == (if total_strength(cards@) > 1000 {
            1000
        } else {
            total_strength(cards@)
        }),
{
    let mut sum: usize = 0;
    let mut i: usize = 0;
    while i < cards.len()
        invariant
            i <= cards@.len(),
            sum == (if total_strength(cards@.subrange(0, i as int)) > 1000 {
                1000
            } else {
                total_strength(cards@.subrange(0, i as int))
            }),
        decreases cards@.len() - i,
    {
        proof {
            let more = cards@.subrange(0, i as int + 1);
            assert(more.drop_last() =~= cards@.subrange(0, i as int));
        }
        sum = sum + cards[i].strength() as usize;
        if sum > 1000 {
            sum = 1000;
        }
        i += 1;
    }
    proof {
        assert(cards@.subrange(0, i as int) =~= cards@);
    }
    sum
}

/// The cards in the hands of the given players, hand after hand.
pub open spec fn all_hands(states: Seq<UserState>) -> Seq<Card>
    decreases states.len(),
{
    if states.len() == 0 {
        Seq::empty()
    } else {
        all_hands(states.drop_last()) + states.last().hand()
    }
}

/// Drawing moves the top card of the library to the cards dealt: together
/// they stay the same cards.
proof fn lemma_draw_keeps_cards(library: Seq<Card>, dealt: Seq<Card>)
    requires
        library.len() > 0,
    ensures
        (library.drop_first() + dealt.push(library[0])).to_multiset() == (library
            + dealt).to_multiset(),
{
    broadcast use vstd::multiset::group_multiset_axioms;

    let card = library[0];
    let rest = library.drop_first();
    vstd::seq_lib::lemma_multiset_commutative(rest, dealt.push(card));
    vstd::seq_lib::lemma_multiset_commutative(library, dealt);
    vstd::seq_lib::lemma_multiset_commutative(seq![card], rest);
    assert(library =~= seq![card] + rest);
    assert(seq![card] =~= Seq::<Card>::empty().push(card));
    assert(seq![card].to_multiset() =~= Seq::<Card>::empty().to_multiset().insert(card));
    assert(dealt.push(card).to_multiset() =~= dealt.to_multiset().insert(card));
    assert((rest + dealt.push(card)).to_multiset() =~= (library + dealt).to_multiset());
}

/// Whether a game has just been started for the players `before`: the first
/// player of a shuffled turn order is to play, no damage is done, the court is
/// full and nobody is in battle yet, and every player holds five cards dealt
/// from a library of forty number cards and two jokers: the hands and what is
/// left of the library are those forty-two cards.
pub open spec fn started(before: UserMap<UserState>, shared: SharedState, users: UserMap<UserState>)
    -> bool {
    &&& shared matches SharedState::Init { phase, deck, turn_order, damage }
    &&& damage == 0
    &&& phase == Phase::Play(turn_order@[0])
    &&& turn_order@.to_multiset() == before.ids().to_multiset()
    &&& deck.wf()
    &&& deck.enemy().is_none()
    &&& deck.played() == Seq::<Combo>::empty()
    &&& deck.discarded() == Seq::<Card>::empty()
    &&& is_full_court(deck.court_cards())
    &&& deck.in_library().len() == 22
    &&& (deck.in_library() + all_hands(users.values())).to_multiset()
        == crate::deck::fresh_library(JESTERS).to_multiset()
    &&& users.ids() == before.ids()
    &&& forall|i: int|
        0 <= i < users.spec_len() ==> (#[trigger] users.values()[i]) is Init
            && users.values()[i].hand().len() == 5
}

/// Starts the game if exactly four players have gathered; does nothing
/// otherwise.
fn start(shared: &mut SharedState, user: &mut UserMap<UserState>)
    requires
        old(user).wf(),
    ensures
        final(user).wf(),
        final(user).ids() == old(user).ids(),
        if old(user).spec_len() == MAX_PLAYERS {
            started(*old(user), *final(shared), *final(user))
        } else {
            *final(shared) == *old(shared) && *final(user) == *old(user)
        },
{
    let n = user.len();
    if n != MAX_PLAYERS {
        return;
    }
    let mut rng = thread_rng();
    let hand_size: usize = HAND_SIZE - n;
    let jesters: usize = n - JESTERS;
    let mut order: Vec<UserId> = Vec::new();
    let mut i: usize = 0;
    while i < n
        invariant
            user.wf(),
            n == user.spec_len(),
            i <= n,
            order@ == user.ids().subrange(0, i as int),
        decreases n - i,
    {
        order.push(user.key_at(i));
        proof {
            assert(order@ =~= user.ids().subrange(0, i as int + 1));
        }
        i += 1;
    }
    proof {
        assert(order@ =~= user.ids());
    }
    shuffle(&mut order, &mut rng);
    let turn_order: [UserId; 4] = [order[0], order[1], order[2], order[3]];
    proof {
        assert(turn_order@ =~= order@);
    }
    shared.init(jesters, turn_order, rng);
    match shared {
        SharedState::Init { phase, deck, turn_order, damage } => {
            let mut at: usize = 0;
            while at < n
                invariant
                    user.wf(),
                    user.ids() == old(user).ids(),
                    n == user.spec_len(),
                    n == 4,
                    hand_size == 5,
                    at <= n,
                    deck.wf(),
                    deck.enemy().is_none(),
                    deck.played() == Seq::<Combo>::empty(),
                    deck.discarded() == Seq::<Card>::empty(),
                    is_full_court(deck.court_cards()),
                    deck.in_library().len() == 42 - 5 * at,
                    (deck.in_library() + all_hands(
                        user.values().subrange(0, at as int),
                    )).to_multiset() == crate::deck::fresh_library(JESTERS).to_multiset(),
                    forall|i: int|
                        0 <= i < at ==> (#[trigger] user.values()[i]) is Init
                            && user.values()[i].hand().len() == 5,
                decreases n - at,
            {
                let mut hand: Vec<Card> = Vec::new();
                let mut dealt: usize = 0;
                let ghost earlier = all_hands(user.values().subrange(0, at as int));
                proof {
                    assert(earlier + hand@ =~= earlier);
                }
                while dealt < hand_size
                    invariant
                        hand_size == 5,
                        dealt <= hand_size,
                        at < 4,
                        hand@.len() == dealt,
                        deck.wf(),
                        deck.enemy().is_none(),
                        deck.played() == Seq::<Combo>::empty(),
                        deck.discarded() == Seq::<Card>::empty(),
                        is_full_court(deck.court_cards()),
                        deck.in_library().len() == 42 - 5 * at - dealt,
                        (deck.in_library() + (earlier + hand@)).to_multiset()
                            == crate::deck::fresh_library(JESTERS).to_multiset(),
                    decreases hand_size - dealt,
                {
                    let ghost library = deck.in_library();
                    let ghost held = hand@;
                    hand.push(deck.draw());
                    proof {
                        lemma_draw_keeps_cards(library, earlier + held);
                        assert(earlier + hand@ =~= (earlier + held).push(library[0]));
                    }
                    dealt += 1;
                }
                let ghost users_before = *user;
                let ghost dealt_hand = hand@;
                let state = user.value_at_mut(at);
                *state = UserState::Init { hand };
                proof {
                    crate::table::Table::lemma_update(users_before, *user, at as int);
                    let more = user.values().subrange(0, at as int + 1);
                    assert(more.drop_last() =~= users_before.values().subrange(0, at as int));
                    assert(more.last().hand() == dealt_hand);
                    assert(all_hands(more) == earlier + dealt_hand);
                }
                at += 1;
            }
            proof {
                assert(user.values().subrange(0, n as int) =~= user.values());
            }
        },
        SharedState::Uninit => {},
    }
}

/// Whether a player's state `after` is their state `before` with, at most,
/// cards drawn onto the hand, and then no more than `limit` cards in a hand
/// that has grown.
pub open spec fn has_drawn(before: UserState, after: UserState, limit: nat) -> bool {
    match (before, after) {
        (UserState::Uninit, UserState::Uninit) => true,
        (UserState::Init { hand: was }, UserState::Init { hand: is }) => {
            &&& was@.len() <= is@.len()
            &&& is@.subrange(0, was@.len() as int) == was@
            &&& is@.len() > was@.len() ==> is@.len() <= limit
        },
        _ => false,
    }
}

/// Whether `next` and `next_users` are the game after `user_id`, whose turn
/// to play it is, has asked to play the cards at the places `cards`.
///
/// Nothing changes unless the player is a member with a seat in the turn
/// order, an enemy is in battle and its row of combos has room. Otherwise the
/// cards leave the player's hand; if they make no combo, that is all. A
/// combo is laid against the enemy. The joker hands the choice of the next
/// player to the one who played it. Any other combo heals, lets players draw,
/// and adds its strength to the damage; when the damage reaches twice the
/// enemy's value the battle ends, the next enemy is turned up and the player
/// has to defend, or the game is won if the court is empty.
pub open spec fn played_by(
    user_id: UserId,
    cards: Seq<u8>,
    shared: SharedState,
    users: UserMap<UserState>,
    next: SharedState,
    next_users: UserMap<UserState>,
) -> bool {
    let token = user_token(user_id);
    &&& shared matches SharedState::Init { phase, deck, turn_order, damage }
    &&& if !users.has(token) || seat_of(turn_order@, token) >= 4 || deck.enemy().is_none()
        || deck.played().len() >= crate::deck::MAX_COMBOS {
        next == shared && next_users == users
    } else {
        let at = users.place(token);
        let enemy = deck.enemy().unwrap();
        let taken = picked_from(users.values()[at].hand(), cards, 0);
        let kept = kept_from(users.values()[at].hand(), cards, 0);
        &&& next matches SharedState::Init {
            phase: next_phase,
            deck: next_deck,
            turn_order: next_order,
            damage: next_damage,
        }
        &&& next_order == turn_order
        &&& next_users.ids() == users.ids()
        &&& next_deck.wf()
        &&& match Combo::spec_from_cards(taken) {
            None => {
                &&& next_phase == phase
                &&& next_deck == deck
                &&& next_damage == damage
                &&& next_users.values()[at].hand() == kept
                &&& forall|i: int|
                    0 <= i < users.spec_len() && i != at ==> #[trigger] next_users.values()[i]
                        == users.values()[i]
            },
            Some(Combo::Jester) => {
                &&& next_phase == Phase::Jester(user_id)
                &&& next_damage == damage
                &&& next_deck.played() == deck.played().push(Combo::Jester)
                &&& next_deck.in_library() == deck.in_library()
                &&& next_deck.discarded() == deck.discarded()
                &&& next_deck.court_cards() == deck.court_cards()
                &&& next_deck.enemy() == deck.enemy()
                &&& next_users.values()[at].hand() == kept
                &&& forall|i: int|
                    0 <= i < users.spec_len() && i != at ==> #[trigger] next_users.values()[i]
                        == users.values()[i]
            },
            Some(combo) => {
                let total = damage + combo.spec_strength();
                let dealt = if total > 255 {
                    255
                } else {
                    total
                };
                &&& next_damage == dealt
                &&& forall|i: int|
                    0 <= i < users.spec_len() && i != at ==> has_drawn(
                        users.values()[i],
                        #[trigger] next_users.values()[i],
                        full_hand(users.spec_len()),
                    )
                &&& users.values()[at] is Init ==> next_users.values()[at] is Init
                &&& kept.len() <= next_users.values()[at].hand().len()
                &&& next_users.values()[at].hand().subrange(0, kept.len() as int) == kept
                &&& if dealt >= 2 * enemy.spec_value() {
                    &&& next_deck.played() == Seq::<Combo>::empty()
                    &&& if deck.court_cards().len() > 0 {
                        &&& next_deck.enemy() == Some(deck.court_cards().last())
                        &&& next_deck.court_cards() == deck.court_cards().drop_last()
                        &&& next_phase == Phase::Defend(user_id)
                    } else {
                        &&& next_deck.enemy().is_none()
                        &&& next_deck.court_cards() == deck.court_cards()
                        &&& next_phase == Phase::Victory
                    }
                } else {
                    &&& next_deck.played() == deck.played().push(combo)
                    &&& next_deck.enemy() == deck.enemy()
                    &&& next_deck.court_cards() == deck.court_cards()
                    &&& next_phase == phase
                }
            },
        }
    }
}

/// The shield that the spades in battle give against `enemy`: it counts
/// unless the enemy is a spade that no joker has silenced.
pub open spec fn shield(deck: Deck, enemy: Card) -> nat {
    if deck.spec_jester() || enemy.spec_suit() != Some(Suit::Spade) {
        deck.spec_defense_value() as nat
    } else {
        0
    }
}

/// Whether `next` and `next_users` are the game after `user_id`, whose turn
/// to defend it is, has asked to discard the cards at the places `cards`.
///
/// Nothing changes unless the player is a member with a seat in the turn
/// order and an enemy is in battle. Otherwise the cards leave the player's
/// hand. If their strength together with the shield is at least the enemy's
/// value, they go onto the discard pile and the next player in the turn order
/// is to play; if not, the game is lost.
pub open spec fn defended_by(
    user_id: UserId,
    cards: Seq<u8>,
    shared: SharedState,
    users: UserMap<UserState>,
    next: SharedState,
    next_users: UserMap<UserState>,
) -> bool {
    let token = user_token(user_id);
    &&& shared matches SharedState::Init { phase, deck, turn_order, damage }
    &&& if !users.has(token) || seat_of(turn_order@, token) >= 4 || deck.enemy().is_none() {
        next == shared && next_users == users
    } else {
        let at = users.place(token);
        let seat = seat_of(turn_order@, token);
        let enemy = deck.enemy().unwrap();
        let taken = picked_from(users.values()[at].hand(), cards, 0);
        let kept = kept_from(users.values()[at].hand(), cards, 0);
        &&& next matches SharedState::Init {
            phase: next_phase,
            deck: next_deck,
            turn_order: next_order,
            damage: next_damage,
        }
        &&& next_order == turn_order
        &&& next_damage == damage
        &&& next_users.ids() == users.ids()
        &&& next_users.values()[at].hand() == kept
        &&& users.values()[at] is Init ==> next_users.values()[at] is Init
        &&& forall|i: int|
            0 <= i < users.spec_len() && i != at ==> #[trigger] next_users.values()[i]
                == users.values()[i]
        &&& next_deck.wf()
        &&& next_deck.in_library() == deck.in_library()
        &&& next_deck.court_cards() == deck.court_cards()
        &&& next_deck.enemy() == deck.enemy()
        &&& next_deck.played() == deck.played()
        &&& if shield(deck, enemy) + total_strength(taken) >= enemy.spec_value() {
            &&& next_deck.discarded() == deck.discarded() + taken
            &&& next_phase == Phase::Play(turn_order@[(seat + 1) % 4])
        } else {
            &&& next_deck.discarded() == deck.discarded()
            &&& next_phase == Phase::Defeat
        }
    }
}

/// Lets the player who played the joker name who plays next.
fn name_next(phase: &mut Phase, user: &UserMap<UserState>, player: UserId)
    requires
        user.wf(),
    ensures
        *final(phase) == (if user.has(user_token(player)) {
            Phase::Play(player)
        } else {
            *old(phase)
        }),
{
    if user.contains_key(&player) {
        *phase = Phase::Play(player);
    }
}

/// Resolves a defence.
fn defend(shared: &mut SharedState, user: &mut UserMap<UserState>, user_id: UserId, cards: Vec<u8>)
    requires
        old(user).wf(),
        *old(shared) is Init,
        old(shared)->Init_deck.wf(),
    ensures
        final(user).wf(),
        final(user).ids() == old(user).ids(),
        defended_by(user_id, cards@, *old(shared), *old(user), *final(shared), *final(user)),
{
    match shared {
        SharedState::Init { phase, deck, turn_order, damage } => {
            let at = match user.position(&user_id) {
                Some(at) => at,
                None => {
                    return;
                },
            };
            let seat = match find_seat(turn_order, &user_id) {
                Some(seat) => seat,
                None => {
                    return;
                },
            };
            let enemy = match deck.battling() {
                Some(enemy) => *enemy,
                None => {
                    return;
                },
            };
            let ghost users_before = *user;
            let state = user.value_at_mut(at);
            let mut taken = state.cards(cards);
            proof {
                crate::table::Table::lemma_update(users_before, *user, at as int);
            }
            let spades: usize = if deck.jester() || enemy.suit() != Some(Suit::Spade) {
                deck.defense_value() as usize
            } else {
                0
            };
            let defense: usize = spades + strength_of(&taken);
            if defense >= enemy.value() as usize {
                deck.discard(&mut taken);
                *phase = Phase::Play(turn_order[(seat + 1) % 4]);
            } else {
                *phase = Phase::Defeat;
            }
        },
        SharedState::Uninit => {},
    }
}

/// Lets players draw `draws` times, one after the other in turn order
/// starting at `seat`. A turn is spent on a player whose hand is full, and on
/// one who is not in the game; nothing is drawn when no card is left.
fn deal_round(
    deck: &mut Deck,
    turn_order: &[UserId; 4],
    user: &mut UserMap<UserState>,
    seat: usize,
    draws: u8,
)
    requires
        old(user).wf(),
        old(deck).wf(),
        seat < 4,
    ensures
        final(user).wf(),
        final(user).ids() == old(user).ids(),
        final(deck).wf(),
        final(deck).court_cards() == old(deck).court_cards(),
        final(deck).enemy() == old(deck).enemy(),
        final(deck).played() == old(deck).played(),
        forall|i: int|
            0 <= i < old(user).spec_len() ==> has_drawn(
                old(user).values()[i],
                #[trigger] final(user).values()[i],
                full_hand(old(user).spec_len()),
            ),
{
    let n = user.len();
    let limit: usize = if n <= HAND_SIZE {
        HAND_SIZE - n
    } else {
        0
    };
    let mut left: u8 = draws;
    let mut k: usize = seat;
    proof {
        assert forall|i: int| 0 <= i < n implies has_drawn(
            user.values()[i],
            #[trigger] user.values()[i],
            limit as nat,
        ) by {
            match user.values()[i] {
                UserState::Init { hand } => {
                    assert(hand@.subrange(0, hand@.len() as int) =~= hand@);
                },
                UserState::Uninit => {},
            }
        }
    }
    while left > 0
        invariant
            user.wf(),
            user.ids() == old(user).ids(),
            n == user.spec_len(),
            limit == full_hand(n as nat),
            deck.wf(),
            deck.court_cards() == old(deck).court_cards(),
            deck.enemy() == old(deck).enemy(),
            deck.played() == old(deck).played(),
            k < 4,
            forall|i: int|
                0 <= i < n ==> has_drawn(
                    old(user).values()[i],
                    #[trigger] user.values()[i],
                    limit as nat,
                ),
        decreases left,
    {
        let player = turn_order[k];
        k = (k + 1) % 4;
        match user.position(&player) {
            Some(at) => {
                if deck.can_draw() {
                    let ghost users_before = *user;
                    let state = user.value_at_mut(at);
                    match state {
                        UserState::Init { hand } => {
                            if hand.len() < limit {
                                let ghost was = hand@;
                                hand.push(deck.draw());
                                proof {
                                    assert(hand@.subrange(0, was.len() as int) =~= was);
                                }
                            }
                        },
                        UserState::Uninit => {},
                    }
                    proof {
                        crate::table::Table::lemma_update(users_before, *user, at as int);
                        let first = old(user).values()[at as int];
                        let mid = users_before.values()[at as int];
                        let last = user.values()[at as int];
                        assert(has_drawn(first, mid, limit as nat));
                        match (first, mid, last) {
                            (
                                UserState::Init { hand: a },
                                UserState::Init { hand: b },
                                UserState::Init { hand: c },
                            ) => {
                                assert(c@.subrange(0, a@.len() as int) =~= b@.subrange(
                                    0,
                                    a@.len() as int,
                                ));
                            },
                            _ => {},
                        }
                        assert(has_drawn(first, last, limit as nat));
                    }
                }
            },
            None => {},
        }
        left -= 1;
    }
}

/// Resolves a play.
fn play(shared: &mut SharedState, user: &mut UserMap<UserState>, user_id: UserId, cards: Vec<u8>)
    requires
        old(user).wf(),
        *old(shared) is Init,
        old(shared)->Init_deck.wf(),
    ensures
        final(user).wf(),
        final(user).ids() == old(user).ids(),
        played_by(user_id, cards@, *old(shared), *old(user), *final(shared), *final(user)),
{
    match shared {
        SharedState::Init { phase, deck, turn_order, damage } => {
            let at = match user.position(&user_id) {
                Some(at) => at,
                None => {
                    return;
                },
            };
            let seat = match find_seat(turn_order, &user_id) {
                Some(seat) => seat,
                None => {
                    return;
                },
            };
            let enemy = match deck.battling() {
                Some(enemy) => *enemy,
                None => {
                    return;
                },
            };
            if !deck.can_play() {
                return;
            }
            let ghost users_before = *user;
            let state = user.value_at_mut(at);
            let taken = state.cards(cards);
            proof {
                crate::table::Table::lemma_update(users_before, *user, at as int);
            }
            let ghost users_mid = *user;
            let ghost kept = users_mid.values()[at as int].hand();
            let combo = match Combo::from_cards(taken) {
                Some(combo) => combo,
                None => {
                    return;
                },
            };
            deck.play_cards(combo);
            match combo {
                Combo::Jester => {
                    *phase = Phase::Jester(user_id);
                },
                _ => {
                    deck.heal(combo.suit_value(Suit::Heart) as usize);
                    deal_round(deck, turn_order, user, seat, combo.suit_value(Suit::Diamond));
                    proof {
                        let last = user.values()[at as int];
                        assert(has_drawn(
                            users_mid.values()[at as int],
                            last,
                            full_hand(users_mid.spec_len()),
                        ));
                        assert forall|i: int|
                            0 <= i < users_before.spec_len() && i != at implies has_drawn(
                            users_before.values()[i],
                            #[trigger] user.values()[i],
                            full_hand(users_before.spec_len()),
                        ) by {
                            assert(users_mid.values()[i] == users_before.values()[i]);
                        }
                    }
                    *damage = damage.saturating_add(combo.strength());
                    let threshold: u8 = enemy.value() * 2;
                    if *damage >= threshold {
                        deck.next_battle(*damage == threshold);
                        if deck.battling().is_none() {
                            *phase = Phase::Victory;
                        } else {
                            *phase = Phase::Defend(user_id);
                        }
                    }
                },
            }
        },
        SharedState::Uninit => {},
    }
}

impl Clone for RegicideAction {
    /// The same request once more.
    fn clone(&self) -> (copy: Self)
        ensures
            match (*self, copy) {
                (RegicideAction::Init, RegicideAction::Init) => true,
                (RegicideAction::Play { cards }, RegicideAction::Play { cards: copied }) => copied@
                    == cards@,
                (
                    RegicideAction::Discard { cards },
                    RegicideAction::Discard { cards: copied },
                ) => copied@ == cards@,
                (
                    RegicideAction::Jester { player },
                    RegicideAction::Jester { player: copied },
                ) => copied == player,
                _ => false,
            },
    {
        match self {
            RegicideAction::Init => RegicideAction::Init,
            RegicideAction::Play { cards } => RegicideAction::Play { cards: cards.clone() },
            RegicideAction::Discard { cards } => RegicideAction::Discard { cards: cards.clone() },
            RegicideAction::Jester { player } => RegicideAction::Jester { player: *player },
        }
    }
}

impl RegicideAction {
    /// The message that tells a player the state of the game at place `at`
    /// of the table, if one is due: the end of the game for everybody once
    /// it is over; while it is on, the game as seen from the player's seat,
    /// for every player who holds a hand, as long as an enemy is in battle.
    fn message_for(shared: &SharedState, user: &UserMap<UserState>, at: usize) -> (due: Option<
        ServerMsg,
    >)
        requires
            user.wf(),
            at < user.spec_len(),
        ensures
            due.is_some() == is_due(*shared, *user, at as int),
            due matches Some(msg) ==> shows(*shared, *user, at as int, msg),
    {
        match shared {
            SharedState::Uninit => None,
            SharedState::Init { phase, deck, turn_order, damage } => {
                match phase {
                    Phase::Victory => {
                        return Some(ServerMsg::Victory);
                    },
                    Phase::Defeat => {
                        return Some(ServerMsg::Defeat);
                    },
                    _ => {},
                }
                let mut players: Vec<(UserId, u8)> = Vec::new();
                let mut k: usize = 0;
                while k < 4
                    invariant
                        user.wf(),
                        k <= 4,
                        players@ == seated_hands(turn_order@, *user, k as int),
                    decreases 4 - k,
                {
                    let id = turn_order[k];
                    match user.get(&id) {
                        Some(state) => {
                            match state {
                                UserState::Init { hand } => {
                                    let count: usize = hand.len() % 256;
                                    players.push((id, count as u8));
                                },
                                UserState::Uninit => {},
                            }
                        },
                        None => {},
                    }
                    k += 1;
                }
                let library: usize = deck.library_count() % 256;
                let discard: usize = deck.discard_count() % 256;
                let enemy = match deck.battling() {
                    Some(card) => JsCard::from(card),
                    None => {
                        return None;
                    },
                };
                let hand = match user.value_at(at) {
                    UserState::Init { hand } => {
                        let mut shown: Vec<JsCard> = Vec::new();
                        let mut i: usize = 0;
                        while i < hand.len()
                            invariant
                                i <= hand@.len(),
                                shown@.len() == i,
                                forall|j: int|
                                    0 <= j < i ==> (#[trigger] shown@[j])@ == hand@[j].shown(),
                            decreases hand@.len() - i,
                        {
                            shown.push(JsCard::from(&hand[i]));
                            i += 1;
                        }
                        shown
                    },
                    UserState::Uninit => {
                        return None;
                    },
                };
                let resolving = deck.resolving();
                Some(
                    ServerMsg::Game {
                        phase: *phase,
                        players,
                        library_size: library as u8,
                        discard_size: discard as u8,
                        damage: *damage,
                        enemy,
                        hand,
                        resolving,
                    },
                )
            },
        }
    }
}

/// Whether the player at place `at` of the table is due a message: everybody
/// is once the game is over; while it is on, every player who holds a hand,
/// as long as an enemy is in battle.
pub open spec fn is_due(shared: SharedState, users: UserMap<UserState>, at: int) -> bool {
    match shared {
        SharedState::Uninit => false,
        SharedState::Init { phase: Phase::Victory, .. } => true,
        SharedState::Init { phase: Phase::Defeat, .. } => true,
        SharedState::Init { deck, .. } => deck.enemy().is_some() && users.values()[at] is Init,
    }
}

/// Whether `msg` tells the player at place `at` of the table the state of
/// the game: its end once it is over; while it is on, the phase, the damage
/// done, the sizes of library and discard pile, the enemy, the combos in
/// battle, the number of cards that each seated player holds, and the
/// player's own hand.
pub open spec fn shows(shared: SharedState, users: UserMap<UserState>, at: int, msg: ServerMsg)
    -> bool {
    match shared {
        SharedState::Uninit => false,
        SharedState::Init { phase: Phase::Victory, .. } => msg == ServerMsg::Victory,
        SharedState::Init { phase: Phase::Defeat, .. } => msg == ServerMsg::Defeat,
        SharedState::Init { phase, deck, turn_order, damage } => {
            &&& msg matches ServerMsg::Game {
                phase: shown_phase,
                players,
                library_size,
                discard_size,
                damage: shown_damage,
                enemy,
                hand,
                resolving,
            }
            &&& shown_phase == phase
            &&& shown_damage == damage
            &&& library_size == deck.in_library().len() % 256
            &&& discard_size == deck.discarded().len() % 256
            &&& deck.enemy().is_some()
            &&& enemy@ == deck.enemy().unwrap().shown()
            &&& hand@.len() == users.values()[at].hand().len()
            &&& forall|i: int|
                0 <= i < hand@.len() ==> (#[trigger] hand@[i])@ == users.values()[at].hand()[i].shown()
            &&& shows_combos(resolving, deck.played())
            &&& players@ == seated_hands(turn_order@, users, 4)
        },
    }
}

/// Whether `shown` lists the cards of the combos in `played` as clients see
/// them, combo by combo.
pub open spec fn shows_combos(shown: Vec<Vec<JsCard>>, played: Seq<Combo>) -> bool {
    &&& shown@.len() == played.len()
    &&& forall|i: int, j: int|
        0 <= i < shown@.len() && 0 <= j < played[i].spec_cards().len() ==> {
            &&& (#[trigger] shown@[i])@.len() == played[i].spec_cards().len()
            &&& (#[trigger] shown@[i]@[j])@ == played[i].spec_cards()[j].shown()
        }
}

/// The places among the first `upto` of the table whose players are due a
/// message, in the order of the table.
pub open spec fn due_places(shared: SharedState, users: UserMap<UserState>, upto: int) -> Seq<int>
    decreases upto,
{
    if upto <= 0 {
        Seq::empty()
    } else if is_due(shared, users, upto - 1) {
        due_places(shared, users, upto - 1).push(upto - 1)
    } else {
        due_places(shared, users, upto - 1)
    }
}

/// Whether `entry` is the message for the player at `place` of the table.
pub open spec fn is_told(
    shared: SharedState,
    users: UserMap<UserState>,
    place: int,
    entry: (UserId, ServerMsg),
) -> bool {
    &&& 0 <= place < users.spec_len()
    &&& entry.0 == users.ids()[place]
    &&& shows(shared, users, place, entry.1)
}

/// Whether `out` holds, in the order of the table, one message for each of
/// the first `upto` players who is due one, and nothing else.
pub open spec fn tells(
    shared: SharedState,
    users: UserMap<UserState>,
    out: Seq<(UserId, ServerMsg)>,
    upto: int,
) -> bool {
    &&& out.len() == due_places(shared, users, upto).len()
    &&& forall|j: int|
        0 <= j < out.len() ==> is_told(
            shared,
            users,
            due_places(shared, users, upto)[j],
            #[trigger] out[j],
        )
}

/// The players at the first `upto` seats of the turn order who hold a hand,
/// each with the number of cards in it, in turn order.
pub open spec fn seated_hands(turn_order: Seq<UserId>, users: UserMap<UserState>, upto: int) -> Seq<
    (UserId, u8),
>
    decreases upto,
{
    if upto <= 0 {
        Seq::empty()
    } else {
        let earlier = seated_hands(turn_order, users, upto - 1);
        let id = turn_order[upto - 1];
        let token = user_token(id);
        if users.has(token) && users@[token] is Init {
            earlier.push((id, (users@[token].hand().len() % 256) as u8))
        } else {
            earlier
        }
    }
}

impl Action for RegicideAction {
    type Shared = SharedState;

    type User = UserState;

    type Msg = ServerMsg;

    /// A game takes players until it starts or four have gathered.
    open spec fn admits(shared: SharedState, users: UserMap<UserState>) -> bool {
        shared is Uninit && users.spec_len() < MAX_PLAYERS
    }

    /// What each request does: starting needs a lobby of four that has not
    /// started; playing, naming and defending each need the game to be in
    /// the phase that asks just this of just this player; and an action that
    /// is out of place changes nothing.
    open spec fn follows(
        self,
        user_id: UserId,
        shared: SharedState,
        users: UserMap<UserState>,
        next_shared: SharedState,
        next_users: UserMap<UserState>,
    ) -> bool {
        match (self, shared) {
            (RegicideAction::Init, SharedState::Uninit) => {
                if users.spec_len() == MAX_PLAYERS {
                    started(users, next_shared, next_users)
                } else {
                    next_shared == shared && next_users == users
                }
            },
            (RegicideAction::Play { cards }, SharedState::Init { phase: Phase::Play(id), deck, .. }) => {
                if user_token(id) == user_token(user_id) && deck.wf() {
                    played_by(user_id, cards@, shared, users, next_shared, next_users)
                } else {
                    next_shared == shared && next_users == users
                }
            },
            (
                RegicideAction::Jester { player },
                SharedState::Init { phase: Phase::Jester(id), deck, turn_order, damage },
            ) => {
                if user_token(id) == user_token(user_id) && users.has(user_token(player)) {
                    &&& next_shared matches SharedState::Init {
                        phase: next_phase,
                        deck: next_deck,
                        turn_order: next_order,
                        damage: next_damage,
                    }
                    &&& next_phase == Phase::Play(player)
                    &&& next_deck == deck
                    &&& next_order == turn_order
                    &&& next_damage == damage
                    &&& next_users == users
                } else {
                    next_shared == shared && next_users == users
                }
            },
            (
                RegicideAction::Discard { cards },
                SharedState::Init { phase: Phase::Defend(id), deck, .. },
            ) => {
                if user_token(id) == user_token(user_id) && deck.wf() {
                    defended_by(user_id, cards@, shared, users, next_shared, next_users)
                } else {
                    next_shared == shared && next_users == users
                }
            },
            _ => next_shared == shared && next_users == users,
        }
    }

    /// A player is told the lobby by its identity.
    open spec fn greeting(actor_id: ActorId) -> ServerMsg {
        ServerMsg::Join { joined: actor_id }
    }

    /// Whether the game takes one more player.
    fn can_join(shared: &SharedState, user: &UserMap<UserState>) -> (open: bool) {
        match shared {
            SharedState::Uninit => user.len() < MAX_PLAYERS,
            _ => false,
        }
    }

    /// Applies the action if it is the move that the game waits for, and
    /// does nothing otherwise.
    fn update(self, shared: &mut SharedState, user: &mut UserMap<UserState>, user_id: UserId) {
        match self {
            RegicideAction::Init => {
                match shared {
                    SharedState::Uninit => {
                        start(shared, user);
                    },
                    _ => {},
                }
            },
            RegicideAction::Play { cards } => {
                let mine = match shared {
                    SharedState::Init { phase: Phase::Play(id), deck, .. } => id.same(&user_id)
                        && deck.is_sound(),
                    _ => false,
                };
                if mine {
                    play(shared, user, user_id, cards);
                }
            },
            RegicideAction::Jester { player } => {
                match shared {
                    SharedState::Init { phase, .. } => {
                        let mine = match phase {
                            Phase::Jester(id) => id.same(&user_id),
                            _ => false,
                        };
                        if mine {
                            name_next(phase, user, player);
                        }
                    },
                    _ => {},
                }
            },
            RegicideAction::Discard { cards } => {
                let mine = match shared {
                    SharedState::Init { phase: Phase::Defend(id), deck, .. } => id.same(&user_id)
                        && deck.is_sound(),
                    _ => false,
                };
                if mine {
                    defend(shared, user, user_id, cards);
                }
            },
        }
    }

    /// The message that tells a player which lobby they are in.
    fn join_msg(actor_id: ActorId) -> (msg: ServerMsg) {
        ServerMsg::Join { joined: actor_id }
    }

    /// One message for every player for whom one is due, in the order of
    /// the table.
    fn msg(shared: &SharedState, user: &UserMap<UserState>) -> (out: Vec<(UserId, ServerMsg)>)
        ensures
            tells(*shared, *user, out@, user.spec_len() as int),
    {
        let mut out: Vec<(UserId, ServerMsg)> = Vec::new();
        let n = user.len();
        let mut at: usize = 0;
        while at < n
            invariant
                user.wf(),
                n == user.spec_len(),
                at <= n,
                tells(*shared, *user, out@, at as int),
            decreases n - at,
        {
            let ghost sent = out@;
            let ghost places = due_places(*shared, *user, at as int);
            match RegicideAction::message_for(shared, user, at) {
                Some(msg) => {
                    out.push((user.key_at(at), msg));
                },
                None => {},
            }
            proof {
                let more = due_places(*shared, *user, at as int + 1);
                assert forall|j: int| 0 <= j < out@.len() implies is_told(
                    *shared,
                    *user,
                    more[j],
                    #[trigger] out@[j],
                ) by {
                    if j < sent.len() {
                        assert(out@[j] == sent[j]);
                        assert(more[j] == places[j]);
                        assert(is_told(*shared, *user, places[j], sent[j]));
                    }
                }
            }
            at += 1;
        }
        out
    }
}

} // verus!
