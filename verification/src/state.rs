//! The state of a game: what the lobby shares, what each player holds, and
//! what players are told.

use vstd::prelude::*;
use rand::rngs::ThreadRng;
use crate::card::{Card, JsCard};
use crate::deck::Deck;
use crate::ident::{ActorId, UserId};
use crate::phase::Phase;

verus! {

/// The state that the players of one game share.
#[derive(Debug)]
pub enum SharedState {
    /// The players are still gathering.
    Uninit,
    /// The game is on.
    Init { phase: Phase, deck: Deck, turn_order: [UserId; 4], damage: u8 },
}

impl Default for SharedState {
    /// The state of a lobby whose game has not started.
    fn default() -> (state: Self)
        ensures
            state is Uninit,
    {
        SharedState::Uninit
    }
}

impl Clone for SharedState {
    /// The same state once more, with a copy of the deck.
    fn clone(&self) -> (copy: Self)
        ensures
            match (*self, copy) {
                (SharedState::Uninit, SharedState::Uninit) => true,
                (
                    SharedState::Init { phase, deck, turn_order, damage },
                    SharedState::Init {
                        phase: copied_phase,
                        deck: copied_deck,
                        turn_order: copied_order,
                        damage: copied_damage,
                    },
                ) => {
                    &&& copied_phase == phase
                    &&& copied_order == turn_order
                    &&& copied_damage == damage
                    &&& copied_deck.in_library() == deck.in_library()
                    &&& copied_deck.discarded() == deck.discarded()
                    &&& copied_deck.court_cards() == deck.court_cards()
                    &&& copied_deck.enemy() == deck.enemy()
                    &&& copied_deck.played() == deck.played()
                },
                _ => false,
            },
    {
        match self {
            SharedState::Uninit => SharedState::Uninit,
            SharedState::Init { phase, deck, turn_order, damage } => SharedState::Init {
                phase: *phase,
                deck: deck.clone(),
                turn_order: *turn_order,
                damage: *damage,
            },
        }
    }
}

impl SharedState {
    /// Starts the game: a fresh deck with `jesters` jokers, no damage done,
    /// and the first player of `turn_order` to play.
    pub fn init(&mut self, jesters: usize, turn_order: [UserId; 4], rng: ThreadRng)
        ensures
            *final(self) matches SharedState::Init { phase, deck, turn_order: order, damage }
                && phase == Phase::Play(turn_order[0]) && order == turn_order && damage == 0
                && deck.wf() && deck.in_library().to_multiset() == crate::deck::fresh_library(
                jesters,
            ).to_multiset() && deck.in_library().len() == 40 + crate::deck::joker_count(jesters)
                && deck.discarded() == Seq::<Card>::empty() && crate::deck::is_full_court(
                deck.court_cards(),
            ) && deck.enemy().is_none() && deck.played() == Seq::<crate::card::Combo>::empty(),
    {
        let deck = Deck::new(jesters, rng);
        let phase = Phase::Play(turn_order[0]);
        *self = SharedState::Init { phase, deck, turn_order, damage: 0 };
    }
}

/// The state of one player.
#[derive(Clone, Debug)]
pub enum UserState {
    /// The game has not started.
    Uninit,
    /// The player holds a hand.
    Init { hand: Vec<Card> },
}

impl Default for UserState {
    /// The state of a player before the game starts.
    fn default() -> (state: Self)
        ensures
            state is Uninit,
    {
        UserState::Uninit
    }
}

/// Whether the place `at` of a hand is among the places asked for.
pub open spec fn wanted(places: Seq<u8>, at: int) -> bool {
    0 <= at <= 255 && places.contains(at as u8)
}

/// The cards of `hand` at the places asked for from `from` on, the last one
/// first.
pub open spec fn picked_from(hand: Seq<Card>, places: Seq<u8>, from: int) -> Seq<Card>
    decreases hand.len() - from,
{
    if from < 0 || from >= hand.len() {
        Seq::empty()
    } else if wanted(places, from) {
        picked_from(hand, places, from + 1).push(hand[from])
    } else {
        picked_from(hand, places, from + 1)
    }
}

/// The cards of `hand` from `from` on that are not asked for, in their order.
pub open spec fn kept_from(hand: Seq<Card>, places: Seq<u8>, from: int) -> Seq<Card>
    decreases hand.len() - from,
{
    if from < 0 || from >= hand.len() {
        Seq::empty()
    } else if wanted(places, from) {
        kept_from(hand, places, from + 1)
    } else {
        seq![hand[from]] + kept_from(hand, places, from + 1)
    }
}

/// Whether `place` occurs in `places`.
fn asks_for(places: &Vec<u8>, place: usize) -> (asked: bool)
    ensures
        asked == wanted(places@, place as int),
{
    if place > 255 {
        return false;
    }
    let mut i: usize = 0;
    while i < places.len()
        invariant
            place <= 255,
            i <= places@.len(),
            forall|j: int| 0 <= j < i ==> places@[j] != place,
        decreases places@.len() - i,
    {
        if places[i] as usize == place {
            return true;
        }
        i += 1;
    }
    false
}

impl UserState {
    /// The cards in hand; none before the game starts.
    pub open spec fn hand(&self) -> Seq<Card> {
        match *self {
            UserState::Uninit => Seq::empty(),
            UserState::Init { hand } => hand@,
        }
    }

    /// Takes out of the hand the cards at the places named in `cards` and
    /// hands them back, the one at the highest place first. A place named
    /// twice counts once, a place beyond the hand not at all. Before the game
    /// starts there is nothing to take.
    pub fn cards(&mut self, cards: Vec<u8>) -> (taken: Vec<Card>)
        ensures
            *old(self) is Uninit ==> *final(self) is Uninit && taken@ == Seq::<Card>::empty(),
            *old(self) is Init ==> *final(self) is Init,
            taken@ == picked_from(old(self).hand(), cards@, 0),
            final(self).hand() == kept_from(old(self).hand(), cards@, 0),
            taken@.len() + final(self).hand().len() == old(self).hand().len(),
    {
        let mut taken: Vec<Card> = Vec::new();
        match self {
            UserState::Init { hand } => {
                let ghost all = hand@;
                let mut i: usize = hand.len();
                while i > 0
                    invariant
                        i <= all.len(),
                        taken@ == picked_from(all, cards@, i as int),
                        hand@ == all.subrange(0, i as int) + kept_from(all, cards@, i as int),
                        taken@.len() + hand@.len() == all.len(),
                    decreases i,
                {
                    i -= 1;
                    if asks_for(&cards, i) {
                        let card = hand.remove(i);
                        taken.push(card);
                        proof {
                            assert(hand@ =~= all.subrange(0, i as int) + kept_from(
                                all,
                                cards@,
                                i as int,
                            ));
                        }
                    } else {
                        proof {
                            assert(hand@ =~= all.subrange(0, i as int) + kept_from(
                                all,
                                cards@,
                                i as int,
                            ));
                        }
                    }
                }
                proof {
                    assert(hand@ =~= kept_from(all, cards@, 0));
                }
            },
            UserState::Uninit => {},
        }
        taken
    }
}

/// What the runtime tells a player.
#[derive(Debug)]
pub enum ServerMsg {
    /// The player is in the lobby `joined`.
    Join { joined: ActorId },
    /// The game as this player sees it.
    Game {
        phase: Phase,
        players: Vec<(UserId, u8)>,
        library_size: u8,
        discard_size: u8,
        damage: u8,
        enemy: JsCard,
        hand: Vec<JsCard>,
        resolving: Vec<Vec<JsCard>>,
    },
    /// The game is won.
    Victory,
    /// The game is lost.
    Defeat,
}

} // verus!
