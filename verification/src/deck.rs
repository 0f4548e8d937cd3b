//! The deck: the library that players draw from, the discard pile, the court
//! of enemies and the combos played against the enemy in battle.

use vstd::prelude::*;
use rand::rngs::ThreadRng;
use std::collections::VecDeque;
use crate::card::{Card, Combo, JsCard, Suit};
use crate::random::{same_rng, shuffle};

verus! {

broadcast use vstd::seq_lib::group_to_multiset_ensures;

/// The number of enemies in a full court.
pub const COURT_SIZE: usize = 12;

/// The number of combos that can lie against one enemy.
pub const MAX_COMBOS: usize = 17;

/// All the cards of a game but the court and the hands.
#[derive(Debug)]
pub struct Deck {
    rng: ThreadRng,
    library: VecDeque<Card>,
    discard: Vec<Card>,
    court: Vec<Card>,
    battling: Option<Card>,
    resolving: Vec<Combo>,
}

/// The forty cards from ace to ten, suit by suit.
pub open spec fn number_cards() -> Seq<Card> {
    seq![
        Card::HeartAce, Card::HeartTwo, Card::HeartThree, Card::HeartFour,
        Card::HeartFive, Card::HeartSix, Card::HeartSeven, Card::HeartEight,
        Card::HeartNine, Card::HeartTen, Card::SpadeAce, Card::SpadeTwo,
        Card::SpadeThree, Card::SpadeFour, Card::SpadeFive, Card::SpadeSix,
        Card::SpadeSeven, Card::SpadeEight, Card::SpadeNine, Card::SpadeTen,
        Card::DiamondAce, Card::DiamondTwo, Card::DiamondThree, Card::DiamondFour,
        Card::DiamondFive, Card::DiamondSix, Card::DiamondSeven, Card::DiamondEight,
        Card::DiamondNine, Card::DiamondTen, Card::ClubAce, Card::ClubTwo,
        Card::ClubThree, Card::ClubFour, Card::ClubFive, Card::ClubSix,
        Card::ClubSeven, Card::ClubEight, Card::ClubNine, Card::ClubTen,
    ]
}

/// How many jokers a game has when `jesters` are asked for: one or two as
/// asked, none for any other number.
pub open spec fn joker_count(jesters: usize) -> nat {
    if jesters == 2 {
        2
    } else if jesters == 1 {
        1
    } else {
        0
    }
}

/// The cards of a fresh library, before they are shuffled.
pub open spec fn fresh_library(jesters: usize) -> Seq<Card> {
    number_cards() + Seq::new(joker_count(jesters), |i: int| Card::Joker)
}

/// The four kings.
pub open spec fn kings() -> Seq<Card> {
    seq![Card::HeartKing, Card::SpadeKing, Card::DiamondKing, Card::ClubKing]
}

/// The four queens.
pub open spec fn queens() -> Seq<Card> {
    seq![Card::HeartQueen, Card::SpadeQueen, Card::DiamondQueen, Card::ClubQueen]
}

/// The four jacks.
pub open spec fn jacks() -> Seq<Card> {
    seq![Card::HeartJack, Card::SpadeJack, Card::DiamondJack, Card::ClubJack]
}

/// Whether `court` is a full court in battle order: the kings at the bottom,
/// the queens above them, the jacks on top, each rank in any order.
pub open spec fn is_full_court(court: Seq<Card>) -> bool {
    &&& court.len() == 12
    &&& court.subrange(0, 4).to_multiset() == kings().to_multiset()
    &&& court.subrange(4, 8).to_multiset() == queens().to_multiset()
    &&& court.subrange(8, 12).to_multiset() == jacks().to_multiset()
}

/// The cards of the given combos, combo after combo.
pub open spec fn cards_of(combos: Seq<Combo>) -> Seq<Card>
    decreases combos.len(),
{
    if combos.len() == 0 {
        Seq::empty()
    } else {
        cards_of(combos.drop_last()) + combos.last().spec_cards()
    }
}

/// What the given combos add to the power of spades, taken together.
pub open spec fn spade_power(combos: Seq<Combo>) -> nat
    decreases combos.len(),
{
    if combos.len() == 0 {
        0
    } else {
        spade_power(combos.drop_last()) + combos.last().spec_suit_value(Suit::Spade) as nat
    }
}

/// A copy of the items, in their order.
fn copied<T: Copy>(items: &Vec<T>) -> (copy: Vec<T>)
    ensures
        copy@ == items@,
{
    let mut copy: Vec<T> = Vec::new();
    let mut i: usize = 0;
    while i < items.len()
        invariant
            i <= items@.len(),
            copy@ == items@.subrange(0, i as int),
        decreases items@.len() - i,
    {
        copy.push(items[i]);
        proof {
            assert(copy@ =~= items@.subrange(0, i as int + 1));
        }
        i += 1;
    }
    proof {
        assert(copy@ =~= items@);
    }
    copy
}

impl Clone for Deck {
    /// A deck with the same cards in the same places, drawing on the same
    /// source of chance.
    fn clone(&self) -> (copy: Deck)
        ensures
            copy.in_library() == self.in_library(),
            copy.discarded() == self.discarded(),
            copy.court_cards() == self.court_cards(),
            copy.enemy() == self.enemy(),
            copy.played() == self.played(),
    {
        let mut library: VecDeque<Card> = VecDeque::new();
        let mut i: usize = 0;
        while i < self.library.len()
            invariant
                i <= self.library@.len(),
                library@ == self.library@.subrange(0, i as int),
            decreases self.library@.len() - i,
        {
            library.push_back(self.library[i]);
            proof {
                assert(library@ =~= self.library@.subrange(0, i as int + 1));
            }
            i += 1;
        }
        proof {
            assert(library@ =~= self.library@);
        }
        Deck {
            rng: same_rng(&self.rng),
            library,
            discard: copied(&self.discard),
            court: copied(&self.court),
            battling: self.battling,
            resolving: copied(&self.resolving),
        }
    }
}

impl Deck {
    /// The cards to draw from, the next one first.
    pub closed spec fn in_library(&self) -> Seq<Card> {
        self.library@
    }

    /// The discard pile, the oldest card first.
    pub closed spec fn discarded(&self) -> Seq<Card> {
        self.discard@
    }

    /// The enemies still to come, the next one last.
    pub closed spec fn court_cards(&self) -> Seq<Card> {
        self.court@
    }

    /// The enemy in battle.
    pub closed spec fn enemy(&self) -> Option<Card> {
        self.battling
    }

    /// The combos played against the enemy in battle, the first one first.
    pub closed spec fn played(&self) -> Seq<Combo> {
        self.resolving@
    }

    /// The court and the combos in battle fit their rows.
    pub open spec fn wf(&self) -> bool {
        &&& self.court_cards().len() <= COURT_SIZE
        &&& self.played().len() <= MAX_COMBOS
    }

    /// Whether a joker lies on its own among the combos in battle.
    pub open spec fn spec_jester(&self) -> bool {
        exists|i: int|
            0 <= i < self.played().len() && #[trigger] self.played()[i] == Combo::Single(
                Card::Joker,
            )
    }

    /// The shield that the spades in battle give, which a `u8` caps at 255.
    pub open spec fn spec_defense_value(&self) -> u8 {
        if spade_power(self.played()) > 255 {
            255
        } else {
            spade_power(self.played()) as u8
        }
    }

    /// Whether the court and the combos in battle fit their rows.
    pub fn is_sound(&self) -> (sound: bool)
        ensures
            sound == self.wf(),
    {
        self.court.len() <= COURT_SIZE && self.resolving.len() <= MAX_COMBOS
    }

    /// A shuffled library for a game with `jesters` jokers.
    pub fn library(rng: &mut ThreadRng, jesters: usize) -> (library: Vec<Card>)
        ensures
            library@.to_multiset() == fresh_library(jesters).to_multiset(),
            library@.len() == 40 + joker_count(jesters),
    {
        let mut library: Vec<Card> = vec![
            Card::HeartAce, Card::HeartTwo, Card::HeartThree, Card::HeartFour,
            Card::HeartFive, Card::HeartSix, Card::HeartSeven, Card::HeartEight,
            Card::HeartNine, Card::HeartTen, Card::SpadeAce, Card::SpadeTwo,
            Card::SpadeThree, Card::SpadeFour, Card::SpadeFive, Card::SpadeSix,
            Card::SpadeSeven, Card::SpadeEight, Card::SpadeNine, Card::SpadeTen,
            Card::DiamondAce, Card::DiamondTwo, Card::DiamondThree, Card::DiamondFour,
            Card::DiamondFive, Card::DiamondSix, Card::DiamondSeven, Card::DiamondEight,
            Card::DiamondNine, Card::DiamondTen, Card::ClubAce, Card::ClubTwo,
            Card::ClubThree, Card::ClubFour, Card::ClubFive, Card::ClubSix,
            Card::ClubSeven, Card::ClubEight, Card::ClubNine, Card::ClubTen,
        ];
        proof {
            assert(library@ =~= number_cards());
        }
        if jesters == 2 {
            library.push(Card::Joker);
            library.push(Card::Joker);
        } else if jesters == 1 {
            library.push(Card::Joker);
        }
        proof {
            assert(library@ =~= fresh_library(jesters));
        }
        shuffle(&mut library, rng);
        library
    }

    /// A shuffled court: kings below queens below jacks.
    pub fn court(rng: &mut ThreadRng) -> (court: Vec<Card>)
        ensures
            is_full_court(court@),
    {
        let mut court: Vec<Card> = Vec::new();
        let mut kings: Vec<Card> = vec![
            Card::HeartKing, Card::SpadeKing, Card::DiamondKing, Card::ClubKing,
        ];
        proof {
            assert(kings@ =~= self::kings());
        }
        shuffle(&mut kings, rng);
        court.append(&mut kings);
        let ghost bottom = court@;
        let mut queens: Vec<Card> = vec![
            Card::HeartQueen, Card::SpadeQueen, Card::DiamondQueen, Card::ClubQueen,
        ];
        proof {
            assert(queens@ =~= self::queens());
        }
        shuffle(&mut queens, rng);
        let ghost middle = queens@;
        court.append(&mut queens);
        let mut jacks: Vec<Card> = vec![
            Card::HeartJack, Card::SpadeJack, Card::DiamondJack, Card::ClubJack,
        ];
        proof {
            assert(jacks@ =~= self::jacks());
        }
        shuffle(&mut jacks, rng);
        let ghost top = jacks@;
        court.append(&mut jacks);
        proof {
            assert(court@.subrange(0, 4) =~= bottom);
            assert(court@.subrange(4, 8) =~= middle);
            assert(court@.subrange(8, 12) =~= top);
        }
        court
    }

    /// The deck at the start of a game with `jesters` jokers: a shuffled
    /// library, a shuffled court, nothing discarded, no enemy in battle yet.
    pub fn new(jesters: usize, rng: ThreadRng) -> (deck: Deck)
        ensures
            deck.wf(),
            deck.in_library().to_multiset() == fresh_library(jesters).to_multiset(),
            deck.in_library().len() == 40 + joker_count(jesters),
            deck.discarded() == Seq::<Card>::empty(),
            is_full_court(deck.court_cards()),
            deck.enemy().is_none(),
            deck.played() == Seq::<Combo>::empty(),
    {
        let mut rng = rng;
        let cards = Deck::library(&mut rng, jesters);
        let court = Deck::court(&mut rng);
        let mut library: VecDeque<Card> = VecDeque::new();
        let mut i: usize = 0;
        while i < cards.len()
            invariant
                i <= cards@.len(),
                library@ == cards@.subrange(0, i as int),
            decreases cards@.len() - i,
        {
            library.push_back(cards[i]);
            proof {
                assert(library@ =~= cards@.subrange(0, i as int + 1));
            }
            i += 1;
        }
        proof {
            assert(library@ =~= cards@);
        }
        Deck { rng, library, discard: Vec::new(), court, battling: None, resolving: Vec::new() }
    }

    /// The enemy in battle, if there is one.
    pub fn battling(&self) -> (enemy: Option<&Card>)
        ensures
            match enemy {
                Some(card) => self.enemy() == Some(*card),
                None => self.enemy().is_none(),
            },
    {
        self.battling.as_ref()
    }

    /// The number of cards in the library.
    pub fn library_count(&self) -> (count: usize)
        ensures
            count == self.in_library().len(),
    {
        self.library.len()
    }

    /// The number of cards on the discard pile.
    pub fn discard_count(&self) -> (count: usize)
        ensures
            count == self.discarded().len(),
    {
        self.discard.len()
    }

    /// The number of combos in battle.
    pub fn resolving_count(&self) -> (count: usize)
        ensures
            count == self.played().len(),
    {
        self.resolving.len()
    }

    /// Whether a joker lies on its own among the combos in battle.
    #[verifier::when_used_as_spec(spec_jester)]
    pub fn jester(&self) -> (found: bool)
        ensures
            found == self.spec_jester(),
    {
        let mut i: usize = 0;
        while i < self.resolving.len()
            invariant
                i <= self.resolving@.len(),
                forall|j: int| 0 <= j < i ==> self.played()[j] != Combo::Single(Card::Joker),
            decreases self.resolving@.len() - i,
        {
            match self.resolving[i] {
                Combo::Single(card) => {
                    if card == Card::Joker {
                        return true;
                    }
                },
                _ => {},
            }
            i += 1;
        }
        false
    }

    /// The shield that the spades in battle give, at most 255.
    #[verifier::when_used_as_spec(spec_defense_value)]
    pub fn defense_value(&self) -> (value: u8)
        ensures
            value == self.spec_defense_value(),
    {
        let mut value: u8 = 0;
        let mut i: usize = 0;
        while i < self.resolving.len()
            invariant
                i <= self.resolving@.len(),
                value as nat == (if spade_power(self.played().subrange(0, i as int)) > 255 {
                    255
                } else {
                    spade_power(self.played().subrange(0, i as int))
                }),
            decreases self.resolving@.len() - i,
        {
            proof {
                let more = self.played().subrange(0, i as int + 1);
                assert(more.drop_last() =~= self.played().subrange(0, i as int));
            }
            value = value.saturating_add(self.resolving[i].suit_value(Suit::Spade));
            i += 1;
        }
        proof {
            assert(self.played().subrange(0, i as int) =~= self.played());
        }
        value
    }

    /// Whether there is a card to draw, in the library or in the discard
    /// pile.
    pub fn can_draw(&self) -> (some: bool)
        ensures
            some == (self.in_library().len() + self.discarded().len() > 0),
    {
        self.library.len() > 0 || self.discard.len() > 0
    }

    /// Takes the next card from the library. When the library is empty, the
    /// discard pile is shuffled first and becomes the library.
    pub fn draw(&mut self) -> (card: Card)
        requires
            old(self).wf(),
            old(self).in_library().len() + old(self).discarded().len() > 0,
        ensures
            final(self).wf(),
            final(self).court_cards() == old(self).court_cards(),
            final(self).enemy() == old(self).enemy(),
            final(self).played() == old(self).played(),
            old(self).in_library().len() > 0 ==> {
                &&& card == old(self).in_library()[0]
                &&& final(self).in_library() == old(self).in_library().drop_first()
                &&& final(self).discarded() == old(self).discarded()
            },
            old(self).in_library().len() == 0 ==> {
                &&& final(self).discarded() == Seq::<Card>::empty()
                &&& (seq![card] + final(self).in_library()).to_multiset()
                    == old(self).discarded().to_multiset()
            },
    {
        match self.library.pop_front() {
            Some(card) => {
                proof {
                    assert(self.library@ =~= old(self).library@.drop_first());
                }
                card
            },
            None => {
                shuffle(&mut self.discard, &mut self.rng);
                let ghost shuffled = self.discard@;
                let mut i: usize = 0;
                while i < self.discard.len()
                    invariant
                        i <= self.discard@.len(),
                        self.discard@ == shuffled,
                        self.library@ == shuffled.subrange(0, i as int),
                        self.court@ == old(self).court@,
                        self.battling == old(self).battling,
                        self.resolving@ == old(self).resolving@,
                    decreases self.discard@.len() - i,
                {
                    self.library.push_back(self.discard[i]);
                    proof {
                        assert(self.library@ =~= shuffled.subrange(0, i as int + 1));
                    }
                    i += 1;
                }
                self.discard.clear();
                proof {
                    assert(self.library@ =~= shuffled);
                }
                let card = self.library.pop_front().unwrap();
                proof {
                    assert(seq![card] + self.library@ =~= shuffled);
                }
                card
            },
        }
    }

    /// Lays `cards` on the discard pile, in their order, and leaves `cards`
    /// empty.
    pub fn discard(&mut self, cards: &mut Vec<Card>)
        requires
            old(self).wf(),
        ensures
            final(self).wf(),
            final(self).discarded() == old(self).discarded() + old(cards)@,
            final(cards)@ == Seq::<Card>::empty(),
            final(self).in_library() == old(self).in_library(),
            final(self).court_cards() == old(self).court_cards(),
            final(self).enemy() == old(self).enemy(),
            final(self).played() == old(self).played(),
    {
        self.discard.append(cards);
    }

    /// Ends the battle and turns up the next enemy. The enemy that was
    /// beaten goes on top of the library if the blow was `exact`, else to its
    /// bottom, and the combos played against it are discarded. With no enemy
    /// in battle only the next one is turned up.
    pub fn next_battle(&mut self, exact: bool)
        requires
            old(self).wf(),
        ensures
            final(self).wf(),
            final(self).enemy() == (if old(self).court_cards().len() > 0 {
                Some(old(self).court_cards().last())
            } else {
                None
            }),
            final(self).court_cards() == (if old(self).court_cards().len() > 0 {
                old(self).court_cards().drop_last()
            } else {
                old(self).court_cards()
            }),
            match old(self).enemy() {
                Some(beaten) => {
                    &&& final(self).in_library() == (if exact {
                        seq![beaten] + old(self).in_library()
                    } else {
                        old(self).in_library().push(beaten)
                    })
                    &&& final(self).discarded() == old(self).discarded() + cards_of(
                        old(self).played(),
                    )
                    &&& final(self).played() == Seq::<Combo>::empty()
                },
                None => {
                    &&& final(self).in_library() == old(self).in_library()
                    &&& final(self).discarded() == old(self).discarded()
                    &&& final(self).played() == old(self).played()
                },
            },
    {
        match self.battling {
            Some(beaten) => {
                if exact {
                    self.library.push_front(beaten);
                } else {
                    self.library.push_back(beaten);
                }
                let mut i: usize = 0;
                while i < self.resolving.len()
                    invariant
                        i <= self.resolving@.len(),
                        self.resolving@ == old(self).resolving@,
                        self.library@ == (if exact {
                            seq![beaten] + old(self).library@
                        } else {
                            old(self).library@.push(beaten)
                        }),
                        self.court@ == old(self).court@,
                        self.discard@ == old(self).discard@ + cards_of(
                            self.resolving@.subrange(0, i as int),
                        ),
                    decreases self.resolving@.len() - i,
                {
                    let mut cards = self.resolving[i].cards();
                    proof {
                        let more = self.resolving@.subrange(0, i as int + 1);
                        assert(more.drop_last() =~= self.resolving@.subrange(0, i as int));
                        assert(old(self).discard@ + cards_of(more) =~= (old(self).discard@
                            + cards_of(self.resolving@.subrange(0, i as int))) + cards@);
                    }
                    self.discard.append(&mut cards);
                    i += 1;
                }
                proof {
                    assert(self.resolving@.subrange(0, i as int) =~= self.resolving@);
                }
                self.resolving.clear();
            },
            None => {},
        }
        self.battling = self.court.pop();
    }

    /// Whether the row of combos in battle has room for one more.
    pub fn can_play(&self) -> (room: bool)
        ensures
            room == (self.played().len() < MAX_COMBOS),
    {
        self.resolving.len() < MAX_COMBOS
    }

    /// Lays `combo` against the enemy in battle.
    pub fn play_cards(&mut self, combo: Combo)
        requires
            old(self).wf(),
            old(self).played().len() < MAX_COMBOS,
        ensures
            final(self).wf(),
            final(self).played() == old(self).played().push(combo),
            final(self).in_library() == old(self).in_library(),
            final(self).discarded() == old(self).discarded(),
            final(self).court_cards() == old(self).court_cards(),
            final(self).enemy() == old(self).enemy(),
    {
        self.resolving.push(combo);
    }

    /// Shuffles the discard pile and puts up to `heal` of its cards under
    /// the library.
    pub fn heal(&mut self, heal: usize)
        requires
            old(self).wf(),
        ensures
            final(self).wf(),
            final(self).court_cards() == old(self).court_cards(),
            final(self).enemy() == old(self).enemy(),
            final(self).played() == old(self).played(),
            final(self).discarded().len() == (if heal <= old(self).discarded().len() {
                old(self).discarded().len() - heal
            } else {
                0
            }),
            final(self).in_library().len() == old(self).in_library().len()
                + old(self).discarded().len() - final(self).discarded().len(),
            final(self).in_library().subrange(0, old(self).in_library().len() as int)
                == old(self).in_library(),
            (final(self).discarded() + final(self).in_library().subrange(
                old(self).in_library().len() as int,
                final(self).in_library().len() as int,
            )).to_multiset() == old(self).discarded().to_multiset(),
    {
        let n = self.discard.len();
        let keep: usize = if heal <= n {
            n - heal
        } else {
            0
        };
        shuffle(&mut self.discard, &mut self.rng);
        let ghost shuffled = self.discard@;
        let mut i: usize = keep;
        while i < n
            invariant
                keep <= i <= n,
                n == shuffled.len(),
                self.discard@ == shuffled,
                self.library@ == old(self).library@ + shuffled.subrange(keep as int, i as int),
                self.court@ == old(self).court@,
                self.battling == old(self).battling,
                self.resolving@ == old(self).resolving@,
            decreases n - i,
        {
            self.library.push_back(self.discard[i]);
            proof {
                assert(self.library@ =~= old(self).library@ + shuffled.subrange(
                    keep as int,
                    i as int + 1,
                ));
            }
            i += 1;
        }
        self.discard.truncate(keep);
        proof {
            let len = old(self).library@.len() as int;
            assert(self.library@.subrange(0, len) =~= old(self).library@);
            assert(self.library@.subrange(len, self.library@.len() as int) =~= shuffled.subrange(
                keep as int,
                n as int,
            ));
            assert(self.discard@ =~= shuffled.subrange(0, keep as int));
            assert(shuffled.subrange(0, keep as int) + shuffled.subrange(keep as int, n as int)
                =~= shuffled);
        }
    }

    /// The combos in battle as clients see them, the first one first.
    pub fn resolving(&self) -> (shown: Vec<Vec<JsCard>>)
        ensures
            shown@.len() == self.played().len(),
            forall|i: int, j: int|
                0 <= i < shown@.len() && 0 <= j < self.played()[i].spec_cards().len() ==> {
                    &&& (#[trigger] shown@[i])@.len() == self.played()[i].spec_cards().len()
                    &&& (#[trigger] shown@[i]@[j])@ == self.played()[i].spec_cards()[j].shown()
                },
    {
        let mut shown: Vec<Vec<JsCard>> = Vec::new();
        let mut i: usize = 0;
        while i < self.resolving.len()
            invariant
                i <= self.resolving@.len(),
                shown@.len() == i,
                forall|a: int, b: int|
                    0 <= a < i && 0 <= b < self.played()[a].spec_cards().len() ==> {
                        &&& (#[trigger] shown@[a])@.len() == self.played()[a].spec_cards().len()
                        &&& (#[trigger] shown@[a]@[b])@ == self.played()[a].spec_cards()[b].shown()
                    },
            decreases self.resolving@.len() - i,
        {
            shown.push(self.resolving[i].js_cards());
            i += 1;
        }
        shown
    }
}

} // verus!
