//! Who is in which lobby: the directory as a mathematical value, the steps of
//! the join protocol on it, and what those steps guarantee.

use vstd::prelude::*;
use crate::ident::ActorId;

verus! {

/// The routing record of one user.
pub struct Handle {
    /// Whether the user has a live connection.
    pub connected: bool,
    /// The lobby that the user belongs to.
    pub actor_id: ActorId,
}

/// The directory: the members of every lobby, the record of every user, and
/// the lobby list as it was last published.
#[verifier::ext_equal]
pub struct Directory {
    pub lobbies: Map<ActorId, Set<Seq<char>>>,
    pub handles: Map<Seq<char>, Handle>,
    pub listed: Seq<(ActorId, u8)>,
}

/// Which of the three ways a connect request is resolved in.
pub enum ConnectCase {
    /// The user is known: they get their place back.
    Rejoin,
    /// The user is new and the lobby they named takes them.
    Seat(ActorId),
    /// The user is new and gets a lobby of their own.
    Create,
}

/// Whether every lobby that `listing` shows is one of `lobbies`.
pub open spec fn lists_only(listing: Seq<(ActorId, u8)>, lobbies: Set<ActorId>) -> bool {
    forall|i: int| 0 <= i < listing.len() ==> lobbies.contains((#[trigger] listing[i]).0)
}

/// Whether `listing` shows no lobby twice.
pub open spec fn lists_once(listing: Seq<(ActorId, u8)>) -> bool {
    forall|i: int, j: int|
        0 <= i < j < listing.len() ==> (#[trigger] listing[i]).0 != (#[trigger] listing[j]).0
}

impl Directory {
    /// Whether `token` is a member of the lobby `id`.
    pub open spec fn member(self, id: ActorId, token: Seq<char>) -> bool {
        self.lobbies.contains_key(id) && self.lobbies[id].contains(token)
    }

    /// Whether the user is known and connected.
    pub open spec fn online(self, token: Seq<char>) -> bool {
        self.handles.contains_key(token) && self.handles[token].connected
    }

    /// Whether some member of the lobby is connected.
    pub open spec fn alive(self, id: ActorId) -> bool {
        exists|token: Seq<char>| #[trigger] self.member(id, token) && self.online(token)
    }

    /// Whether no member of the lobby is connected.
    pub open spec fn deserted(self, id: ActorId) -> bool {
        forall|token: Seq<char>| #[trigger] self.member(id, token) ==> !self.online(token)
    }

    /// Every user belongs to a lobby that exists and counts them as a member;
    /// every member of a lobby has a record that points back to it; every
    /// lobby has a connected member. The published list is no part of this:
    /// it is whatever was last published.
    pub open spec fn wf(self) -> bool {
        &&& forall|token: Seq<char>| #[trigger]
            self.handles.contains_key(token) ==> self.member(self.handles[token].actor_id, token)
        &&& forall|id: ActorId, token: Seq<char>| #[trigger]
            self.member(id, token) ==> self.handles.contains_key(token)
                && self.handles[token].actor_id == id
        &&& forall|id: ActorId| #[trigger] self.lobbies.contains_key(id) ==> self.alive(id)
    }

    /// Whether every lobby that the published list shows is there, and
    /// none is shown twice.
    pub open spec fn list_in_order(self) -> bool {
        lists_only(self.listed, self.lobbies.dom()) && lists_once(self.listed)
    }

    /// A known user comes back: their record says connected again.
    pub open spec fn rejoin(self, token: Seq<char>) -> Directory {
        Directory {
            handles: self.handles.insert(
                token,
                Handle { connected: true, actor_id: self.handles[token].actor_id },
            ),
            ..self
        }
    }

    /// A new user becomes a member of the lobby `id`.
    pub open spec fn seat(self, token: Seq<char>, id: ActorId) -> Directory {
        Directory {
            lobbies: self.lobbies.insert(id, self.lobbies[id].insert(token)),
            handles: self.handles.insert(token, Handle { connected: true, actor_id: id }),
            ..self
        }
    }

    /// A new user gets the new lobby `id`, and the list is published anew.
    pub open spec fn create(self, token: Seq<char>, id: ActorId, listing: Seq<(ActorId, u8)>)
        -> Directory {
        Directory {
            lobbies: self.lobbies.insert(id, set![token]),
            handles: self.handles.insert(token, Handle { connected: true, actor_id: id }),
            listed: listing,
        }
    }

    /// A user's record says disconnected.
    pub open spec fn mark_offline(self, token: Seq<char>) -> Directory {
        Directory {
            handles: self.handles.insert(
                token,
                Handle { connected: false, actor_id: self.handles[token].actor_id },
            ),
            ..self
        }
    }

    /// The lobby `id` goes, with the records of all its members, and the
    /// list is published anew.
    pub open spec fn destroy(self, id: ActorId, listing: Seq<(ActorId, u8)>) -> Directory {
        Directory {
            lobbies: self.lobbies.remove(id),
            handles: self.handles.remove_keys(self.lobbies[id]),
            listed: listing,
        }
    }

    /// The way in which a connect request of `token` is resolved: `target` is
    /// the lobby it names, `open` the lobbies that take one more member.
    pub open spec fn connect_case(self, token: Seq<char>, target: Option<ActorId>, open: Set<ActorId>)
        -> ConnectCase {
        if self.handles.contains_key(token) {
            ConnectCase::Rejoin
        } else if target.is_some() && self.lobbies.contains_key(target.unwrap()) && open.contains(
            target.unwrap(),
        ) {
            ConnectCase::Seat(target.unwrap())
        } else {
            ConnectCase::Create
        }
    }

    /// The directory after a connect request whose handshake went through.
    /// `fresh` is the identity minted for a new lobby and `listing` the list
    /// published if one is created.
    pub open spec fn connect(
        self,
        token: Seq<char>,
        target: Option<ActorId>,
        open: Set<ActorId>,
        fresh: ActorId,
        listing: Seq<(ActorId, u8)>,
    ) -> Directory {
        match self.connect_case(token, target, open) {
            ConnectCase::Rejoin => self.rejoin(token),
            ConnectCase::Seat(id) => self.seat(token, id),
            ConnectCase::Create => self.create(token, fresh, listing),
        }
    }

    /// The directory after a disconnect request. `listing` is the list
    /// published if the user's lobby is destroyed.
    pub open spec fn disconnect(self, token: Seq<char>, listing: Seq<(ActorId, u8)>) -> Directory {
        if !self.handles.contains_key(token) {
            self
        } else {
            let marked = self.mark_offline(token);
            let id = self.handles[token].actor_id;
            if marked.deserted(id) {
                marked.destroy(id, listing)
            } else {
                marked
            }
        }
    }

    /// Rejoining keeps the directory in order.
    pub proof fn lemma_rejoin_wf(self, token: Seq<char>)
        requires
            self.wf(),
            self.handles.contains_key(token),
        ensures
            self.rejoin(token).wf(),
    {
        let next = self.rejoin(token);
        assert forall|t: Seq<char>| #[trigger] next.handles.contains_key(t) implies next.member(
            next.handles[t].actor_id,
            t,
        ) by {
            assert(self.handles.contains_key(t));
            assert(self.member(self.handles[t].actor_id, t));
        }
        assert forall|id: ActorId, t: Seq<char>| #[trigger]
            next.member(id, t) implies next.handles.contains_key(t) && next.handles[t].actor_id
            == id by {
            assert(self.member(id, t));
        }
        assert forall|id: ActorId| #[trigger] next.lobbies.contains_key(id) implies next.alive(id) by {
            assert(self.alive(id));
            let w = choose|w: Seq<char>| #[trigger] self.member(id, w) && self.online(w);
            assert(next.member(id, w) && next.online(w));
        }
    }

    /// Seating a new user to a lobby keeps the directory in order.
    pub proof fn lemma_seat_wf(self, token: Seq<char>, id: ActorId)
        requires
            self.wf(),
            !self.handles.contains_key(token),
            self.lobbies.contains_key(id),
        ensures
            self.seat(token, id).wf(),
    {
        let next = self.seat(token, id);
        assert forall|t: Seq<char>| #[trigger] next.handles.contains_key(t) implies next.member(
            next.handles[t].actor_id,
            t,
        ) by {
            if t != token {
                assert(self.member(self.handles[t].actor_id, t));
            }
        }
        assert forall|a: ActorId, t: Seq<char>| #[trigger]
            next.member(a, t) implies next.handles.contains_key(t) && next.handles[t].actor_id
            == a by {
            if t == token {
                if a != id {
                    assert(self.member(a, t));
                }
            } else {
                assert(self.member(a, t));
            }
        }
        assert forall|a: ActorId| #[trigger] next.lobbies.contains_key(a) implies next.alive(a) by {
            assert(self.alive(a));
            let w = choose|w: Seq<char>| #[trigger] self.member(a, w) && self.online(w);
            assert(next.member(a, w) && next.online(w));
        }
        assert(next.lobbies.dom() =~= self.lobbies.dom());
    }

    /// Creating a lobby for a new user keeps the directory in order.
    pub proof fn lemma_create_wf(self, token: Seq<char>, id: ActorId, listing: Seq<(ActorId, u8)>)
        requires
            self.wf(),
            !self.handles.contains_key(token),
            !self.lobbies.contains_key(id),
        ensures
            self.create(token, id, listing).wf(),
    {
        let next = self.create(token, id, listing);
        assert forall|t: Seq<char>| #[trigger] next.handles.contains_key(t) implies next.member(
            next.handles[t].actor_id,
            t,
        ) by {
            if t != token {
                assert(self.member(self.handles[t].actor_id, t));
            }
        }
        assert forall|a: ActorId, t: Seq<char>| #[trigger]
            next.member(a, t) implies next.handles.contains_key(t) && next.handles[t].actor_id
            == a by {
            if a != id {
                assert(self.member(a, t));
            }
        }
        assert forall|a: ActorId| #[trigger] next.lobbies.contains_key(a) implies next.alive(a) by {
            if a == id {
                assert(next.member(id, token) && next.online(token));
            } else {
                assert(self.alive(a));
                let w = choose|w: Seq<char>| #[trigger] self.member(a, w) && self.online(w);
                assert(next.member(a, w) && next.online(w));
            }
        }
        assert(next.lobbies.dom() =~= self.lobbies.dom().insert(id));
    }

    /// Disconnecting a user keeps the directory in order.
    pub proof fn lemma_disconnect_wf(self, token: Seq<char>, listing: Seq<(ActorId, u8)>)
        requires
            self.wf(),
        ensures
            self.disconnect(token, listing).wf(),
    {
        if self.handles.contains_key(token) {
            let marked = self.mark_offline(token);
            let home = self.handles[token].actor_id;
            assert(self.member(home, token));
            assert forall|a: ActorId, t: Seq<char>| marked.member(a, t) == self.member(a, t) by {}
            if marked.deserted(home) {
                let next = marked.destroy(home, listing);
                assert forall|t: Seq<char>| #[trigger] next.handles.contains_key(t) implies next.member(
                    next.handles[t].actor_id,
                    t,
                ) by {
                    assert(self.member(self.handles[t].actor_id, t));
                    assert(!self.member(home, t));
                }
                assert forall|a: ActorId, t: Seq<char>| #[trigger]
                    next.member(a, t) implies next.handles.contains_key(t)
                    && next.handles[t].actor_id == a by {
                    assert(self.member(a, t));
                    if self.member(home, t) {
                    }
                }
                assert forall|a: ActorId| #[trigger] next.lobbies.contains_key(a) implies next.alive(
                    a,
                ) by {
                    assert(self.alive(a));
                    let w = choose|w: Seq<char>| #[trigger] self.member(a, w) && self.online(w);
                    assert(!self.member(home, w));
                    assert(w != token);
                    assert(next.member(a, w) && next.online(w));
                }
            } else {
                let next = marked;
                assert forall|t: Seq<char>| #[trigger] next.handles.contains_key(t) implies next.member(
                    next.handles[t].actor_id,
                    t,
                ) by {
                    assert(self.handles.contains_key(t));
                    assert(self.member(self.handles[t].actor_id, t));
                }
                assert forall|a: ActorId, t: Seq<char>| #[trigger]
                    next.member(a, t) implies next.handles.contains_key(t)
                    && next.handles[t].actor_id == a by {
                    assert(self.member(a, t));
                }
                assert forall|a: ActorId| #[trigger] next.lobbies.contains_key(a) implies next.alive(
                    a,
                ) by {
                    if a == home {
                        let w = choose|w: Seq<char>| #[trigger]
                            marked.member(home, w) && marked.online(w);
                        assert(next.member(a, w) && next.online(w));
                    } else {
                        assert(self.alive(a));
                        let w = choose|w: Seq<char>| #[trigger] self.member(a, w) && self.online(w);
                        assert(w != token);
                        assert(next.member(a, w) && next.online(w));
                    }
                }
            }
        }
    }

    /// A lobby that takes no more members has the same members after any
    /// connect request.
    pub proof fn lemma_closed_lobby_keeps_members(
        self,
        id: ActorId,
        token: Seq<char>,
        target: Option<ActorId>,
        open: Set<ActorId>,
        fresh: ActorId,
        listing: Seq<(ActorId, u8)>,
    )
        requires
            self.wf(),
            self.lobbies.contains_key(id),
            !open.contains(id),
            !self.lobbies.contains_key(fresh),
        ensures
            self.connect(token, target, open, fresh, listing).lobbies.contains_key(id),
            self.connect(token, target, open, fresh, listing).lobbies[id] == self.lobbies[id],
    {
    }

    /// A connect request adds a member to a lobby that exists only if the
    /// request names that lobby, the lobby takes members, and the user is
    /// new; the member added is that user.
    pub proof fn lemma_members_grow_by_seating_only(
        self,
        id: ActorId,
        token: Seq<char>,
        target: Option<ActorId>,
        open: Set<ActorId>,
        fresh: ActorId,
        listing: Seq<(ActorId, u8)>,
    )
        requires
            self.wf(),
            self.lobbies.contains_key(id),
            !self.lobbies.contains_key(fresh),
        ensures
            self.connect(token, target, open, fresh, listing).lobbies[id] != self.lobbies[id] ==> {
                &&& target == Some(id)
                &&& open.contains(id)
                &&& !self.handles.contains_key(token)
                &&& self.connect(token, target, open, fresh, listing).lobbies[id]
                    == self.lobbies[id].insert(token)
            },
    {
    }

    /// A disconnect request destroys a lobby exactly when it comes from a
    /// member of that lobby and no other member is connected. One connected
    /// member keeps the lobby.
    pub proof fn lemma_destroyed_iff_deserted(
        self,
        id: ActorId,
        token: Seq<char>,
        listing: Seq<(ActorId, u8)>,
    )
        requires
            self.wf(),
            self.lobbies.contains_key(id),
        ensures
            !self.disconnect(token, listing).lobbies.contains_key(id) <==> {
                &&& self.member(id, token)
                &&& forall|other: Seq<char>| #[trigger]
                    self.member(id, other) && other != token ==> !self.online(other)
            },
            self.disconnect(token, listing).lobbies.contains_key(id) ==> self.disconnect(
                token,
                listing,
            ).lobbies[id] == self.lobbies[id],
    {
        if self.handles.contains_key(token) {
            let marked = self.mark_offline(token);
            let home = self.handles[token].actor_id;
            assert(self.member(home, token));
            if self.member(id, token) {
                assert(home == id);
                if marked.deserted(id) {
                    assert forall|other: Seq<char>| #[trigger]
                        self.member(id, other) && other != token implies !self.online(other) by {
                        assert(marked.member(id, other));
                        assert(!marked.online(other));
                    }
                } else {
                    let w = choose|w: Seq<char>| #[trigger] marked.member(id, w) && marked.online(w);
                    assert(self.member(id, w) && w != token && self.online(w));
                }
                if forall|other: Seq<char>| #[trigger]
                    self.member(id, other) && other != token ==> !self.online(other) {
                    assert forall|t: Seq<char>| #[trigger] marked.member(id, t) implies !marked.online(
                        t,
                    ) by {
                        if t != token {
                            assert(self.member(id, t));
                        }
                    }
                }
            }
        } else {
            if self.member(id, token) {
                assert(false);
            }
        }
    }

    /// No connect request destroys a lobby.
    pub proof fn lemma_connect_keeps_lobbies(
        self,
        id: ActorId,
        token: Seq<char>,
        target: Option<ActorId>,
        open: Set<ActorId>,
        fresh: ActorId,
        listing: Seq<(ActorId, u8)>,
    )
        requires
            self.lobbies.contains_key(id),
        ensures
            self.connect(token, target, open, fresh, listing).lobbies.contains_key(id),
    {
    }

    /// A known user who connects again gets their own record back: no lobby
    /// and no record is added, and the record still points to the same lobby.
    pub proof fn lemma_reconnect_adds_nothing(
        self,
        token: Seq<char>,
        target: Option<ActorId>,
        open: Set<ActorId>,
        fresh: ActorId,
        listing: Seq<(ActorId, u8)>,
    )
        requires
            self.wf(),
            self.handles.contains_key(token),
        ensures
            self.connect(token, target, open, fresh, listing).lobbies == self.lobbies,
            self.connect(token, target, open, fresh, listing).handles.dom() == self.handles.dom(),
            self.connect(token, target, open, fresh, listing).handles[token].actor_id
                == self.handles[token].actor_id,
            self.connect(token, target, open, fresh, listing).online(token),
            self.connect(token, target, open, fresh, listing).listed == self.listed,
    {
        let next = self.connect(token, target, open, fresh, listing);
        assert(next.handles.dom() =~= self.handles.dom());
    }

    /// The list is published anew exactly when a lobby comes or goes; after
    /// any other request it is what it was.
    pub proof fn lemma_list_follows_topology(
        self,
        token: Seq<char>,
        target: Option<ActorId>,
        open: Set<ActorId>,
        fresh: ActorId,
        listing: Seq<(ActorId, u8)>,
    )
        requires
            self.wf(),
            !self.lobbies.contains_key(fresh),
        ensures
            ({
                let next = self.connect(token, target, open, fresh, listing);
                if next.lobbies.dom() == self.lobbies.dom() {
                    next.listed == self.listed
                } else {
                    next.listed == listing
                }
            }),
            ({
                let next = self.disconnect(token, listing);
                if next.lobbies.dom() == self.lobbies.dom() {
                    next.listed == self.listed
                } else {
                    next.listed == listing
                }
            }),
    {
        let joined = self.connect(token, target, open, fresh, listing);
        match self.connect_case(token, target, open) {
            ConnectCase::Rejoin => {},
            ConnectCase::Seat(id) => {
                assert(joined.lobbies.dom() =~= self.lobbies.dom());
            },
            ConnectCase::Create => {
                assert(joined.lobbies.dom().contains(fresh));
            },
        }
        let left = self.disconnect(token, listing);
        if self.handles.contains_key(token) {
            let home = self.handles[token].actor_id;
            assert(self.member(home, token));
            if self.mark_offline(token).deserted(home) {
                assert(!left.lobbies.dom().contains(home));
                assert(self.lobbies.dom().contains(home));
            }
        }
    }
}

} // verus!
