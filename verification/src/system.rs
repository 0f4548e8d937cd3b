//! The runtime: the directory of lobbies and users, the join protocol, and
//! the tick.

use vstd::prelude::*;
use kanal::{Receiver, Sender};
use crate::action::{is_initial, Action};
use crate::actor::{advanced, Actor};
use crate::batch::turned;
use crate::channel::{deliver, drain, mailbox, share};
use crate::directory::{lists_once, lists_only, ConnectCase, Directory, Handle};
use crate::ident::{mint_actor_id, user_token, ActorId, UserId};
use crate::table::{ActorMap, Table, UserMap};

verus! {

/// The routing record that the directory keeps of a user: whether they are
/// connected, which lobby they belong to, and the sending end of that lobby's
/// action mailbox.
#[verifier::reject_recursive_types(A)]
pub struct UserHandle<A: Action> {
    pub connected: bool,
    pub actor_id: ActorId,
    pub send_action: Sender<(A, UserId)>,
}

/// A request to the runtime.
#[verifier::reject_recursive_types(A)]
pub enum JoinReq<A: Action> {
    /// A client wants in: into the lobby `actor_id` if it names one, else
    /// into any. Messages for the client go to `send_server_msg`; the mailbox
    /// to which the client's actions must go is handed over on `send_sender`.
    Connect {
        user_id: UserId,
        actor_id: Option<ActorId>,
        send_server_msg: Sender<A::Msg>,
        send_sender: Sender<Sender<(A, UserId)>>,
    },
    /// A client's connection is gone.
    Disconnect { user_id: UserId },
}

/// How a request was resolved.
#[derive(Clone, Copy, Debug, PartialEq, Eq, Structural)]
pub enum JoinOutcome {
    /// A known user has their place back.
    Rejoined,
    /// A new user is a member of the lobby that they named.
    Seated(ActorId),
    /// A new user has a new lobby.
    Created(ActorId),
    /// The connect request was given up; nothing has changed.
    Abandoned,
    /// The user is marked disconnected; their lobby lives on.
    Offline,
    /// The user was the last one connected; their lobby is gone.
    Destroyed(ActorId),
    /// The disconnect request named nobody the directory knows.
    Unknown,
}

/// What the runtime offers in answer to a connect request, before the client
/// has been told anything: the way to the action mailbox of the lobby that the
/// user would be in, with what is needed to take the user in.
#[verifier::reject_recursive_types(A)]
pub enum Offer<A: Action> {
    /// The user is known: their place in the lobby `home` is there for them.
    Rejoin { home: ActorId, send_action: Sender<(A, UserId)>, send_server_msg: Sender<A::Msg> },
    /// The user is new and would be seated in the lobby `actor_id`.
    Seat { actor_id: ActorId, send_action: Sender<(A, UserId)>, send_server_msg: Sender<A::Msg> },
    /// The user is new and would get the lobby `actor`, which holds their
    /// mailbox already.
    Create { actor: Actor<A>, send_action: Sender<(A, UserId)> },
}

impl<A: Action> Offer<A> {
    /// The way to the lobby's action mailbox, which is to be handed to the
    /// client.
    pub open spec fn spec_way(&self) -> Sender<(A, UserId)> {
        match *self {
            Offer::Rejoin { send_action, .. } => send_action,
            Offer::Seat { send_action, .. } => send_action,
            Offer::Create { send_action, .. } => send_action,
        }
    }

    /// The client's mailbox, on which they are to be told their lobby.
    pub open spec fn mailbox(&self) -> Sender<A::Msg> {
        match *self {
            Offer::Rejoin { send_server_msg, .. } => send_server_msg,
            Offer::Seat { send_server_msg, .. } => send_server_msg,
            Offer::Create { actor, .. } => actor.server_msgs().values()[0],
        }
    }

    /// The lobby that the client is to be told: the one that exists, or for
    /// a new lobby the identity `fresh` that was minted for it.
    pub open spec fn spec_lobby(&self, fresh: ActorId) -> ActorId {
        match *self {
            Offer::Rejoin { home, .. } => home,
            Offer::Seat { actor_id, .. } => actor_id,
            Offer::Create { .. } => fresh,
        }
    }

    /// The way to the lobby's action mailbox.
    pub fn way(&self) -> (way: &Sender<(A, UserId)>)
        ensures
            *way == self.spec_way(),
    {
        match self {
            Offer::Rejoin { send_action, .. } => send_action,
            Offer::Seat { send_action, .. } => send_action,
            Offer::Create { send_action, .. } => send_action,
        }
    }

    /// The lobby that exists already, if the offer is for one.
    pub fn standing(&self) -> (lobby: Option<ActorId>)
        ensures
            lobby == (match *self {
                Offer::Rejoin { home, .. } => Some(home),
                Offer::Seat { actor_id, .. } => Some(actor_id),
                Offer::Create { .. } => None,
            }),
    {
        match self {
            Offer::Rejoin { home, .. } => Some(*home),
            Offer::Seat { actor_id, .. } => Some(*actor_id),
            Offer::Create { .. } => None,
        }
    }

    /// Sends `msg` to the client's mailbox. Reports whether it was handed
    /// over, which is for the receiving side to decide.
    pub fn tell(&self, user_id: &UserId, msg: A::Msg) -> (told: bool)
        requires
            *self matches Offer::Create { actor, .. } ==> actor.wf(),
    {
        match self {
            Offer::Rejoin { send_server_msg, .. } => deliver(send_server_msg, msg),
            Offer::Seat { send_server_msg, .. } => deliver(send_server_msg, msg),
            Offer::Create { actor, .. } => actor.send_to(user_id, msg),
        }
    }
}

/// The list of lobbies that take members, each with the number of its
/// members, as it is published for discovery.
#[derive(Clone, Debug)]
pub struct ActorList {
    entries: Vec<(ActorId, u8)>,
}

impl View for ActorList {
    type V = Seq<(ActorId, u8)>;

    /// The entries of the list, in order.
    closed spec fn view(&self) -> Seq<(ActorId, u8)> {
        self.entries@
    }
}

impl Default for ActorList {
    /// The empty list.
    fn default() -> (list: Self)
        ensures
            list@ == Seq::<(ActorId, u8)>::empty(),
    {
        ActorList { entries: Vec::new() }
    }
}

impl ActorList {
    /// A copy of the list.
    pub fn read(&self) -> (list: Vec<(ActorId, u8)>)
        ensures
            list@ == self@,
    {
        let mut list: Vec<(ActorId, u8)> = Vec::new();
        let mut i: usize = 0;
        while i < self.entries.len()
            invariant
                i <= self.entries@.len(),
                list@ == self.entries@.subrange(0, i as int),
            decreases self.entries@.len() - i,
        {
            list.push(self.entries[i]);
            proof {
                assert(list@ =~= self.entries@.subrange(0, i as int + 1));
            }
            i += 1;
        }
        proof {
            assert(list@ =~= self@);
        }
        list
    }

    /// Replaces the whole list.
    pub fn write(&mut self, list: Vec<(ActorId, u8)>)
        ensures
            final(self)@ == list@,
    {
        self.entries = list;
    }
}

/// How many requests wait for the runtime before clients have to wait.
pub const JOIN_BOUND: usize = 1024;

/// A fresh queue for requests to the runtime: the end that clients send on,
/// and the end that the runtime takes them from.
pub fn join_queue<A: Action>() -> (ends: (Sender<JoinReq<A>>, Receiver<JoinReq<A>>))
{
    mailbox::<JoinReq<A>>(JOIN_BOUND)
}

/// The directory and everything the tick works on.
#[verifier::reject_recursive_types(A)]
pub struct ActorSystem<A: Action> {
    recv: Receiver<JoinReq<A>>,
    actors: ActorMap<Actor<A>>,
    users: UserMap<UserHandle<A>>,
    actor_list: ActorList,
}

/// The list that is published of the given lobbies: each open one with the
/// number of its members, in the lobbies' order.
pub open spec fn listing<A: Action>(ids: Seq<ActorId>, actors: Seq<Actor<A>>) -> Seq<(ActorId, u8)>
    decreases ids.len(),
{
    if ids.len() == 0 || actors.len() != ids.len() {
        Seq::empty()
    } else {
        let earlier = listing(ids.drop_last(), actors.drop_last());
        if actors.last().is_open() {
            earlier.push((ids.last(), actors.last().occupancy()))
        } else {
            earlier
        }
    }
}

/// A listing shows none but the lobbies it was made of.
pub proof fn lemma_listing_ids<A: Action>(ids: Seq<ActorId>, actors: Seq<Actor<A>>)
    ensures
        lists_only(listing(ids, actors), ids.to_set()),
    decreases ids.len(),
{
    if ids.len() == 0 || actors.len() != ids.len() {
    } else {
        lemma_listing_ids(ids.drop_last(), actors.drop_last());
        let earlier = listing(ids.drop_last(), actors.drop_last());
        assert forall|i: int| 0 <= i < earlier.len() implies ids.to_set().contains(
            (#[trigger] earlier[i]).0,
        ) by {
            let id = earlier[i].0;
            assert(ids.drop_last().to_set().contains(id));
            let j = choose|j: int| 0 <= j < ids.drop_last().len() && ids.drop_last()[j] == id;
            assert(ids[j] == id);
        }
        assert(ids.to_set().contains(ids.last())) by {
            assert(ids[ids.len() - 1] == ids.last());
        }
    }
}

/// A listing of lobbies that are all different shows none twice.
pub proof fn lemma_listing_once<A: Action>(ids: Seq<ActorId>, actors: Seq<Actor<A>>)
    requires
        ids.no_duplicates(),
    ensures
        lists_once(listing(ids, actors)),
    decreases ids.len(),
{
    if ids.len() == 0 || actors.len() != ids.len() {
    } else {
        lemma_listing_once(ids.drop_last(), actors.drop_last());
        lemma_listing_ids(ids.drop_last(), actors.drop_last());
        let earlier = listing(ids.drop_last(), actors.drop_last());
        let all = listing(ids, actors);
        assert forall|i: int, j: int| 0 <= i < j < all.len() implies (#[trigger] all[i]).0 != (
        #[trigger] all[j]).0 by {
            if j < earlier.len() {
                assert(all[i] == earlier[i] && all[j] == earlier[j]);
            } else {
                assert(all[i] == earlier[i]);
                assert(ids.drop_last().to_set().contains(earlier[i].0));
                let k = choose|k: int|
                    0 <= k < ids.drop_last().len() && ids.drop_last()[k] == earlier[i].0;
                assert(ids[k] == earlier[i].0);
                assert(all[j].0 == ids[ids.len() - 1]);
            }
        }
    }
}

/// Whether every lobby of `before` that is still there in `after` has its
/// game as it was: the same shared state, the same mailbox for actions, and
/// its earlier members in their order with their states and mailboxes' ids.
pub open spec fn same_games<A: Action>(before: ActorSystem<A>, after: ActorSystem<A>) -> bool {
    forall|id: ActorId|
        before.actors()@.contains_key(id) && after.actors()@.contains_key(id) ==> {
            let was = before.actors()@[id];
            let is = #[trigger] after.actors()@[id];
            &&& is.shared() == was.shared()
            &&& is.inbox() == was.inbox()
            &&& was.user().ids().is_prefix_of(is.user().ids())
            &&& was.user().values().is_prefix_of(is.user().values())
            &&& was.server_msgs().ids().is_prefix_of(is.server_msgs().ids())
        }
}

/// Whether what `token`'s request does not concern is in `after` as it was
/// in `before`: every lobby that stays, but for the lobby `touched`, is equal
/// to what it was; every other user's record that stays is equal to what it
/// was; and the user's own record, where it stays, points to the same lobby by
/// the same way.
pub open spec fn rest_kept<A: Action>(
    before: ActorSystem<A>,
    after: ActorSystem<A>,
    token: Seq<char>,
    touched: Option<ActorId>,
) -> bool {
    &&& forall|id: ActorId|
        before.actors()@.contains_key(id) && after.actors()@.contains_key(id) && touched != Some(
            id,
        ) ==> #[trigger] after.actors()@[id] == before.actors()@[id]
    &&& forall|t: Seq<char>|
        before.users()@.contains_key(t) && after.users()@.contains_key(t) && t != token
            ==> #[trigger] after.users()@[t] == before.users()@[t]
    &&& before.users()@.contains_key(token) && after.users()@.contains_key(token) ==> {
        &&& after.users()@[token].send_action == before.users()@[token].send_action
        &&& after.users()@[token].actor_id == before.users()@[token].actor_id
    }
}

/// The lobby that an outcome changes within: the one rejoined or seated
/// into.
pub open spec fn touched_by(outcome: JoinOutcome, home: ActorId) -> Option<ActorId> {
    match outcome {
        JoinOutcome::Rejoined => Some(home),
        JoinOutcome::Seated(id) => Some(id),
        _ => None,
    }
}

/// Whether `after` and `outcome` are what a connect request of `user_id` for
/// the lobby `target`, with `send_server_msg` as the client's mailbox, makes
/// of `before`.
///
/// A request that is abandoned changes nothing at all. One that goes through
/// changes the directory as the first of three cases says that applies: the
/// known user is connected again and their lobby sends to the new mailbox;
/// the new user is seated in the lobby they named, with a fresh state, their
/// own mailbox and the lobby's way to its action mailbox; or the new user
/// gets a new lobby, and the list is published anew. Everything else is as it
/// was.
pub open spec fn connects<A: Action>(
    before: ActorSystem<A>,
    user_id: UserId,
    target: Option<ActorId>,
    send_server_msg: Sender<A::Msg>,
    outcome: JoinOutcome,
    after: ActorSystem<A>,
) -> bool {
    let token = user_token(user_id);
    let was = before.directory();
    let case = was.connect_case(token, target, before.open_lobbies());
    &&& after.queue() == before.queue()
    &&& same_games(before, after)
    &&& rest_kept(before, after, token, touched_by(outcome, was.handles[token].actor_id))
    &&& match outcome {
        JoinOutcome::Abandoned => {
            &&& after.actors() == before.actors()
            &&& after.users() == before.users()
            &&& after.published() == before.published()
        },
        JoinOutcome::Rejoined => {
            let home = was.handles[token].actor_id;
            &&& case is Rejoin
            &&& after.directory() == was.rejoin(token)
            &&& after.actors()@[home].user() == before.actors()@[home].user()
            &&& after.actors()@[home].server_msgs().ids() == before.actors()@[home].server_msgs().ids()
            &&& after.actors()@[home].server_msgs()@
                == before.actors()@[home].server_msgs()@.insert(token, send_server_msg)
        },
        JoinOutcome::Seated(id) => {
            let first = before.actors()@[id].user().tokens()[0];
            &&& case == ConnectCase::Seat(id)
            &&& after.directory() == was.seat(token, id)
            &&& after.users()@[token].send_action == before.users()@[first].send_action
            &&& after.actors()@[id].user().ids() == before.actors()@[id].user().ids().push(user_id)
            &&& is_initial(after.actors()@[id].user().values().last())
            &&& after.actors()@[id].server_msgs().values()
                == before.actors()@[id].server_msgs().values().push(send_server_msg)
        },
        JoinOutcome::Created(id) => {
            &&& case is Create
            &&& !was.lobbies.contains_key(id)
            &&& after.directory() == was.create(token, id, after.snapshot())
            &&& after.published() == after.snapshot()
            &&& is_initial(after.actors()@[id].shared())
            &&& after.actors()@[id].user().ids() == seq![user_id]
            &&& is_initial(after.actors()@[id].user().values()[0])
            &&& after.actors()@[id].server_msgs().values() == seq![send_server_msg]
        },
        _ => false,
    }
}

/// Whether `after` and `outcome` are what resolving the request `join` makes
/// of `before`: for a connect request what `connects` says; for a disconnect
/// request the user is marked, their lobby goes with all its members' records
/// if nobody there is connected any more, in which case the list is published
/// anew, and everything else is as it was.
pub open spec fn resolves<A: Action>(
    before: ActorSystem<A>,
    join: JoinReq<A>,
    outcome: JoinOutcome,
    after: ActorSystem<A>,
) -> bool {
    match join {
        JoinReq::Connect { user_id, actor_id, send_server_msg, send_sender } => connects(
            before,
            user_id,
            actor_id,
            send_server_msg,
            outcome,
            after,
        ),
        JoinReq::Disconnect { user_id } => {
            let token = user_token(user_id);
            let was = before.directory();
            &&& after.queue() == before.queue()
            &&& same_games(before, after)
            &&& rest_kept(before, after, token, None)
            &&& after.directory() == was.disconnect(token, after.snapshot())
            &&& outcome == (if !was.handles.contains_key(token) {
                JoinOutcome::Unknown
            } else if was.mark_offline(token).deserted(was.handles[token].actor_id) {
                JoinOutcome::Destroyed(was.handles[token].actor_id)
            } else {
                JoinOutcome::Offline
            })
            &&& if outcome is Destroyed {
                after.published() == after.snapshot()
            } else {
                after.published() == before.published()
            }
        },
    }
}

/// Whether the lobby at place `at` is, in `after`, what it was in `before`
/// but for its game: among the first `upto` lobbies the game has advanced by
/// the actions that had arrived, in the others it is untouched.
pub open spec fn lobby_advanced<A: Action>(
    before: ActorSystem<A>,
    after: ActorSystem<A>,
    at: int,
    upto: int,
) -> bool {
    let was = before.actors().values()[at];
    let is = after.actors().values()[at];
    &&& is.user().ids() == was.user().ids()
    &&& is.server_msgs() == was.server_msgs()
    &&& is.inbox() == was.inbox()
    &&& if at < upto {
        advanced(was, is)
    } else {
        is == was
    }
}

/// Whether `after` is `before` once every lobby has advanced its game: the
/// directory, the users' records and the published list are the same, and so
/// are the lobbies but for their games, each of which has taken the actions
/// that had arrived for it, in the order of arrival.
pub open spec fn is_advance<A: Action>(before: ActorSystem<A>, after: ActorSystem<A>) -> bool {
    &&& after.directory() == before.directory()
    &&& after.users() == before.users()
    &&& after.queue() == before.queue()
    &&& after.published() == before.published()
    &&& after.actors().ids() == before.actors().ids()
    &&& forall|at: int|
        0 <= at < before.actors().spec_len() ==> #[trigger] lobby_advanced(
            before,
            after,
            at,
            before.actors().spec_len() as int,
        )
}

/// Whether `after` is `before` after one tick in which `rebuilt` says
/// whether the list was published anew: every lobby has advanced, and then
/// some requests were resolved in order.
pub open spec fn ticked<A: Action>(before: ActorSystem<A>, rebuilt: bool, after: ActorSystem<A>)
    -> bool {
    exists|mid: ActorSystem<A>, requests: Seq<JoinReq<A>>|
        #![trigger resolved(mid, requests, rebuilt, after)]
        mid.wf() && is_advance(before, mid) && resolved(mid, requests, rebuilt, after)
}

/// A connect request that is not abandoned changes the directory as the join
/// protocol says, with the new lobby, if one is created, under the identity
/// that the outcome names.
pub proof fn lemma_connect_follows_protocol<A: Action>(
    before: ActorSystem<A>,
    join: JoinReq<A>,
    outcome: JoinOutcome,
    after: ActorSystem<A>,
)
    requires
        resolves(before, join, outcome, after),
        join is Connect,
        !(outcome is Abandoned),
    ensures
        after.directory() == before.directory().connect(
            user_token(join->Connect_user_id),
            join->actor_id,
            before.open_lobbies(),
            match outcome {
                JoinOutcome::Created(id) => id,
                _ => 0,
            },
            after.snapshot(),
        ),
{
}

/// Whether `states` and `outcomes` record how `requests` were resolved one
/// after the other: each request led from one state to the next.
pub open spec fn is_resolution<A: Action>(
    requests: Seq<JoinReq<A>>,
    states: Seq<ActorSystem<A>>,
    outcomes: Seq<JoinOutcome>,
) -> bool {
    &&& states.len() == requests.len() + 1
    &&& outcomes.len() == requests.len()
    &&& forall|i: int|
        0 <= i < requests.len() ==> #[trigger] is_step(requests, states, outcomes, i)
}

/// Whether the request at place `i` led from the state at place `i`, which
/// was in order, to the next.
pub open spec fn is_step<A: Action>(
    requests: Seq<JoinReq<A>>,
    states: Seq<ActorSystem<A>>,
    outcomes: Seq<JoinOutcome>,
    i: int,
) -> bool {
    states[i].wf() && resolves(states[i], requests[i], outcomes[i], states[i + 1])
}

/// Whether one of the outcomes made the runtime publish the list anew: a
/// lobby was created or destroyed.
pub open spec fn publishes(outcomes: Seq<JoinOutcome>) -> bool {
    exists|i: int|
        0 <= i < outcomes.len() && ((#[trigger] outcomes[i]) is Created || outcomes[i] is Destroyed)
}

/// Whether `after` is what resolving `requests` in order makes of `before`,
/// with `rebuilt` saying whether the list was published anew on the way.
pub open spec fn resolved<A: Action>(
    before: ActorSystem<A>,
    requests: Seq<JoinReq<A>>,
    rebuilt: bool,
    after: ActorSystem<A>,
) -> bool {
    exists|states: Seq<ActorSystem<A>>, outcomes: Seq<JoinOutcome>|
        #![trigger is_resolution(requests, states, outcomes)]
        {
            &&& is_resolution(requests, states, outcomes)
            &&& states[0] == before
            &&& states[requests.len() as int] == after
            &&& rebuilt == publishes(outcomes)
        }
}

/// Whether the request at place `i` of a resolution is the one that ended
/// the lobby `id`: a disconnect request of a member of the lobby, which was
/// there, found no other member connected, and the lobby is gone after it.
pub open spec fn ends_lobby<A: Action>(
    requests: Seq<JoinReq<A>>,
    states: Seq<ActorSystem<A>>,
    outcomes: Seq<JoinOutcome>,
    i: int,
    id: ActorId,
) -> bool {
    &&& is_resolution(requests, states, outcomes)
    &&& 0 <= i < requests.len()
    &&& requests[i] matches JoinReq::Disconnect { user_id }
    &&& states[i].directory().member(id, user_token(user_id))
    &&& states[i].directory().mark_offline(user_token(user_id)).deserted(id)
    &&& !states[i + 1].directory().lobbies.contains_key(id)
    &&& outcomes[i] == JoinOutcome::Destroyed(id)
}

/// A lobby that is there at place `from` of a resolution and gone at its
/// end was ended by one of the requests from there on.
pub proof fn lemma_gone_was_deserted_from<A: Action>(
    requests: Seq<JoinReq<A>>,
    states: Seq<ActorSystem<A>>,
    outcomes: Seq<JoinOutcome>,
    id: ActorId,
    from: int,
)
    requires
        is_resolution(requests, states, outcomes),
        0 <= from <= requests.len(),
        states[from].directory().lobbies.contains_key(id),
        !states[requests.len() as int].directory().lobbies.contains_key(id),
    ensures
        exists|i: int| from <= i && #[trigger] ends_lobby(requests, states, outcomes, i, id),
    decreases requests.len() - from,
{
    if from < requests.len() {
        assert(is_step(requests, states, outcomes, from));
        let before = states[from];
        let after = states[from + 1];
        if after.directory().lobbies.contains_key(id) {
            lemma_gone_was_deserted_from(requests, states, outcomes, id, from + 1);
        } else {
            match requests[from] {
                JoinReq::Connect { user_id, actor_id, send_server_msg, send_sender } => {
                    assert(connects(before, user_id, actor_id, send_server_msg, outcomes[from], after));
                    assert(false);
                },
                JoinReq::Disconnect { user_id } => {
                    let token = user_token(user_id);
                    assert(before.directory().handles.contains_key(token));
                    assert(before.directory().member(before.directory().handles[token].actor_id, token));
                    assert(ends_lobby(requests, states, outcomes, from, id));
                },
            }
        }
    }
}

/// A lobby is destroyed only when every member's flag is down: a lobby that
/// is there before a batch of requests is resolved and gone after it was
/// ended by a disconnect request of the batch that found no member of it
/// connected.
pub proof fn lemma_gone_was_deserted<A: Action>(
    before: ActorSystem<A>,
    requests: Seq<JoinReq<A>>,
    rebuilt: bool,
    after: ActorSystem<A>,
    id: ActorId,
)
    requires
        resolved(before, requests, rebuilt, after),
        before.directory().lobbies.contains_key(id),
        !after.directory().lobbies.contains_key(id),
    ensures
        exists|states: Seq<ActorSystem<A>>, outcomes: Seq<JoinOutcome>, i: int|
            states[0] == before && #[trigger] ends_lobby(requests, states, outcomes, i, id),
{
    let (states, outcomes) = choose|states: Seq<ActorSystem<A>>, outcomes: Seq<JoinOutcome>|
        #![trigger is_resolution(requests, states, outcomes)]
        {
            &&& is_resolution(requests, states, outcomes)
            &&& states[0] == before
            &&& states[requests.len() as int] == after
            &&& rebuilt == publishes(outcomes)
        };
    lemma_gone_was_deserted_from(requests, states, outcomes, id, 0);
    let i = choose|i: int| 0 <= i && #[trigger] ends_lobby(requests, states, outcomes, i, id);
    assert(ends_lobby(requests, states, outcomes, i, id));
}

/// The same of a whole tick: advancing the games ends no lobby, so a lobby
/// that is gone after the tick was ended by a disconnect request that found
/// no member of it connected.
pub proof fn lemma_tick_ends_deserted_only<A: Action>(
    before: ActorSystem<A>,
    rebuilt: bool,
    after: ActorSystem<A>,
    id: ActorId,
)
    requires
        ticked(before, rebuilt, after),
        before.directory().lobbies.contains_key(id),
        !after.directory().lobbies.contains_key(id),
    ensures
        exists|
            requests: Seq<JoinReq<A>>,
            states: Seq<ActorSystem<A>>,
            outcomes: Seq<JoinOutcome>,
            i: int,
        |
            states[0].directory() == before.directory() && #[trigger] ends_lobby(
                requests,
                states,
                outcomes,
                i,
                id,
            ),
{
    let (mid, requests) = choose|mid: ActorSystem<A>, requests: Seq<JoinReq<A>>|
        #![trigger resolved(mid, requests, rebuilt, after)]
        mid.wf() && is_advance(before, mid) && resolved(mid, requests, rebuilt, after);
    lemma_gone_was_deserted(mid, requests, rebuilt, after, id);
    let (states, outcomes, i) = choose|
        states: Seq<ActorSystem<A>>,
        outcomes: Seq<JoinOutcome>,
        i: int,
    |
        states[0] == mid && #[trigger] ends_lobby(requests, states, outcomes, i, id);
    assert(ends_lobby(requests, states, outcomes, i, id));
}

/// A listing shows every open lobby it was made of, with the number of its
/// members.
pub proof fn lemma_listing_shows_open<A: Action>(ids: Seq<ActorId>, actors: Seq<Actor<A>>, at: int)
    requires
        ids.len() == actors.len(),
        0 <= at < ids.len(),
        actors[at].is_open(),
    ensures
        listing(ids, actors).contains((ids[at], actors[at].occupancy())),
    decreases ids.len(),
{
    let earlier = listing(ids.drop_last(), actors.drop_last());
    if at == ids.len() - 1 {
        let all = listing(ids, actors);
        assert(all[all.len() - 1] == (ids[at], actors[at].occupancy()));
    } else {
        lemma_listing_shows_open(ids.drop_last(), actors.drop_last(), at);
        let entry = (ids[at], actors[at].occupancy());
        let i = choose|i: int| 0 <= i < earlier.len() && earlier[i] == entry;
        assert(listing(ids, actors)[i] == entry);
    }
}

/// Every entry of a listing stands for an open lobby among those it was
/// made of, and gives the number of its members.
pub proof fn lemma_listing_shows_only_open<A: Action>(
    ids: Seq<ActorId>,
    actors: Seq<Actor<A>>,
    entry: (ActorId, u8),
)
    requires
        ids.len() == actors.len(),
        listing(ids, actors).contains(entry),
    ensures
        exists|at: int|
            0 <= at < ids.len() && #[trigger] ids[at] == entry.0 && actors[at].is_open()
                && actors[at].occupancy() == entry.1,
    decreases ids.len(),
{
    if ids.len() > 0 {
        let all = listing(ids, actors);
        let earlier = listing(ids.drop_last(), actors.drop_last());
        let i = choose|i: int| 0 <= i < all.len() && all[i] == entry;
        if i < earlier.len() {
            assert(earlier[i] == entry);
            lemma_listing_shows_only_open(ids.drop_last(), actors.drop_last(), entry);
            let at = choose|at: int|
                0 <= at < ids.drop_last().len() && #[trigger] ids.drop_last()[at] == entry.0
                    && actors.drop_last()[at].is_open() && actors.drop_last()[at].occupancy()
                    == entry.1;
            assert(ids[at] == entry.0 && actors[at].is_open());
        } else {
            let at = ids.len() - 1;
            assert(ids[at] == entry.0 && actors[at].is_open());
        }
    }
}

impl<A: Action> ActorSystem<A> {
    /// The lobbies, each under its identity.
    pub closed spec fn actors(&self) -> ActorMap<Actor<A>> {
        self.actors
    }

    /// The users' records, each under the user's id.
    pub closed spec fn users(&self) -> UserMap<UserHandle<A>> {
        self.users
    }

    /// The lobby list as it was last published.
    pub closed spec fn published(&self) -> Seq<(ActorId, u8)> {
        self.actor_list@
    }

    /// The queue on which requests arrive.
    pub closed spec fn queue(&self) -> Receiver<JoinReq<A>> {
        self.recv
    }

    /// Who is in which lobby.
    pub open spec fn directory(&self) -> Directory {
        Directory {
            lobbies: self.actors()@.map_values(|a: Actor<A>| a.members()),
            handles: self.users()@.map_values(
                |h: UserHandle<A>| Handle { connected: h.connected, actor_id: h.actor_id },
            ),
            listed: self.published(),
        }
    }

    /// The lobbies that take one more member.
    pub open spec fn open_lobbies(&self) -> Set<ActorId> {
        Set::new(|id: ActorId| self.actors()@.contains_key(id) && self.actors()@[id].is_open())
    }

    /// The list that a publication made now would show.
    pub open spec fn snapshot(&self) -> Seq<(ActorId, u8)> {
        listing(self.actors().ids(), self.actors().values())
    }

    /// The way to the action mailbox of the user's lobby, as the user's
    /// record holds it.
    pub open spec fn way(&self, token: Seq<char>) -> Sender<(A, UserId)> {
        self.users()@[token].send_action
    }

    /// Whether the members of one lobby all hold the same way to its action
    /// mailbox.
    pub open spec fn one_way_per_lobby(&self) -> bool {
        forall|a: Seq<char>, b: Seq<char>|
            self.users()@.contains_key(a) && self.users()@.contains_key(b)
                && self.users()@[a].actor_id == self.users()@[b].actor_id ==> #[trigger] self.way(
                a,
            ) == #[trigger] self.way(b)
    }

    /// The tables are in order, every lobby keeps its members' states and
    /// mailboxes in step, the directory is in order, and the members of one
    /// lobby all hold the same way to its action mailbox.
    pub open spec fn wf(&self) -> bool {
        &&& self.actors().wf()
        &&& self.users().wf()
        &&& forall|id: ActorId|
            self.actors()@.contains_key(id) ==> (#[trigger] self.actors()@[id]).wf()
        &&& self.directory().wf()
        &&& self.one_way_per_lobby()
    }

    /// Records that are all taken over from a runtime in which the members
    /// of one lobby hold one way, with their lobbies and their ways, are such
    /// records again.
    proof fn lemma_ways_kept(before: Self, after: Self)
        requires
            before.one_way_per_lobby(),
            forall|t: Seq<char>| #[trigger]
                after.users()@.contains_key(t) ==> before.users()@.contains_key(t)
                    && after.users()@[t].actor_id == before.users()@[t].actor_id
                    && after.users()@[t].send_action == before.users()@[t].send_action,
        ensures
            after.one_way_per_lobby(),
    {
        assert forall|a: Seq<char>, b: Seq<char>|
            after.users()@.contains_key(a) && after.users()@.contains_key(b)
                && after.users()@[a].actor_id == after.users()@[b].actor_id implies #[trigger] after.way(
            a,
        ) == #[trigger] after.way(b) by {
            assert(before.way(a) == before.way(b));
        }
    }

    /// One more record, for a user who was not known, keeps the members of
    /// one lobby on one way if the new user's way is that of the others in
    /// the same lobby.
    proof fn lemma_way_added(before: Self, after: Self, token: Seq<char>)
        requires
            before.one_way_per_lobby(),
            after.users()@.contains_key(token),
            forall|t: Seq<char>| #[trigger]
                after.users()@.contains_key(t) && t != token ==> before.users()@.contains_key(t)
                    && after.users()@[t] == before.users()@[t],
            forall|t: Seq<char>| #[trigger]
                before.users()@.contains_key(t) && before.users()@[t].actor_id
                    == after.users()@[token].actor_id ==> before.users()@[t].send_action
                    == after.users()@[token].send_action,
        ensures
            after.one_way_per_lobby(),
    {
        assert forall|a: Seq<char>, b: Seq<char>|
            after.users()@.contains_key(a) && after.users()@.contains_key(b)
                && after.users()@[a].actor_id == after.users()@[b].actor_id implies #[trigger] after.way(
            a,
        ) == #[trigger] after.way(b) by {
            if a != token && b != token {
                assert(before.way(a) == before.way(b));
            }
        }
    }

    /// In every lobby, each member's state has exactly one mailbox filed
    /// beside it, under the same id.
    pub proof fn lemma_states_and_mailboxes_in_step(&self, id: ActorId, token: Seq<char>)
        requires
            self.wf(),
            self.actors()@.contains_key(id),
        ensures
            self.actors()@[id].user().has(token) <==> self.actors()@[id].server_msgs().has(token),
            self.actors()@[id].server_msgs().tokens().no_duplicates(),
            self.actors()@[id].user().tokens() == self.actors()@[id].server_msgs().tokens(),
    {
    }

    /// A runtime with no lobby and no user, which takes its requests from
    /// `recv` and publishes to `actor_list`. The list is left as it is handed
    /// in: it is written when a lobby comes or goes.
    pub fn new(recv: Receiver<JoinReq<A>>, actor_list: ActorList) -> (system: Self)
        ensures
            system.wf(),
            system.actors().ids() == Seq::<ActorId>::empty(),
            system.users().ids() == Seq::<UserId>::empty(),
            system.directory().lobbies == Map::<ActorId, Set<Seq<char>>>::empty(),
            system.directory().handles == Map::<Seq<char>, Handle>::empty(),
            system.published() == actor_list@,
            system.queue() == recv,
    {
        let system = ActorSystem { recv, actors: Table::new(), users: Table::new(), actor_list };
        proof {
            assert(system.directory().lobbies =~= Map::empty());
            assert(system.directory().handles =~= Map::empty());
        }
        system
    }

    /// Publishes the list anew from the lobbies as they are.
    pub fn update_list(&mut self)
        requires
            old(self).actors().wf(),
            forall|id: ActorId|
                old(self).actors()@.contains_key(id) ==> (#[trigger] old(self).actors()@[id]).wf(),
        ensures
            final(self).actors() == old(self).actors(),
            final(self).users() == old(self).users(),
            final(self).queue() == old(self).queue(),
            final(self).published() == old(self).snapshot(),
            lists_only(final(self).published(), final(self).actors()@.dom()),
            lists_once(final(self).published()),
    {
        let mut list: Vec<(ActorId, u8)> = Vec::new();
        let n = self.actors.len();
        let mut i: usize = 0;
        while i < n
            invariant
                self.actors().wf(),
                forall|id: ActorId|
                    self.actors()@.contains_key(id) ==> (#[trigger] self.actors()@[id]).wf(),
                n == self.actors().spec_len(),
                i <= n,
                list@ == listing(
                    self.actors().ids().subrange(0, i as int),
                    self.actors().values().subrange(0, i as int),
                ),
            decreases n - i,
        {
            let id = self.actors.key_at(i);
            let actor = self.actors.value_at(i);
            proof {
                self.actors().lemma_entry(i as int);
                let ids = self.actors().ids().subrange(0, i as int + 1);
                let values = self.actors().values().subrange(0, i as int + 1);
                assert(ids.drop_last() =~= self.actors().ids().subrange(0, i as int));
                assert(values.drop_last() =~= self.actors().values().subrange(0, i as int));
            }
            match actor.open() {
                Some(seats) => {
                    list.push((id, seats));
                },
                None => {},
            }
            i += 1;
        }
        proof {
            assert(self.actors().ids().subrange(0, n as int) =~= self.actors().ids());
            assert(self.actors().values().subrange(0, n as int) =~= self.actors().values());
            lemma_listing_ids(self.actors().ids(), self.actors().values());
            self.actors().lemma_dom_len();
            assert(self.actors().tokens() =~= self.actors().ids());
            lemma_listing_once(self.actors().ids(), self.actors().values());
        }
        self.actor_list.write(list);
    }

    /// Gives a known user their place back: their record says connected,
    /// and their lobby sends to `send_server_msg` from now on.
    fn rejoin(&mut self, user_id: UserId, send_server_msg: Sender<A::Msg>)
        requires
            old(self).wf(),
            old(self).users().has(user_token(user_id)),
        ensures
            final(self).wf(),
            final(self).directory() == old(self).directory().rejoin(user_token(user_id)),
            same_games(*old(self), *final(self)),
            final(self).queue() == old(self).queue(),
            final(self).actors().ids() == old(self).actors().ids(),
            final(self).users().ids() == old(self).users().ids(),
            final(self).users()@[user_token(user_id)].send_action == old(self).users()@[user_token(
                user_id,
            )].send_action,
            final(self).users()@[user_token(user_id)].actor_id == old(self).users()@[user_token(
                user_id,
            )].actor_id,
            forall|t: Seq<char>|
                t != user_token(user_id) ==> #[trigger] final(self).users()@[t]
                    == old(self).users()@[t],
            forall|id: ActorId|
                id != old(self).users()@[user_token(user_id)].actor_id
                    ==> #[trigger] final(self).actors()@[id] == old(self).actors()@[id],
            ({
                let home = old(self).users()@[user_token(user_id)].actor_id;
                &&& final(self).actors()@[home].shared() == old(self).actors()@[home].shared()
                &&& final(self).actors()@[home].user() == old(self).actors()@[home].user()
                &&& final(self).actors()@[home].inbox() == old(self).actors()@[home].inbox()
                &&& final(self).actors()@[home].server_msgs().ids()
                    == old(self).actors()@[home].server_msgs().ids()
                &&& final(self).actors()@[home].server_msgs()@
                    == old(self).actors()@[home].server_msgs()@.insert(
                    user_token(user_id),
                    send_server_msg,
                )
            }),
    {
        let ghost token = user_token(user_id);
        let ghost before = *self;
        let ui = self.users.position(&user_id).unwrap();
        let home = self.users.value_at(ui).actor_id;
        proof {
            before.users().lemma_entry(ui as int);
            assert(before.directory().handles.contains_key(token));
            assert(before.directory().member(home, token));
        }
        let ai = self.actors.position(&home).unwrap();
        proof {
            before.actors().lemma_entry(ai as int);
        }
        let actor = self.actors.value_at_mut(ai);
        actor.reconnect(user_id, send_server_msg);
        proof {
            Table::lemma_update(before.actors(), self.actors(), ai as int);
        }
        let handle = self.users.value_at_mut(ui);
        handle.connected = true;
        proof {
            Table::lemma_update(before.users(), self.users(), ui as int);
            assert(self.directory().lobbies =~= before.directory().lobbies);
            assert(self.directory().handles =~= before.directory().rejoin(token).handles);
            assert(self.directory() =~= before.directory().rejoin(token));
            before.directory().lemma_rejoin_wf(token);
            Self::lemma_ways_kept(before, *self);
        }
    }

    /// Makes the new user `user_id` a member of the lobby `actor_id`, with
    /// `send_server_msg` as their mailbox and `send_action` as the way to the
    /// lobby's actions.
    fn seat(
        &mut self,
        user_id: UserId,
        actor_id: ActorId,
        send_server_msg: Sender<A::Msg>,
        send_action: Sender<(A, UserId)>,
    )
        requires
            old(self).wf(),
            !old(self).users().has(user_token(user_id)),
            old(self).actors().has(actor_id),
            forall|t: Seq<char>|
                old(self).users()@.contains_key(t) && old(self).users()@[t].actor_id == actor_id
                    ==> #[trigger] old(self).way(t) == send_action,
        ensures
            final(self).wf(),
            final(self).directory() == old(self).directory().seat(user_token(user_id), actor_id),
            same_games(*old(self), *final(self)),
            final(self).queue() == old(self).queue(),
            final(self).actors().ids() == old(self).actors().ids(),
            final(self).users().ids() == old(self).users().ids().push(user_id),
            final(self).users()@[user_token(user_id)].send_action == send_action,
            forall|t: Seq<char>|
                t != user_token(user_id) ==> #[trigger] final(self).users()@[t]
                    == old(self).users()@[t],
            forall|id: ActorId|
                id != actor_id ==> #[trigger] final(self).actors()@[id] == old(self).actors()@[id],
            final(self).actors()@[actor_id].shared() == old(self).actors()@[actor_id].shared(),
            final(self).actors()@[actor_id].inbox() == old(self).actors()@[actor_id].inbox(),
            final(self).actors()@[actor_id].user().ids()
                == old(self).actors()@[actor_id].user().ids().push(user_id),
            final(self).actors()@[actor_id].user().values().drop_last()
                == old(self).actors()@[actor_id].user().values(),
            is_initial(final(self).actors()@[actor_id].user().values().last()),
            final(self).actors()@[actor_id].server_msgs().values()
                == old(self).actors()@[actor_id].server_msgs().values().push(send_server_msg),
    {
        let ghost token = user_token(user_id);
        let ghost before = *self;
        let ai = self.actors.position(&actor_id).unwrap();
        proof {
            before.actors().lemma_entry(ai as int);
            if before.actors()@[actor_id].user().has(token) {
                assert(before.directory().member(actor_id, token));
                assert(before.directory().handles.contains_key(token));
            }
        }
        let actor = self.actors.value_at_mut(ai);
        actor.enroll(user_id, send_server_msg);
        proof {
            Table::lemma_update(before.actors(), self.actors(), ai as int);
        }
        self.users.insert(user_id, UserHandle { connected: true, actor_id, send_action });
        proof {
            assert(self.directory().lobbies =~= before.directory().seat(token, actor_id).lobbies);
            assert(self.directory().handles =~= before.directory().seat(token, actor_id).handles);
            assert(self.directory() =~= before.directory().seat(token, actor_id));
            before.directory().lemma_seat_wf(token, actor_id);
            assert forall|t: Seq<char>| #[trigger]
                before.users()@.contains_key(t) && before.users()@[t].actor_id
                    == actor_id implies before.users()@[t].send_action == send_action by {
                assert(before.way(t) == send_action);
            }
            Self::lemma_way_added(before, *self, token);
        }
    }

    /// Takes in the new lobby `actor` under the identity `actor_id`, with the
    /// new user `user_id` as its only member, and publishes the list anew.
    fn install(
        &mut self,
        actor_id: ActorId,
        actor: Actor<A>,
        user_id: UserId,
        send_action: Sender<(A, UserId)>,
    )
        requires
            old(self).wf(),
            actor.wf(),
            actor.members() == set![user_token(user_id)],
            !old(self).users().has(user_token(user_id)),
            !old(self).actors().has(actor_id),
        ensures
            final(self).wf(),
            final(self).directory() == old(self).directory().create(
                user_token(user_id),
                actor_id,
                final(self).snapshot(),
            ),
            final(self).published() == final(self).snapshot(),
            final(self).directory().list_in_order(),
            same_games(*old(self), *final(self)),
            final(self).queue() == old(self).queue(),
            final(self).actors().ids() == old(self).actors().ids().push(actor_id),
            final(self).actors().values() == old(self).actors().values().push(actor),
            final(self).actors()@[actor_id] == actor,
            forall|id: ActorId|
                id != actor_id ==> #[trigger] final(self).actors()@[id] == old(self).actors()@[id],
            final(self).users().ids() == old(self).users().ids().push(user_id),
            final(self).users()@[user_token(user_id)].send_action == send_action,
            forall|t: Seq<char>|
                t != user_token(user_id) ==> #[trigger] final(self).users()@[t]
                    == old(self).users()@[t],
    {
        let ghost token = user_token(user_id);
        let ghost before = *self;
        self.actors.insert(actor_id, actor);
        self.users.insert(user_id, UserHandle { connected: true, actor_id, send_action });
        self.update_list();
        proof {
            let listing = self.snapshot();
            assert(self.directory().lobbies =~= before.directory().create(
                token,
                actor_id,
                listing,
            ).lobbies);
            assert(self.directory().handles =~= before.directory().create(
                token,
                actor_id,
                listing,
            ).handles);
            assert(self.directory() =~= before.directory().create(token, actor_id, listing));
            assert(self.actors()@.dom() =~= before.directory().lobbies.dom().insert(actor_id));
            before.directory().lemma_create_wf(token, actor_id, listing);
            assert forall|t: Seq<char>| #[trigger]
                before.users()@.contains_key(t) && before.users()@[t].actor_id
                    == actor_id implies before.users()@[t].send_action == send_action by {
                assert(before.directory().handles.contains_key(t));
                assert(before.directory().member(actor_id, t));
            }
            Self::lemma_way_added(before, *self, token);
        }
    }

    /// Whether some member of the lobby at place `at` is connected.
    fn anyone_connected(&self, at: usize) -> (found: bool)
        requires
            self.actors().wf(),
            self.users().wf(),
            at < self.actors().spec_len(),
            self.actors().values()[at as int].wf(),
        ensures
            found == !self.directory().deserted(self.actors().ids()[at as int]),
    {
        let actor = self.actors.value_at(at);
        let ghost id = self.actors().ids()[at as int];
        proof {
            self.actors().lemma_entry(at as int);
        }
        let n = actor.member_count();
        let mut i: usize = 0;
        while i < n
            invariant
                self.actors().wf(),
                self.users().wf(),
                at < self.actors().spec_len(),
                *actor == self.actors().values()[at as int],
                actor.wf(),
                n == actor.user().spec_len(),
                i <= n,
                id == self.actors().ids()[at as int],
                self.actors()@.contains_key(id),
                self.actors()@[id] == *actor,
                forall|j: int|
                    0 <= j < i ==> !self.directory().online(#[trigger] actor.user().tokens()[j]),
            decreases n - i,
        {
            let member = actor.member_at(i);
            match self.users.get(&member) {
                Some(handle) => {
                    if handle.connected {
                        proof {
                            let t = actor.user().tokens()[i as int];
                            actor.user().lemma_entry(i as int);
                            assert(self.directory().member(id, t) && self.directory().online(t));
                        }
                        return true;
                    }
                },
                None => {},
            }
            i += 1;
        }
        proof {
            assert forall|t: Seq<char>| #[trigger]
                self.directory().member(id, t) implies !self.directory().online(t) by {
                actor.user().lemma_place(t);
                let j = actor.user().place(t);
                assert(actor.user().tokens()[j] == t);
            }
        }
        false
    }

    /// Resolves a disconnect request: the user is marked disconnected, and
    /// if that leaves their lobby without a connected member, the lobby and
    /// the records of all its members go and the list is published anew.
    pub fn disconnect(&mut self, user_id: UserId) -> (outcome: JoinOutcome)
        requires
            old(self).wf(),
        ensures
            final(self).wf(),
            final(self).queue() == old(self).queue(),
            final(self).directory() == old(self).directory().disconnect(
                user_token(user_id),
                final(self).snapshot(),
            ),
            outcome == (if !old(self).directory().handles.contains_key(user_token(user_id)) {
                JoinOutcome::Unknown
            } else if old(self).directory().mark_offline(user_token(user_id)).deserted(
                old(self).directory().handles[user_token(user_id)].actor_id,
            ) {
                JoinOutcome::Destroyed(old(self).directory().handles[user_token(user_id)].actor_id)
            } else {
                JoinOutcome::Offline
            }),
            outcome is Destroyed ==> final(self).published() == final(self).snapshot(),
            !(outcome is Destroyed) ==> final(self).published() == old(self).published(),
            old(self).directory().list_in_order() ==> final(self).directory().list_in_order(),
            same_games(*old(self), *final(self)),
            rest_kept(*old(self), *final(self), user_token(user_id), None),
            forall|id: ActorId|
                final(self).actors()@.contains_key(id) ==> old(self).actors()@.contains_key(id)
                    && #[trigger] final(self).actors()@[id] == old(self).actors()@[id],
    {
        let ghost token = user_token(user_id);
        let ghost before = *self;
        match self.users.position(&user_id) {
            None => {
                proof {
                    assert(self.directory() =~= before.directory());
                }
                JoinOutcome::Unknown
            },
            Some(ui) => {
                proof {
                    before.users().lemma_entry(ui as int);
                    assert(before.directory().handles.contains_key(token));
                }
                let handle = self.users.value_at_mut(ui);
                handle.connected = false;
                let home = handle.actor_id;
                let ghost marked = *self;
                proof {
                    Table::lemma_update(before.users(), self.users(), ui as int);
                    assert(before.directory().member(home, token));
                    assert(marked.directory().handles =~= before.directory().mark_offline(
                        token,
                    ).handles);
                    assert(marked.directory() =~= before.directory().mark_offline(token));
                }
                let ai = self.actors.position(&home).unwrap();
                proof {
                    marked.actors().lemma_entry(ai as int);
                }
                if self.anyone_connected(ai) {
                    proof {
                        assert(self.directory().lobbies.dom() =~= before.directory().lobbies.dom());
                        before.directory().lemma_disconnect_wf(token, self.snapshot());
                        Self::lemma_ways_kept(before, *self);
                    }
                    JoinOutcome::Offline
                } else {
                    let actor = self.actors.remove(&home).unwrap();
                    let n = actor.member_count();
                    let mut i: usize = 0;
                    while i < n
                        invariant
                            actor.wf(),
                            n == actor.user().spec_len(),
                            i <= n,
                            self.users().wf(),
                            self.queue() == marked.queue(),
                            self.published() == marked.published(),
                            self.actors()@ == marked.actors()@.remove(home),
                            self.actors().wf(),
                            self.users()@ == marked.users()@.remove_keys(
                                actor.user().tokens().subrange(0, i as int).to_set(),
                            ),
                        decreases n - i,
                    {
                        let member = actor.member_at(i);
                        self.users.remove(&member);
                        proof {
                            let done = actor.user().tokens().subrange(0, i as int);
                            let more = actor.user().tokens().subrange(0, i as int + 1);
                            assert(more =~= done.push(user_token(member)));
                            assert forall|t: Seq<char>|
                                more.to_set().contains(t) <==> done.to_set().insert(
                                    user_token(member),
                                ).contains(t) by {
                                if more.contains(t) {
                                    let j = choose|j: int| 0 <= j < more.len() && more[j] == t;
                                    if j < i {
                                        assert(done[j] == t);
                                    }
                                }
                                if done.contains(t) {
                                    let j = choose|j: int| 0 <= j < done.len() && done[j] == t;
                                    assert(more[j] == t);
                                }
                                if t == user_token(member) {
                                    assert(more[i as int] == t);
                                }
                            }
                            assert(more.to_set() =~= done.to_set().insert(user_token(member)));
                            assert(self.users()@ =~= marked.users()@.remove_keys(more.to_set()));
                        }
                        i += 1;
                    }
                    proof {
                        assert(actor.user().tokens().subrange(0, n as int) =~= actor.user().tokens());
                        actor.user().lemma_dom_len();
                        assert(forall|id: ActorId|
                            self.actors()@.contains_key(id) ==> #[trigger] self.actors()@[id]
                                == marked.actors()@[id]);
                    }
                    self.update_list();
                    proof {
                        let listing = self.snapshot();
                        let gone = before.directory().mark_offline(token).destroy(home, listing);
                        assert(marked.directory().lobbies[home] == actor.members());
                        assert(self.directory().lobbies =~= gone.lobbies);
                        assert(self.directory().handles =~= gone.handles);
                        assert(self.directory() =~= gone);
                        assert(self.actors()@.dom() =~= gone.lobbies.dom());
                        before.directory().lemma_disconnect_wf(token, listing);
                        Self::lemma_ways_kept(before, *self);
                    }
                    JoinOutcome::Destroyed(home)
                }
            },
        }
    }

    /// The way into the lobby `actor_id` for a new member: a handle to its
    /// action mailbox, if the lobby exists and takes one more member.
    fn way_in(&self, actor_id: ActorId) -> (way: Option<Sender<(A, UserId)>>)
        requires
            self.wf(),
        ensures
            way.is_some() == (self.directory().lobbies.contains_key(actor_id)
                && self.open_lobbies().contains(actor_id)),
            way.is_some() ==> {
                let first = self.actors()@[actor_id].user().tokens()[0];
                &&& self.actors()@[actor_id].user().spec_len() > 0
                &&& self.users().has(first)
                &&& way.unwrap() == self.users()@[first].send_action
                &&& forall|t: Seq<char>|
                    self.users()@.contains_key(t) && self.users()@[t].actor_id == actor_id
                        ==> #[trigger] self.way(t) == way.unwrap()
            },
    {
        match self.actors.get(&actor_id) {
            Some(actor) => {
                if actor.open().is_some() {
                    proof {
                        assert(self.directory().lobbies.contains_key(actor_id));
                        assert(self.directory().alive(actor_id));
                        let w = choose|w: Seq<char>| #[trigger]
                            self.directory().member(actor_id, w) && self.directory().online(w);
                        actor.user().lemma_place(w);
                        actor.user().lemma_entry(0);
                        let first = actor.user().tokens()[0];
                        assert(self.directory().member(actor_id, first));
                        assert(self.directory().handles.contains_key(first));
                        assert(self.directory().handles[first].actor_id == actor_id);
                        assert forall|t: Seq<char>|
                            self.users()@.contains_key(t) && self.users()@[t].actor_id
                                == actor_id implies #[trigger] self.way(t) == self.way(first) by {}
                    }
                    let first = actor.member_at(0);
                    match self.users.get(&first) {
                        Some(handle) => Some(share(&handle.send_action)),
                        None => None,
                    }
                } else {
                    None
                }
            },
            None => None,
        }
    }

    /// Whether `offer` is what the runtime offers the user `user_id` who asks
    /// for the lobby `target` and brings the mailbox `send_server_msg`: the
    /// offer is of the kind that the join protocol's cases select, it holds
    /// the client's mailbox, and the way it holds is the one that the
    /// members of the lobby hold, or that of the new lobby.
    pub open spec fn offers(
        &self,
        user_id: UserId,
        target: Option<ActorId>,
        send_server_msg: Sender<A::Msg>,
        offer: Offer<A>,
    ) -> bool {
        let token = user_token(user_id);
        let case = self.directory().connect_case(token, target, self.open_lobbies());
        match offer {
            Offer::Rejoin { home, send_action, send_server_msg: mailbox } => {
                &&& case is Rejoin
                &&& home == self.users()@[token].actor_id
                &&& send_action == self.way(token)
                &&& mailbox == send_server_msg
            },
            Offer::Seat { actor_id, send_action, send_server_msg: mailbox } => {
                &&& case == ConnectCase::Seat(actor_id)
                &&& send_action == self.way(self.actors()@[actor_id].user().tokens()[0])
                &&& forall|t: Seq<char>|
                    self.users()@.contains_key(t) && self.users()@[t].actor_id == actor_id
                        ==> #[trigger] self.way(t) == send_action
                &&& mailbox == send_server_msg
            },
            Offer::Create { actor, send_action } => {
                &&& case is Create
                &&& actor.wf()
                &&& actor.user().ids() == seq![user_id]
                &&& actor.members() == set![token]
                &&& is_initial(actor.shared())
                &&& is_initial(actor.user().values()[0])
                &&& actor.server_msgs().values() == seq![send_server_msg]
            },
        }
    }

    /// Works out what a connect request is offered, in the first of three
    /// ways that applies: a known user is offered their place; a new user who
    /// names a lobby that exists and takes members is offered a seat there;
    /// any other new user is offered a lobby of their own, which is made
    /// here. Nothing changes yet.
    pub fn offer(
        &self,
        user_id: UserId,
        target: Option<ActorId>,
        send_server_msg: Sender<A::Msg>,
    ) -> (offer: Offer<A>)
        requires
            self.wf(),
        ensures
            self.offers(user_id, target, send_server_msg, offer),
    {
        match self.users.position(&user_id) {
            Some(at) => {
                let handle = self.users.value_at(at);
                proof {
                    self.users().lemma_entry(at as int);
                }
                Offer::Rejoin {
                    home: handle.actor_id,
                    send_action: share(&handle.send_action),
                    send_server_msg,
                }
            },
            None => {
                let way = match target {
                    Some(id) => self.way_in(id),
                    None => None,
                };
                match way {
                    Some(send_action) => Offer::Seat {
                        actor_id: target.unwrap(),
                        send_action,
                        send_server_msg,
                    },
                    None => {
                        let (actor, send_action) = Actor::spawn(user_id, send_server_msg);
                        Offer::Create { actor, send_action }
                    },
                }
            },
        }
    }

    /// Settles a connect request once the client has been answered. `handed`
    /// says whether the way to the lobby's action mailbox reached the client,
    /// `told` whether the message that names the lobby did, and `fresh` is
    /// the identity minted for a new lobby. The request is abandoned, and
    /// nothing changes, exactly if one of the two did not arrive or `fresh`
    /// is taken when a new lobby is due; otherwise the offer is carried out.
    pub fn settle(
        &mut self,
        user_id: UserId,
        target: Option<ActorId>,
        offer: Offer<A>,
        handed: bool,
        told: bool,
        fresh: ActorId,
    ) -> (outcome: JoinOutcome)
        requires
            old(self).wf(),
            old(self).offers(user_id, target, offer.mailbox(), offer),
        ensures
            final(self).wf(),
            (outcome is Abandoned) <==> (!handed || !told || (offer is Create
                && old(self).directory().lobbies.contains_key(fresh))),
            !(outcome is Abandoned) ==> outcome == (match old(self).directory().connect_case(
                user_token(user_id),
                target,
                old(self).open_lobbies(),
            ) {
                ConnectCase::Rejoin => JoinOutcome::Rejoined,
                ConnectCase::Seat(id) => JoinOutcome::Seated(id),
                ConnectCase::Create => JoinOutcome::Created(fresh),
            }),
            connects(*old(self), user_id, target, offer.mailbox(), outcome, *final(self)),
            !(outcome is Abandoned) ==> final(self).way(user_token(user_id)) == offer.spec_way(),
            old(self).directory().list_in_order() ==> final(self).directory().list_in_order(),
    {
        let ghost token = user_token(user_id);
        if !handed || !told {
            return JoinOutcome::Abandoned;
        }
        match offer {
            Offer::Rejoin { home, send_action, send_server_msg } => {
                self.rejoin(user_id, send_server_msg);
                JoinOutcome::Rejoined
            },
            Offer::Seat { actor_id, send_action, send_server_msg } => {
                self.seat(user_id, actor_id, send_server_msg, send_action);
                JoinOutcome::Seated(actor_id)
            },
            Offer::Create { actor, send_action } => {
                if self.actors.contains_key(&fresh) {
                    return JoinOutcome::Abandoned;
                }
                self.install(fresh, actor, user_id, send_action);
                JoinOutcome::Created(fresh)
            },
        }
    }

    /// Resolves one request. For a connect request the runtime works out
    /// its offer, hands the client the way to the lobby's action mailbox and
    /// tells them which lobby they are in, and settles the request by
    /// whether the two arrived. The identity of a new lobby is minted once
    /// the way has been handed over, and the client is told nothing if it is
    /// taken.
    pub fn join(&mut self, join: JoinReq<A>) -> (outcome: JoinOutcome)
        requires
            old(self).wf(),
        ensures
            final(self).wf(),
            resolves(*old(self), join, outcome, *final(self)),
            old(self).directory().list_in_order() ==> final(self).directory().list_in_order(),
    {
        match join {
            JoinReq::Connect { user_id, actor_id, send_server_msg, send_sender } => {
                let offer = self.offer(user_id, actor_id, send_server_msg);
                let handed = deliver(&send_sender, share(offer.way()));
                let mut told = false;
                let mut fresh: ActorId = 0;
                if handed {
                    let lobby = match offer.standing() {
                        Some(lobby) => Some(lobby),
                        None => {
                            fresh = mint_actor_id();
                            if self.actors.contains_key(&fresh) {
                                None
                            } else {
                                Some(fresh)
                            }
                        },
                    };
                    match lobby {
                        Some(lobby) => {
                            told = offer.tell(&user_id, A::join_msg(lobby));
                        },
                        None => {},
                    }
                }
                self.settle(user_id, actor_id, offer, handed, told, fresh)
            },
            JoinReq::Disconnect { user_id } => self.disconnect(user_id),
        }
    }

    /// The first half of a tick: every lobby applies the actions that have
    /// arrived for it and sends its members what they may see of the state.
    /// Who is in which lobby does not change.
    pub fn advance(&mut self)
        requires
            old(self).wf(),
        ensures
            final(self).wf(),
            is_advance(*old(self), *final(self)),
    {
        let n = self.actors.len();
        let mut i: usize = 0;
        proof {
            assert forall|j: int| 0 <= j < n implies #[trigger] lobby_advanced(
                *old(self),
                *self,
                j,
                0,
            ) by {}
        }
        while i < n
            invariant
                self.wf(),
                self.directory() == old(self).directory(),
                self.users() == old(self).users(),
                self.queue() == old(self).queue(),
                self.published() == old(self).published(),
                self.actors().ids() == old(self).actors().ids(),
                n == self.actors().spec_len(),
                i <= n,
                forall|j: int| 0 <= j < n ==> #[trigger] lobby_advanced(*old(self), *self, j, i as int),
            decreases n - i,
        {
            let ghost prev = *self;
            proof {
                prev.actors().lemma_entry(i as int);
                assert(lobby_advanced(*old(self), prev, i as int, i as int));
            }
            let actor = self.actors.value_at_mut(i);
            actor.update();
            actor.broadcast();
            proof {
                Table::lemma_update(prev.actors(), self.actors(), i as int);
                assert(self.directory().lobbies =~= prev.directory().lobbies);
                assert(self.directory() =~= prev.directory());
                Self::lemma_ways_kept(prev, *self);
                assert forall|j: int| 0 <= j < n implies #[trigger] lobby_advanced(
                    *old(self),
                    *self,
                    j,
                    i as int + 1,
                ) by {
                    assert(lobby_advanced(*old(self), prev, j, i as int));
                }
            }
            i += 1;
        }
    }

    /// Resolves the requests of `requests` one after the other, first to
    /// last. Reports whether the list was published anew.
    pub fn resolve(&mut self, requests: Vec<JoinReq<A>>) -> (rebuilt: bool)
        requires
            old(self).wf(),
        ensures
            final(self).wf(),
            final(self).queue() == old(self).queue(),
            resolved(*old(self), requests@, rebuilt, *final(self)),
            !rebuilt ==> final(self).published() == old(self).published(),
            !rebuilt ==> final(self).directory().lobbies.dom() == old(self).directory().lobbies.dom(),
            old(self).directory().list_in_order() ==> final(self).directory().list_in_order(),
    {
        let ghost all = requests@;
        let ghost mut states: Seq<ActorSystem<A>> = seq![*self];
        let ghost mut outcomes: Seq<JoinOutcome> = Seq::empty();
        let ghost mut done: int = 0;
        let mut rest = turned(requests);
        let mut rebuilt = false;
        while rest.len() > 0
            invariant
                self.wf(),
                self.queue() == old(self).queue(),
                !rebuilt ==> self.published() == old(self).published(),
                !rebuilt ==> self.directory().lobbies.dom() == old(self).directory().lobbies.dom(),
                old(self).directory().list_in_order() ==> self.directory().list_in_order(),
                0 <= done,
                done + rest@.len() == all.len(),
                forall|i: int| 0 <= i < rest@.len() ==> rest@[i] == all[all.len() - 1 - i],
                is_resolution(all.subrange(0, done), states, outcomes),
                states[0] == *old(self),
                states[done] == *self,
                rebuilt == publishes(outcomes),
            decreases rest@.len(),
        {
            let request = rest.pop().unwrap();
            let ghost prev = *self;
            let outcome = self.join(request);
            proof {
                match outcome {
                    JoinOutcome::Seated(id) => {
                        assert(self.directory().lobbies.dom() =~= prev.directory().lobbies.dom());
                    },
                    _ => {},
                }
                let earlier = all.subrange(0, done);
                let now = all.subrange(0, done + 1);
                let states_before = states;
                let outcomes_before = outcomes;
                states = states.push(*self);
                outcomes = outcomes.push(outcome);
                assert(now[done] == request);
                assert forall|i: int| 0 <= i < now.len() implies #[trigger] is_step(
                    now,
                    states,
                    outcomes,
                    i,
                ) by {
                    if i < done {
                        assert(is_step(earlier, states_before, outcomes_before, i));
                        assert(now[i] == earlier[i]);
                    }
                }
                if publishes(outcomes_before) {
                    let i = choose|i: int|
                        0 <= i < outcomes_before.len() && ((#[trigger] outcomes_before[i]) is Created
                            || outcomes_before[i] is Destroyed);
                    assert(outcomes[i] == outcomes_before[i]);
                }
                if outcome is Created || outcome is Destroyed {
                    assert(outcomes[done] == outcome);
                }
                if publishes(outcomes) && !publishes(outcomes_before) {
                    let i = choose|i: int|
                        0 <= i < outcomes.len() && ((#[trigger] outcomes[i]) is Created
                            || outcomes[i] is Destroyed);
                    if i < done {
                        assert(outcomes_before[i] == outcomes[i]);
                    }
                }
                done = done + 1;
            }
            match outcome {
                JoinOutcome::Created(_) => {
                    rebuilt = true;
                },
                JoinOutcome::Destroyed(_) => {
                    rebuilt = true;
                },
                _ => {},
            }
        }
        proof {
            assert(all.subrange(0, done) =~= all);
        }
        rebuilt
    }

    /// One tick: every lobby advances, then the requests that have arrived
    /// are resolved in the order of arrival. Reports whether the list was
    /// published anew.
    pub fn update(&mut self) -> (rebuilt: bool)
        requires
            old(self).wf(),
        ensures
            final(self).wf(),
            final(self).queue() == old(self).queue(),
            ticked(*old(self), rebuilt, *final(self)),
            !rebuilt ==> final(self).published() == old(self).published(),
            !rebuilt ==> final(self).directory().lobbies.dom() == old(self).directory().lobbies.dom(),
            old(self).directory().list_in_order() ==> final(self).directory().list_in_order(),
    {
        self.advance();
        let ghost mid = *self;
        let requests = drain(&self.recv);
        let ghost taken = requests@;
        let rebuilt = self.resolve(requests);
        proof {
            assert(resolved(mid, taken, rebuilt, *self));
        }
        rebuilt
    }

    /// The lobby list as it was last published.
    pub fn lobbies(&self) -> (list: Vec<(ActorId, u8)>)
        ensures
            list@ == self.published(),
    {
        self.actor_list.read()
    }

    /// The number of lobbies.
    pub fn actor_count(&self) -> (count: usize)
        requires
            self.wf(),
        ensures
            count == self.directory().lobbies.dom().len(),
    {
        proof {
            self.actors().lemma_dom_len();
            assert(self.directory().lobbies.dom() =~= self.actors()@.dom());
        }
        self.actors.len()
    }

    /// The number of users that the directory knows.
    pub fn user_count(&self) -> (count: usize)
        requires
            self.wf(),
        ensures
            count == self.directory().handles.dom().len(),
    {
        proof {
            self.users().lemma_dom_len();
            assert(self.directory().handles.dom() =~= self.users()@.dom());
        }
        self.users.len()
    }

    /// Whether the user is connected; `None` if the directory does not know
    /// them.
    pub fn is_connected(&self, user_id: &UserId) -> (connected: Option<bool>)
        requires
            self.wf(),
        ensures
            connected == (if self.directory().handles.contains_key(user_token(*user_id)) {
                Some(self.directory().handles[user_token(*user_id)].connected)
            } else {
                None
            }),
    {
        match self.users.get(user_id) {
            Some(handle) => Some(handle.connected),
            None => None,
        }
    }

    /// The lobby that the user belongs to; `None` if the directory does not
    /// know them.
    pub fn actor_of(&self, user_id: &UserId) -> (home: Option<ActorId>)
        requires
            self.wf(),
        ensures
            home == (if self.directory().handles.contains_key(user_token(*user_id)) {
                Some(self.directory().handles[user_token(*user_id)].actor_id)
            } else {
                None
            }),
    {
        match self.users.get(user_id) {
            Some(handle) => Some(handle.actor_id),
            None => None,
        }
    }

    /// The number of members of a lobby; `None` if there is no such lobby.
    pub fn occupancy(&self, actor_id: ActorId) -> (members: Option<usize>)
        requires
            self.wf(),
        ensures
            members == (if self.directory().lobbies.contains_key(actor_id) {
                Some(self.directory().lobbies[actor_id].len() as usize)
            } else {
                None
            }),
    {
        match self.actors.get(&actor_id) {
            Some(actor) => {
                proof {
                    actor.user().lemma_dom_len();
                }
                Some(actor.member_count())
            },
            None => None,
        }
    }
}

} // verus!
