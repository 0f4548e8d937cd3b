//! One lobby: a game in progress, its members and their mailboxes.

use vstd::prelude::*;
use kanal::{Receiver, Sender};
use crate::action::{is_initial, Action};
use crate::batch::turned;
use crate::channel::{deliver, drain, mailbox};
use crate::ident::{user_token, UserId};
use crate::table::UserMap;

verus! {

/// How many actions a lobby's mailbox holds before senders have to wait.
pub const RECV_BOUND: usize = 128;

/// One isolated game: the shared state, each member's own state, the mailbox
/// on which members' actions arrive, and for each member the mailbox on which
/// messages go out to them.
#[verifier::reject_recursive_types(A)]
pub struct Actor<A: Action> {
    recv: Receiver<(A, UserId)>,
    shared: A::Shared,
    user: UserMap<A::User>,
    server_msgs: UserMap<Sender<A::Msg>>,
}

/// Whether the states `shared[0], users[0]` to `shared[n], users[n]` are a run
/// of the actions in `batch`: each action, in the order of the batch, leads
/// from one state to the next.
pub open spec fn is_run<A: Action>(
    batch: Seq<(A, UserId)>,
    shared: Seq<A::Shared>,
    users: Seq<UserMap<A::User>>,
) -> bool {
    &&& shared.len() == batch.len() + 1
    &&& users.len() == batch.len() + 1
    &&& forall|i: int|
        0 <= i < batch.len() ==> (#[trigger] batch[i]).0.follows(
            batch[i].1,
            shared[i],
            users[i],
            shared[i + 1],
            users[i + 1],
        )
}

/// Whether the lobby `after` is the lobby `before` once the actions of
/// `batch` have been applied to its game in the order of the batch.
pub open spec fn ran<A: Action>(batch: Seq<(A, UserId)>, before: Actor<A>, after: Actor<A>) -> bool {
    exists|shared: Seq<A::Shared>, users: Seq<UserMap<A::User>>|
        #![trigger is_run(batch, shared, users)]
        {
            &&& is_run(batch, shared, users)
            &&& shared[0] == before.shared()
            &&& users[0] == before.user()
            &&& shared[batch.len() as int] == after.shared()
            &&& users[batch.len() as int] == after.user()
        }
}

/// Whether the lobby `after` is the lobby `before` once some batch of
/// actions has been applied to its game in order.
pub open spec fn advanced<A: Action>(before: Actor<A>, after: Actor<A>) -> bool {
    exists|batch: Seq<(A, UserId)>| #[trigger] ran(batch, before, after)
}

/// Where the messages of `msgs` go: the messages whose addressee is one of
/// `tokens`, in their order, each with the place of the addressee.
pub open spec fn routed<A: Action>(tokens: Seq<Seq<char>>, msgs: Seq<(UserId, A::Msg)>) -> Seq<
    (int, A::Msg),
>
    decreases msgs.len(),
{
    if msgs.len() == 0 {
        Seq::empty()
    } else {
        let earlier = routed::<A>(tokens, msgs.drop_last());
        let token = user_token(msgs.last().0);
        if tokens.contains(token) {
            earlier.push((tokens.index_of(token), msgs.last().1))
        } else {
            earlier
        }
    }
}

/// A routed message as a place and a message.
pub open spec fn placed<A: Action>(entry: (usize, A::Msg)) -> (int, A::Msg) {
    (entry.0 as int, entry.1)
}

impl<A: Action> Actor<A> {
    /// The state that the members share.
    pub closed spec fn shared(&self) -> A::Shared {
        self.shared
    }

    /// Each member's own state.
    pub closed spec fn user(&self) -> UserMap<A::User> {
        self.user
    }

    /// Each member's outgoing mailbox.
    pub closed spec fn server_msgs(&self) -> UserMap<Sender<A::Msg>> {
        self.server_msgs
    }

    /// The mailbox on which the members' actions arrive.
    pub closed spec fn inbox(&self) -> Receiver<(A, UserId)> {
        self.recv
    }

    /// The tokens of the members.
    pub open spec fn members(&self) -> Set<Seq<char>> {
        self.user()@.dom()
    }

    /// Members' states and members' mailboxes are filed under the same ids,
    /// in the same order.
    pub open spec fn wf(&self) -> bool {
        &&& self.user().wf()
        &&& self.server_msgs().wf()
        &&& self.user().tokens() == self.server_msgs().tokens()
    }

    /// Whether the game takes one more member.
    pub open spec fn is_open(&self) -> bool {
        A::admits(self.shared(), self.user())
    }

    /// The number of members as the lobby list shows it: a `u8` holds no
    /// more than 255.
    pub open spec fn occupancy(&self) -> u8 {
        if self.user().spec_len() > 255 {
            255
        } else {
            self.user().spec_len() as u8
        }
    }

    /// Every member of a lobby has a mailbox, and nobody else has one.
    pub proof fn lemma_lockstep(&self, token: Seq<char>)
        requires
            self.wf(),
        ensures
            self.user().has(token) <==> self.server_msgs().has(token),
            self.user()@.dom() == self.server_msgs()@.dom(),
            self.user().has(token) ==> self.user().place(token) == self.server_msgs().place(token),
    {
        assert(self.user()@.dom() =~= self.server_msgs()@.dom());
    }

    /// The number of members.
    pub fn member_count(&self) -> (count: usize)
        requires
            self.wf(),
        ensures
            count == self.user().spec_len(),
    {
        self.user.len()
    }

    /// The id of the member at a place.
    pub fn member_at(&self, at: usize) -> (member: UserId)
        requires
            self.wf(),
            at < self.user().spec_len(),
        ensures
            member == self.user().ids()[at as int],
            user_token(member) == self.user().tokens()[at as int],
    {
        self.user.key_at(at)
    }

    /// The number of members, if the game takes one more.
    pub fn open(&self) -> (seats: Option<u8>)
        requires
            self.wf(),
        ensures
            seats == (if self.is_open() {
                Some(self.occupancy())
            } else {
                None
            }),
    {
        if A::can_join(&self.shared, &self.user) {
            let count: usize = self.user.len();
            if count > 255 {
                Some(255)
            } else {
                Some(count as u8)
            }
        } else {
            None
        }
    }

    /// A new lobby whose only member is `user_id`, with a fresh mailbox for
    /// actions. The second result is the sending end of that mailbox.
    pub fn spawn(user_id: UserId, send_server_msg: Sender<A::Msg>) -> (made: (
        Self,
        Sender<(A, UserId)>,
    ))
        ensures
            made.0.wf(),
            made.0.user().ids() == seq![user_id],
            made.0.members() == set![user_token(user_id)],
            is_initial(made.0.shared()),
            is_initial(made.0.user().values()[0]),
            made.0.server_msgs().values() == seq![send_server_msg],
    {
        let shared: A::Shared = Default::default();
        let mut user: UserMap<A::User> = UserMap::new();
        user.insert(user_id, Default::default());
        let mut server_msgs: UserMap<Sender<A::Msg>> = UserMap::new();
        server_msgs.insert(user_id, send_server_msg);
        let (send, recv) = mailbox::<(A, UserId)>(RECV_BOUND);
        let actor = Actor { recv, shared, user, server_msgs };
        proof {
            assert(actor.user().tokens() =~= actor.server_msgs().tokens());
            assert(actor.user()@.dom() =~= set![user_token(user_id)]);
        }
        (actor, send)
    }

    /// Takes `user_id` in as a new member, with a fresh state of their own
    /// and `send_server_msg` as their mailbox.
    pub fn enroll(&mut self, user_id: UserId, send_server_msg: Sender<A::Msg>)
        requires
            old(self).wf(),
            !old(self).user().has(user_token(user_id)),
        ensures
            final(self).wf(),
            final(self).shared() == old(self).shared(),
            final(self).inbox() == old(self).inbox(),
            final(self).user().ids() == old(self).user().ids().push(user_id),
            final(self).user().values().len() == old(self).user().values().len() + 1,
            final(self).user().values().drop_last() == old(self).user().values(),
            is_initial(final(self).user().values().last()),
            final(self).server_msgs().ids() == old(self).server_msgs().ids().push(user_id),
            final(self).server_msgs().values() == old(self).server_msgs().values().push(
                send_server_msg,
            ),
            final(self).members() == old(self).members().insert(user_token(user_id)),
    {
        proof {
            self.lemma_lockstep(user_token(user_id));
        }
        self.user.insert(user_id, Default::default());
        self.server_msgs.insert(user_id, send_server_msg);
        proof {
            assert(self.user().values().drop_last() =~= old(self).user().values());
            assert(self.user().tokens() =~= old(self).user().tokens().push(user_token(user_id)));
            assert(self.server_msgs().tokens() =~= old(self).server_msgs().tokens().push(
                user_token(user_id),
            ));
            assert(self.members() =~= old(self).members().insert(user_token(user_id)));
        }
    }

    /// Gives the member `user_id` the new mailbox `send_server_msg` in place
    /// of the one they had.
    pub fn reconnect(&mut self, user_id: UserId, send_server_msg: Sender<A::Msg>)
        requires
            old(self).wf(),
            old(self).user().has(user_token(user_id)),
        ensures
            final(self).wf(),
            final(self).shared() == old(self).shared(),
            final(self).inbox() == old(self).inbox(),
            final(self).user() == old(self).user(),
            final(self).server_msgs().ids() == old(self).server_msgs().ids(),
            final(self).server_msgs()@ == old(self).server_msgs()@.insert(
                user_token(user_id),
                send_server_msg,
            ),
    {
        proof {
            self.lemma_lockstep(user_token(user_id));
        }
        self.server_msgs.insert(user_id, send_server_msg);
    }

    /// Applies the actions of `batch` one after the other, first to last.
    pub fn apply(&mut self, batch: Vec<(A, UserId)>)
        requires
            old(self).wf(),
        ensures
            final(self).wf(),
            final(self).user().ids() == old(self).user().ids(),
            final(self).server_msgs() == old(self).server_msgs(),
            final(self).inbox() == old(self).inbox(),
            ran(batch@, *old(self), *final(self)),
    {
        let ghost mut shared_trace: Seq<A::Shared> = seq![self.shared];
        let ghost mut users_trace: Seq<UserMap<A::User>> = seq![self.user];
        let ghost all = batch@;
        let mut rest = turned(batch);
        let ghost mut done: int = 0;
        while rest.len() > 0
            invariant
                self.wf(),
                self.user().ids() == old(self).user().ids(),
                self.server_msgs() == old(self).server_msgs(),
                self.inbox() == old(self).inbox(),
                0 <= done,
                done + rest@.len() == all.len(),
                forall|i: int| 0 <= i < rest@.len() ==> rest@[i] == all[all.len() - 1 - i],
                is_run(all.subrange(0, done), shared_trace, users_trace),
                shared_trace[0] == old(self).shared(),
                users_trace[0] == old(self).user(),
                shared_trace[done] == self.shared(),
                users_trace[done] == self.user(),
            decreases rest@.len(),
        {
            let (action, user_id) = rest.pop().unwrap();
            action.update(&mut self.shared, &mut self.user, user_id);
            proof {
                let ghost earlier = all.subrange(0, done);
                let ghost now = all.subrange(0, done + 1);
                let ghost shared_before = shared_trace;
                let ghost users_before = users_trace;
                shared_trace = shared_trace.push(self.shared);
                users_trace = users_trace.push(self.user);
                assert(now[done] == (action, user_id));
                assert forall|i: int| 0 <= i < now.len() implies (#[trigger] now[i]).0.follows(
                    now[i].1,
                    shared_trace[i],
                    users_trace[i],
                    shared_trace[i + 1],
                    users_trace[i + 1],
                ) by {
                    if i < done {
                        assert(now[i] == earlier[i]);
                        assert(shared_trace[i] == shared_before[i]);
                        assert(shared_trace[i + 1] == shared_before[i + 1]);
                        assert(users_trace[i] == users_before[i]);
                        assert(users_trace[i + 1] == users_before[i + 1]);
                    }
                }
                assert(self.user().tokens() =~= self.server_msgs().tokens());
                done = done + 1;
            }
        }
        proof {
            assert(all.subrange(0, done) =~= all);
            assert(is_run(all, shared_trace, users_trace));
        }
    }

    /// One tick's work on the game: takes what has arrived in the mailbox
    /// since the last tick and applies it in the order of arrival.
    pub fn update(&mut self)
        requires
            old(self).wf(),
        ensures
            final(self).wf(),
            final(self).user().ids() == old(self).user().ids(),
            final(self).server_msgs() == old(self).server_msgs(),
            final(self).inbox() == old(self).inbox(),
            advanced(*old(self), *final(self)),
    {
        let batch = drain(&self.recv);
        let ghost taken = batch@;
        self.apply(batch);
        proof {
            assert(ran(taken, *old(self), *self));
        }
    }

    /// Sends `msg` to the member `user_id`. Reports whether it was handed
    /// over: it is not if there is no such member or their mailbox is gone.
    pub fn send_to(&self, user_id: &UserId, msg: A::Msg) -> (sent: bool)
        requires
            self.wf(),
        ensures
            sent ==> self.user().has(user_token(*user_id)),
    {
        proof {
            self.lemma_lockstep(user_token(*user_id));
        }
        match self.server_msgs.get(user_id) {
            Some(send) => deliver(send, msg),
            None => false,
        }
    }

    /// Pairs each message with the place of its addressee's mailbox. A
    /// message to somebody who is no member goes nowhere.
    pub fn route(&self, msgs: Vec<(UserId, A::Msg)>) -> (out: Vec<(usize, A::Msg)>)
        requires
            self.wf(),
        ensures
            out@.map_values(|entry: (usize, A::Msg)| placed::<A>(entry)) == routed::<A>(
                self.server_msgs().tokens(),
                msgs@,
            ),
            forall|i: int|
                0 <= i < out@.len() ==> (#[trigger] out@[i]).0 < self.server_msgs().spec_len(),
    {
        let ghost all = msgs@;
        let ghost tokens = self.server_msgs().tokens();
        let mut rest = turned(msgs);
        let mut out: Vec<(usize, A::Msg)> = Vec::new();
        let ghost mut done: int = 0;
        while rest.len() > 0
            invariant
                self.wf(),
                tokens == self.server_msgs().tokens(),
                0 <= done,
                done + rest@.len() == all.len(),
                forall|i: int| 0 <= i < rest@.len() ==> rest@[i] == all[all.len() - 1 - i],
                out@.map_values(|entry: (usize, A::Msg)| placed::<A>(entry)) == routed::<A>(
                    tokens,
                    all.subrange(0, done),
                ),
                forall|i: int|
                    0 <= i < out@.len() ==> (#[trigger] out@[i]).0 < self.server_msgs().spec_len(),
            decreases rest@.len(),
        {
            let ghost sent = out@;
            let (user_id, msg) = rest.pop().unwrap();
            match self.server_msgs.position(&user_id) {
                Some(at) => {
                    out.push((at, msg));
                },
                None => {},
            }
            proof {
                let now = all.subrange(0, done + 1);
                assert(now.drop_last() =~= all.subrange(0, done));
                assert(now.last() == (user_id, msg));
                assert(out@.map_values(|entry: (usize, A::Msg)| placed::<A>(entry)) =~= routed::<A>(
                    tokens,
                    now,
                ));
                done = done + 1;
            }
        }
        proof {
            assert(all.subrange(0, done) =~= all);
        }
        out
    }

    /// Sends every member the state of the game as they may see it: each
    /// message of the ruleset goes to the mailbox that `route` pairs it with,
    /// in the ruleset's order. A message that cannot be handed over is
    /// dropped: only an explicit disconnect removes a member.
    pub fn broadcast(&self)
        requires
            self.wf(),
    {
        let mut rest = turned(self.route(A::msg(&self.shared, &self.user)));
        while rest.len() > 0
            invariant
                self.wf(),
                forall|i: int|
                    0 <= i < rest@.len() ==> (#[trigger] rest@[i]).0 < self.server_msgs().spec_len(),
            decreases rest@.len(),
        {
            let (place, msg) = rest.pop().unwrap();
            let _ = deliver(self.server_msgs.value_at(place), msg);
        }
    }
}

} // verus!
