//! What a game has to provide so that lobbies can host it.

use vstd::prelude::*;
use crate::ident::{ActorId, UserId};
use crate::table::UserMap;

verus! {

/// The rules of a game, as the runtime sees them. An action is what one user
/// submits; the runtime applies it to the lobby's state and tells every
/// member what they may see of the result.
pub trait Action: Clone + core::fmt::Debug + Send + Sync + 'static {
    /// The state that the whole lobby shares.
    type Shared: Default;

    /// The state that belongs to one member.
    type User: Default;

    /// What the runtime sends to a member.
    type Msg: Send + Sync + 'static;

    /// Whether a lobby in this state takes one more member. A ruleset says
    /// here what its `can_join` computes.
    spec fn admits(shared: Self::Shared, users: UserMap<Self::User>) -> bool;

    /// Whether the lobby may pass from the first state to the second when
    /// `user_id` submits this action. A ruleset says here what its `update`
    /// guarantees.
    spec fn follows(
        self,
        user_id: UserId,
        shared: Self::Shared,
        users: UserMap<Self::User>,
        next_shared: Self::Shared,
        next_users: UserMap<Self::User>,
    ) -> bool;

    /// The message that tells a member that they are in the lobby
    /// `actor_id`. A ruleset says here what its `join_msg` makes.
    spec fn greeting(actor_id: ActorId) -> Self::Msg;

    /// Whether the lobby takes one more member. The answer depends on the
    /// state alone.
    fn can_join(shared: &Self::Shared, user: &UserMap<Self::User>) -> (open: bool)
        requires
            user.wf(),
        ensures
            open == Self::admits(*shared, *user),
    ;

    /// Applies the action. An action that is not legal in the present state
    /// changes nothing; members are neither added nor removed.
    fn update(
        self,
        shared: &mut Self::Shared,
        user: &mut UserMap<Self::User>,
        user_id: UserId,
    )
        requires
            old(user).wf(),
        ensures
            final(user).wf(),
            final(user).ids() == old(user).ids(),
            self.follows(user_id, *old(shared), *old(user), *final(shared), *final(user)),
    ;

    /// The message that tells a member which lobby they are in.
    fn join_msg(actor_id: ActorId) -> (msg: Self::Msg)
        ensures
            msg == Self::greeting(actor_id),
    ;

    /// The state as each member may see it, one message per addressee.
    fn msg(shared: &Self::Shared, user: &UserMap<Self::User>) -> Vec<(UserId, Self::Msg)>
        requires
            user.wf(),
    ;
}

/// Whether `value` is what `T::default()` may return.
pub open spec fn is_initial<T: Default>(value: T) -> bool {
    call_ensures(T::default, (), value)
}

} // verus!
