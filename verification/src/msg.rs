//! What clients send.

use vstd::prelude::*;
use kanal::{Receiver, Sender};
use crate::action::Action;
use crate::channel::mailbox;
use crate::ident::{ActorId, UserId};
use crate::system::JoinReq;

verus! {

/// How many messages wait for one client before the runtime has to wait.
pub const MSG_BOUND: usize = 16;

/// A message from a client.
#[verifier::reject_recursive_types(A)]
pub enum ClientMsg<A: Action> {
    /// The client presents its token and asks for a lobby: the one it names,
    /// or any.
    Join { lobby: Option<ActorId>, client_token: UserId },
    /// The client submits an action.
    Action { action: A },
}

/// The ends that stay with the connection when its connect request goes to
/// the runtime: on `server_msgs` arrive the messages for the client, on
/// `senders` the mailbox to which the client's actions must go.
#[verifier::reject_recursive_types(A)]
pub struct Connection<A: Action> {
    pub user_id: UserId,
    pub server_msgs: Receiver<A::Msg>,
    pub senders: Receiver<Sender<(A, UserId)>>,
}

impl<A: Action> ClientMsg<A> {
    /// The token and the lobby asked for, if this is a request to join.
    pub fn into_join(self) -> (join: Option<(UserId, Option<ActorId>)>)
        ensures
            join == (match self {
                ClientMsg::Join { lobby, client_token } => Some((client_token, lobby)),
                ClientMsg::Action { .. } => None,
            }),
    {
        match self {
            ClientMsg::Join { lobby, client_token } => Some((client_token, lobby)),
            ClientMsg::Action { .. } => None,
        }
    }

    /// The action, if this is one.
    pub fn into_action(self) -> (action: Option<A>)
        ensures
            action == (match self {
                ClientMsg::Join { .. } => None,
                ClientMsg::Action { action } => Some(action),
            }),
    {
        match self {
            ClientMsg::Join { .. } => None,
            ClientMsg::Action { action } => Some(action),
        }
    }
}

/// The connect request of the user `user_id` for the lobby `lobby`, with
/// fresh mailboxes for the answers, and the ends of those mailboxes that
/// stay with the connection.
pub fn connect_request<A: Action>(user_id: UserId, lobby: Option<ActorId>) -> (made: (
    JoinReq<A>,
    Connection<A>,
))
    ensures
        made.0 matches JoinReq::Connect { user_id: id, actor_id, .. } && id == user_id && actor_id
            == lobby,
        made.1.user_id == user_id,
{
    let (send_server_msg, server_msgs) = mailbox::<A::Msg>(MSG_BOUND);
    let (send_sender, senders) = mailbox::<Sender<(A, UserId)>>(MSG_BOUND);
    (
        JoinReq::Connect { user_id, actor_id: lobby, send_server_msg, send_sender },
        Connection { user_id, server_msgs, senders },
    )
}

} // verus!
