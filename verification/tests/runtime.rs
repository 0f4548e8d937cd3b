use arrayvec::ArrayString;
use kanal::{Receiver, Sender};
use regicide::action::Action;
use regicide::actor::Actor;
use regicide::batch::turned;
use regicide::ident::{ActorId, Key, UserId};
use regicide::msg::{connect_request, ClientMsg};
use regicide::system::{join_queue, ActorList, ActorSystem, JoinOutcome, JoinReq, Offer};
use regicide::table::UserMap;

/// A ruleset that only records what it is given: the shared state is the log
/// of the tags applied, a player's state counts the tags they sent, a lobby
/// takes two members and closes for good once a tag of 0 has been applied.
#[derive(Clone, Debug, PartialEq)]
struct Tagged(u32);

impl Action for Tagged {
    type Shared = Vec<u32>;
    type User = u32;
    type Msg = String;

    // The three that follow are read by the verifier only and never run.
    fn admits(_: Vec<u32>, _: UserMap<u32>) -> bool {
        unreachable!()
    }

    fn follows(
        self,
        _: UserId,
        _: Vec<u32>,
        _: UserMap<u32>,
        _: Vec<u32>,
        _: UserMap<u32>,
    ) -> bool {
        unreachable!()
    }

    fn greeting(_: ActorId) -> String {
        unreachable!()
    }

    fn can_join(shared: &Vec<u32>, user: &UserMap<u32>) -> bool {
        !shared.contains(&0) && user.len() < 2
    }

    fn update(self, shared: &mut Vec<u32>, user: &mut UserMap<u32>, user_id: UserId) {
        shared.push(self.0);
        if let Some(at) = user.position(&user_id) {
            *user.value_at_mut(at) += 1;
        }
    }

    fn join_msg(actor_id: ActorId) -> String {
        format!("joined {actor_id}")
    }

    fn msg(shared: &Vec<u32>, user: &UserMap<u32>) -> Vec<(UserId, String)> {
        let mut out = Vec::new();
        for at in 0..user.len() {
            out.push((user.key_at(at), format!("{:?}/{}", shared, user.value_at(at))));
        }
        out
    }
}

/// A ruleset whose lobbies take everybody.
#[derive(Clone, Debug)]
struct Crowd;

impl Action for Crowd {
    type Shared = ();
    type User = ();
    type Msg = ();

    fn admits(_: (), _: UserMap<()>) -> bool {
        unreachable!()
    }

    fn follows(self, _: UserId, _: (), _: UserMap<()>, _: (), _: UserMap<()>) -> bool {
        unreachable!()
    }

    fn greeting(_: ActorId) {
        unreachable!()
    }

    fn can_join(_: &(), _: &UserMap<()>) -> bool {
        true
    }

    fn update(self, _: &mut (), _: &mut UserMap<()>, _: UserId) {}

    fn join_msg(_: ActorId) {}

    fn msg(_: &(), _: &UserMap<()>) -> Vec<(UserId, ())> {
        Vec::new()
    }
}

fn uid(name: &str) -> UserId {
    ArrayString::from(name).unwrap()
}

struct Client {
    user_id: UserId,
    msgs: Receiver<String>,
    senders: Receiver<Sender<(Tagged, UserId)>>,
}

fn connect(name: &str, lobby: Option<ActorId>) -> (JoinReq<Tagged>, Client) {
    let (send_server_msg, msgs) = kanal::bounded(16);
    let (send_sender, senders) = kanal::bounded(16);
    let user_id = uid(name);
    (
        JoinReq::Connect { user_id, actor_id: lobby, send_server_msg, send_sender },
        Client { user_id, msgs, senders },
    )
}

fn system() -> (ActorSystem<Tagged>, Sender<JoinReq<Tagged>>) {
    let (send_join, recv_join) = join_queue();
    (ActorSystem::new(recv_join, ActorList::default()), send_join)
}

fn created(outcome: JoinOutcome) -> ActorId {
    match outcome {
        JoinOutcome::Created(id) => id,
        other => panic!("unexpected outcome {other:?}"),
    }
}

/// The next message waiting for the client, if there is one; a mailbox that
/// the runtime has let go of holds no more once it is empty.
fn next_msg(client: &Client) -> Option<String> {
    client.msgs.try_recv().unwrap_or(None)
}

#[test]
fn lobby_lives_while_a_member_is_connected() {
    let (mut sys, _queue) = system();
    let (req_a, a) = connect("alice", None);
    let lobby = created(sys.join(req_a));
    assert_eq!(sys.actor_count(), 1);
    assert_eq!(sys.occupancy(lobby), Some(1));
    assert_eq!(sys.lobbies(), vec![(lobby, 1)]);
    assert_eq!(next_msg(&a), Some(format!("joined {lobby}")));
    assert!(a.senders.try_recv().unwrap().is_some());

    let (req_b, b) = connect("bob", Some(lobby));
    assert_eq!(sys.join(req_b), JoinOutcome::Seated(lobby));
    assert_eq!(sys.actor_count(), 1);
    assert_eq!(sys.occupancy(lobby), Some(2));
    assert_eq!(sys.lobbies(), vec![(lobby, 1)]);
    assert_eq!(next_msg(&b), Some(format!("joined {lobby}")));

    assert_eq!(sys.join(JoinReq::Disconnect { user_id: a.user_id }), JoinOutcome::Offline);
    assert_eq!(sys.actor_count(), 1);
    assert_eq!(sys.is_connected(&a.user_id), Some(false));
    assert_eq!(sys.is_connected(&b.user_id), Some(true));
    assert_eq!(sys.lobbies(), vec![(lobby, 1)]);

    assert_eq!(sys.join(JoinReq::Disconnect { user_id: b.user_id }), JoinOutcome::Destroyed(lobby));
    assert_eq!(sys.actor_count(), 0);
    assert_eq!(sys.user_count(), 0);
    assert_eq!(sys.is_connected(&a.user_id), None);
    assert_eq!(sys.actor_of(&b.user_id), None);
    assert_eq!(sys.occupancy(lobby), None);
    assert_eq!(sys.lobbies(), vec![]);
}

#[test]
fn failed_handshake_leaves_the_directory_as_it_was() {
    let (mut sys, _queue) = system();
    let (req_a, a) = connect("alice", None);
    let lobby = created(sys.join(req_a));

    // Nobody is there to take the action mailbox.
    let (req, client) = connect("bob", None);
    drop(client.senders);
    assert_eq!(sys.join(req), JoinOutcome::Abandoned);
    assert_eq!(sys.actor_count(), 1);
    assert_eq!(sys.user_count(), 1);
    assert_eq!(sys.is_connected(&client.user_id), None);
    assert_eq!(sys.lobbies(), vec![(lobby, 1)]);

    // Nobody is there to take the greeting.
    let (req, client) = connect("bob", None);
    drop(client.msgs);
    assert_eq!(sys.join(req), JoinOutcome::Abandoned);
    assert_eq!(sys.actor_count(), 1);
    assert_eq!(sys.user_count(), 1);
    assert_eq!(sys.lobbies(), vec![(lobby, 1)]);

    // The same on the way into a lobby that exists.
    let (req, client) = connect("bob", Some(lobby));
    drop(client.senders);
    assert_eq!(sys.join(req), JoinOutcome::Abandoned);
    let (req, client) = connect("bob", Some(lobby));
    drop(client.msgs);
    assert_eq!(sys.join(req), JoinOutcome::Abandoned);
    assert_eq!(sys.occupancy(lobby), Some(1));
    assert_eq!(sys.user_count(), 1);
    assert_eq!(sys.actor_of(&uid("bob")), None);

    // And for a known user who comes back: they stay disconnected.
    assert_eq!(sys.join(JoinReq::Disconnect { user_id: uid("carol") }), JoinOutcome::Unknown);
    let (req_c, c) = connect("carol", Some(lobby));
    assert_eq!(sys.join(req_c), JoinOutcome::Seated(lobby));
    assert_eq!(sys.join(JoinReq::Disconnect { user_id: c.user_id }), JoinOutcome::Offline);
    let (req, client) = connect("carol", None);
    drop(client.msgs);
    assert_eq!(sys.join(req), JoinOutcome::Abandoned);
    assert_eq!(sys.is_connected(&c.user_id), Some(false));
    assert_eq!(sys.occupancy(lobby), Some(2));
    assert_eq!(sys.user_count(), 2);
    assert_eq!(a.user_id, uid("alice"));
}

#[test]
fn actions_are_applied_in_the_order_of_arrival() {
    let (mut sys, _queue) = system();
    let (req_a, a) = connect("alice", None);
    let lobby = created(sys.join(req_a));
    let (req_b, b) = connect("bob", Some(lobby));
    assert_eq!(sys.join(req_b), JoinOutcome::Seated(lobby));
    let to_lobby_a = a.senders.try_recv().unwrap().unwrap();
    let to_lobby_b = b.senders.try_recv().unwrap().unwrap();
    assert_eq!(next_msg(&a), Some(format!("joined {lobby}")));
    assert_eq!(next_msg(&b), Some(format!("joined {lobby}")));

    for tag in 1..=5u32 {
        to_lobby_a.send((Tagged(2 * tag), a.user_id)).unwrap();
        to_lobby_b.send((Tagged(2 * tag + 1), b.user_id)).unwrap();
    }
    assert!(!sys.update());
    assert_eq!(next_msg(&a), Some("[2, 3, 4, 5, 6, 7, 8, 9, 10, 11]/5".to_string()));
    assert_eq!(next_msg(&b), Some("[2, 3, 4, 5, 6, 7, 8, 9, 10, 11]/5".to_string()));
    assert_eq!(next_msg(&a), None);

    to_lobby_b.send((Tagged(40), b.user_id)).unwrap();
    to_lobby_a.send((Tagged(30), a.user_id)).unwrap();
    sys.advance();
    assert_eq!(next_msg(&a), Some("[2, 3, 4, 5, 6, 7, 8, 9, 10, 11, 40, 30]/6".to_string()));
}

#[test]
fn apply_runs_a_batch_first_to_last() {
    let (send, msgs) = kanal::bounded::<String>(16);
    let (mut actor, _to_actor) = Actor::<Tagged>::spawn(uid("alice"), send);
    actor.apply(vec![(Tagged(3), uid("alice")), (Tagged(1), uid("bob")), (Tagged(2), uid("alice"))]);
    actor.apply(vec![]);
    actor.apply(vec![(Tagged(9), uid("alice"))]);
    assert_eq!(actor.member_count(), 1);
    assert_eq!(actor.member_at(0), uid("alice"));
    actor.broadcast();
    assert_eq!(msgs.try_recv().unwrap(), Some("[3, 1, 2, 9]/3".to_string()));
    assert_eq!(actor.open(), Some(1));
}

#[test]
fn closed_lobby_takes_nobody() {
    let (mut sys, _queue) = system();
    let (req_a, a) = connect("alice", None);
    let lobby = created(sys.join(req_a));
    let to_lobby = a.senders.try_recv().unwrap().unwrap();
    to_lobby.send((Tagged(0), a.user_id)).unwrap();
    sys.advance();

    // The lobby is closed now: who names it gets a lobby of their own.
    let (req_b, b) = connect("bob", Some(lobby));
    let other = created(sys.join(req_b));
    assert_ne!(other, lobby);
    assert_eq!(sys.occupancy(lobby), Some(1));
    assert_eq!(sys.occupancy(other), Some(1));
    assert_eq!(sys.actor_of(&b.user_id), Some(other));
    // The list was made anew and no longer shows the closed lobby.
    assert_eq!(sys.lobbies(), vec![(other, 1)]);

    // A full lobby takes nobody either.
    let (req_c, c) = connect("carol", Some(other));
    assert_eq!(sys.join(req_c), JoinOutcome::Seated(other));
    let (req_d, d) = connect("dave", Some(other));
    let third = created(sys.join(req_d));
    assert_eq!(sys.occupancy(other), Some(2));
    assert_eq!(sys.actor_of(&c.user_id), Some(other));
    assert_eq!(sys.actor_of(&d.user_id), Some(third));
    assert_eq!(sys.lobbies(), vec![(third, 1)]);
    assert_eq!(sys.actor_count(), 3);
}

#[test]
fn unknown_lobby_means_a_new_one() {
    let (mut sys, _queue) = system();
    let (req_a, a) = connect("alice", Some(7));
    let lobby = created(sys.join(req_a));
    assert_ne!(lobby, 7);
    assert_eq!(sys.actor_of(&a.user_id), Some(lobby));
    assert_eq!(sys.occupancy(7), None);
}

#[test]
fn reconnecting_adds_no_lobby_and_no_record() {
    let (mut sys, _queue) = system();
    let (req_a, a) = connect("alice", None);
    let lobby = created(sys.join(req_a));
    let (req_b, _b) = connect("bob", Some(lobby));
    assert_eq!(sys.join(req_b), JoinOutcome::Seated(lobby));
    let first_way = a.senders.try_recv().unwrap().unwrap();

    assert_eq!(sys.join(JoinReq::Disconnect { user_id: a.user_id }), JoinOutcome::Offline);
    // Alice comes back, naming no lobby, then naming another.
    let (again, a2) = connect("alice", None);
    assert_eq!(sys.join(again), JoinOutcome::Rejoined);
    assert_eq!(sys.actor_count(), 1);
    assert_eq!(sys.user_count(), 2);
    assert_eq!(sys.occupancy(lobby), Some(2));
    assert_eq!(sys.is_connected(&a.user_id), Some(true));
    assert_eq!(sys.actor_of(&a.user_id), Some(lobby));
    assert_eq!(next_msg(&a2), Some(format!("joined {lobby}")));

    let (again, a3) = connect("alice", Some(99));
    assert_eq!(sys.join(again), JoinOutcome::Rejoined);
    assert_eq!(sys.actor_count(), 1);
    assert_eq!(sys.user_count(), 2);
    assert_eq!(sys.actor_of(&a.user_id), Some(lobby));
    assert_eq!(sys.lobbies(), vec![(lobby, 1)]);

    // The way to the lobby is the one she had, and messages now reach the
    // newest connection only.
    let new_way = a3.senders.try_recv().unwrap().unwrap();
    first_way.send((Tagged(1), a.user_id)).unwrap();
    new_way.send((Tagged(2), a.user_id)).unwrap();
    assert_eq!(next_msg(&a3), Some(format!("joined {lobby}")));
    sys.advance();
    assert_eq!(next_msg(&a3), Some("[1, 2]/2".to_string()));
    assert_eq!(next_msg(&a2), None);
    assert_eq!(next_msg(&a), Some(format!("joined {lobby}")));
    assert_eq!(next_msg(&a), None);
}

#[test]
fn every_member_has_one_mailbox() {
    let (mut sys, _queue) = system();
    let (req_a, a) = connect("alice", None);
    let lobby = created(sys.join(req_a));
    let (req_b, b) = connect("bob", Some(lobby));
    assert_eq!(sys.join(req_b), JoinOutcome::Seated(lobby));
    assert_eq!(sys.join(JoinReq::Disconnect { user_id: b.user_id }), JoinOutcome::Offline);
    let (req_b, b2) = connect("bob", None);
    assert_eq!(sys.join(req_b), JoinOutcome::Rejoined);
    assert_eq!(next_msg(&a), Some(format!("joined {lobby}")));
    assert_eq!(next_msg(&b), Some(format!("joined {lobby}")));
    assert_eq!(next_msg(&b2), Some(format!("joined {lobby}")));

    sys.advance();
    // One message per member and tick, to the member's present mailbox.
    assert_eq!(next_msg(&a), Some("[]/0".to_string()));
    assert_eq!(next_msg(&a), None);
    assert_eq!(next_msg(&b2), Some("[]/0".to_string()));
    assert_eq!(next_msg(&b2), None);
    assert_eq!(next_msg(&b), None);
}

#[test]
fn a_gone_mailbox_stops_nothing() {
    let (mut sys, _queue) = system();
    let (req_a, a) = connect("alice", None);
    let lobby = created(sys.join(req_a));
    let (req_b, b) = connect("bob", Some(lobby));
    assert_eq!(sys.join(req_b), JoinOutcome::Seated(lobby));
    assert_eq!(next_msg(&b), Some(format!("joined {lobby}")));
    drop(a.msgs);
    sys.advance();
    assert_eq!(next_msg(&b), Some("[]/0".to_string()));
    // Only a disconnect request removes a member.
    assert_eq!(sys.occupancy(lobby), Some(2));
    assert_eq!(sys.is_connected(&a.user_id), Some(true));
}

#[test]
fn list_follows_lobbies_coming_and_going() {
    let (mut sys, _queue) = system();
    assert_eq!(sys.lobbies(), vec![]);
    let (req_a, a) = connect("alice", None);
    let first = created(sys.join(req_a));
    let (req_b, b) = connect("bob", None);
    let second = created(sys.join(req_b));
    assert_ne!(first, second);
    assert_eq!(sys.lobbies(), vec![(first, 1), (second, 1)]);

    let (req_c, c) = connect("carol", Some(first));
    assert_eq!(sys.join(req_c), JoinOutcome::Seated(first));
    // Occupancy alone does not publish.
    assert_eq!(sys.lobbies(), vec![(first, 1), (second, 1)]);

    assert_eq!(sys.join(JoinReq::Disconnect { user_id: b.user_id }), JoinOutcome::Destroyed(second));
    // The first lobby is full now and is no longer shown.
    assert_eq!(sys.lobbies(), vec![]);
    assert_eq!(sys.join(JoinReq::Disconnect { user_id: c.user_id }), JoinOutcome::Offline);
    assert_eq!(sys.join(JoinReq::Disconnect { user_id: a.user_id }), JoinOutcome::Destroyed(first));
    assert_eq!(sys.lobbies(), vec![]);
    assert_eq!(sys.actor_count(), 0);
    assert_eq!(sys.user_count(), 0);
}

#[test]
fn tick_resolves_queued_requests_in_order() {
    let (mut sys, queue) = system();
    assert!(!sys.update());
    let (req_a, a) = connect("alice", None);
    queue.send(req_a).unwrap();
    assert!(sys.update());
    let lobby = sys.actor_of(&a.user_id).unwrap();
    assert_eq!(next_msg(&a), Some(format!("joined {lobby}")));

    let (req_b, b) = connect("bob", Some(lobby));
    queue.send(req_b).unwrap();
    queue.send(JoinReq::Disconnect { user_id: a.user_id }).unwrap();
    assert!(!sys.update());
    assert_eq!(sys.occupancy(lobby), Some(2));
    assert_eq!(sys.is_connected(&a.user_id), Some(false));
    assert_eq!(sys.is_connected(&b.user_id), Some(true));

    // The other order of the same two requests ends the lobby before Bob
    // can enter it.
    let (mut sys, queue) = system();
    let (req_a, a) = connect("alice", None);
    let lobby = created(sys.join(req_a));
    let (req_b, b) = connect("bob", Some(lobby));
    queue.send(JoinReq::Disconnect { user_id: a.user_id }).unwrap();
    queue.send(req_b).unwrap();
    assert!(sys.update());
    assert_eq!(sys.occupancy(lobby), None);
    assert_eq!(sys.actor_count(), 1);
    assert_ne!(sys.actor_of(&b.user_id), Some(lobby));
    assert_eq!(sys.user_count(), 1);
}

#[test]
fn resolve_reports_whether_the_list_was_made_anew() {
    let (mut sys, _queue) = system();
    let (req_a, a) = connect("alice", None);
    assert!(sys.resolve(vec![req_a]));
    let lobby = sys.actor_of(&a.user_id).unwrap();
    let (req_b, _b) = connect("bob", Some(lobby));
    let (req_a2, _a2) = connect("alice", None);
    assert!(!sys.resolve(vec![req_b, JoinReq::Disconnect { user_id: a.user_id }, req_a2]));
    assert_eq!(sys.is_connected(&a.user_id), Some(true));
    assert!(!sys.resolve(vec![]));
    sys.update_list();
    assert_eq!(sys.lobbies(), vec![]);
}

#[test]
fn lobby_identities_grow_with_time() {
    let (mut sys, _queue) = system();
    let (req_a, _a) = connect("alice", None);
    let first = created(sys.join(req_a));
    let (req_b, _b) = connect("bob", None);
    let second = created(sys.join(req_b));
    assert!(first < second);
    // Version 7 of the identifier format.
    assert_eq!((first >> 76) & 0xf, 7);
}

#[test]
fn users_are_told_apart_by_their_tokens() {
    assert!(uid("alice").same(&uid("alice")));
    assert!(!uid("alice").same(&uid("alicf")));
    assert!(!uid("alice").same(&uid("alic")));
    assert!(!uid("").same(&uid("a")));
    assert!(5u128.same(&5u128));
    assert!(!5u128.same(&6u128));

    let mut map: UserMap<u32> = UserMap::new();
    assert_eq!(map.insert(uid("alice"), 1), None);
    assert_eq!(map.insert(uid("bob"), 2), None);
    assert_eq!(map.insert(uid("alice"), 3), Some(1));
    assert_eq!(map.len(), 2);
    assert_eq!(map.position(&uid("bob")), Some(1));
    assert_eq!(map.position(&uid("carol")), None);
    assert_eq!(map.get(&uid("alice")), Some(&3));
    assert_eq!(map.get(&uid("carol")), None);
    assert!(map.contains_key(&uid("bob")));
    assert!(!map.contains_key(&uid("bo")));
    assert_eq!(map.key_at(0), uid("alice"));
    assert_eq!(*map.value_at(1), 2);
    *map.value_at_mut(1) = 5;
    assert_eq!(map.remove(&uid("carol")), None);
    assert_eq!(map.remove(&uid("alice")), Some(3));
    assert_eq!(map.len(), 1);
    assert_eq!(map.key_at(0), uid("bob"));
    assert_eq!(map.get(&uid("bob")), Some(&5));
}

#[test]
fn turned_reverses() {
    assert_eq!(turned(vec![1, 2, 3]), vec![3, 2, 1]);
    assert_eq!(turned(Vec::<u8>::new()), vec![]);
    assert_eq!(turned(vec![7]), vec![7]);
}

#[test]
fn published_list_is_replaced_whole() {
    let mut list = ActorList::default();
    assert_eq!(list.read(), vec![]);
    list.write(vec![(1, 2), (3, 4)]);
    assert_eq!(list.read(), vec![(1, 2), (3, 4)]);
    list.write(vec![(5, 1)]);
    assert_eq!(list.read(), vec![(5, 1)]);
    let (recv_join, list) = (join_queue::<Tagged>().1, list);
    // A new runtime leaves the list as it is handed in, until a lobby comes
    // or goes.
    let mut sys = ActorSystem::<Tagged>::new(recv_join, list);
    assert_eq!(sys.lobbies(), vec![(5, 1)]);
    assert_eq!(sys.actor_count(), 0);
    assert_eq!(sys.user_count(), 0);
    assert_eq!(sys.join(JoinReq::Disconnect { user_id: uid("alice") }), JoinOutcome::Unknown);
    assert_eq!(sys.lobbies(), vec![(5, 1)]);
    let (req, _client) = connect("alice", None);
    let lobby = created(sys.join(req));
    assert_eq!(sys.lobbies(), vec![(lobby, 1)]);
}

#[test]
fn a_full_mailbox_does_not_stall_the_tick() {
    let (mut sys, _queue) = system();
    let (send_server_msg, msgs) = kanal::bounded(1);
    let (send_sender, senders) = kanal::bounded(1);
    let user_id = uid("alice");
    let outcome =
        sys.join(JoinReq::Connect { user_id, actor_id: None, send_server_msg, send_sender });
    let lobby = created(outcome);
    let to_lobby = senders.try_recv().unwrap().unwrap();
    // The greeting fills the mailbox: what the ticks send is dropped.
    to_lobby.send((Tagged(7), user_id)).unwrap();
    sys.advance();
    sys.advance();
    assert_eq!(msgs.try_recv().unwrap(), Some(format!("joined {lobby}")));
    assert_eq!(msgs.try_recv().unwrap(), None);
    sys.advance();
    assert_eq!(msgs.try_recv().unwrap(), Some("[7]/1".to_string()));

    // A client whose mailboxes are full is not taken in.
    let (send_server_msg, _msgs) = kanal::bounded(1);
    let (send_sender, _senders) = kanal::bounded(1);
    send_server_msg.send("in the way".to_string()).unwrap();
    let req = JoinReq::Connect { user_id: uid("bob"), actor_id: None, send_server_msg, send_sender };
    assert_eq!(sys.join(req), JoinOutcome::Abandoned);
    assert_eq!(sys.user_count(), 1);
    assert_eq!(sys.actor_count(), 1);
}

#[test]
fn settling_goes_by_what_arrived() {
    let (mut sys, _queue) = system();
    let (send_server_msg, _msgs) = kanal::bounded::<String>(4);

    // Nothing arrived, or only one of the two: abandoned, nothing changes.
    for (handed, told) in [(false, false), (true, false), (false, true)] {
        let offer = sys.offer(uid("alice"), None, send_server_msg.clone());
        assert!(matches!(offer, Offer::Create { .. }));
        assert_eq!(offer.standing(), None);
        assert_eq!(sys.settle(uid("alice"), None, offer, handed, told, 7), JoinOutcome::Abandoned);
        assert_eq!(sys.actor_count(), 0);
        assert_eq!(sys.user_count(), 0);
    }

    // Both arrived: the new lobby gets the identity that was minted.
    let offer = sys.offer(uid("alice"), Some(3), send_server_msg.clone());
    assert_eq!(sys.settle(uid("alice"), Some(3), offer, true, true, 7), JoinOutcome::Created(7));
    assert_eq!(sys.actor_of(&uid("alice")), Some(7));
    assert_eq!(sys.occupancy(7), Some(1));
    assert_eq!(sys.lobbies(), vec![(7, 1)]);

    // An identity that is taken makes no lobby.
    let offer = sys.offer(uid("bob"), None, send_server_msg.clone());
    assert_eq!(sys.settle(uid("bob"), None, offer, true, true, 7), JoinOutcome::Abandoned);
    assert_eq!(sys.actor_count(), 1);
    assert_eq!(sys.user_count(), 1);
    assert_eq!(sys.occupancy(7), Some(1));

    // A seat in the lobby named.
    let offer = sys.offer(uid("bob"), Some(7), send_server_msg.clone());
    assert!(matches!(offer, Offer::Seat { actor_id: 7, .. }));
    assert_eq!(offer.standing(), Some(7));
    assert_eq!(sys.settle(uid("bob"), Some(7), offer, true, false, 9), JoinOutcome::Abandoned);
    assert_eq!(sys.occupancy(7), Some(1));
    let offer = sys.offer(uid("bob"), Some(7), send_server_msg.clone());
    assert_eq!(sys.settle(uid("bob"), Some(7), offer, true, true, 9), JoinOutcome::Seated(7));
    assert_eq!(sys.occupancy(7), Some(2));
    assert_eq!(sys.actor_of(&uid("bob")), Some(7));
    assert_eq!(sys.lobbies(), vec![(7, 1)]);

    // A known user gets their place back, whatever lobby they name.
    assert_eq!(sys.join(JoinReq::Disconnect { user_id: uid("alice") }), JoinOutcome::Offline);
    let offer = sys.offer(uid("alice"), Some(99), send_server_msg.clone());
    assert!(matches!(offer, Offer::Rejoin { home: 7, .. }));
    assert_eq!(sys.settle(uid("alice"), Some(99), offer, false, true, 9), JoinOutcome::Abandoned);
    assert_eq!(sys.is_connected(&uid("alice")), Some(false));
    let offer = sys.offer(uid("alice"), Some(99), send_server_msg.clone());
    assert_eq!(sys.settle(uid("alice"), Some(99), offer, true, true, 9), JoinOutcome::Rejoined);
    assert_eq!(sys.is_connected(&uid("alice")), Some(true));
    assert_eq!(sys.actor_count(), 1);
    assert_eq!(sys.user_count(), 2);
}

#[test]
fn an_offer_reaches_the_client() {
    let (sys, _queue) = system();
    let (send_server_msg, msgs) = kanal::bounded::<String>(4);
    let offer = sys.offer(uid("alice"), None, send_server_msg);
    assert!(offer.tell(&uid("alice"), "hello".to_string()));
    assert_eq!(msgs.try_recv().unwrap(), Some("hello".to_string()));
    offer.way().send((Tagged(1), uid("alice"))).unwrap();
    drop(msgs);
    assert!(!offer.tell(&uid("alice"), "hello".to_string()));
}

#[test]
fn messages_are_routed_to_members_only() {
    let (send, _msgs) = kanal::bounded::<String>(4);
    let (mut actor, _to_actor) = Actor::<Tagged>::spawn(uid("alice"), send.clone());
    actor.enroll(uid("bob"), send);
    let routed = actor.route(vec![
        (uid("bob"), "one".to_string()),
        (uid("carol"), "two".to_string()),
        (uid("alice"), "three".to_string()),
        (uid("bob"), "four".to_string()),
    ]);
    assert_eq!(
        routed,
        vec![(1, "one".to_string()), (0, "three".to_string()), (1, "four".to_string())]
    );
    assert_eq!(actor.route(vec![]), vec![]);
}

#[test]
fn the_list_counts_no_further_than_a_byte() {
    let (send, _msgs) = kanal::bounded::<()>(1);
    let (mut actor, _to_actor) = Actor::<Crowd>::spawn(uid("0"), send.clone());
    for member in 1..255 {
        actor.enroll(uid(&format!("{member}")), send.clone());
    }
    assert_eq!(actor.member_count(), 255);
    assert_eq!(actor.open(), Some(255));
    actor.enroll(uid("255"), send.clone());
    actor.enroll(uid("256"), send.clone());
    assert_eq!(actor.member_count(), 257);
    assert_eq!(actor.open(), Some(255));
}

#[test]
fn client_messages_are_told_apart() {
    let join: ClientMsg<Tagged> = ClientMsg::Join { lobby: Some(4), client_token: uid("alice") };
    assert_eq!(join.into_join(), Some((uid("alice"), Some(4))));
    let join: ClientMsg<Tagged> = ClientMsg::Join { lobby: None, client_token: uid("bob") };
    assert_eq!(join.into_action(), None);
    let action: ClientMsg<Tagged> = ClientMsg::Action { action: Tagged(3) };
    assert_eq!(action.into_join(), None);
    let action: ClientMsg<Tagged> = ClientMsg::Action { action: Tagged(3) };
    assert_eq!(action.into_action(), Some(Tagged(3)));
}

#[test]
fn connect_request_carries_fresh_mailboxes() {
    let (req, connection) = connect_request::<Tagged>(uid("alice"), Some(12));
    assert_eq!(connection.user_id, uid("alice"));
    match &req {
        JoinReq::Connect { user_id, actor_id, send_server_msg, .. } => {
            assert_eq!(*user_id, uid("alice"));
            assert_eq!(*actor_id, Some(12));
            send_server_msg.send("hello".to_string()).unwrap();
        }
        JoinReq::Disconnect { .. } => unreachable!(),
    }
    assert_eq!(connection.server_msgs.try_recv().unwrap(), Some("hello".to_string()));
    let (mut sys, _queue) = system();
    let lobby = created(sys.join(req));
    assert_eq!(connection.server_msgs.try_recv().unwrap(), Some(format!("joined {lobby}")));
    assert!(connection.senders.try_recv().unwrap().is_some());
}
