use cadverse::network::{
    apply_update, same_peer, Coordinator, JoinForm, NetId, Password, PeerInfo, Peers, ToCoord, ToPeer,
    HEARTBEAT_TIMEOUT_NANOS,
};

fn addr(n: u8) -> iroh::EndpointAddr {
    iroh::EndpointAddr::new(iroh::SecretKey::from_bytes(&[n; 32]).public())
}

fn info(n: u8, name: &str, is_server: bool) -> PeerInfo {
    PeerInfo { addr: addr(n), name: name.to_string(), is_server }
}

fn id(n: u8) -> [u8; 32] {
    [n; 32]
}

fn names(list: &[PeerInfo]) -> Vec<String> {
    list.iter().map(|p| p.name.clone()).collect()
}

fn list_of(msg: &ToPeer) -> (&Vec<PeerInfo>, bool) {
    match msg {
        ToPeer::Ack(l) => (l, true),
        ToPeer::Broadcast(l) => (l, false),
    }
}

#[test]
fn same_peer_compares_all_bytes() {
    let a = [7u8; 32];
    let mut b = [7u8; 32];
    assert!(same_peer(&a, &b));
    b[31] = 8;
    assert!(!same_peer(&a, &b));
}

#[test]
fn new_coordinator_lists_itself() {
    let c = Coordinator::new(id(1), info(1, "coord", true));
    assert_eq!(names(&c.peer_list()), vec!["coord"]);
}

#[test]
fn register_acks_sender_and_broadcasts_to_others() {
    let mut c = Coordinator::new(id(1), info(1, "coord", true));
    let out = c.register(id(2), info(2, "a", false), 100);
    assert_eq!(out.len(), 1);
    assert_eq!(out[0].to, id(2));
    let (l, ack) = list_of(&out[0].msg);
    assert!(ack);
    assert_eq!(names(l), vec!["coord", "a"]);

    let out = c.register(id(3), info(3, "b", true), 200);
    assert_eq!(out.len(), 2);
    assert_eq!(out[0].to, id(3));
    assert!(list_of(&out[0].msg).1);
    assert_eq!(out[1].to, id(2));
    let (l, ack) = list_of(&out[1].msg);
    assert!(!ack);
    assert_eq!(names(l), vec!["coord", "a", "b"]);
    assert_eq!(l[2].addr, addr(3));
    assert!(l[2].is_server);
}

#[test]
fn register_again_replaces_entry_in_place() {
    let mut c = Coordinator::new(id(1), info(1, "coord", true));
    c.register(id(2), info(2, "a", false), 100);
    c.register(id(3), info(3, "b", false), 100);
    let out = c.register(id(2), info(2, "a2", true), 150);
    assert_eq!(names(&c.peer_list()), vec!["coord", "a2", "b"]);
    assert_eq!(out.len(), 2);
    assert_eq!(out[1].to, id(3));
}

#[test]
fn heartbeat_sends_nothing_and_keeps_members() {
    let mut c = Coordinator::new(id(1), info(1, "coord", true));
    c.register(id(2), info(2, "a", false), 100);
    c.heartbeat(id(2), 4_000_000_000);
    c.heartbeat(id(9), 4_000_000_000);
    assert_eq!(names(&c.peer_list()), vec!["coord", "a"]);
    let out = c.handle_message(id(2), ToCoord::Heartbeat, 4_500_000_000);
    assert!(out.is_empty());
}

#[test]
fn heartbeat_postpones_timeout() {
    let mut c = Coordinator::new(id(1), info(1, "coord", true));
    c.register(id(2), info(2, "a", false), 0);
    c.heartbeat(id(2), 4_000_000_000);
    let out = c.expire(8_000_000_000);
    assert!(out.is_empty());
    assert_eq!(names(&c.peer_list()), vec!["coord", "a"]);
    let out = c.expire(4_000_000_000 + HEARTBEAT_TIMEOUT_NANOS);
    assert!(out.is_empty());
    assert_eq!(names(&c.peer_list()), vec!["coord"]);
}

#[test]
fn expiry_drops_exactly_timed_out_and_broadcasts() {
    let mut c = Coordinator::new(id(1), info(1, "coord", true));
    c.register(id(2), info(2, "old", false), 0);
    c.register(id(3), info(3, "fresh", false), 3_000_000_000);
    let out = c.expire(HEARTBEAT_TIMEOUT_NANOS - 1);
    assert!(out.is_empty());
    assert_eq!(names(&c.peer_list()), vec!["coord", "old", "fresh"]);
    let out = c.expire(HEARTBEAT_TIMEOUT_NANOS);
    assert_eq!(names(&c.peer_list()), vec!["coord", "fresh"]);
    assert_eq!(out.len(), 1);
    assert_eq!(out[0].to, id(3));
    let (l, ack) = list_of(&out[0].msg);
    assert!(!ack);
    assert_eq!(names(l), vec!["coord", "fresh"]);
}

#[test]
fn expiry_never_drops_coordinator() {
    let mut c = Coordinator::new(id(1), info(1, "coord", true));
    let out = c.expire(u64::MAX);
    assert!(out.is_empty());
    assert_eq!(names(&c.peer_list()), vec!["coord"]);
}

#[test]
fn heartbeat_from_the_future_does_not_time_out() {
    let mut c = Coordinator::new(id(1), info(1, "coord", true));
    c.register(id(2), info(2, "a", false), 9_000_000_000);
    let out = c.expire(1);
    assert!(out.is_empty());
    assert_eq!(names(&c.peer_list()), vec!["coord", "a"]);
}

#[test]
fn disconnect_removes_and_broadcasts() {
    let mut c = Coordinator::new(id(1), info(1, "coord", true));
    c.register(id(2), info(2, "a", false), 0);
    c.register(id(3), info(3, "b", false), 0);
    let out = c.disconnect(id(2));
    assert_eq!(names(&c.peer_list()), vec!["coord", "b"]);
    assert_eq!(out.len(), 1);
    assert_eq!(out[0].to, id(3));
    assert_eq!(names(list_of(&out[0].msg).0), vec!["coord", "b"]);
}

#[test]
fn disconnect_unknown_changes_nothing() {
    let mut c = Coordinator::new(id(1), info(1, "coord", true));
    c.register(id(2), info(2, "a", false), 0);
    let out = c.disconnect(id(5));
    assert!(out.is_empty());
    assert_eq!(names(&c.peer_list()), vec!["coord", "a"]);
}

#[test]
fn register_then_disconnect_restores_membership() {
    let mut c = Coordinator::new(id(1), info(1, "coord", true));
    c.register(id(2), info(2, "a", false), 0);
    let before = names(&c.peer_list());
    c.register(id(3), info(3, "b", false), 0);
    c.disconnect(id(3));
    assert_eq!(names(&c.peer_list()), before);
}

#[test]
fn member_takes_list_from_ack_and_broadcast() {
    let mut list: Vec<PeerInfo> = Vec::new();
    apply_update(&mut list, ToPeer::Ack(vec![info(1, "coord", true), info(2, "a", false)]));
    assert_eq!(names(&list), vec!["coord", "a"]);
    apply_update(&mut list, ToPeer::Broadcast(vec![info(1, "coord", true)]));
    assert_eq!(names(&list), vec!["coord"]);
}

#[test]
fn get_peers_of_coordinator_and_member() {
    let mut c = Coordinator::new(id(1), info(1, "coord", true));
    c.register(id(2), info(2, "a", false), 0);
    let peers = Peers::Coord(c);
    assert_eq!(names(&peers.get_peers()), vec!["coord", "a"]);
    let peers = Peers::Peer(vec![info(4, "x", false)]);
    assert_eq!(names(&peers.get_peers()), vec!["x"]);
}

#[test]
fn join_form_gives_own_entry() {
    let form = JoinForm {
        net_id: NetId("group".to_string()),
        pw: Password("pw".to_string()),
        my_name: "me".to_string(),
        is_server: true,
    };
    let me = form.peer_info(addr(5));
    assert_eq!(me.name, "me");
    assert!(me.is_server);
    assert_eq!(me.addr, addr(5));
    assert_eq!(form.net_id.0, "group");
    assert_eq!(form.pw.0, "pw");
}

#[test]
fn peer_info_clone_is_equal() {
    let a = info(3, "n", true);
    let b = a.clone();
    assert_eq!(a.addr, b.addr);
    assert_eq!(a.name, b.name);
    assert_eq!(a.is_server, b.is_server);
}

#[test]
fn broadcast_reaches_every_other_connected_member() {
    let mut c = Coordinator::new(id(1), info(1, "coord", true));
    c.register(id(2), info(2, "a", false), 0);
    c.register(id(3), info(3, "b", false), 0);
    c.register(id(4), info(4, "c", false), 0);
    let out = c.register(id(5), info(5, "d", false), 0);
    let recipients: Vec<[u8; 32]> = out.iter().map(|o| o.to).collect();
    assert_eq!(recipients, vec![id(5), id(2), id(3), id(4)]);
    for o in &out {
        assert_eq!(names(list_of(&o.msg).0), vec!["coord", "a", "b", "c", "d"]);
    }
    assert!(c.contains(&id(5)));
    assert!(!c.contains(&id(9)));
}

#[test]
fn expire_twice_at_same_time_drops_nothing_more() {
    let mut c = Coordinator::new(id(1), info(1, "coord", true));
    c.register(id(2), info(2, "a", false), 0);
    c.register(id(3), info(3, "b", false), 2_000_000_000);
    let first = c.expire(6_000_000_000);
    assert_eq!(first.len(), 1);
    let after_first = names(&c.peer_list());
    let second = c.expire(6_000_000_000);
    assert!(second.is_empty());
    assert_eq!(names(&c.peer_list()), after_first);
}
