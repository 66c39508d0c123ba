//! Group membership of the peer-to-peer network: who is in a group, what the
//! coordinator keeps for each member, and the messages it sends when the
//! membership changes.
//!
//! The coordinator is a state machine. Whoever runs the connections hands it
//! each event (a peer registered, sent a heartbeat, disconnected, or the clock
//! moved on) and sends out the messages it returns.

use vstd::prelude::*;

verus! {

#[verifier::external_type_specification]
#[verifier::external_body]
pub struct ExEndpointAddr(iroh::EndpointAddr);

/// `iroh::EndpointAddr` derives `Clone` over its fields (an id and a set of
/// transport addresses): the copy is the same address.
pub assume_specification[ <iroh::EndpointAddr as Clone>::clone ](addr: &iroh::EndpointAddr) -> (copy: iroh::EndpointAddr)
    ensures
        copy == *addr,
;

/// The name of a group.
pub struct NetId(pub String);

/// The password of a group.
pub struct Password(pub String);

/// What a peer gives to join a group.
pub struct JoinForm {
    pub net_id: NetId,
    pub pw: Password,
    pub my_name: String,
    pub is_server: bool,
}

/// What the members of a group know of one member.
pub struct PeerInfo {
    pub addr: iroh::EndpointAddr,
    pub name: String,
    pub is_server: bool,
}

impl Clone for PeerInfo {
    fn clone(&self) -> (copy: Self)
        ensures
            copy == *self,
    {
        PeerInfo { addr: self.addr.clone(), name: self.name.clone(), is_server: self.is_server }
    }
}

impl JoinForm {
    /// The entry under which this peer is listed, once it is reachable at `addr`.
    pub fn peer_info(&self, addr: iroh::EndpointAddr) -> (info: PeerInfo)
        ensures
            info.addr == addr,
            info.name@ == self.my_name@,
            info.is_server == self.is_server,
    {
        PeerInfo { addr, name: self.my_name.clone(), is_server: self.is_server }
    }
}

/// The 32 bytes of a peer's endpoint id.
pub type PeerId = [u8; 32];

/// Whether two ids are the same.
pub fn same_peer(a: &PeerId, b: &PeerId) -> (same: bool)
    ensures
        same == (a@ == b@),
{
    let mut i: usize = 0;
    while i < 32
        invariant
            0 <= i <= 32,
            a@.len() == 32,
            b@.len() == 32,
            forall|j: int| 0 <= j < i ==> a@[j] == b@[j],
        decreases 32 - i,
    {
        if a[i] != b[i] {
            return false;
        }
        i = i + 1;
    }
    assert(a@ =~= b@);
    true
}

/// A member is dropped when its last heartbeat is this many nanoseconds old.
pub const HEARTBEAT_TIMEOUT_NANOS: u64 = 5_000_000_000;

/// What the coordinator keeps of one member. `connected` is false only for
/// the coordinator's own entry, which has no connection and no heartbeat.
/// `last_seen` is the time of the last register or heartbeat, in nanoseconds
/// of a monotonic clock.
pub struct PeerSlot {
    pub id: PeerId,
    pub info: PeerInfo,
    pub connected: bool,
    pub last_seen: Option<u64>,
}

/// What the coordinator sends to a member.
pub enum ToPeer {
    /// The member list, as the answer to a registration.
    Ack(Vec<PeerInfo>),
    /// The member list, after the membership changed.
    Broadcast(Vec<PeerInfo>),
}

/// What a member sends to the coordinator.
pub enum ToCoord {
    Register(PeerInfo),
    Heartbeat,
}

/// A message and the member it goes to.
pub struct Outgoing {
    pub to: PeerId,
    pub msg: ToPeer,
}

/// The content of an outgoing message.
pub struct OutgoingView {
    pub to: Seq<u8>,
    pub ack: bool,
    pub list: Seq<PeerInfo>,
}

impl View for Outgoing {
    type V = OutgoingView;

    open spec fn view(&self) -> OutgoingView {
        match self.msg {
            ToPeer::Ack(list) => OutgoingView { to: self.to@, ack: true, list: list@ },
            ToPeer::Broadcast(list) => OutgoingView { to: self.to@, ack: false, list: list@ },
        }
    }
}

/// The views of a sequence of messages.
pub open spec fn views_of(out: Seq<Outgoing>) -> Seq<OutgoingView> {
    out.map_values(|o: Outgoing| o@)
}

/// Whether some entry has the id.
pub open spec fn has_peer(slots: Seq<PeerSlot>, id: Seq<u8>) -> bool {
    exists|i: int| 0 <= i < slots.len() && slots[i].id@ == id
}

/// The position of the entry with the id, or -1.
pub open spec fn position_of(slots: Seq<PeerSlot>, id: Seq<u8>) -> int {
    if has_peer(slots, id) {
        choose|i: int| 0 <= i < slots.len() && slots[i].id@ == id
    } else {
        -1
    }
}

/// No id occurs twice.
pub open spec fn ids_unique(slots: Seq<PeerSlot>) -> bool {
    forall|i: int, j: int|
        0 <= i < slots.len() && 0 <= j < slots.len() && i != j ==> slots[i].id@ != slots[j].id@
}

/// The member list: the entries' infos, in order.
pub open spec fn peer_infos(slots: Seq<PeerSlot>) -> Seq<PeerInfo> {
    slots.map_values(|s: PeerSlot| s.info)
}


/// The view of an optional id.
pub open spec fn id_view(id: Option<PeerId>) -> Option<Seq<u8>> {
    match id {
        Some(i) => Some(i@),
        None => None,
    }
}

/// Whether a membership broadcast goes to this entry: it must have a
/// connection and not be the excepted peer.
pub open spec fn is_target(slot: PeerSlot, except: Option<Seq<u8>>) -> bool {
    slot.connected && except != Some(slot.id@)
}

/// The broadcasts of `list` to every target entry, in the entries' order.
pub open spec fn broadcasts(slots: Seq<PeerSlot>, except: Option<Seq<u8>>, list: Seq<PeerInfo>) -> Seq<OutgoingView>
    decreases slots.len(),
{
    if slots.len() == 0 {
        seq![]
    } else {
        let rest = broadcasts(slots.drop_last(), except, list);
        if is_target(slots.last(), except) {
            rest.push(OutgoingView { to: slots.last().id@, ack: false, list })
        } else {
            rest
        }
    }
}

/// The entry of a member that has just registered or sent a heartbeat.
pub open spec fn fresh_slot(id: PeerId, info: PeerInfo, now: u64) -> PeerSlot {
    PeerSlot { id, info, connected: true, last_seen: Some(now) }
}

/// The entries after `id` registered with `info` at `now`: its entry is
/// replaced in place if it had one, else appended.
pub open spec fn registered(slots: Seq<PeerSlot>, id: PeerId, info: PeerInfo, now: u64) -> Seq<PeerSlot> {
    let p = position_of(slots, id@);
    if p >= 0 {
        slots.update(p, fresh_slot(id, info, now))
    } else {
        slots.push(fresh_slot(id, info, now))
    }
}

/// The entries after a heartbeat from `id` at `now`: only its `last_seen`
/// changes, and nothing changes if it has no entry.
pub open spec fn heartbeat_applied(slots: Seq<PeerSlot>, id: PeerId, now: u64) -> Seq<PeerSlot> {
    let p = position_of(slots, id@);
    if p >= 0 {
        slots.update(p, PeerSlot { last_seen: Some(now), ..slots[p] })
    } else {
        slots
    }
}

/// The entries after the connection of `id` closed.
pub open spec fn disconnected(slots: Seq<PeerSlot>, id: PeerId) -> Seq<PeerSlot> {
    let p = position_of(slots, id@);
    if p >= 0 {
        slots.remove(p)
    } else {
        slots
    }
}

/// Whether the entry's last heartbeat is at least the timeout old at `now`.
/// An entry without a heartbeat (the coordinator's own) never times out, nor
/// does one whose heartbeat is later than `now`.
pub open spec fn timed_out(slot: PeerSlot, now: u64) -> bool {
    match slot.last_seen {
        Some(t) => now - t >= HEARTBEAT_TIMEOUT_NANOS,
        None => false,
    }
}

/// The entries that have not timed out at `now`, in order.
pub open spec fn after_expiry(slots: Seq<PeerSlot>, now: u64) -> Seq<PeerSlot>
    decreases slots.len(),
{
    if slots.len() == 0 {
        seq![]
    } else {
        let rest = after_expiry(slots.drop_last(), now);
        if timed_out(slots.last(), now) {
            rest
        } else {
            rest.push(slots.last())
        }
    }
}

pub struct Coordinator {
    slots: Vec<PeerSlot>,
}

impl View for Coordinator {
    type V = Seq<PeerSlot>;

    closed spec fn view(&self) -> Seq<PeerSlot> {
        self.slots@
    }
}

impl Coordinator {
    pub open spec fn wf(&self) -> bool {
        ids_unique(self@)
    }

    /// The coordinator of a new group: its own entry is the only one, with no
    /// connection and no heartbeat.
    pub fn new(my_id: PeerId, my_info: PeerInfo) -> (c: Coordinator)
        ensures
            c.wf(),
            c@ == seq![PeerSlot { id: my_id, info: my_info, connected: false, last_seen: None }],
    {
        let mut slots = Vec::new();
        slots.push(PeerSlot { id: my_id, info: my_info, connected: false, last_seen: None });
        Coordinator { slots }
    }

    /// The position of the entry with the id, if there is one.
    fn find(&self, id: &PeerId) -> (r: Option<usize>)
        requires
            self.wf(),
        ensures
            match r {
                Some(i) => i < self@.len() && self@[i as int].id@ == id@ && position_of(self@, id@) == i,
                None => !has_peer(self@, id@) && position_of(self@, id@) == -1,
            },
    {
        let n = self.slots.len();
        let mut i: usize = 0;
        while i < n
            invariant
                n == self@.len(),
                0 <= i <= n,
                self.wf(),
                forall|j: int| 0 <= j < i ==> self@[j].id@ != id@,
            decreases n - i,
        {
            if same_peer(&self.slots[i].id, id) {
                proof {
                    let p = position_of(self@, id@);
                    assert(has_peer(self@, id@));
                    assert(self@[p].id@ == id@);
                    assert(p == i as int);
                }
                return Some(i);
            }
            i = i + 1;
        }
        None
    }

    /// Whether `id` has an entry.
    pub fn contains(&self, id: &PeerId) -> (found: bool)
        requires
            self.wf(),
        ensures
            found == has_peer(self@, id@),
    {
        self.find(id).is_some()
    }

    /// Appends to `out` the broadcast of the member list to every entry with
    /// a connection, except the peer `except`.
    fn broadcast(&self, except: Option<PeerId>, out: &mut Vec<Outgoing>)
        ensures
            views_of(final(out)@) == views_of(old(out)@) + broadcasts(self@, id_view(except), peer_infos(self@)),
    {
        let ghost start = views_of(out@);
        let ghost list = peer_infos(self@);
        let n = self.slots.len();
        let mut i: usize = 0;
        while i < n
            invariant
                n == self@.len(),
                0 <= i <= n,
                list == peer_infos(self@),
                views_of(out@) == start + broadcasts(self@.take(i as int), id_view(except), list),
            decreases n - i,
        {
            let connected = self.slots[i].connected;
            let excepted = match &except {
                Some(e) => same_peer(&self.slots[i].id, e),
                None => false,
            };
            let ghost before = out@;
            if connected && !excepted {
                let msg = ToPeer::Broadcast(self.peer_list());
                out.push(Outgoing { to: self.slots[i].id, msg });
                assert(views_of(out@) =~= views_of(before).push(out@.last()@));
            }
            proof {
                assert(self@.take(i + 1).drop_last() =~= self@.take(i as int));
                assert(self@.take(i + 1).last() == self@[i as int]);
            }
            i = i + 1;
        }
        assert(self@.take(n as int) =~= self@);
    }

    /// A member registers (or registers again) with `info` at `now`. The
    /// member list is sent back to it as an `Ack`, and to every other
    /// connected member as a `Broadcast`.
    pub fn register(&mut self, id: PeerId, info: PeerInfo, now: u64) -> (out: Vec<Outgoing>)
        requires
            old(self).wf(),
        ensures
            final(self).wf(),
            final(self)@ == registered(old(self)@, id, info, now),
            views_of(out@) == seq![OutgoingView { to: id@, ack: true, list: peer_infos(final(self)@) }]
                + broadcasts(final(self)@, Some(id@), peer_infos(final(self)@)),
    {
        let ghost old_slots = self@;
        let slot = PeerSlot { id, info, connected: true, last_seen: Some(now) };
        match self.find(&id) {
            Some(i) => {
                self.slots.set(i, slot);
            }
            None => {
                self.slots.push(slot);
            }
        }
        proof {
            assert(self@ == registered(old_slots, id, info, now));
            assert forall|a: int, b: int|
                0 <= a < self@.len() && 0 <= b < self@.len() && a != b implies self@[a].id@ != self@[b].id@ by {
                if a < old_slots.len() && b < old_slots.len() {
                    if self@[a].id@ == id@ || self@[b].id@ == id@ {
                    }
                }
            }
        }
        let mut out: Vec<Outgoing> = Vec::new();
        out.push(Outgoing { to: id, msg: ToPeer::Ack(self.peer_list()) });
        assert(views_of(out@) =~= seq![OutgoingView { to: id@, ack: true, list: peer_infos(self@) }]);
        self.broadcast(Some(id), &mut out);
        out
    }

    /// A heartbeat from `id` at `now`: its `last_seen` moves to `now`. Nothing
    /// is sent, and nothing changes if `id` has no entry.
    pub fn heartbeat(&mut self, id: PeerId, now: u64)
        requires
            old(self).wf(),
        ensures
            final(self).wf(),
            final(self)@ == heartbeat_applied(old(self)@, id, now),
    {
        let ghost old_slots = self@;
        match self.find(&id) {
            Some(i) => {
                let old_slot = &self.slots[i];
                let slot = PeerSlot {
                    id: old_slot.id,
                    info: old_slot.info.clone(),
                    connected: old_slot.connected,
                    last_seen: Some(now),
                };
                self.slots.set(i, slot);
                proof {
                    assert(forall|a: int| 0 <= a < self@.len() ==> self@[a].id@ == old_slots[a].id@);
                }
            }
            None => {}
        }
    }

    /// The connection of `id` closed: its entry is removed, and if there was
    /// one the member list goes to every connected member that is left.
    pub fn disconnect(&mut self, id: PeerId) -> (out: Vec<Outgoing>)
        requires
            old(self).wf(),
        ensures
            final(self).wf(),
            final(self)@ == disconnected(old(self)@, id),
            has_peer(old(self)@, id@) ==> views_of(out@) == broadcasts(final(self)@, None, peer_infos(final(self)@)),
            !has_peer(old(self)@, id@) ==> out@.len() == 0,
    {
        let ghost old_slots = self@;
        let mut out: Vec<Outgoing> = Vec::new();
        match self.find(&id) {
            Some(i) => {
                let _ = self.slots.remove(i);
                proof {
                    assert forall|a: int, b: int|
                        0 <= a < self@.len() && 0 <= b < self@.len() && a != b implies self@[a].id@ != self@[b].id@ by {
                        let oa = if a < i { a } else { a + 1 };
                        let ob = if b < i { b } else { b + 1 };
                        assert(self@[a] == old_slots[oa]);
                        assert(self@[b] == old_slots[ob]);
                    }
                }
                assert(views_of(out@) =~= seq![]);
                self.broadcast(None, &mut out);
                assert(views_of(out@) =~= broadcasts(self@, None, peer_infos(self@)));
            }
            None => {}
        }
        out
    }

    /// The clock reads `now`: every entry whose heartbeat is at least the
    /// timeout old is removed, and if any was, the member list goes to every
    /// connected member that is left.
    pub fn expire(&mut self, now: u64) -> (out: Vec<Outgoing>)
        requires
            old(self).wf(),
        ensures
            final(self).wf(),
            final(self)@ == after_expiry(old(self)@, now),
            final(self)@.len() < old(self)@.len() ==> views_of(out@) == broadcasts(final(self)@, None, peer_infos(final(self)@)),
            final(self)@.len() == old(self)@.len() ==> out@.len() == 0,
    {
        let ghost old_slots = self@;
        let n = self.slots.len();
        let mut kept: Vec<PeerSlot> = Vec::new();
        let mut i: usize = 0;
        while i < n
            invariant
                n == self@.len(),
                self@ == old_slots,
                ids_unique(old_slots),
                0 <= i <= n,
                kept@ == after_expiry(old_slots.take(i as int), now),
                kept@.len() <= i,
                ids_unique(kept@),
                forall|k: int| 0 <= k < kept@.len() ==> exists|j: int| 0 <= j < i && old_slots[j] == #[trigger] kept@[k],
            decreases n - i,
        {
            let slot = &self.slots[i];
            let out_of_date = match slot.last_seen {
                Some(t) => now >= t && now - t >= HEARTBEAT_TIMEOUT_NANOS,
                None => false,
            };
            proof {
                assert(old_slots.take(i + 1).drop_last() =~= old_slots.take(i as int));
                assert(old_slots.take(i + 1).last() == old_slots[i as int]);
                assert(out_of_date == timed_out(old_slots[i as int], now));
            }
            if !out_of_date {
                let ghost before = kept@;
                kept.push(PeerSlot {
                    id: slot.id,
                    info: slot.info.clone(),
                    connected: slot.connected,
                    last_seen: slot.last_seen,
                });
                proof {
                    assert(kept@[kept@.len() - 1] == old_slots[i as int]);
                    assert forall|k: int| 0 <= k < kept@.len() implies exists|j: int| 0 <= j < i + 1 && old_slots[j] == #[trigger] kept@[k] by {
                        if k < before.len() {
                            assert(kept@[k] == before[k]);
                        } else {
                            assert(old_slots[i as int] == kept@[k]);
                        }
                    }
                    assert forall|a: int, b: int|
                        0 <= a < kept@.len() && 0 <= b < kept@.len() && a != b implies kept@[a].id@ != kept@[b].id@ by {
                        if a < before.len() && b < before.len() {
                            assert(kept@[a] == before[a]);
                            assert(kept@[b] == before[b]);
                        } else if a < before.len() {
                            assert(kept@[a] == before[a]);
                            let j = choose|j: int| 0 <= j < i && old_slots[j] == #[trigger] before[a];
                            assert(old_slots[j].id@ != old_slots[i as int].id@);
                        } else if b < before.len() {
                            assert(kept@[b] == before[b]);
                            let j = choose|j: int| 0 <= j < i && old_slots[j] == #[trigger] before[b];
                            assert(old_slots[j].id@ != old_slots[i as int].id@);
                        }
                    }
                }
            }
            i = i + 1;
        }
        proof {
            assert(old_slots.take(n as int) =~= old_slots);
        }
        let removed = kept.len() < n;
        self.slots = kept;
        let mut out: Vec<Outgoing> = Vec::new();
        if removed {
            assert(views_of(out@) =~= seq![]);
            self.broadcast(None, &mut out);
            assert(views_of(out@) =~= broadcasts(self@, None, peer_infos(self@)));
        }
        out
    }

    /// A message from the member `from`, received at `now`.
    pub fn handle_message(&mut self, from: PeerId, msg: ToCoord, now: u64) -> (out: Vec<Outgoing>)
        requires
            old(self).wf(),
        ensures
            final(self).wf(),
            match msg {
                ToCoord::Register(info) => {
                    &&& final(self)@ == registered(old(self)@, from, info, now)
                    &&& views_of(out@) == seq![OutgoingView { to: from@, ack: true, list: peer_infos(final(self)@) }]
                        + broadcasts(final(self)@, Some(from@), peer_infos(final(self)@))
                },
                ToCoord::Heartbeat => {
                    &&& final(self)@ == heartbeat_applied(old(self)@, from, now)
                    &&& out@.len() == 0
                },
            },
    {
        match msg {
            ToCoord::Register(info) => self.register(from, info, now),
            ToCoord::Heartbeat => {
                self.heartbeat(from, now);
                Vec::new()
            },
        }
    }

    /// The member list, in the coordinator's order.
    pub fn peer_list(&self) -> (list: Vec<PeerInfo>)
        ensures
            list@ == peer_infos(self@),
    {
        let n = self.slots.len();
        let mut list: Vec<PeerInfo> = Vec::new();
        let mut i: usize = 0;
        while i < n
            invariant
                n == self@.len(),
                0 <= i <= n,
                list@ == peer_infos(self@.take(i as int)),
            decreases n - i,
        {
            list.push(self.slots[i].info.clone());
            assert(self@.take(i + 1) =~= self@.take(i as int).push(self@[i as int]));
            assert(peer_infos(self@.take(i + 1)) =~= peer_infos(self@.take(i as int)).push(self@[i as int].info));
            i = i + 1;
        }
        assert(self@.take(n as int) =~= self@);
        list
    }
}

/// The member list a message carries.
pub open spec fn carried_list(msg: ToPeer) -> Seq<PeerInfo> {
    match msg {
        ToPeer::Ack(list) => list@,
        ToPeer::Broadcast(list) => list@,
    }
}

/// A member (not the coordinator) takes the list in a message from the
/// coordinator as its member list, whether it is an `Ack` or a `Broadcast`.
pub fn apply_update(list: &mut Vec<PeerInfo>, msg: ToPeer)
    ensures
        final(list)@ == carried_list(msg),
{
    match msg {
        ToPeer::Ack(new_list) => {
            *list = new_list;
        },
        ToPeer::Broadcast(new_list) => {
            *list = new_list;
        },
    }
}

/// What a peer knows of its group: the coordinator keeps the membership
/// itself, any other member the last list the coordinator sent it.
pub enum Peers {
    Coord(Coordinator),
    Peer(Vec<PeerInfo>),
}

impl Peers {
    /// The member list this peer knows.
    pub open spec fn known_list(&self) -> Seq<PeerInfo> {
        match self {
            Peers::Coord(c) => peer_infos(c@),
            Peers::Peer(list) => list@,
        }
    }

    /// A copy of the member list this peer knows.
    pub fn get_peers(&self) -> (list: Vec<PeerInfo>)
        ensures
            list@ == self.known_list(),
    {
        match self {
            Peers::Coord(c) => c.peer_list(),
            Peers::Peer(list) => {
                let copy = list.clone();
                assert(copy@ =~= list@);
                copy
            },
        }
    }
}

/// After a registration the member is listed with exactly what it sent, as
/// connected and seen at the time of registering; every other member keeps
/// its entry, and no id occurs twice.
pub proof fn lemma_register_lists_member(slots: Seq<PeerSlot>, id: PeerId, info: PeerInfo, now: u64)
    requires
        ids_unique(slots),
    ensures
        ids_unique(registered(slots, id, info, now)),
        has_peer(registered(slots, id, info, now), id@),
        registered(slots, id, info, now)[position_of(registered(slots, id, info, now), id@)] == fresh_slot(id, info, now),
        peer_infos(registered(slots, id, info, now)).contains(info),
        forall|i: int|
            0 <= i < slots.len() && slots[i].id@ != id@ ==> registered(slots, id, info, now)[i] == slots[i],
        has_peer(slots, id@) ==> registered(slots, id, info, now).len() == slots.len(),
        !has_peer(slots, id@) ==> registered(slots, id, info, now).len() == slots.len() + 1,
{
    let r = registered(slots, id, info, now);
    let p = position_of(slots, id@);
    let q = if p >= 0 { p } else { slots.len() as int };
    assert(r[q].id@ == id@);
    assert(has_peer(r, id@));
    assert forall|a: int, b: int| 0 <= a < r.len() && 0 <= b < r.len() && a != b implies r[a].id@ != r[b].id@ by {
        if a != q && b != q {
            assert(r[a] == slots[a] && r[b] == slots[b]);
        } else if a == q {
            assert(r[b] == slots[b]);
        } else {
            assert(r[a] == slots[a]);
        }
    }
    let pr = position_of(r, id@);
    assert(r[pr].id@ == id@);
    assert(pr == q);
    assert(peer_infos(r)[q] == info);
}

/// A heartbeat changes no member and no member's info: the member list is
/// what it was.
pub proof fn lemma_heartbeat_keeps_members(slots: Seq<PeerSlot>, id: PeerId, now: u64)
    requires
        ids_unique(slots),
    ensures
        ids_unique(heartbeat_applied(slots, id, now)),
        heartbeat_applied(slots, id, now).len() == slots.len(),
        forall|i: int| 0 <= i < slots.len() ==> #[trigger] heartbeat_applied(slots, id, now)[i].id@ == slots[i].id@,
        peer_infos(heartbeat_applied(slots, id, now)) == peer_infos(slots),
{
    let h = heartbeat_applied(slots, id, now);
    assert(peer_infos(h) =~= peer_infos(slots));
}

/// After a disconnection the peer is gone and the other members stay, in
/// their order.
pub proof fn lemma_disconnect_removes_member(slots: Seq<PeerSlot>, id: PeerId)
    requires
        ids_unique(slots),
    ensures
        ids_unique(disconnected(slots, id)),
        !has_peer(disconnected(slots, id), id@),
        forall|other: Seq<u8>| other != id@ ==> (has_peer(disconnected(slots, id), other) <==> has_peer(slots, other)),
{
    let d = disconnected(slots, id);
    let p = position_of(slots, id@);
    if p >= 0 {
        assert forall|a: int| 0 <= a < d.len() implies d[a].id@ != id@ by {
            let oa = if a < p { a } else { a + 1 };
            assert(d[a] == slots[oa]);
        }
        assert forall|other: Seq<u8>| other != id@ implies (has_peer(d, other) <==> has_peer(slots, other)) by {
            if has_peer(slots, other) {
                let j = choose|j: int| 0 <= j < slots.len() && slots[j].id@ == other;
                let k = if j < p { j } else { j - 1 };
                assert(d[k] == slots[j]);
            }
            if has_peer(d, other) {
                let k = choose|k: int| 0 <= k < d.len() && d[k].id@ == other;
                let j = if k < p { k } else { k + 1 };
                assert(d[k] == slots[j]);
            }
        }
        assert forall|a: int, b: int| 0 <= a < d.len() && 0 <= b < d.len() && a != b implies d[a].id@ != d[b].id@ by {
            let oa = if a < p { a } else { a + 1 };
            let ob = if b < p { b } else { b + 1 };
            assert(d[a] == slots[oa]);
            assert(d[b] == slots[ob]);
        }
    }
}

/// A peer that registers and then disconnects leaves the membership as it
/// found it.
pub proof fn lemma_register_then_disconnect(slots: Seq<PeerSlot>, id: PeerId, info: PeerInfo, now: u64)
    requires
        ids_unique(slots),
        !has_peer(slots, id@),
    ensures
        disconnected(registered(slots, id, info, now), id) == slots,
{
    lemma_register_lists_member(slots, id, info, now);
    let r = registered(slots, id, info, now);
    assert(r == slots.push(fresh_slot(id, info, now)));
    let p = position_of(r, id@);
    assert(r[slots.len() as int].id@ == id@);
    assert(p == slots.len());
    assert(r.remove(p) =~= slots);
}

/// After expiry exactly the entries that had not timed out are left, in
/// order; in particular an entry that never sent a heartbeat (the
/// coordinator's own) is never dropped.
pub proof fn lemma_expired_keeps_exactly_live(slots: Seq<PeerSlot>, now: u64)
    ensures
        forall|s: PeerSlot| after_expiry(slots, now).contains(s) <==> (slots.contains(s) && !timed_out(s, now)),
        forall|i: int| 0 <= i < slots.len() && slots[i].last_seen is None ==> after_expiry(slots, now).contains(slots[i]),
        after_expiry(slots, now).len() <= slots.len(),
    decreases slots.len(),
{
    if slots.len() > 0 {
        let init = slots.drop_last();
        lemma_expired_keeps_exactly_live(init, now);
        assert forall|s: PeerSlot| slots.contains(s) <==> (init.contains(s) || s == slots.last()) by {
            if slots.contains(s) {
                let j = choose|j: int| 0 <= j < slots.len() && slots[j] == s;
                if j < init.len() {
                    assert(init[j] == s);
                }
            }
            if init.contains(s) {
                let j = choose|j: int| 0 <= j < init.len() && init[j] == s;
                assert(slots[j] == s);
            }
            if s == slots.last() {
                assert(slots[slots.len() - 1] == s);
            }
        }
        let rest = after_expiry(init, now);
        if !timed_out(slots.last(), now) {
            assert forall|s: PeerSlot| rest.push(slots.last()).contains(s) <==> (rest.contains(s) || s == slots.last()) by {
                if rest.push(slots.last()).contains(s) {
                    let j = choose|j: int| 0 <= j < rest.len() + 1 && rest.push(slots.last())[j] == s;
                    if j < rest.len() {
                        assert(rest[j] == s);
                    }
                }
                if rest.contains(s) {
                    let j = choose|j: int| 0 <= j < rest.len() && rest[j] == s;
                    assert(rest.push(slots.last())[j] == s);
                }
                if s == slots.last() {
                    assert(rest.push(slots.last())[rest.len() as int] == s);
                }
            }
        }
        assert forall|i: int| 0 <= i < slots.len() && slots[i].last_seen is None implies after_expiry(slots, now).contains(slots[i]) by {
            assert(slots.contains(slots[i]));
        }
    }
}

/// Expiring twice at the same time drops nothing more the second time.
pub proof fn lemma_expire_idempotent(slots: Seq<PeerSlot>, now: u64)
    ensures
        after_expiry(after_expiry(slots, now), now) == after_expiry(slots, now),
    decreases slots.len(),
{
    if slots.len() > 0 {
        let init = slots.drop_last();
        lemma_expire_idempotent(init, now);
        let rest = after_expiry(init, now);
        if !timed_out(slots.last(), now) {
            let e = rest.push(slots.last());
            assert(e.drop_last() =~= rest);
            assert(e.last() == slots.last());
        }
    }
}

/// A member whose heartbeats come at most four seconds apart (the interval
/// at which members send them) is never dropped.
pub proof fn lemma_heartbeat_interval_keeps_member(slot: PeerSlot, t: u64, now: u64)
    requires
        slot.last_seen == Some(t),
        now <= t + 4_000_000_000,
    ensures
        !timed_out(slot, now),
{
}

/// Every connected entry other than the excepted peer gets the broadcast.
pub proof fn lemma_broadcast_reaches_all(slots: Seq<PeerSlot>, except: Option<Seq<u8>>, list: Seq<PeerInfo>)
    ensures
        forall|j: int|
            0 <= j < slots.len() && is_target(slots[j], except) ==> exists|k: int|
                0 <= k < broadcasts(slots, except, list).len() && #[trigger] broadcasts(slots, except, list)[k].to
                    == slots[j].id@,
    decreases slots.len(),
{
    if slots.len() > 0 {
        let init = slots.drop_last();
        lemma_broadcast_reaches_all(init, except, list);
        let b = broadcasts(slots, except, list);
        let rest = broadcasts(init, except, list);
        assert forall|j: int| 0 <= j < slots.len() && is_target(slots[j], except) implies exists|k: int|
            0 <= k < b.len() && #[trigger] b[k].to == slots[j].id@ by {
            if j < init.len() {
                assert(slots[j] == init[j]);
                let k = choose|k: int| 0 <= k < rest.len() && #[trigger] rest[k].to == init[j].id@;
                assert(b[k] == rest[k]);
            } else {
                assert(slots[j] == slots.last());
                assert(b[rest.len() as int].to == slots[j].id@);
            }
        }
    }
}

/// A membership broadcast goes only to connected entries, never to the
/// excepted peer, and always carries the given list.
pub proof fn lemma_broadcast_targets(slots: Seq<PeerSlot>, except: Option<Seq<u8>>, list: Seq<PeerInfo>)
    ensures
        broadcasts(slots, except, list).len() <= slots.len(),
        forall|k: int| 0 <= k < broadcasts(slots, except, list).len() ==> {
            &&& !(#[trigger] broadcasts(slots, except, list)[k]).ack
            &&& broadcasts(slots, except, list)[k].list == list
            &&& except != Some(broadcasts(slots, except, list)[k].to)
            &&& exists|j: int| 0 <= j < slots.len() && slots[j].connected && slots[j].id@ == broadcasts(slots, except, list)[k].to
        },
    decreases slots.len(),
{
    if slots.len() > 0 {
        let init = slots.drop_last();
        lemma_broadcast_targets(init, except, list);
        let b = broadcasts(slots, except, list);
        let rest = broadcasts(init, except, list);
        assert forall|k: int| 0 <= k < b.len() implies {
            &&& !(#[trigger] b[k]).ack
            &&& b[k].list == list
            &&& except != Some(b[k].to)
            &&& exists|j: int| 0 <= j < slots.len() && slots[j].connected && slots[j].id@ == b[k].to
        } by {
            if k < rest.len() {
                assert(b[k] == rest[k]);
                let j = choose|j: int| 0 <= j < init.len() && init[j].connected && init[j].id@ == rest[k].to;
                assert(slots[j] == init[j]);
            } else {
                assert(slots[slots.len() - 1] == slots.last());
            }
        }
    }
}

/// A membership broadcast reaches every entry that has a connection and is
/// not the excepted peer, whatever that entry's info says.
pub proof fn lemma_broadcast_reaches_connected(slots: Seq<PeerSlot>, except: Option<Seq<u8>>, list: Seq<PeerInfo>)
    ensures
        forall|j: int|
            0 <= j < slots.len() && slots[j].connected && except != Some(slots[j].id@) ==> exists|k: int|
                0 <= k < broadcasts(slots, except, list).len() && #[trigger] broadcasts(slots, except, list)[k].to
                    == slots[j].id@,
    decreases slots.len(),
{
    if slots.len() > 0 {
        let init = slots.drop_last();
        lemma_broadcast_reaches_connected(init, except, list);
        let b = broadcasts(slots, except, list);
        let rest = broadcasts(init, except, list);
        assert forall|j: int| 0 <= j < slots.len() && slots[j].connected && except != Some(slots[j].id@) implies exists|k: int|
            0 <= k < b.len() && #[trigger] b[k].to == slots[j].id@ by {
            if j < init.len() {
                assert(slots[j] == init[j]);
                let k = choose|k: int| 0 <= k < rest.len() && #[trigger] rest[k].to == init[j].id@;
                assert(b[k] == rest[k]);
            } else {
                assert(slots[j] == slots.last());
                assert(b[rest.len() as int].to == slots[j].id@);
            }
        }
    }
}

/// When a member registers, every other entry with a connection is sent the
/// new member list, whatever its info says.
pub proof fn lemma_register_notifies_connected(slots: Seq<PeerSlot>, id: PeerId, info: PeerInfo, now: u64)
    ensures
        forall|j: int|
            0 <= j < registered(slots, id, info, now).len() && registered(slots, id, info, now)[j].connected
                && registered(slots, id, info, now)[j].id@ != id@ ==> exists|k: int|
                0 <= k < broadcasts(registered(slots, id, info, now), Some(id@), peer_infos(registered(slots, id, info, now))).len()
                    && #[trigger] broadcasts(registered(slots, id, info, now), Some(id@), peer_infos(registered(slots, id, info, now)))[k].to
                    == registered(slots, id, info, now)[j].id@,
{
    let r = registered(slots, id, info, now);
    lemma_broadcast_reaches_connected(r, Some(id@), peer_infos(r));
}

/// A heartbeat from a member with an entry sets that entry's `last_seen` to
/// the heartbeat's time and touches nothing else, whatever the entry's info;
/// a heartbeat from an unknown id changes nothing.
pub proof fn lemma_heartbeat_sets_last_seen(slots: Seq<PeerSlot>, id: PeerId, now: u64)
    requires
        ids_unique(slots),
    ensures
        heartbeat_applied(slots, id, now).len() == slots.len(),
        forall|i: int| 0 <= i < slots.len() && slots[i].id@ == id@ ==> #[trigger] heartbeat_applied(slots, id, now)[i]
            == (PeerSlot { last_seen: Some(now), ..slots[i] }),
        forall|i: int| 0 <= i < slots.len() && slots[i].id@ != id@ ==> #[trigger] heartbeat_applied(slots, id, now)[i]
            == slots[i],
{
    let h = heartbeat_applied(slots, id, now);
    let p = position_of(slots, id@);
    if p >= 0 {
        assert(slots[p].id@ == id@);
        assert forall|i: int| 0 <= i < slots.len() && slots[i].id@ == id@ implies #[trigger] h[i]
            == (PeerSlot { last_seen: Some(now), ..slots[i] }) by {
            assert(i == p);
        }
    } else {
        assert forall|i: int| 0 <= i < slots.len() implies slots[i].id@ != id@ by {
            if slots[i].id@ == id@ {
                assert(has_peer(slots, id@));
            }
        }
    }
}

/// Expiry at `now` drops exactly the entries whose last heartbeat is at
/// least five seconds before `now`, whatever their info; entries without a
/// heartbeat, and those heard from less than five seconds ago, stay.
pub proof fn lemma_expiry_by_heartbeat_age(slots: Seq<PeerSlot>, now: u64)
    ensures
        forall|s: PeerSlot|
            slots.contains(s) ==> (after_expiry(slots, now).contains(s) <==> match s.last_seen {
                Some(t) => now < t || now - t < 5_000_000_000,
                None => true,
            }),
        forall|s: PeerSlot| after_expiry(slots, now).contains(s) ==> slots.contains(s),
{
    lemma_expired_keeps_exactly_live(slots, now);
    assert forall|s: PeerSlot| slots.contains(s) implies (after_expiry(slots, now).contains(s) <==> match s.last_seen {
        Some(t) => now < t || now - t < 5_000_000_000,
        None => true,
    }) by {
        match s.last_seen {
            Some(t) => {
                assert(timed_out(s, now) == (now - t >= 5_000_000_000));
            },
            None => {},
        }
    }
}

} // verus!
