//! The rooms of the chat service: for each room token, the connections that
//! have joined it, keyed by the identity token of the person behind each one.
//! Rooms are kept in key order, and so are the members of each room; a
//! message is delivered to the members in that order.
use vstd::prelude::*;

use crate::keys::{
    entries_map, has_key, key_lt, key_order, keys_sorted, lemma_entries_insert, lemma_entries_map_at,
    lemma_entries_update, lemma_insertion_point, lemma_key_lt_transitive, lemma_put_entry, lemma_remove_entry,
    lemma_scan_is_insertion_point, put_entry, remove_entry, KeyOrder,
};

verus! {

/// One joined connection: the identity token of the person and the number
/// that stands for the connection's sending half.
pub struct Member {
    pub identity: String,
    pub conn: u64,
}

/// A room and its members.
pub struct Room {
    pub token: String,
    pub members: Vec<Member>,
}

/// All rooms that have ever been opened.
pub struct RoomRegistry {
    rooms: Vec<Room>,
}

/// The members of a room as (identity, connection) entries.
pub open spec fn member_entries(ms: Seq<Member>) -> Seq<(Seq<char>, u64)> {
    ms.map_values(|m: Member| (m.identity@, m.conn))
}

/// The rooms as (room token, member entries) entries.
pub open spec fn room_entries(rs: Seq<Room>) -> Seq<(Seq<char>, Seq<(Seq<char>, u64)>)> {
    rs.map_values(|r: Room| (r.token@, member_entries(r.members@)))
}

/// The member entries of `room` in a registry view; a room never opened has none.
pub open spec fn members_in(
    rooms: Map<Seq<char>, Seq<(Seq<char>, u64)>>,
    room: Seq<char>,
) -> Seq<(Seq<char>, u64)> {
    if rooms.dom().contains(room) {
        rooms[room]
    } else {
        Seq::empty()
    }
}

/// The connections that a message sent by `sender` reaches: every member but
/// the sender, in the order of the members.
pub open spec fn recipients_of(members: Seq<(Seq<char>, u64)>, sender: Seq<char>) -> Seq<u64>
    decreases members.len(),
{
    if members.len() == 0 {
        Seq::empty()
    } else {
        let rest = recipients_of(members.drop_last(), sender);
        if members.last().0 == sender {
            rest
        } else {
            rest.push(members.last().1)
        }
    }
}

/// The connection joined under `identity` in `room`, if any.
pub open spec fn joined_conn(
    rooms: Map<Seq<char>, Seq<(Seq<char>, u64)>>,
    room: Seq<char>,
    identity: Seq<char>,
) -> Option<u64> {
    if entries_map(members_in(rooms, room)).dom().contains(identity) {
        Some(entries_map(members_in(rooms, room))[identity])
    } else {
        None
    }
}

/// `post` is `pre` after `conn` joined `room` under `identity`: the room
/// exists, its members are those of before with `identity` now on `conn`
/// (in its place in identity order), and every other room is as it was.
pub open spec fn open_relation(
    pre: Map<Seq<char>, Seq<(Seq<char>, u64)>>,
    post: Map<Seq<char>, Seq<(Seq<char>, u64)>>,
    conn: u64,
    room: Seq<char>,
    identity: Seq<char>,
) -> bool {
    &&& post.dom() == pre.dom().insert(room)
    &&& forall|r: Seq<char>| r != room && #[trigger] pre.dom().contains(r) ==> post[r] == pre[r]
    &&& post[room] == put_entry(members_in(pre, room), identity, conn)
}

/// `post` is `pre` after `identity` left `room`: no room appears or
/// disappears, the room loses the entry of that member (if it had one),
/// and nothing else changes.
pub open spec fn close_relation(
    pre: Map<Seq<char>, Seq<(Seq<char>, u64)>>,
    post: Map<Seq<char>, Seq<(Seq<char>, u64)>>,
    room: Seq<char>,
    identity: Seq<char>,
) -> bool {
    &&& !pre.dom().contains(room) ==> post == pre
    &&& post.dom() == pre.dom()
    &&& forall|r: Seq<char>| r != room && #[trigger] pre.dom().contains(r) ==> post[r] == pre[r]
    &&& pre.dom().contains(room) ==> post[room] == remove_entry(pre[room], identity)
}

impl View for RoomRegistry {
    type V = Map<Seq<char>, Seq<(Seq<char>, u64)>>;

    /// Each room token mapped to the room's member entries, in key order.
    open spec fn view(&self) -> Map<Seq<char>, Seq<(Seq<char>, u64)>> {
        entries_map(self.listing())
    }
}

impl RoomRegistry {
    /// The rooms in key order with their member entries.
    pub closed spec fn listing(&self) -> Seq<(Seq<char>, Seq<(Seq<char>, u64)>)> {
        room_entries(self.rooms@)
    }

    /// Rooms are sorted by token, and the members of each room by identity.
    pub open spec fn well_formed(&self) -> bool {
        &&& keys_sorted(self.listing())
        &&& forall|i: int| 0 <= i < self.listing().len() ==> keys_sorted(#[trigger] self.listing()[i].1)
    }

    /// In a well-formed registry, the members of every room are sorted.
    pub proof fn lemma_members_sorted(&self, room: Seq<char>)
        requires
            self.well_formed(),
        ensures
            keys_sorted(members_in(self@, room)),
    {
        if self@.dom().contains(room) {
            let i = choose|i: int| 0 <= i < self.listing().len() && #[trigger] self.listing()[i].0 == room;
            lemma_entries_map_at(self.listing(), i);
        }
    }

    /// A registry without rooms.
    pub fn new() -> (reg: Self)
        ensures
            reg.well_formed(),
            reg@ == Map::<Seq<char>, Seq<(Seq<char>, u64)>>::empty(),
    {
        let reg = RoomRegistry { rooms: Vec::new() };
        assert(reg@ =~= Map::<Seq<char>, Seq<(Seq<char>, u64)>>::empty());
        reg
    }
}

/// Where `key` stands among the sorted members: the first position whose
/// identity does not sort before it, and whether that identity is `key`.
fn find_member(ms: &Vec<Member>, key: &str) -> (res: (bool, usize))
    requires
        keys_sorted(member_entries(ms@)),
    ensures
        res.1 <= ms@.len(),
        forall|i: int| 0 <= i < res.1 ==> key_lt(#[trigger] member_entries(ms@)[i].0, key@),
        res.0 ==> res.1 < ms@.len() && member_entries(ms@)[res.1 as int].0 == key@,
        !res.0 ==> forall|i: int| res.1 <= i < ms@.len() ==> key_lt(key@, #[trigger] member_entries(ms@)[i].0),
{
    let ghost s = member_entries(ms@);
    let mut i: usize = 0;
    while i < ms.len()
        invariant
            s == member_entries(ms@),
            keys_sorted(s),
            i <= ms@.len(),
            forall|j: int| 0 <= j < i ==> key_lt(#[trigger] s[j].0, key@),
        decreases ms@.len() - i,
    {
        assert(s[i as int].0 == ms@[i as int].identity@);
        match key_order(ms[i].identity.as_str(), key) {
            KeyOrder::Less => {
                i = i + 1;
            },
            KeyOrder::Equal => {
                return (true, i);
            },
            KeyOrder::Greater => {
                assert forall|j: int| i <= j < ms@.len() implies key_lt(key@, #[trigger] s[j].0) by {
                    if j > i {
                        lemma_key_lt_transitive(key@, s[i as int].0, s[j].0);
                    }
                }
                return (false, i);
            },
        }
    }
    (false, i)
}

/// Where `key` stands among the sorted rooms, as `find_member` does for members.
fn find_room(rs: &Vec<Room>, key: &str) -> (res: (bool, usize))
    requires
        keys_sorted(room_entries(rs@)),
    ensures
        res.1 <= rs@.len(),
        forall|i: int| 0 <= i < res.1 ==> key_lt(#[trigger] room_entries(rs@)[i].0, key@),
        res.0 ==> res.1 < rs@.len() && room_entries(rs@)[res.1 as int].0 == key@,
        !res.0 ==> forall|i: int| res.1 <= i < rs@.len() ==> key_lt(key@, #[trigger] room_entries(rs@)[i].0),
{
    let ghost s = room_entries(rs@);
    let mut i: usize = 0;
    while i < rs.len()
        invariant
            s == room_entries(rs@),
            keys_sorted(s),
            i <= rs@.len(),
            forall|j: int| 0 <= j < i ==> key_lt(#[trigger] s[j].0, key@),
        decreases rs@.len() - i,
    {
        assert(s[i as int].0 == rs@[i as int].token@);
        match key_order(rs[i].token.as_str(), key) {
            KeyOrder::Less => {
                i = i + 1;
            },
            KeyOrder::Equal => {
                return (true, i);
            },
            KeyOrder::Greater => {
                assert forall|j: int| i <= j < rs@.len() implies key_lt(key@, #[trigger] s[j].0) by {
                    if j > i {
                        lemma_key_lt_transitive(key@, s[i as int].0, s[j].0);
                    }
                }
                return (false, i);
            },
        }
    }
    (false, i)
}


impl RoomRegistry {
    /// Joins connection `conn` to the room under `identity`, opening the room
    /// if it does not exist yet. A connection already joined under the same
    /// identity in that room is replaced, and returned so that it can be let go.
    pub fn open(&mut self, conn: u64, room_token: String, identity: String) -> (displaced: Option<u64>)
        requires
            old(self).well_formed(),
        ensures
            final(self).well_formed(),
            open_relation(old(self)@, final(self)@, conn, room_token@, identity@),
            displaced == joined_conn(old(self)@, room_token@, identity@),
    {
        let ghost old_list = self.listing();
        let ghost rk = room_token@;
        let ghost ik = identity@;
        let (found, p) = find_room(&self.rooms, room_token.as_str());
        if found {
            let mut room = self.rooms.remove(p);
            let ghost old_members = member_entries(room.members@);
            proof {
                assert(old_list[p as int] == (rk, old_members));
                lemma_entries_map_at(old_list, p as int);
                assert(members_in(old(self)@, rk) == old_members);
            }
            let (mfound, q) = find_member(&room.members, identity.as_str());
            proof {
                lemma_scan_is_insertion_point(old_members, ik, q as int, mfound);
                lemma_put_entry(old_members, ik, conn);
            }
            let displaced;
            if mfound {
                let old_member = room.members.remove(q);
                displaced = Some(old_member.conn);
                room.members.insert(q, Member { identity, conn });
                proof {
                    assert(member_entries(room.members@) =~= old_members.update(q as int, (ik, conn)));
                    assert(old_members[q as int] == (ik, old_member.conn));
                    lemma_entries_map_at(old_members, q as int);
                }
            } else {
                room.members.insert(q, Member { identity, conn });
                displaced = None;
                proof {
                    assert(member_entries(room.members@) =~= old_members.insert(q as int, (ik, conn)));
                    if q < old_members.len() {
                        crate::keys::lemma_key_lt_irreflexive(ik);
                        assert(key_lt(ik, old_members[q as int].0));
                    }
                    lemma_entries_insert(old_members, q as int, ik, conn);
                }
            }
            let ghost new_members = member_entries(room.members@);
            self.rooms.insert(p, room);
            proof {
                assert(self.listing() =~= old_list.update(p as int, (rk, new_members)));
                lemma_entries_update(old_list, p as int, new_members);
                lemma_entries_map_at(self.listing(), p as int);
                assert(self@ == old(self)@.insert(rk, new_members));
                assert(self@.dom() =~= old(self)@.dom().insert(rk));
                assert forall|i: int| 0 <= i < self.listing().len() implies keys_sorted(#[trigger] self.listing()[i].1) by {
                    if i != p {
                        assert(self.listing()[i] == old_list[i]);
                    }
                }
            }
            displaced
        } else {
            let mut members: Vec<Member> = Vec::new();
            members.push(Member { identity, conn });
            let ghost new_members = member_entries(members@);
            proof {
                assert(new_members =~= seq![(ik, conn)]);
                assert(!entries_map(old_list).dom().contains(rk)) by {
                    lemma_entries_insert(old_list, p as int, rk, new_members);
                }
                let none = Seq::<(Seq<char>, u64)>::empty();
                assert(members_in(old(self)@, rk) == none);
                assert(entries_map(none) =~= Map::<Seq<char>, u64>::empty());
                lemma_insertion_point(none, ik, 0);
                assert(new_members =~= put_entry(none, ik, conn));
                lemma_entries_map_at(new_members, 0);
            }
            self.rooms.insert(p, Room { token: room_token, members });
            proof {
                assert(self.listing() =~= old_list.insert(p as int, (rk, new_members)));
                lemma_entries_insert(old_list, p as int, rk, new_members);
                lemma_entries_map_at(self.listing(), p as int);
                assert(self@.dom() =~= old(self)@.dom().insert(rk));
                assert forall|i: int| 0 <= i < self.listing().len() implies keys_sorted(#[trigger] self.listing()[i].1) by {
                    if i < p {
                        assert(self.listing()[i] == old_list[i]);
                    } else if i > p {
                        assert(self.listing()[i] == old_list[i - 1]);
                    }
                }
            }
            None
        }
    }
}

impl RoomRegistry {
    /// Lets the connection joined under `identity` leave the room. The room
    /// itself stays, even when it is left empty; closing in a room that was
    /// never opened changes nothing. Returns the connection that left.
    pub fn close(&mut self, room_token: &str, identity: &str) -> (removed: Option<u64>)
        requires
            old(self).well_formed(),
        ensures
            final(self).well_formed(),
            close_relation(old(self)@, final(self)@, room_token@, identity@),
            removed == joined_conn(old(self)@, room_token@, identity@),
    {
        let ghost old_list = self.listing();
        let ghost rk = room_token@;
        let ghost ik = identity@;
        let (found, p) = find_room(&self.rooms, room_token);
        if !found {
            proof {
                assert(!entries_map(old_list).dom().contains(rk)) by {
                    lemma_entries_insert(old_list, p as int, rk, Seq::<(Seq<char>, u64)>::empty());
                }
                assert(entries_map(members_in(old(self)@, rk)) =~= Map::<Seq<char>, u64>::empty());
            }
            return None;
        }
        let mut room = self.rooms.remove(p);
        let ghost old_members = member_entries(room.members@);
        proof {
            assert(old_list[p as int] == (rk, old_members));
            lemma_entries_map_at(old_list, p as int);
            assert(members_in(old(self)@, rk) == old_members);
        }
        let (mfound, q) = find_member(&room.members, identity);
        proof {
            lemma_scan_is_insertion_point(old_members, ik, q as int, mfound);
            lemma_remove_entry(old_members, ik);
        }
        let removed;
        if mfound {
            let old_member = room.members.remove(q);
            removed = Some(old_member.conn);
            proof {
                assert(member_entries(room.members@) =~= old_members.remove(q as int));
                assert(old_members[q as int] == (ik, old_member.conn));
                lemma_entries_map_at(old_members, q as int);
            }
        } else {
            removed = None;
            proof {
                if q < old_members.len() {
                    crate::keys::lemma_key_lt_irreflexive(ik);
                    assert(key_lt(ik, old_members[q as int].0));
                }
                lemma_entries_insert(old_members, q as int, ik, 0u64);
                assert(member_entries(room.members@) == remove_entry(old_members, ik));
            }
        }
        let ghost new_members = member_entries(room.members@);
        self.rooms.insert(p, room);
        proof {
            assert(self.listing() =~= old_list.update(p as int, (rk, new_members)));
            lemma_entries_update(old_list, p as int, new_members);
            lemma_entries_map_at(self.listing(), p as int);
            assert(self@ == old(self)@.insert(rk, new_members));
            assert(self@.dom() =~= old(self)@.dom());
            assert forall|i: int| 0 <= i < self.listing().len() implies keys_sorted(#[trigger] self.listing()[i].1) by {
                if i != p {
                    assert(self.listing()[i] == old_list[i]);
                }
            }
        }
        removed
    }

    /// The connections that a message sent by `sender` in the room reaches:
    /// all members but the sender, in identity order; none where the room
    /// was never opened.
    pub fn recipients(&self, room_token: &str, sender: &str) -> (conns: Vec<u64>)
        requires
            self.well_formed(),
        ensures
            conns@ == recipients_of(members_in(self@, room_token@), sender@),
    {
        let ghost list = self.listing();
        let (found, p) = find_room(&self.rooms, room_token);
        let mut conns: Vec<u64> = Vec::new();
        if !found {
            proof {
                assert(!entries_map(list).dom().contains(room_token@)) by {
                    lemma_entries_insert(list, p as int, room_token@, Seq::<(Seq<char>, u64)>::empty());
                }
            }
            return conns;
        }
        let members = &self.rooms[p].members;
        let ghost ents = member_entries(members@);
        proof {
            assert(list[p as int] == (room_token@, ents));
            lemma_entries_map_at(list, p as int);
            assert(members_in(self@, room_token@) == ents);
        }
        let mut i: usize = 0;
        while i < members.len()
            invariant
                ents == member_entries(members@),
                i <= members@.len(),
                conns@ == recipients_of(ents.take(i as int), sender@),
            decreases members@.len() - i,
        {
            proof {
                assert(ents.take(i as int + 1).drop_last() =~= ents.take(i as int));
                assert(ents.take(i as int + 1).last() == ents[i as int]);
            }
            let m = &members[i];
            match key_order(m.identity.as_str(), sender) {
                KeyOrder::Equal => {},
                _ => {
                    conns.push(m.conn);
                },
            }
            i = i + 1;
        }
        proof {
            assert(ents.take(i as int) =~= ents);
        }
        conns
    }
}

/// What a connection tells the room service. The first `String` of `Open`
/// and of `Close`, and the second of `Receive`, is the room token; the last
/// is the identity token of the person.
pub enum RoomMessage {
    /// A connection (by number) joins a room.
    Open(u64, String, String),
    /// A text message to the other members of the room.
    Receive(String, String, String),
    /// The person leaves the room.
    Close(String, String),
}

/// What the room service does in answer to a message.
pub enum RoomEffect {
    /// Let go of the connection, if any, that is no longer joined.
    Release(Option<u64>),
    /// Send the text to each of these connections, in this order.
    Deliver(String, Vec<u64>),
}

impl RoomRegistry {
    /// Applies one message: `Open` joins, `Close` leaves, and `Receive`
    /// changes nothing and names the connections to send the text to.
    pub fn handle(&mut self, msg: RoomMessage) -> (effect: RoomEffect)
        requires
            old(self).well_formed(),
        ensures
            final(self).well_formed(),
            match msg {
                RoomMessage::Open(conn, room, identity) => {
                    &&& open_relation(old(self)@, final(self)@, conn, room@, identity@)
                    &&& effect == RoomEffect::Release(joined_conn(old(self)@, room@, identity@))
                },
                RoomMessage::Receive(text, room, identity) => {
                    &&& final(self)@ == old(self)@
                    &&& effect matches RoomEffect::Deliver(t, conns)
                    &&& t@ == text@
                    &&& conns@ == recipients_of(members_in(old(self)@, room@), identity@)
                },
                RoomMessage::Close(room, identity) => {
                    &&& close_relation(old(self)@, final(self)@, room@, identity@)
                    &&& effect == RoomEffect::Release(joined_conn(old(self)@, room@, identity@))
                },
            },
    {
        match msg {
            RoomMessage::Open(conn, room, identity) => {
                RoomEffect::Release(self.open(conn, room, identity))
            },
            RoomMessage::Receive(text, room, identity) => {
                let conns = self.recipients(room.as_str(), identity.as_str());
                RoomEffect::Deliver(text, conns)
            },
            RoomMessage::Close(room, identity) => {
                RoomEffect::Release(self.close(room.as_str(), identity.as_str()))
            },
        }
    }
}

/// The connections a message reaches are those of members other than the sender.
pub proof fn lemma_recipients_are_members(members: Seq<(Seq<char>, u64)>, sender: Seq<char>, x: u64)
    requires
        recipients_of(members, sender).contains(x),
    ensures
        exists|k: int| 0 <= k < members.len() && (#[trigger] members[k]).1 == x && members[k].0 != sender,
    decreases members.len(),
{
    let rest = recipients_of(members.drop_last(), sender);
    if members.last().0 != sender && x == members.last().1 && !rest.contains(x) {
        assert(members[members.len() - 1].1 == x);
    } else {
        if members.last().0 != sender && !rest.contains(x) {
            let n = choose|n: int| 0 <= n < recipients_of(members, sender).len() && recipients_of(members, sender)[n] == x;
            assert(n < rest.len() || recipients_of(members, sender)[n] == members.last().1);
        }
        lemma_recipients_are_members(members.drop_last(), sender, x);
        let k = choose|k: int| 0 <= k < members.drop_last().len() && (#[trigger] members.drop_last()[k]).1 == x
            && members.drop_last()[k].0 != sender;
        assert(members[k] == members.drop_last()[k]);
    }
}

/// Every member other than the sender is reached.
pub proof fn lemma_members_are_recipients(members: Seq<(Seq<char>, u64)>, sender: Seq<char>, k: int)
    requires
        0 <= k < members.len(),
        members[k].0 != sender,
    ensures
        recipients_of(members, sender).contains(members[k].1),
    decreases members.len(),
{
    let rest = recipients_of(members.drop_last(), sender);
    if k == members.len() - 1 {
        assert(recipients_of(members, sender)[rest.len() as int] == members[k].1);
    } else {
        assert(members.drop_last()[k] == members[k]);
        lemma_members_are_recipients(members.drop_last(), sender, k);
        let n = choose|n: int| 0 <= n < rest.len() && rest[n] == members[k].1;
        if members.last().0 != sender {
            assert(recipients_of(members, sender)[n] == members[k].1);
        }
    }
}

/// Joining is delivery: once `conn` has joined `room` under `identity`, a
/// message that anyone else sends in that room reaches `conn`.
pub proof fn lemma_joined_member_receives(
    pre: RoomRegistry,
    post: RoomRegistry,
    conn: u64,
    room: Seq<char>,
    identity: Seq<char>,
    sender: Seq<char>,
)
    requires
        pre.well_formed(),
        post.well_formed(),
        open_relation(pre@, post@, conn, room, identity),
        sender != identity,
    ensures
        recipients_of(members_in(post@, room), sender).contains(conn),
{
    pre.lemma_members_sorted(room);
    lemma_put_entry(members_in(pre@, room), identity, conn);
    let ms = post@[room];
    post.lemma_members_sorted(room);
    assert(entries_map(ms).dom().contains(identity));
    let k = choose|k: int| 0 <= k < ms.len() && #[trigger] ms[k].0 == identity;
    lemma_entries_map_at(ms, k);
    lemma_members_are_recipients(ms, sender, k);
}

/// Leaving is final: once `identity` has left `room`, a message that anyone
/// sends there reaches only connections of members other than `identity`
/// and other than the sender.
pub proof fn lemma_left_member_not_reached(
    pre: RoomRegistry,
    post: RoomRegistry,
    room: Seq<char>,
    identity: Seq<char>,
    sender: Seq<char>,
    x: u64,
)
    requires
        pre.well_formed(),
        post.well_formed(),
        close_relation(pre@, post@, room, identity),
        recipients_of(members_in(post@, room), sender).contains(x),
    ensures
        exists|k: int| 0 <= k < members_in(post@, room).len()
            && (#[trigger] members_in(post@, room)[k]).1 == x
            && members_in(post@, room)[k].0 != sender
            && members_in(post@, room)[k].0 != identity,
{
    let ms = members_in(post@, room);
    lemma_recipients_are_members(ms, sender, x);
    let k = choose|k: int| 0 <= k < ms.len() && (#[trigger] ms[k]).1 == x && ms[k].0 != sender;
    if ms[k].0 == identity {
        post.lemma_members_sorted(room);
        lemma_entries_map_at(ms, k);
        assert(pre@.dom().contains(room));
        pre.lemma_members_sorted(room);
        lemma_remove_entry(pre@[room], identity);
    }
}

/// A sender never reaches itself: when the sender is a member of the room,
/// a message reaches exactly the other members, one connection fewer than
/// the room holds.
pub proof fn lemma_sender_not_reached(members: Seq<(Seq<char>, u64)>, sender: Seq<char>)
    requires
        keys_sorted(members),
        entries_map(members).dom().contains(sender),
    ensures
        recipients_of(members, sender).len() == members.len() - 1,
        forall|x: u64| #[trigger] recipients_of(members, sender).contains(x) ==>
            exists|k: int| 0 <= k < members.len() && (#[trigger] members[k]).1 == x && members[k].0 != sender,
{
    lemma_recipients_len(members, sender);
    assert forall|x: u64| #[trigger] recipients_of(members, sender).contains(x) implies
        exists|k: int| 0 <= k < members.len() && (#[trigger] members[k]).1 == x && members[k].0 != sender by {
        lemma_recipients_are_members(members, sender, x);
    }
}

/// A message reaches as many connections as the room has members, less one
/// for each entry of the sender (at most one in a sorted room).
proof fn lemma_recipients_len(members: Seq<(Seq<char>, u64)>, sender: Seq<char>)
    requires
        keys_sorted(members),
        entries_map(members).dom().contains(sender),
    ensures
        recipients_of(members, sender).len() == members.len() - 1,
    decreases members.len(),
{
    let init = members.drop_last();
    assert(keys_sorted(init)) by {
        assert forall|i: int, j: int| 0 <= i < j < init.len() implies key_lt(#[trigger] init[i].0, #[trigger] init[j].0) by {
            assert(init[i] == members[i] && init[j] == members[j]);
        }
    }
    if members.last().0 == sender {
        assert forall|i: int| 0 <= i < init.len() implies #[trigger] init[i].0 != sender by {
            assert(init[i] == members[i]);
            assert(key_lt(members[i].0, members[members.len() - 1].0));
            crate::keys::lemma_key_lt_irreflexive(sender);
        }
        lemma_recipients_len_absent(init, sender);
    } else {
        let k = choose|k: int| 0 <= k < members.len() && #[trigger] members[k].0 == sender;
        assert(init[k] == members[k]);
        assert(has_key(init, sender));
        lemma_recipients_len(init, sender);
    }
}

/// Where the sender is not a member, a message reaches every member.
proof fn lemma_recipients_len_absent(members: Seq<(Seq<char>, u64)>, sender: Seq<char>)
    requires
        forall|i: int| 0 <= i < members.len() ==> #[trigger] members[i].0 != sender,
    ensures
        recipients_of(members, sender).len() == members.len(),
    decreases members.len(),
{
    if members.len() > 0 {
        let init = members.drop_last();
        assert forall|i: int| 0 <= i < init.len() implies #[trigger] init[i].0 != sender by {
            assert(init[i] == members[i]);
        }
        assert(members[members.len() - 1].0 != sender);
        lemma_recipients_len_absent(init, sender);
    }
}

/// Joining and then leaving a room leaves it as it was without that
/// identity: the room stays open, the identity is gone from it, every other
/// member and every other room are as before the join.
pub proof fn lemma_join_then_leave(
    before: RoomRegistry,
    joined: RoomRegistry,
    left: RoomRegistry,
    conn: u64,
    room: Seq<char>,
    identity: Seq<char>,
)
    requires
        before.well_formed(),
        joined.well_formed(),
        open_relation(before@, joined@, conn, room, identity),
        close_relation(joined@, left@, room, identity),
    ensures
        left@.dom() == before@.dom().insert(room),
        forall|r: Seq<char>| r != room && #[trigger] before@.dom().contains(r) ==> left@[r] == before@[r],
        entries_map(left@[room]) == entries_map(members_in(before@, room)).remove(identity),
{
    assert forall|r: Seq<char>| r != room && #[trigger] before@.dom().contains(r) implies left@[r] == before@[r] by {
        assert(joined@.dom().contains(r));
        assert(joined@[r] == before@[r]);
    }
    before.lemma_members_sorted(room);
    lemma_put_entry(members_in(before@, room), identity, conn);
    joined.lemma_members_sorted(room);
    lemma_remove_entry(joined@[room], identity);
    assert(entries_map(members_in(before@, room)).insert(identity, conn).remove(identity)
        =~= entries_map(members_in(before@, room)).remove(identity));
}

} // verus!
