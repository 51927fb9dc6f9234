//! The server's shared registry: the registered nicknames and the rooms with
//! their member lists. Nicknames and room names are opaque byte strings; a
//! room keeps its members in join order and is dropped when its last member
//! leaves. The registry never performs I/O; fan-out works on snapshots that
//! the handlers take from it.

use vstd::prelude::*;

verus! {

use crate::bytestr::bytes_eq;
use crate::bytestr::clone_bytes;
use crate::bytestr::clone_names;
use crate::bytestr::contains_bytes;
use crate::bytestr::lemma_bytes_deep_view;
use crate::bytestr::lemma_seq_remove_contains;
use crate::bytestr::lemma_seq_remove_noop;
use crate::bytestr::lemma_seq_remove_nodup;
use crate::bytestr::nodup;
use crate::bytestr::remove_all_bytes;
use crate::bytestr::seq_remove;

broadcast use vstd::seq_lib::group_seq_properties, lemma_bytes_deep_view;

/// What one room is, seen mathematically: its name and its members in join
/// order.
pub ghost struct RoomModel {
    pub name: Seq<u8>,
    pub members: Seq<Seq<u8>>,
}

/// What the registry is, seen mathematically.
pub ghost struct RegistryModel {
    pub users: Seq<Seq<u8>>,
    pub rooms: Seq<RoomModel>,
}

/// The names of the rooms, in creation order.
pub open spec fn room_names(rooms: Seq<RoomModel>) -> Seq<Seq<u8>> {
    Seq::new(rooms.len(), |i: int| rooms[i].name)
}

/// Some room of the sequence carries this name.
pub open spec fn has_room_name(rooms: Seq<RoomModel>, name: Seq<u8>) -> bool {
    exists|i: int| 0 <= i < rooms.len() && rooms[i].name == name
}

/// `i` is the position of the first room that carries `name`.
pub open spec fn first_room_match(rooms: Seq<RoomModel>, name: Seq<u8>, i: int) -> bool {
    &&& 0 <= i < rooms.len()
    &&& rooms[i].name == name
    &&& forall|j: int| 0 <= j < i ==> rooms[j].name != name
}

/// The position of the first room that carries `name`; meaningful only when
/// `has_room_name` holds.
pub open spec fn room_at(rooms: Seq<RoomModel>, name: Seq<u8>) -> int {
    choose|i: int| first_room_match(rooms, name, i)
}

/// The member list of the first room that carries `name`; meaningful only
/// when `has_room_name` holds.
pub open spec fn members_model(rooms: Seq<RoomModel>, name: Seq<u8>) -> Seq<Seq<u8>> {
    rooms[room_at(rooms, name)].members
}

proof fn lemma_first_match_exists(rooms: Seq<RoomModel>, name: Seq<u8>)
    requires
        has_room_name(rooms, name),
    ensures
        first_room_match(rooms, name, room_at(rooms, name)),
    decreases rooms.len(),
{
    let d = rooms.drop_last();
    assert(forall|j: int| 0 <= j < d.len() ==> d[j] == rooms[j]);
    if exists|i: int| 0 <= i < d.len() && d[i].name == name {
        assert(has_room_name(d, name));
        lemma_first_match_exists(d, name);
        let i = room_at(d, name);
        assert(first_room_match(rooms, name, i));
        assert(exists|k: int| first_room_match(rooms, name, k));
    } else {
        let w = choose|i: int| 0 <= i < rooms.len() && rooms[i].name == name;
        assert(w == rooms.len() - 1);
        assert(first_room_match(rooms, name, rooms.len() - 1));
        assert(exists|k: int| first_room_match(rooms, name, k));
    }
}

proof fn lemma_first_match_unique(rooms: Seq<RoomModel>, name: Seq<u8>, i: int, j: int)
    requires
        first_room_match(rooms, name, i),
        first_room_match(rooms, name, j),
    ensures
        i == j,
{
}

/// The registry's invariant: nicknames are unique, room names are unique, no
/// room is empty, no nickname stands twice in the same room, and every member
/// of a room is a registered nickname.
impl RegistryModel {
    pub open spec fn wf(self) -> bool {
        &&& nodup(self.users)
        &&& nodup(room_names(self.rooms))
        &&& forall|i: int|
            0 <= i < self.rooms.len() ==> (#[trigger] self.rooms[i]).members.len() > 0
        &&& forall|i: int| 0 <= i < self.rooms.len() ==> nodup((#[trigger] self.rooms[i]).members)
        &&& forall|i: int, j: int|
            0 <= i < self.rooms.len() && 0 <= j < self.rooms[i].members.len()
                ==> self.users.contains(#[trigger] self.rooms[i].members[j])
    }
}

/// What registering a nickname does: a collision when the nickname is taken,
/// otherwise the nickname is appended to the users.
pub open spec fn register_model(m: RegistryModel, nick: Seq<u8>) -> (RegistryModel, Result<
    (),
    RegistryError,
>) {
    if m.users.contains(nick) {
        (m, Err(RegistryError::NicknameCollision))
    } else {
        (RegistryModel { users: m.users.push(nick), rooms: m.rooms }, Ok(()))
    }
}

/// The rooms after a nickname is gone: it leaves every member list, and a
/// room left empty disappears.
pub open spec fn unregister_rooms(rooms: Seq<RoomModel>, nick: Seq<u8>) -> Seq<RoomModel>
    decreases rooms.len(),
{
    if rooms.len() == 0 {
        Seq::empty()
    } else {
        let rest = unregister_rooms(rooms.drop_last(), nick);
        let kept = seq_remove(rooms.last().members, nick);
        if kept.len() == 0 {
            rest
        } else {
            rest.push(RoomModel { name: rooms.last().name, members: kept })
        }
    }
}

/// What unregistering does: the nickname leaves the users and every room;
/// rooms left empty disappear. Unregistering an unknown nickname changes
/// nothing.
pub open spec fn unregister_model(m: RegistryModel, nick: Seq<u8>) -> RegistryModel {
    RegistryModel {
        users: seq_remove(m.users, nick),
        rooms: unregister_rooms(m.rooms, nick),
    }
}

/// What joining does: the room is created with the joiner as sole member if
/// absent; a member who joins again is refused; otherwise the joiner is
/// appended to the member list.
pub open spec fn join_model(m: RegistryModel, nick: Seq<u8>, room: Seq<u8>) -> (RegistryModel,
    Result<(), RegistryError>,
) {
    if has_room_name(m.rooms, room) {
        let i = room_at(m.rooms, room);
        if m.rooms[i].members.contains(nick) {
            (m, Err(RegistryError::AlreadyInRoom))
        } else {
            (
                RegistryModel {
                    users: m.users,
                    rooms: m.rooms.update(
                        i,
                        RoomModel { name: m.rooms[i].name, members: m.rooms[i].members.push(nick) },
                    ),
                },
                Ok(()),
            )
        }
    } else {
        (
            RegistryModel {
                users: m.users,
                rooms: m.rooms.push(RoomModel { name: room, members: seq![nick] }),
            },
            Ok(()),
        )
    }
}

/// What leaving does: an unknown room is refused, so is a leaver who is no
/// member; otherwise the leaver is removed and a room left empty disappears.
pub open spec fn leave_model(m: RegistryModel, nick: Seq<u8>, room: Seq<u8>) -> (RegistryModel,
    Result<(), RegistryError>,
) {
    if !has_room_name(m.rooms, room) {
        (m, Err(RegistryError::InvalidRoom))
    } else {
        let i = room_at(m.rooms, room);
        if !m.rooms[i].members.contains(nick) {
            (m, Err(RegistryError::NotInRoom))
        } else {
            let kept = seq_remove(m.rooms[i].members, nick);
            if kept.len() == 0 {
                (RegistryModel { users: m.users, rooms: m.rooms.remove(i) }, Ok(()))
            } else {
                (
                    RegistryModel {
                        users: m.users,
                        rooms: m.rooms.update(
                            i,
                            RoomModel { name: m.rooms[i].name, members: kept },
                        ),
                    },
                    Ok(()),
                )
            }
        }
    }
}

/// The names of the rooms the nickname is a member of, in room creation
/// order.
pub open spec fn rooms_of_model(rooms: Seq<RoomModel>, nick: Seq<u8>) -> Seq<Seq<u8>>
    decreases rooms.len(),
{
    if rooms.len() == 0 {
        Seq::empty()
    } else {
        let rest = rooms_of_model(rooms.drop_last(), nick);
        if rooms.last().members.contains(nick) {
            rest.push(rooms.last().name)
        } else {
            rest
        }
    }
}

/// Why a registry operation was refused.
#[derive(Clone, Copy, PartialEq, Eq, Structural, Debug)]
pub enum RegistryError {
    NicknameCollision,
    AlreadyInRoom,
    InvalidRoom,
    NotInRoom,
}

/// One room: its name and its members in join order.
pub struct Room {
    name: Vec<u8>,
    members: Vec<Vec<u8>>,
}

impl View for Room {
    type V = RoomModel;

    closed spec fn view(&self) -> RoomModel {
        RoomModel { name: self.name@, members: self.members.deep_view() }
    }
}

/// The registry itself: the registered nicknames and the rooms.
pub struct Registry {
    users: Vec<Vec<u8>>,
    rooms: Vec<Room>,
}

/// The mathematical content of a list of rooms.
pub open spec fn rooms_view(v: Seq<Room>) -> Seq<RoomModel> {
    Seq::new(v.len(), |i: int| v[i]@)
}

impl View for Registry {
    type V = RegistryModel;

    closed spec fn view(&self) -> RegistryModel {
        RegistryModel { users: self.users.deep_view(), rooms: rooms_view(self.rooms@) }
    }
}

impl Registry {
    /// A registry with no users and no rooms.
    pub fn new() -> (r: Registry)
        ensures
            r@.users == Seq::<Seq<u8>>::empty(),
            r@.rooms == Seq::<RoomModel>::empty(),
            r@.wf(),
    {
        let r = Registry { users: Vec::new(), rooms: Vec::new() };
        proof {
            assert(r@.users =~= Seq::<Seq<u8>>::empty());
            assert(r@.rooms =~= Seq::<RoomModel>::empty());
            assert(room_names(r@.rooms) =~= Seq::<Seq<u8>>::empty());
        }
        r
    }

    /// Whether the nickname is registered.
    pub fn has_user(&self, nick: &[u8]) -> (r: bool)
        ensures
            r == self@.users.contains(nick@),
    {
        contains_bytes(&self.users, nick)
    }

    /// The position of the first room with this name, if any.
    fn find_room(&self, room: &[u8]) -> (r: Option<usize>)
        ensures
            match r {
                Some(i) => first_room_match(self@.rooms, room@, i as int),
                None => !has_room_name(self@.rooms, room@),
            },
    {
        let mut i: usize = 0;
        while i < self.rooms.len()
            invariant
                i <= self.rooms@.len(),
                self@.rooms.len() == self.rooms@.len(),
                forall|j: int| 0 <= j < i ==> self@.rooms[j].name != room@,
            decreases self.rooms@.len() - i,
        {
            if bytes_eq(self.rooms[i].name.as_slice(), room) {
                assert(self@.rooms[i as int].name == room@);
                return Some(i);
            }
            assert(self@.rooms[i as int].name != room@);
            i = i + 1;
        }
        proof {
            if has_room_name(self@.rooms, room@) {
                let j = choose|j: int| 0 <= j < self@.rooms.len() && self@.rooms[j].name == room@;
                assert(self@.rooms[j].name != room@);
            }
        }
        None
    }

    /// Register a nickname; refused with a collision when it is taken.
    pub fn register(&mut self, nick: &[u8]) -> (r: Result<(), RegistryError>)
        ensures
            (final(self)@, r) == register_model(old(self)@, nick@),
            old(self)@.wf() ==> final(self)@.wf(),
    {
        if contains_bytes(&self.users, nick) {
            assert((self@, Err::<(), RegistryError>(RegistryError::NicknameCollision))
                == register_model(self@, nick@));
            return Err(RegistryError::NicknameCollision);
        }
        self.users.push(clone_bytes(nick));
        proof {
            assert(self@.users =~= old(self)@.users.push(nick@));
            assert(self@.rooms =~= old(self)@.rooms);
            assert(self@ == register_model(old(self)@, nick@).0);
            if old(self)@.wf() {
                lemma_register_wf(old(self)@, nick@);
            }
        }
        Ok(())
    }
}

impl Registry {
    /// Unregister a nickname: it leaves the users and every room, and every
    /// room left empty disappears. Unregistering twice is harmless.
    pub fn unregister(&mut self, nick: &[u8])
        ensures
            final(self)@ == unregister_model(old(self)@, nick@),
            old(self)@.wf() ==> final(self)@.wf(),
    {
        self.users = remove_all_bytes(&self.users, nick);
        let mut new_rooms: Vec<Room> = Vec::new();
        let mut k: usize = 0;
        while k < self.rooms.len()
            invariant
                k <= self.rooms@.len(),
                self.rooms@ == old(self).rooms@,
                self.users.deep_view() == seq_remove(old(self)@.users, nick@),
                rooms_view(new_rooms@) == unregister_rooms(
                    rooms_view(self.rooms@).take(k as int),
                    nick@,
                ),
            decreases self.rooms@.len() - k,
        {
            proof {
                let rs = rooms_view(self.rooms@);
                assert(rs.take(k + 1).drop_last() =~= rs.take(k as int));
                assert(rs.take(k + 1).last() == rs[k as int]);
            }
            let kept: Vec<Vec<u8>> = remove_all_bytes(&self.rooms[k].members, nick);
            if kept.len() > 0 {
                let name: Vec<u8> = clone_bytes(self.rooms[k].name.as_slice());
                new_rooms.push(Room { name, members: kept });
                proof {
                    assert(rooms_view(new_rooms@) =~= unregister_rooms(
                        rooms_view(self.rooms@).take(k + 1),
                        nick@,
                    ));
                }
            } else {
                proof {
                    assert(kept.deep_view().len() == 0);
                }
            }
            k = k + 1;
        }
        self.rooms = new_rooms;
        proof {
            let rs = rooms_view(old(self).rooms@);
            assert(rs.take(rs.len() as int) =~= rs);
            assert(self@ == unregister_model(old(self)@, nick@));
            if old(self)@.wf() {
                lemma_unregister_wf(old(self)@, nick@);
            }
        }
    }
}

/// A room name that survives unregistering already named a room before.
proof fn lemma_unregister_rooms_has_name(rooms: Seq<RoomModel>, nick: Seq<u8>, x: Seq<u8>)
    ensures
        has_room_name(unregister_rooms(rooms, nick), x) ==> has_room_name(rooms, x),
    decreases rooms.len(),
{
    if rooms.len() > 0 {
        let d = rooms.drop_last();
        lemma_unregister_rooms_has_name(d, nick, x);
        let rest = unregister_rooms(d, nick);
        let r2 = unregister_rooms(rooms, nick);
        assert(forall|j: int| 0 <= j < d.len() ==> d[j] == rooms[j]);
        if has_room_name(r2, x) {
            let i = choose|i: int| 0 <= i < r2.len() && r2[i].name == x;
            if i < rest.len() {
                assert(rest[i].name == x);
                assert(has_room_name(rest, x));
                let w = choose|w: int| 0 <= w < d.len() && d[w].name == x;
                assert(rooms[w].name == x);
            } else {
                assert(rooms[rooms.len() - 1].name == x);
            }
            assert(has_room_name(rooms, x));
        }
    }
}

/// Unregistering keeps every room invariant: surviving rooms are nonempty,
/// duplicate-free, named uniquely, and all their members stay registered.
proof fn lemma_unregister_rooms_wf(rooms: Seq<RoomModel>, users: Seq<Seq<u8>>, nick: Seq<u8>)
    requires
        nodup(room_names(rooms)),
        forall|i: int| 0 <= i < rooms.len() ==> (#[trigger] rooms[i]).members.len() > 0,
        forall|i: int| 0 <= i < rooms.len() ==> nodup((#[trigger] rooms[i]).members),
        forall|i: int, j: int|
            0 <= i < rooms.len() && 0 <= j < rooms[i].members.len() ==> users.contains(
                #[trigger] rooms[i].members[j],
            ),
    ensures
        nodup(room_names(unregister_rooms(rooms, nick))),
        forall|i: int|
            0 <= i < unregister_rooms(rooms, nick).len() ==> (#[trigger] unregister_rooms(
                rooms,
                nick,
            )[i]).members.len() > 0,
        forall|i: int|
            0 <= i < unregister_rooms(rooms, nick).len() ==> nodup(
                (#[trigger] unregister_rooms(rooms, nick)[i]).members,
            ),
        forall|i: int, j: int|
            0 <= i < unregister_rooms(rooms, nick).len() && 0 <= j < unregister_rooms(
                rooms,
                nick,
            )[i].members.len() ==> seq_remove(users, nick).contains(
                #[trigger] unregister_rooms(rooms, nick)[i].members[j],
            ),
    decreases rooms.len(),
{
    if rooms.len() > 0 {
        let d = rooms.drop_last();
        assert(forall|j: int| 0 <= j < d.len() ==> d[j] == rooms[j]);
        assert(forall|i: int|
            0 <= i < d.len() ==> room_names(d)[i] == room_names(rooms)[i]);
        lemma_unregister_rooms_wf(d, users, nick);
        let rest = unregister_rooms(d, nick);
        let last = rooms.last();
        let kept = seq_remove(last.members, nick);
        let r2 = unregister_rooms(rooms, nick);
        if kept.len() == 0 {
            assert(r2 == rest);
        } else {
            assert(nodup(last.members));
            lemma_seq_remove_nodup(last.members, nick);
            let room2 = RoomModel { name: last.name, members: kept };
            assert(r2 == rest.push(room2));
            assert(forall|i: int| 0 <= i < rest.len() ==> r2[i] == rest[i]);
            assert(r2[rest.len() as int] == room2);
            assert forall|j: int| 0 <= j < kept.len() implies seq_remove(users, nick).contains(
                #[trigger] kept[j],
            ) by {
                let y = kept[j];
                assert(kept.contains(y));
                lemma_seq_remove_contains(last.members, nick, y);
                let w = choose|w: int| 0 <= w < last.members.len() && last.members[w] == y;
                assert(users.contains(last.members[w]));
                lemma_seq_remove_contains(users, nick, y);
            }
            assert(nodup(room_names(r2))) by {
                if !nodup(room_names(r2)) {
                    let (a, b) = choose|a: int, b: int|
                        0 <= a < b < room_names(r2).len() && room_names(r2)[a] == room_names(
                            r2,
                        )[b];
                    if b < rest.len() {
                        assert(room_names(rest)[a] == room_names(rest)[b]);
                    } else {
                        assert(rest[a].name == last.name);
                        assert(has_room_name(rest, last.name));
                        lemma_unregister_rooms_has_name(d, nick, last.name);
                        let w = choose|w: int| 0 <= w < d.len() && d[w].name == last.name;
                        assert(room_names(rooms)[w] == room_names(rooms)[rooms.len() - 1]);
                    }
                }
            }
        }
    }
}

/// Unregistering keeps the registry invariant.
pub proof fn lemma_unregister_wf(m: RegistryModel, nick: Seq<u8>)
    requires
        m.wf(),
    ensures
        unregister_model(m, nick).wf(),
{
    lemma_seq_remove_nodup(m.users, nick);
    lemma_unregister_rooms_wf(m.rooms, m.users, nick);
}

impl Registry {
    /// Join a room, creating it when absent; a member who joins again is
    /// refused. The joiner must be a registered nickname.
    pub fn join(&mut self, nick: &[u8], room: &[u8]) -> (r: Result<(), RegistryError>)
        requires
            old(self)@.users.contains(nick@),
        ensures
            (final(self)@, r) == join_model(old(self)@, nick@, room@),
            old(self)@.wf() ==> final(self)@.wf(),
    {
        proof {
            if old(self)@.wf() {
                lemma_join_wf(old(self)@, nick@, room@);
            }
        }
        let found: Option<usize> = self.find_room(room);
        match found {
            Some(i) => {
                proof {
                    assert(has_room_name(self@.rooms, room@));
                    lemma_first_match_exists(self@.rooms, room@);
                    lemma_first_match_unique(
                        self@.rooms,
                        room@,
                        i as int,
                        room_at(self@.rooms, room@),
                    );
                }
                let is_member: bool = contains_bytes(&self.rooms[i].members, nick);
                if is_member {
                    return Err(RegistryError::AlreadyInRoom);
                }
                let mut r: Room = self.rooms.remove(i);
                r.members.push(clone_bytes(nick));
                self.rooms.insert(i, r);
                proof {
                    let m0 = old(self)@;
                    let updated = RoomModel {
                        name: m0.rooms[i as int].name,
                        members: m0.rooms[i as int].members.push(nick@),
                    };
                    assert(self.rooms@ =~= old(self).rooms@.update(i as int, self.rooms@[i as int]));
                    assert(self.rooms@[i as int]@.members =~= updated.members);
                    assert(self.rooms@[i as int]@ == updated);
                    assert(self@.rooms =~= m0.rooms.update(i as int, updated));
                    assert(self@.users =~= m0.users);
                    assert(self@ == join_model(m0, nick@, room@).0);
                }
                Ok(())
            },
            None => {
                let mut members: Vec<Vec<u8>> = Vec::new();
                members.push(clone_bytes(nick));
                let name: Vec<u8> = clone_bytes(room);
                self.rooms.push(Room { name, members });
                proof {
                    let m0 = old(self)@;
                    let fresh = RoomModel { name: room@, members: seq![nick@] };
                    assert(self.rooms@[self.rooms@.len() - 1]@.members =~= fresh.members);
                    assert(self.rooms@[self.rooms@.len() - 1]@ == fresh);
                    assert(self@.rooms =~= m0.rooms.push(fresh));
                    assert(self@.users =~= m0.users);
                    assert(self@ == join_model(m0, nick@, room@).0);
                }
                Ok(())
            },
        }
    }

    /// Leave a room: refused when the room is unknown or the leaver is no
    /// member; the room disappears when its last member leaves.
    pub fn leave(&mut self, nick: &[u8], room: &[u8]) -> (r: Result<(), RegistryError>)
        ensures
            (final(self)@, r) == leave_model(old(self)@, nick@, room@),
            old(self)@.wf() ==> final(self)@.wf(),
    {
        proof {
            if old(self)@.wf() {
                lemma_leave_wf(old(self)@, nick@, room@);
            }
        }
        let found: Option<usize> = self.find_room(room);
        match found {
            Some(i) => {
                proof {
                    assert(has_room_name(self@.rooms, room@));
                    lemma_first_match_exists(self@.rooms, room@);
                    lemma_first_match_unique(
                        self@.rooms,
                        room@,
                        i as int,
                        room_at(self@.rooms, room@),
                    );
                }
                let is_member: bool = contains_bytes(&self.rooms[i].members, nick);
                if !is_member {
                    return Err(RegistryError::NotInRoom);
                }
                let kept: Vec<Vec<u8>> = remove_all_bytes(&self.rooms[i].members, nick);
                if kept.len() == 0 {
                    let _removed: Room = self.rooms.remove(i);
                    proof {
                        let m0 = old(self)@;
                        assert(self@.rooms =~= m0.rooms.remove(i as int));
                        assert(self@.users =~= m0.users);
                        assert(self@ == leave_model(m0, nick@, room@).0);
                    }
                    Ok(())
                } else {
                    let mut r: Room = self.rooms.remove(i);
                    r.members = kept;
                    self.rooms.insert(i, r);
                    proof {
                        let m0 = old(self)@;
                        let updated = RoomModel {
                            name: m0.rooms[i as int].name,
                            members: seq_remove(m0.rooms[i as int].members, nick@),
                        };
                        assert(self.rooms@ =~= old(self).rooms@.update(
                            i as int,
                            self.rooms@[i as int],
                        ));
                        assert(self.rooms@[i as int]@ == updated);
                        assert(self@.rooms =~= m0.rooms.update(i as int, updated));
                        assert(self@.users =~= m0.users);
                        assert(self@ == leave_model(m0, nick@, room@).0);
                    }
                    Ok(())
                }
            },
            None => Err(RegistryError::InvalidRoom),
        }
    }

    /// The names of the rooms the nickname is a member of, in room creation
    /// order.
    pub fn rooms_of(&self, nick: &[u8]) -> (r: Vec<Vec<u8>>)
        ensures
            r.deep_view() == rooms_of_model(self@.rooms, nick@),
    {
        let mut r: Vec<Vec<u8>> = Vec::new();
        let mut k: usize = 0;
        while k < self.rooms.len()
            invariant
                k <= self.rooms@.len(),
                r.deep_view() == rooms_of_model(self@.rooms.take(k as int), nick@),
            decreases self.rooms@.len() - k,
        {
            let ghost pre = r.deep_view();
            let ghost rs = self@.rooms;
            proof {
                assert(rs.take(k + 1).drop_last() =~= rs.take(k as int));
                assert(rs.take(k + 1).last() == rs[k as int]);
            }
            let is_member: bool = contains_bytes(&self.rooms[k].members, nick);
            if is_member {
                r.push(clone_bytes(self.rooms[k].name.as_slice()));
                proof {
                    assert(r.deep_view() =~= pre.push(rs[k as int].name));
                    assert(rooms_of_model(rs.take(k + 1), nick@) == pre.push(rs[k as int].name));
                }
            } else {
                proof {
                    assert(rooms_of_model(rs.take(k + 1), nick@) == pre);
                }
            }
            k = k + 1;
        }
        proof {
            assert(self@.rooms.take(self@.rooms.len() as int) =~= self@.rooms);
        }
        r
    }

    /// The names of all rooms, in creation order.
    pub fn list_rooms(&self) -> (r: Vec<Vec<u8>>)
        ensures
            r.deep_view() == room_names(self@.rooms),
    {
        let mut r: Vec<Vec<u8>> = Vec::new();
        let mut k: usize = 0;
        while k < self.rooms.len()
            invariant
                k <= self.rooms@.len(),
                r.deep_view().len() == k,
                forall|j: int| 0 <= j < k ==> r.deep_view()[j] == self@.rooms[j].name,
            decreases self.rooms@.len() - k,
        {
            let ghost pre = r.deep_view();
            r.push(clone_bytes(self.rooms[k].name.as_slice()));
            proof {
                assert(r.deep_view().len() == pre.len() + 1);
                assert(forall|j: int|
                    0 <= j < pre.len() ==> #[trigger] r.deep_view()[j] == pre[j]);
                assert(r.deep_view()[k as int] == r@[k as int].deep_view());
                assert(r.deep_view()[k as int] == self@.rooms[k as int].name);
            }
            k = k + 1;
        }
        proof {
            assert(r.deep_view() =~= room_names(self@.rooms));
        }
        r
    }

    /// The registered nicknames, in registration order.
    pub fn list_users(&self) -> (r: Vec<Vec<u8>>)
        ensures
            r.deep_view() == self@.users,
    {
        clone_names(&self.users)
    }

    /// A copy of a room's member list, in join order; nothing when the room
    /// is unknown. Fan-out works on this snapshot so that no lock need be
    /// held while writing to peers.
    pub fn members(&self, room: &[u8]) -> (r: Option<Vec<Vec<u8>>>)
        ensures
            r is Some <==> has_room_name(self@.rooms, room@),
            r matches Some(v) ==> v.deep_view() == members_model(self@.rooms, room@),
    {
        let found: Option<usize> = self.find_room(room);
        match found {
            Some(i) => {
                proof {
                    assert(has_room_name(self@.rooms, room@));
                    lemma_first_match_exists(self@.rooms, room@);
                    lemma_first_match_unique(
                        self@.rooms,
                        room@,
                        i as int,
                        room_at(self@.rooms, room@),
                    );
                }
                Some(clone_names(&self.rooms[i].members))
            },
            None => None,
        }
    }
}

/// Joining keeps the registry invariant, as long as the joiner is a
/// registered nickname.
pub proof fn lemma_join_wf(m: RegistryModel, nick: Seq<u8>, room: Seq<u8>)
    requires
        m.wf(),
        m.users.contains(nick),
    ensures
        join_model(m, nick, room).0.wf(),
{
    let m1 = join_model(m, nick, room).0;
    if has_room_name(m.rooms, room) {
        lemma_first_match_exists(m.rooms, room);
        let i = room_at(m.rooms, room);
        if !m.rooms[i].members.contains(nick) {
            let updated = RoomModel { name: m.rooms[i].name, members: m.rooms[i].members.push(nick) };
            assert(m1.rooms == m.rooms.update(i, updated));
            assert(forall|j: int|
                0 <= j < m1.rooms.len() ==> room_names(m1.rooms)[j] == room_names(m.rooms)[j]);
            assert(nodup(m.rooms[i].members));
            assert(nodup(updated.members)) by {
                assert(forall|a: int|
                    0 <= a < m.rooms[i].members.len() ==> updated.members[a] == m.rooms[i].members[a]);
                if !nodup(updated.members) {
                    let (a, b) = choose|a: int, b: int|
                        0 <= a < b < updated.members.len() && updated.members[a]
                            == updated.members[b];
                    if b == updated.members.len() - 1 {
                        assert(m.rooms[i].members[a] == nick);
                        assert(m.rooms[i].members.contains(nick));
                    }
                }
            }
        }
    } else {
        let fresh = RoomModel { name: room, members: seq![nick] };
        assert(m1.rooms == m.rooms.push(fresh));
        assert(forall|j: int|
            0 <= j < m.rooms.len() ==> m1.rooms[j] == m.rooms[j]);
        assert(m1.rooms[m.rooms.len() as int] == fresh);
        assert(nodup(room_names(m1.rooms))) by {
            if !nodup(room_names(m1.rooms)) {
                let (a, b) = choose|a: int, b: int|
                    0 <= a < b < m1.rooms.len() && room_names(m1.rooms)[a] == room_names(
                        m1.rooms,
                    )[b];
                if b == m1.rooms.len() - 1 {
                    assert(m.rooms[a].name == room);
                    assert(has_room_name(m.rooms, room));
                } else {
                    assert(room_names(m.rooms)[a] == room_names(m.rooms)[b]);
                }
            }
        }
    }
}

/// Leaving keeps the registry invariant.
pub proof fn lemma_leave_wf(m: RegistryModel, nick: Seq<u8>, room: Seq<u8>)
    requires
        m.wf(),
    ensures
        leave_model(m, nick, room).0.wf(),
{
    let m1 = leave_model(m, nick, room).0;
    if has_room_name(m.rooms, room) {
        lemma_first_match_exists(m.rooms, room);
        let i = room_at(m.rooms, room);
        if m.rooms[i].members.contains(nick) {
            let kept = seq_remove(m.rooms[i].members, nick);
            lemma_seq_remove_nodup(m.rooms[i].members, nick);
            assert forall|j: int| 0 <= j < kept.len() implies m.users.contains(
                #[trigger] kept[j],
            ) by {
                let y = kept[j];
                assert(kept.contains(y));
                lemma_seq_remove_contains(m.rooms[i].members, nick, y);
                let w = choose|w: int|
                    0 <= w < m.rooms[i].members.len() && m.rooms[i].members[w] == y;
                assert(m.users.contains(m.rooms[i].members[w]));
            }
            if kept.len() == 0 {
                assert(m1.rooms == m.rooms.remove(i));
                assert(forall|j: int|
                    0 <= j < m1.rooms.len() ==> m1.rooms[j] == (if j < i {
                        m.rooms[j]
                    } else {
                        m.rooms[j + 1]
                    }));
                assert(nodup(room_names(m1.rooms))) by {
                    if !nodup(room_names(m1.rooms)) {
                        let (a, b) = choose|a: int, b: int|
                            0 <= a < b < m1.rooms.len() && room_names(m1.rooms)[a] == room_names(
                                m1.rooms,
                            )[b];
                        let a0 = if a < i { a } else { a + 1 };
                        let b0 = if b < i { b } else { b + 1 };
                        assert(room_names(m.rooms)[a0] == room_names(m.rooms)[b0]);
                    }
                }
            } else {
                let updated = RoomModel { name: m.rooms[i].name, members: kept };
                assert(m1.rooms == m.rooms.update(i, updated));
                assert(forall|j: int|
                    0 <= j < m1.rooms.len() ==> room_names(m1.rooms)[j] == room_names(m.rooms)[j]);
            }
        }
    }
}

/// Registering keeps the invariant: the new nickname was no duplicate, and
/// the rooms are untouched.
pub proof fn lemma_register_wf(m: RegistryModel, nick: Seq<u8>)
    requires
        m.wf(),
    ensures
        register_model(m, nick).0.wf(),
{
    if !m.users.contains(nick) {
        let m1 = register_model(m, nick).0;
        assert(forall|i: int| 0 <= i < m.users.len() ==> m1.users[i] == m.users[i]);
        assert(forall|i: int, j: int|
            0 <= i < m1.rooms.len() && 0 <= j < m1.rooms[i].members.len()
                ==> m1.users.contains(#[trigger] m1.rooms[i].members[j])) by {
            assert(forall|x: Seq<u8>| m.users.contains(x) ==> #[trigger] m1.users.contains(x));
        }
    }
}

proof fn lemma_unregister_rooms_idempotent(rooms: Seq<RoomModel>, nick: Seq<u8>)
    ensures
        unregister_rooms(unregister_rooms(rooms, nick), nick) == unregister_rooms(rooms, nick),
    decreases rooms.len(),
{
    if rooms.len() > 0 {
        let d = rooms.drop_last();
        lemma_unregister_rooms_idempotent(d, nick);
        let rest = unregister_rooms(d, nick);
        let kept = seq_remove(rooms.last().members, nick);
        if kept.len() > 0 {
            let room2 = RoomModel { name: rooms.last().name, members: kept };
            let r2 = rest.push(room2);
            assert(r2.drop_last() =~= rest);
            assert(r2.last() == room2);
            lemma_seq_remove_contains(rooms.last().members, nick, nick);
            lemma_seq_remove_noop(kept, nick);
        }
    }
}

/// Unregistering is idempotent: once a nickname is gone, unregistering it
/// again changes nothing.
pub proof fn lemma_unregister_idempotent(m: RegistryModel, nick: Seq<u8>)
    ensures
        unregister_model(unregister_model(m, nick), nick) == unregister_model(m, nick),
{
    lemma_seq_remove_contains(m.users, nick, nick);
    lemma_seq_remove_noop(seq_remove(m.users, nick), nick);
    lemma_unregister_rooms_idempotent(m.rooms, nick);
}

proof fn lemma_rooms_of_contains(rooms: Seq<RoomModel>, nick: Seq<u8>, room: Seq<u8>)
    ensures
        rooms_of_model(rooms, nick).contains(room) <==> exists|i: int|
            0 <= i < rooms.len() && rooms[i].name == room && rooms[i].members.contains(nick),
    decreases rooms.len(),
{
    if rooms.len() > 0 {
        let d = rooms.drop_last();
        lemma_rooms_of_contains(d, nick, room);
        assert(forall|j: int| 0 <= j < d.len() ==> d[j] == rooms[j]);
        let rest = rooms_of_model(d, nick);
        let full = rooms_of_model(rooms, nick);
        let last = rooms.last();
        if full.contains(room) {
            if !(rest.contains(room)) {
                assert(last.members.contains(nick) && last.name == room);
                assert(rooms[rooms.len() - 1].name == room && rooms[rooms.len()
                    - 1].members.contains(nick));
            } else {
                let w = choose|i: int|
                    0 <= i < d.len() && d[i].name == room && d[i].members.contains(nick);
                assert(rooms[w].name == room && rooms[w].members.contains(nick));
            }
        }
        if exists|i: int|
            0 <= i < rooms.len() && rooms[i].name == room && rooms[i].members.contains(nick) {
            let i = choose|i: int|
                0 <= i < rooms.len() && rooms[i].name == room && rooms[i].members.contains(nick);
            if i < rooms.len() - 1 {
                assert(d[i].name == room && d[i].members.contains(nick));
                assert(rest.contains(room));
                if last.members.contains(nick) {
                    assert(full == rest.push(last.name));
                }
                assert(full.contains(room));
            } else {
                assert(full == rest.push(room));
                assert(full.contains(room));
            }
        }
    }
}

/// A nickname stands in a room's member list exactly when that room stands
/// in the list of the nickname's rooms.
pub proof fn lemma_membership_symmetry(m: RegistryModel, nick: Seq<u8>, room: Seq<u8>)
    requires
        m.wf(),
    ensures
        rooms_of_model(m.rooms, nick).contains(room) <==> (has_room_name(m.rooms, room)
            && members_model(m.rooms, room).contains(nick)),
{
    lemma_rooms_of_contains(m.rooms, nick, room);
    if has_room_name(m.rooms, room) {
        lemma_first_match_exists(m.rooms, room);
        let i = room_at(m.rooms, room);
        if exists|w: int|
            0 <= w < m.rooms.len() && m.rooms[w].name == room && m.rooms[w].members.contains(
                nick,
            ) {
            let w = choose|w: int|
                0 <= w < m.rooms.len() && m.rooms[w].name == room && m.rooms[w].members.contains(
                    nick,
                );
            assert(room_names(m.rooms)[w] == room_names(m.rooms)[i]);
            assert(w == i);
        }
    }
}

/// Registering a nickname and then registering the same nickname again
/// yields a collision the second time, whatever the registry held before.
pub proof fn lemma_register_collision(m: RegistryModel, nick: Seq<u8>)
    ensures
        register_model(register_model(m, nick).0, nick).1 == Err::<(), RegistryError>(
            RegistryError::NicknameCollision,
        ),
{
    let u1 = register_model(m, nick).0.users;
    if !m.users.contains(nick) {
        assert(u1[u1.len() - 1] == nick);
    }
    assert(u1.contains(nick));
}

/// After a join, joining the same room again is refused and changes
/// nothing, so membership is never duplicated — whether or not the first
/// join itself was accepted.
pub proof fn lemma_join_idempotent(m: RegistryModel, nick: Seq<u8>, room: Seq<u8>)
    ensures
        join_model(join_model(m, nick, room).0, nick, room) == (
            join_model(m, nick, room).0,
            Err::<(), RegistryError>(RegistryError::AlreadyInRoom),
        ),
{
    let m1 = join_model(m, nick, room).0;
    if has_room_name(m.rooms, room) {
        lemma_first_match_exists(m.rooms, room);
        let i = room_at(m.rooms, room);
        if m.rooms[i].members.contains(nick) {
            assert(m1 == m);
        } else {
            assert(forall|j: int| 0 <= j < m1.rooms.len() ==> m1.rooms[j].name == m.rooms[j].name);
            assert(first_room_match(m1.rooms, room, i));
            assert(has_room_name(m1.rooms, room));
            lemma_first_match_exists(m1.rooms, room);
            lemma_first_match_unique(m1.rooms, room, i, room_at(m1.rooms, room));
            let ms = m1.rooms[i].members;
            assert(ms[ms.len() - 1] == nick);
            assert(ms.contains(nick));
        }
    } else {
        let n = m.rooms.len() as int;
        assert(forall|j: int| 0 <= j < n ==> m1.rooms[j] == m.rooms[j]);
        assert(m1.rooms[n].name == room);
        assert(first_room_match(m1.rooms, room, n));
        assert(has_room_name(m1.rooms, room));
        lemma_first_match_exists(m1.rooms, room);
        lemma_first_match_unique(m1.rooms, room, n, room_at(m1.rooms, room));
        assert(m1.rooms[n].members[0] == nick);
        assert(m1.rooms[n].members.contains(nick));
    }
}

/// Leaving a room one is no member of is refused and changes nothing.
pub proof fn lemma_leave_not_member(m: RegistryModel, nick: Seq<u8>, room: Seq<u8>)
    requires
        has_room_name(m.rooms, room),
        !members_model(m.rooms, room).contains(nick),
    ensures
        leave_model(m, nick, room) == (m, Err::<(), RegistryError>(RegistryError::NotInRoom)),
{
}

/// When its last member leaves, the room disappears: no room of that name is
/// listed afterwards.
pub proof fn lemma_leave_last_member_drops_room(m: RegistryModel, nick: Seq<u8>, room: Seq<u8>)
    requires
        m.wf(),
        has_room_name(m.rooms, room),
        members_model(m.rooms, room) == seq![nick],
    ensures
        leave_model(m, nick, room).1 is Ok,
        !room_names(leave_model(m, nick, room).0.rooms).contains(room),
{
    lemma_first_match_exists(m.rooms, room);
    let i = room_at(m.rooms, room);
    assert(m.rooms[i].members[0] == nick);
    assert(m.rooms[i].members.contains(nick));
    let kept = seq_remove(m.rooms[i].members, nick);
    assert(seq![nick].drop_last() =~= Seq::<Seq<u8>>::empty());
    assert(seq_remove(Seq::<Seq<u8>>::empty(), nick) =~= Seq::<Seq<u8>>::empty());
    assert(m.rooms[i].members.last() == nick);
    assert(kept.len() == 0);
    let m1 = leave_model(m, nick, room).0;
    assert(m1.rooms == m.rooms.remove(i));
    assert(forall|j: int| 0 <= j < i ==> m1.rooms[j] == m.rooms[j]);
    assert(forall|j: int| i <= j < m1.rooms.len() ==> m1.rooms[j] == m.rooms[j + 1]);
    if room_names(m1.rooms).contains(room) {
        let w = choose|w: int| 0 <= w < m1.rooms.len() && room_names(m1.rooms)[w] == room;
        let w0 = if w < i {
            w
        } else {
            w + 1
        };
        assert(room_names(m.rooms)[w0] == room_names(m.rooms)[i]);
    }
}

} // verus!
