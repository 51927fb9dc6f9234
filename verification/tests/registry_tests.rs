use rust_irc::registry::{Registry, RegistryError};

fn names(v: Vec<Vec<u8>>) -> Vec<String> {
    v.into_iter()
        .map(|n| String::from_utf8(n).unwrap())
        .collect()
}

#[test]
fn test_register_then_register_collides() {
    let mut reg = Registry::new();
    assert_eq!(reg.register(b"alice"), Ok(()));
    assert_eq!(reg.register(b"alice"), Err(RegistryError::NicknameCollision));
    assert_eq!(names(reg.list_users()), vec!["alice"]);
}

#[test]
fn test_join_twice_is_refused_without_duplicating() {
    let mut reg = Registry::new();
    reg.register(b"alice").unwrap();
    assert_eq!(reg.join(b"alice", b"chan1"), Ok(()));
    assert_eq!(reg.join(b"alice", b"chan1"), Err(RegistryError::AlreadyInRoom));
    assert_eq!(names(reg.members(b"chan1").unwrap()), vec!["alice"]);
}

#[test]
fn test_leave_non_member_and_unknown_room() {
    let mut reg = Registry::new();
    reg.register(b"alice").unwrap();
    reg.register(b"bob").unwrap();
    assert_eq!(reg.leave(b"alice", b"chan1"), Err(RegistryError::InvalidRoom));
    reg.join(b"alice", b"chan1").unwrap();
    assert_eq!(reg.leave(b"bob", b"chan1"), Err(RegistryError::NotInRoom));
    assert_eq!(names(reg.members(b"chan1").unwrap()), vec!["alice"]);
}

#[test]
fn test_last_leaver_drops_the_room() {
    let mut reg = Registry::new();
    reg.register(b"alice").unwrap();
    reg.join(b"alice", b"chan1").unwrap();
    assert_eq!(names(reg.list_rooms()), vec!["chan1"]);
    assert_eq!(reg.leave(b"alice", b"chan1"), Ok(()));
    assert!(reg.list_rooms().is_empty());
    assert!(reg.members(b"chan1").is_none());
}

#[test]
fn test_membership_symmetry_concrete() {
    // alice is a member of exactly the rooms that rooms_of lists, and vice
    // versa.
    let mut reg = Registry::new();
    reg.register(b"alice").unwrap();
    reg.register(b"bob").unwrap();
    reg.join(b"alice", b"chan1").unwrap();
    reg.join(b"bob", b"chan2").unwrap();
    reg.join(b"alice", b"chan3").unwrap();
    assert_eq!(names(reg.rooms_of(b"alice")), vec!["chan1", "chan3"]);
    assert_eq!(names(reg.rooms_of(b"bob")), vec!["chan2"]);
    for room in [b"chan1".as_slice(), b"chan2", b"chan3"] {
        let members = reg.members(room).unwrap();
        let in_room = members.iter().any(|m| m == b"alice");
        let listed = reg.rooms_of(b"alice").iter().any(|r| r == room);
        assert_eq!(in_room, listed);
    }
}

#[test]
fn test_unregister_cleans_every_room() {
    let mut reg = Registry::new();
    reg.register(b"alice").unwrap();
    reg.register(b"bob").unwrap();
    reg.join(b"alice", b"chan1").unwrap();
    reg.join(b"bob", b"chan1").unwrap();
    reg.join(b"alice", b"chan2").unwrap();
    reg.unregister(b"alice");
    assert_eq!(names(reg.list_users()), vec!["bob"]);
    assert_eq!(names(reg.list_rooms()), vec!["chan1"]);
    assert_eq!(names(reg.members(b"chan1").unwrap()), vec!["bob"]);
    // Unregistering again is harmless.
    reg.unregister(b"alice");
    assert_eq!(names(reg.list_users()), vec!["bob"]);
}

#[test]
fn test_no_room_is_ever_empty_and_no_duplicates() {
    // A battery of operations; after each, every room is nonempty and no
    // nickname stands twice in the same room.
    let mut reg = Registry::new();
    let check = |reg: &Registry| {
        for room in reg.list_rooms() {
            let members = reg.members(&room).unwrap();
            assert!(!members.is_empty());
            for i in 0..members.len() {
                for j in 0..i {
                    assert_ne!(members[i], members[j]);
                }
            }
        }
    };
    reg.register(b"a").unwrap();
    reg.register(b"b").unwrap();
    check(&reg);
    reg.join(b"a", b"r1").unwrap();
    check(&reg);
    reg.join(b"b", b"r1").unwrap();
    check(&reg);
    let _ = reg.join(b"a", b"r1");
    check(&reg);
    reg.join(b"b", b"r2").unwrap();
    check(&reg);
    reg.leave(b"a", b"r1").unwrap();
    check(&reg);
    reg.unregister(b"b");
    check(&reg);
    assert!(reg.list_rooms().is_empty());
}

#[test]
fn test_member_order_is_join_order() {
    let mut reg = Registry::new();
    for n in [b"u1".as_slice(), b"u2", b"u3"] {
        reg.register(n).unwrap();
        reg.join(n, b"room").unwrap();
    }
    assert_eq!(names(reg.members(b"room").unwrap()), vec!["u1", "u2", "u3"]);
}

#[test]
fn test_empty_nickname_is_accepted_as_opaque() {
    // The server treats nicknames as opaque bytes; even the empty one is
    // only refused when it collides.
    let mut reg = Registry::new();
    assert_eq!(reg.register(b""), Ok(()));
    assert_eq!(reg.register(b""), Err(RegistryError::NicknameCollision));
}
