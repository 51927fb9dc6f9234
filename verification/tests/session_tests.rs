use rust_irc::codes;
use rust_irc::registry::Registry;
use rust_irc::session::{session_eof, session_step, OutFrame, Phase, Session};

/// Drive one frame through a session and collect the writes.
fn step(sess: &mut Session, reg: &mut Registry, opcode: u8, payload: &[u8]) -> Vec<OutFrame> {
    session_step(sess, reg, opcode, payload)
}

/// Open a session and register a nickname, expecting success.
fn registered(reg: &mut Registry, nick: &[u8]) -> Session {
    let mut sess = Session::new();
    let out = step(&mut sess, reg, codes::REGISTER_NICK, nick);
    match &out[..] {
        [OutFrame::ToCaller(f)] => assert_eq!(f, &vec![codes::RESPONSE_OK]),
        _ => panic!("unexpected registration reply"),
    }
    assert_eq!(sess.phase(), Phase::Active);
    sess
}

fn caller_frames(out: &[OutFrame]) -> Vec<Vec<u8>> {
    out.iter()
        .filter_map(|w| match w {
            OutFrame::ToCaller(f) => Some(f.clone()),
            _ => None,
        })
        .collect()
}

#[test]
fn test_register_then_collision() {
    // Client A registers "alice" and is acknowledged; client B tries the
    // same nickname and is refused with the collision code.
    let mut reg = Registry::new();
    let _a = registered(&mut reg, b"alice");

    let mut b = Session::new();
    let out = step(&mut b, &mut reg, codes::REGISTER_NICK, b"alice");
    match &out[..] {
        [OutFrame::ToCaller(f)] => {
            assert_eq!(f, &vec![codes::ERROR, codes::NICKNAME_COLLISION])
        }
        _ => panic!("unexpected collision reply"),
    }
    assert_eq!(b.phase(), Phase::Closed);
}

#[test]
fn test_join_then_list() {
    let mut reg = Registry::new();
    let mut a = registered(&mut reg, b"alice");

    let out = step(&mut a, &mut reg, codes::JOIN_ROOM, b"chan1");
    let mut expected: Vec<u8> = vec![codes::RESPONSE];
    expected.extend_from_slice(b"Joined chan1. Current rooms: chan1");
    match &out[..] {
        [OutFrame::ToCaller(f)] => assert_eq!(f, &expected),
        _ => panic!("unexpected join reply"),
    }

    let out = step(&mut a, &mut reg, codes::LIST_ROOMS, b"");
    let mut expected: Vec<u8> = vec![codes::RESPONSE];
    expected.extend_from_slice(b"chan1 ");
    match &out[..] {
        [OutFrame::ToCaller(f)] => assert_eq!(f, &expected),
        _ => panic!("unexpected list reply"),
    }
}

#[test]
fn test_message_fan_out() {
    // alice and carol share chan1; alice's room message reaches carol and
    // alice is acknowledged after the fan-out. A further member with a
    // broken connection changes nothing about the acknowledgement, since
    // the writes are independent.
    let mut reg = Registry::new();
    let mut a = registered(&mut reg, b"alice");
    let mut c = registered(&mut reg, b"carol");
    let mut d = registered(&mut reg, b"dora");
    step(&mut a, &mut reg, codes::JOIN_ROOM, b"chan1");
    step(&mut c, &mut reg, codes::JOIN_ROOM, b"chan1");
    step(&mut d, &mut reg, codes::JOIN_ROOM, b"chan1");

    let out = step(&mut a, &mut reg, codes::MESSAGE_ROOM, b"chan1 hello");
    let mut fanned: Vec<u8> = vec![codes::MESSAGE_ROOM];
    fanned.extend_from_slice(b"chan1 alice hello");
    assert_eq!(out.len(), 3);
    match &out[0] {
        OutFrame::ToPeer(nick, f) => {
            assert_eq!(nick, &b"carol".to_vec());
            assert_eq!(f, &fanned);
        }
        _ => panic!("expected a peer write first"),
    }
    match &out[1] {
        OutFrame::ToPeer(nick, f) => {
            assert_eq!(nick, &b"dora".to_vec());
            assert_eq!(f, &fanned);
        }
        _ => panic!("expected a peer write second"),
    }
    match &out[2] {
        OutFrame::ToCaller(f) => assert_eq!(f, &vec![codes::RESPONSE_OK]),
        _ => panic!("the acknowledgement must come last"),
    }
}

#[test]
fn test_message_with_space_in_body() {
    let mut reg = Registry::new();
    let mut a = registered(&mut reg, b"alice");
    let mut c = registered(&mut reg, b"carol");
    step(&mut a, &mut reg, codes::JOIN_ROOM, b"chan1");
    step(&mut c, &mut reg, codes::JOIN_ROOM, b"chan1");

    let out = step(&mut a, &mut reg, codes::MESSAGE_ROOM, b"chan1 hi there friend");
    let mut fanned: Vec<u8> = vec![codes::MESSAGE_ROOM];
    fanned.extend_from_slice(b"chan1 alice hi there friend");
    match &out[0] {
        OutFrame::ToPeer(nick, f) => {
            assert_eq!(nick, &b"carol".to_vec());
            assert_eq!(f, &fanned);
        }
        _ => panic!("expected a peer write"),
    }
}

#[test]
fn test_non_member_message_is_refused() {
    let mut reg = Registry::new();
    let mut a = registered(&mut reg, b"alice");
    let mut b = registered(&mut reg, b"bob");
    step(&mut a, &mut reg, codes::JOIN_ROOM, b"chan1");

    let out = step(&mut b, &mut reg, codes::MESSAGE_ROOM, b"chan1 oops");
    match &out[..] {
        [OutFrame::ToCaller(f)] => assert_eq!(f, &vec![codes::ERROR, codes::NOT_IN_ROOM]),
        _ => panic!("expected a refusal"),
    }
}

#[test]
fn test_message_to_unknown_room() {
    let mut reg = Registry::new();
    let mut a = registered(&mut reg, b"alice");
    let out = step(&mut a, &mut reg, codes::MESSAGE_ROOM, b"nowhere hi");
    match &out[..] {
        [OutFrame::ToCaller(f)] => assert_eq!(f, &vec![codes::ERROR, codes::EMPTY_ROOM]),
        _ => panic!("expected a refusal"),
    }
}

#[test]
fn test_message_room_without_space_is_malformed() {
    let mut reg = Registry::new();
    let mut a = registered(&mut reg, b"alice");
    let out = step(&mut a, &mut reg, codes::MESSAGE_ROOM, b"chan1");
    match &out[..] {
        [OutFrame::ToCaller(f)] => assert_eq!(f, &vec![codes::ERROR, codes::MALFORMED]),
        _ => panic!("expected a refusal"),
    }
    assert_eq!(a.phase(), Phase::Active);
}

#[test]
fn test_keepalive_has_no_side_effect() {
    let mut reg = Registry::new();
    let mut a = registered(&mut reg, b"alice");
    step(&mut a, &mut reg, codes::JOIN_ROOM, b"chan1");
    let users_before = reg.list_users();
    let rooms_before = reg.list_rooms();

    let out = step(&mut a, &mut reg, codes::KEEP_ALIVE, b"");
    match &out[..] {
        [OutFrame::ToCaller(f)] => assert_eq!(f, &vec![codes::RESPONSE_OK]),
        _ => panic!("expected a bare acknowledgement"),
    }
    assert_eq!(reg.list_users(), users_before);
    assert_eq!(reg.list_rooms(), rooms_before);
}

#[test]
fn test_quit_cleans_up() {
    let mut reg = Registry::new();
    let mut a = registered(&mut reg, b"alice");
    let mut b = registered(&mut reg, b"bob");
    step(&mut a, &mut reg, codes::JOIN_ROOM, b"chan1");
    step(&mut b, &mut reg, codes::JOIN_ROOM, b"chan2");

    let out = step(&mut a, &mut reg, codes::QUIT, b"");
    assert!(out.is_empty());
    assert_eq!(a.phase(), Phase::Closed);
    assert_eq!(reg.list_users(), vec![b"bob".to_vec()]);
    // alice was the sole member, so chan1 is gone; bob's room stays.
    assert_eq!(reg.list_rooms(), vec![b"chan2".to_vec()]);
}

#[test]
fn test_quit_leaves_shared_room_to_the_others() {
    let mut reg = Registry::new();
    let mut a = registered(&mut reg, b"alice");
    let mut b = registered(&mut reg, b"bob");
    step(&mut a, &mut reg, codes::JOIN_ROOM, b"chan1");
    step(&mut b, &mut reg, codes::JOIN_ROOM, b"chan1");
    step(&mut a, &mut reg, codes::QUIT, b"");
    assert_eq!(reg.list_rooms(), vec![b"chan1".to_vec()]);
    assert_eq!(reg.members(b"chan1").unwrap(), vec![b"bob".to_vec()]);
}

#[test]
fn test_command_before_registration_closes_session() {
    let mut reg = Registry::new();
    let mut s = Session::new();
    let out = step(&mut s, &mut reg, codes::LIST_ROOMS, b"");
    match &out[..] {
        [OutFrame::ToCaller(f)] => {
            assert_eq!(f, &vec![codes::ERROR, codes::NOT_YET_REGISTERED])
        }
        _ => panic!("expected a refusal"),
    }
    assert_eq!(s.phase(), Phase::Closed);
}

#[test]
fn test_repeated_register_stays_active() {
    let mut reg = Registry::new();
    let mut a = registered(&mut reg, b"alice");
    let out = step(&mut a, &mut reg, codes::REGISTER_NICK, b"other");
    match &out[..] {
        [OutFrame::ToCaller(f)] => {
            assert_eq!(f, &vec![codes::ERROR, codes::ALREADY_REGISTERED])
        }
        _ => panic!("expected a refusal"),
    }
    assert_eq!(a.phase(), Phase::Active);
    assert_eq!(reg.list_users(), vec![b"alice".to_vec()]);
}

#[test]
fn test_unknown_opcode_is_malformed() {
    let mut reg = Registry::new();
    let mut a = registered(&mut reg, b"alice");
    let out = step(&mut a, &mut reg, 0x7F, b"");
    match &out[..] {
        [OutFrame::ToCaller(f)] => assert_eq!(f, &vec![codes::ERROR, codes::MALFORMED]),
        _ => panic!("expected a refusal"),
    }
    assert_eq!(a.phase(), Phase::Active);
}

#[test]
fn test_broadcast_message_reaches_every_room_of_sender() {
    // alice is in two rooms with different peers; a plain MESSAGE reaches
    // both rooms' members and the sender is acknowledged once, at the end.
    let mut reg = Registry::new();
    let mut a = registered(&mut reg, b"alice");
    let mut b = registered(&mut reg, b"bob");
    let mut c = registered(&mut reg, b"carol");
    step(&mut a, &mut reg, codes::JOIN_ROOM, b"r1");
    step(&mut b, &mut reg, codes::JOIN_ROOM, b"r1");
    step(&mut a, &mut reg, codes::JOIN_ROOM, b"r2");
    step(&mut c, &mut reg, codes::JOIN_ROOM, b"r2");

    let out = step(&mut a, &mut reg, codes::MESSAGE, b"hi");
    assert_eq!(out.len(), 3);
    let mut f1: Vec<u8> = vec![codes::MESSAGE_ROOM];
    f1.extend_from_slice(b"r1 alice hi");
    let mut f2: Vec<u8> = vec![codes::MESSAGE_ROOM];
    f2.extend_from_slice(b"r2 alice hi");
    match &out[0] {
        OutFrame::ToPeer(nick, f) => {
            assert_eq!(nick, &b"bob".to_vec());
            assert_eq!(f, &f1);
        }
        _ => panic!("expected bob's copy first"),
    }
    match &out[1] {
        OutFrame::ToPeer(nick, f) => {
            assert_eq!(nick, &b"carol".to_vec());
            assert_eq!(f, &f2);
        }
        _ => panic!("expected carol's copy second"),
    }
    match &out[2] {
        OutFrame::ToCaller(f) => assert_eq!(f, &vec![codes::RESPONSE_OK]),
        _ => panic!("the acknowledgement must come last"),
    }
}

#[test]
fn test_message_with_no_rooms_is_still_acknowledged() {
    let mut reg = Registry::new();
    let mut a = registered(&mut reg, b"alice");
    let out = step(&mut a, &mut reg, codes::MESSAGE, b"hello");
    assert_eq!(caller_frames(&out), vec![vec![codes::RESPONSE_OK]]);
    assert_eq!(out.len(), 1);
}

#[test]
fn test_list_users_in_room() {
    let mut reg = Registry::new();
    let mut a = registered(&mut reg, b"alice");
    let mut b = registered(&mut reg, b"bob");
    step(&mut a, &mut reg, codes::JOIN_ROOM, b"chan1");
    step(&mut b, &mut reg, codes::JOIN_ROOM, b"chan1");

    let out = step(&mut a, &mut reg, codes::LIST_USERS_IN_ROOM, b"chan1");
    let mut expected: Vec<u8> = vec![codes::RESPONSE];
    expected.extend_from_slice(b"alice bob ");
    match &out[..] {
        [OutFrame::ToCaller(f)] => assert_eq!(f, &expected),
        _ => panic!("unexpected listing reply"),
    }

    let out = step(&mut a, &mut reg, codes::LIST_USERS_IN_ROOM, b"nowhere");
    match &out[..] {
        [OutFrame::ToCaller(f)] => assert_eq!(f, &vec![codes::ERROR, codes::INVALID_ROOM]),
        _ => panic!("expected a refusal"),
    }
}

#[test]
fn test_leave_replies() {
    let mut reg = Registry::new();
    let mut a = registered(&mut reg, b"alice");
    step(&mut a, &mut reg, codes::JOIN_ROOM, b"r1");
    step(&mut a, &mut reg, codes::JOIN_ROOM, b"r2");

    let out = step(&mut a, &mut reg, codes::LEAVE_ROOM, b"r1");
    let mut expected: Vec<u8> = vec![codes::RESPONSE];
    expected.extend_from_slice(b"Left r1. Current rooms: r2");
    match &out[..] {
        [OutFrame::ToCaller(f)] => assert_eq!(f, &expected),
        _ => panic!("unexpected leave reply"),
    }

    let out = step(&mut a, &mut reg, codes::LEAVE_ROOM, b"r1");
    match &out[..] {
        [OutFrame::ToCaller(f)] => assert_eq!(f, &vec![codes::ERROR, codes::INVALID_ROOM]),
        _ => panic!("expected a refusal"),
    }
}

#[test]
fn test_eof_unregisters_active_session() {
    let mut reg = Registry::new();
    let mut a = registered(&mut reg, b"alice");
    step(&mut a, &mut reg, codes::JOIN_ROOM, b"chan1");
    session_eof(&mut a, &mut reg);
    assert_eq!(a.phase(), Phase::Closed);
    assert!(reg.list_users().is_empty());
    assert!(reg.list_rooms().is_empty());
}

#[test]
fn test_empty_register_payload_is_accepted_as_opaque() {
    // The server treats the nickname as opaque bytes; rejecting the empty
    // one is the client's job.
    let mut reg = Registry::new();
    let mut s = Session::new();
    let out = step(&mut s, &mut reg, codes::REGISTER_NICK, b"");
    match &out[..] {
        [OutFrame::ToCaller(f)] => assert_eq!(f, &vec![codes::RESPONSE_OK]),
        _ => panic!("unexpected registration reply"),
    }
    assert_eq!(s.phase(), Phase::Active);
    assert_eq!(reg.list_users(), vec![Vec::<u8>::new()]);
}

#[test]
fn test_nickname_with_space_is_accepted_but_ill_advised() {
    // Accepted as opaque bytes; the space later confuses the client's
    // parsing of fan-out payloads, which is why the client refuses it.
    let mut reg = Registry::new();
    let mut a = registered(&mut reg, b"al ice");
    let mut c = registered(&mut reg, b"carol");
    step(&mut a, &mut reg, codes::JOIN_ROOM, b"chan1");
    step(&mut c, &mut reg, codes::JOIN_ROOM, b"chan1");
    let out = step(&mut a, &mut reg, codes::MESSAGE_ROOM, b"chan1 hi");
    let mut fanned: Vec<u8> = vec![codes::MESSAGE_ROOM];
    fanned.extend_from_slice(b"chan1 al ice hi");
    match &out[0] {
        OutFrame::ToPeer(nick, f) => {
            assert_eq!(nick, &b"carol".to_vec());
            assert_eq!(f, &fanned);
        }
        _ => panic!("expected a peer write"),
    }
}

#[test]
fn test_joining_two_rooms_lists_both() {
    let mut reg = Registry::new();
    let mut a = registered(&mut reg, b"alice");
    step(&mut a, &mut reg, codes::JOIN_ROOM, b"r1");
    let out = step(&mut a, &mut reg, codes::JOIN_ROOM, b"r2");
    let mut expected: Vec<u8> = vec![codes::RESPONSE];
    expected.extend_from_slice(b"Joined r2. Current rooms: r1,r2");
    match &out[..] {
        [OutFrame::ToCaller(f)] => assert_eq!(f, &expected),
        _ => panic!("unexpected join reply"),
    }
}
