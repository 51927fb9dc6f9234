use rust_irc::admin::{admin_command, broadcast, disconnect_all, AdminCommand};
use rust_irc::client::{
    encode_user_input, process_message, watchdog_step, ClientCommand, WatchdogStep,
};
use rust_irc::codes;
use rust_irc::registry::Registry;
use rust_irc::session::OutFrame;

#[test]
fn test_process_room_message_from_peer() {
    let mut frame: Vec<u8> = vec![codes::MESSAGE_ROOM];
    frame.extend_from_slice(b"chan1 alice hi there");
    let act = process_message(&frame, b"bob");
    assert_eq!(act.output.unwrap(), b"[chan1]:[alice]: hi there".to_vec());
    assert!(act.errout.is_none());
    assert!(act.exit.is_none());
}

#[test]
fn test_process_room_message_from_self_is_silent() {
    let mut frame: Vec<u8> = vec![codes::MESSAGE_ROOM];
    frame.extend_from_slice(b"chan1 alice hi");
    let act = process_message(&frame, b"alice");
    assert!(act.output.is_none());
    assert!(act.errout.is_none());
    assert!(act.exit.is_none());
}

#[test]
fn test_process_collision_exits_with_one() {
    let frame: Vec<u8> = vec![codes::ERROR, codes::NICKNAME_COLLISION];
    let act = process_message(&frame, b"alice");
    assert_eq!(
        act.errout.unwrap(),
        b"Nickname already in use on server. Connect again with a different one".to_vec()
    );
    assert_eq!(act.exit, Some(1));
}

#[test]
fn test_process_quit_exits_with_zero() {
    let frame: Vec<u8> = vec![codes::QUIT];
    let act = process_message(&frame, b"alice");
    assert_eq!(
        act.output.unwrap(),
        b"Server has closed the connection. Stopping client".to_vec()
    );
    assert_eq!(act.exit, Some(0));
}

#[test]
fn test_process_unknown_opcode_is_reported_in_hex() {
    let frame: Vec<u8> = vec![0xA3];
    let act = process_message(&frame, b"alice");
    assert_eq!(act.errout.unwrap(), b"BAD RESPONSE = a3 ".to_vec());
}

#[test]
fn test_process_unknown_error_code_in_hex() {
    let frame: Vec<u8> = vec![codes::ERROR, 0x05];
    let act = process_message(&frame, b"alice");
    assert_eq!(act.errout.unwrap(), b"Error code: 5".to_vec());
}

#[test]
fn test_process_server_notice() {
    let mut frame: Vec<u8> = vec![codes::MESSAGE];
    frame.extend_from_slice(b"maintenance soon");
    let act = process_message(&frame, b"alice");
    assert_eq!(act.output.unwrap(), b"[server]:maintenance soon".to_vec());
}

#[test]
fn test_process_response_ok_is_silent() {
    let frame: Vec<u8> = vec![codes::RESPONSE_OK];
    let act = process_message(&frame, b"alice");
    assert!(act.output.is_none() && act.errout.is_none() && act.exit.is_none());
}

#[test]
fn test_process_error_frame_without_subcode() {
    let frame: Vec<u8> = vec![codes::ERROR];
    let act = process_message(&frame, b"alice");
    assert_eq!(act.errout.unwrap(), b"Malformed message recieved: ".to_vec());
    assert!(act.exit.is_none());
}

#[test]
fn test_process_room_message_missing_sender_is_malformed() {
    let mut frame: Vec<u8> = vec![codes::MESSAGE_ROOM];
    frame.extend_from_slice(b"chan1only");
    let act = process_message(&frame, b"alice");
    assert_eq!(
        act.errout.unwrap(),
        b"Malformed message recieved: chan1only".to_vec()
    );
}

#[test]
fn test_encode_join_command() {
    match encode_user_input(b"/join chan1") {
        ClientCommand::Send(f) => {
            let mut expected: Vec<u8> = vec![codes::JOIN_ROOM];
            expected.extend_from_slice(b"chan1");
            assert_eq!(f, expected);
        }
        _ => panic!("expected a frame"),
    }
}

#[test]
fn test_encode_msg_command_keeps_spaces_in_text() {
    match encode_user_input(b"/msg chan1 hi there") {
        ClientCommand::Send(f) => {
            let mut expected: Vec<u8> = vec![codes::MESSAGE_ROOM];
            expected.extend_from_slice(b"chan1 hi there");
            assert_eq!(f, expected);
        }
        _ => panic!("expected a frame"),
    }
}

#[test]
fn test_encode_join_with_extra_word_is_refused() {
    match encode_user_input(b"/join chan1 extra") {
        ClientCommand::Notice(t) => {
            assert_eq!(t, b"Malformed. Try /join [room-name]".to_vec())
        }
        _ => panic!("expected a notice"),
    }
}

#[test]
fn test_encode_bare_commands() {
    assert!(matches!(encode_user_input(b"/quit"), ClientCommand::Disconnect));
    assert!(matches!(encode_user_input(b"/help"), ClientCommand::ShowHelp));
    match encode_user_input(b"/rooms") {
        ClientCommand::Send(f) => assert_eq!(f, vec![codes::LIST_ROOMS]),
        _ => panic!("expected a frame"),
    }
    match encode_user_input(b"/users") {
        ClientCommand::Send(f) => assert_eq!(f, vec![codes::LIST_USERS]),
        _ => panic!("expected a frame"),
    }
}

#[test]
fn test_plain_line_is_sent_as_message() {
    match encode_user_input(b"hello everyone") {
        ClientCommand::Send(f) => {
            let mut expected: Vec<u8> = vec![codes::MESSAGE];
            expected.extend_from_slice(b"hello everyone");
            assert_eq!(f, expected);
        }
        _ => panic!("expected a frame"),
    }
}

#[test]
fn test_watchdog_thresholds() {
    assert_eq!(watchdog_step(1000), WatchdogStep::Idle);
    assert_eq!(watchdog_step(5000), WatchdogStep::Idle);
    assert_eq!(watchdog_step(5001), WatchdogStep::SendKeepAlive);
    assert_eq!(watchdog_step(30000), WatchdogStep::SendKeepAlive);
    assert_eq!(watchdog_step(30001), WatchdogStep::GiveUp);
}

#[test]
fn test_admin_menu_parsing() {
    assert_eq!(admin_command("0"), AdminCommand::Quit);
    assert_eq!(admin_command("1"), AdminCommand::ListUsers);
    assert_eq!(admin_command("2"), AdminCommand::ListRooms);
    assert_eq!(admin_command("3"), AdminCommand::Broadcast);
    assert_eq!(admin_command("4"), AdminCommand::Freeze);
    assert_eq!(admin_command("5"), AdminCommand::Invalid);
    assert_eq!(admin_command(""), AdminCommand::Invalid);
    assert_eq!(admin_command("x"), AdminCommand::Invalid);
    assert_eq!(admin_command("999"), AdminCommand::Invalid);
}

#[test]
fn test_admin_broadcast_reaches_every_user() {
    let mut reg = Registry::new();
    reg.register(b"alice").unwrap();
    reg.register(b"bob").unwrap();
    let out = broadcast(&reg, codes::MESSAGE, b"closing soon");
    let mut frame: Vec<u8> = vec![codes::MESSAGE];
    frame.extend_from_slice(b"closing soon");
    assert_eq!(out.len(), 2);
    for (w, nick) in out.iter().zip([b"alice".to_vec(), b"bob".to_vec()]) {
        match w {
            OutFrame::ToPeer(n, f) => {
                assert_eq!(n, &nick);
                assert_eq!(f, &frame);
            }
            _ => panic!("expected peer writes"),
        }
    }
}

#[test]
fn test_admin_disconnect_all() {
    let mut reg = Registry::new();
    reg.register(b"alice").unwrap();
    reg.register(b"bob").unwrap();
    let out = disconnect_all(&reg);
    assert_eq!(out.len(), 2);
    for w in &out {
        match w {
            OutFrame::ToPeer(_, f) => assert_eq!(f, &vec![codes::QUIT]),
            _ => panic!("expected peer writes"),
        }
    }
}
