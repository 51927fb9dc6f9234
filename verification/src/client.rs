//! The client-side logic: interpreting a frame received from the server
//! into what to print and whether to stop, turning a line of user input
//! into the frame to send, and the keepalive watchdog's decision. Reading,
//! printing and the clock stay with the caller.

use vstd::prelude::*;

verus! {

use crate::bytestr::bytes_eq;
use crate::codec::SPACE;
use crate::codec::extend_bytes;
use crate::codec::one_param_frame;
use crate::codec::space_split;
use crate::codec::spec_one_param;
use crate::codec::spec_two_param;
use crate::codec::split_payload;
use crate::codec::two_param_frame;
use crate::codes;
use vstd::slice::slice_subrange;
use vstd::string::StringSliceAdditionalSpecFns;

broadcast use vstd::seq_lib::group_seq_properties;

/// What the client should do with one frame from the server: maybe print a
/// line, maybe print a line of diagnostics, maybe stop with an exit code.
pub struct ClientAction {
    pub output: Option<Vec<u8>>,
    pub errout: Option<Vec<u8>>,
    pub exit: Option<u8>,
}

/// The mathematical content of a client action.
pub ghost struct ClientActionModel {
    pub output: Option<Seq<u8>>,
    pub errout: Option<Seq<u8>>,
    pub exit: Option<u8>,
}

impl View for ClientAction {
    type V = ClientActionModel;

    open spec fn view(&self) -> ClientActionModel {
        ClientActionModel {
            output: match self.output {
                Option::Some(ref t) => Option::Some(t@),
                Option::None => Option::None,
            },
            errout: match self.errout {
                Option::Some(ref t) => Option::Some(t@),
                Option::None => Option::None,
            },
            exit: self.exit,
        }
    }
}

/// Nothing to do.
pub open spec fn act_none() -> ClientActionModel {
    ClientActionModel { output: Option::None, errout: Option::None, exit: Option::None }
}

/// Print one line.
pub open spec fn act_out(t: Seq<u8>) -> ClientActionModel {
    ClientActionModel { output: Option::Some(t), errout: Option::None, exit: Option::None }
}

/// Print one diagnostic line.
pub open spec fn act_err(t: Seq<u8>) -> ClientActionModel {
    ClientActionModel { output: Option::None, errout: Option::Some(t), exit: Option::None }
}

/// Print one diagnostic line and stop with the given exit code.
pub open spec fn act_err_exit(t: Seq<u8>, code: u8) -> ClientActionModel {
    ClientActionModel { output: Option::None, errout: Option::Some(t), exit: Option::Some(code) }
}

/// Print one line and stop with the given exit code.
pub open spec fn act_out_exit(t: Seq<u8>, code: u8) -> ClientActionModel {
    ClientActionModel { output: Option::Some(t), errout: Option::None, exit: Option::Some(code) }
}

/// One lowercase hexadecimal digit.
pub open spec fn hex_digit(d: u8) -> u8 {
    if d < 10 {
        (0x30 + d) as u8
    } else {
        (0x57 + d) as u8
    }
}

/// A byte in lowercase hexadecimal, without a leading zero.
pub open spec fn hex_text(b: u8) -> Seq<u8> {
    if b < 16 {
        seq![hex_digit(b)]
    } else {
        seq![hex_digit(b / 16), hex_digit(b % 16)]
    }
}

fn hex_digit_byte(d: u8) -> (r: u8)
    requires
        d < 16,
    ensures
        r == hex_digit(d),
{
    if d < 10 {
        0x30 + d
    } else {
        0x57 + d
    }
}

/// Write a byte in lowercase hexadecimal, without a leading zero.
fn hex_bytes(b: u8) -> (r: Vec<u8>)
    ensures
        r@ == hex_text(b),
{
    let mut r: Vec<u8> = Vec::new();
    if b < 16 {
        r.push(hex_digit_byte(b));
        proof {
            assert(r@ =~= hex_text(b));
        }
    } else {
        r.push(hex_digit_byte(b / 16));
        r.push(hex_digit_byte(b % 16));
        proof {
            assert(r@ =~= hex_text(b));
        }
    }
    r
}

/// The diagnostic the client prints for each error sub-code; an unknown
/// sub-code is shown in hexadecimal. A nickname collision also stops the
/// client with exit code 1.
pub open spec fn error_notice(code: u8) -> ClientActionModel {
    if code == codes::INVALID_ROOM {
        act_err("Operation Performed on an invalid room. Try again".spec_bytes())
    } else if code == codes::NICKNAME_COLLISION {
        act_err_exit(
            "Nickname already in use on server. Connect again with a different one".spec_bytes(),
            1,
        )
    } else if code == codes::SERVER_FULL {
        act_err("Server is full. Try again later".spec_bytes())
    } else if code == codes::NOT_IN_ROOM {
        act_err("Cannot send a message before joining room. Use /join [room].".spec_bytes())
    } else if code == codes::EMPTY_ROOM {
        act_err("Room is Empty".spec_bytes())
    } else if code == codes::ALREADY_IN_ROOM {
        act_err("You are already in that room".spec_bytes())
    } else {
        act_err("Error code: ".spec_bytes() + hex_text(code))
    }
}

/// The diagnostic for a room message that does not parse.
pub open spec fn malformed_notice(p: Seq<u8>) -> ClientActionModel {
    act_err("Malformed message recieved: ".spec_bytes() + p)
}

/// The line shown for a room message from another user.
pub open spec fn room_message_display(room: Seq<u8>, user: Seq<u8>, msg: Seq<u8>) -> Seq<u8> {
    "[".spec_bytes() + room + "]:[".spec_bytes() + user + "]: ".spec_bytes() + msg
}

/// What the client does with one frame from the server. An `ERROR` frame
/// maps its sub-code to a diagnostic; a room message from oneself is
/// dropped, one from another user is shown; `QUIT` stops the client; an
/// unknown opcode is reported in hexadecimal.
pub open spec fn process_model(msg: Seq<u8>, nick: Seq<u8>) -> ClientActionModel
    recommends
        msg.len() >= 1,
{
    let op = msg[0];
    let p = msg.skip(1);
    if op == codes::ERROR {
        if p.len() == 0 {
            malformed_notice(p)
        } else {
            error_notice(p[0])
        }
    } else if op == codes::MESSAGE {
        act_out("[server]:".spec_bytes() + p)
    } else if op == codes::MESSAGE_ROOM {
        match space_split(p) {
            Option::None => malformed_notice(p),
            Option::Some(parts) => match space_split(parts.1) {
                Option::None => malformed_notice(p),
                Option::Some(inner) => if inner.0 == nick {
                    act_none()
                } else {
                    act_out(room_message_display(parts.0, inner.0, inner.1))
                },
            },
        }
    } else if op == codes::RESPONSE_OK {
        act_none()
    } else if op == codes::RESPONSE {
        act_out(p)
    } else if op == codes::QUIT {
        act_out_exit("Server has closed the connection. Stopping client".spec_bytes(), 0)
    } else {
        act_err("BAD RESPONSE = ".spec_bytes() + hex_text(op) + " ".spec_bytes())
    }
}

/// A fresh buffer holding the bytes of a text literal.
fn text_of(t: &str) -> (r: Vec<u8>)
    ensures
        r@ == t.spec_bytes(),
{
    let mut r: Vec<u8> = Vec::new();
    extend_bytes(&mut r, t.as_bytes());
    proof {
        assert(r@ =~= t.spec_bytes());
    }
    r
}

/// A fresh buffer holding a text literal followed by raw bytes.
fn text_then_bytes(t: &str, p: &[u8]) -> (r: Vec<u8>)
    ensures
        r@ == t.spec_bytes() + p@,
{
    let mut r: Vec<u8> = Vec::new();
    extend_bytes(&mut r, t.as_bytes());
    extend_bytes(&mut r, p);
    proof {
        assert(r@ =~= t.spec_bytes() + p@);
    }
    r
}

fn act_just_err(t: Vec<u8>) -> (r: ClientAction)
    ensures
        r@ == act_err(t@),
{
    ClientAction { output: None, errout: Some(t), exit: None }
}

fn act_just_out(t: Vec<u8>) -> (r: ClientAction)
    ensures
        r@ == act_out(t@),
{
    ClientAction { output: Some(t), errout: None, exit: None }
}

/// Interpret one frame received from the server, as `process_model`
/// describes it.
pub fn process_message(msg: &[u8], nick: &[u8]) -> (r: ClientAction)
    requires
        msg@.len() >= 1,
    ensures
        r@ == process_model(msg@, nick@),
{
    let op: u8 = msg[0];
    let p: &[u8] = slice_subrange(msg, 1, msg.len());
    if op == codes::ERROR {
        if p.len() == 0 {
            act_just_err(text_then_bytes("Malformed message recieved: ", p))
        } else {
            let code: u8 = p[0];
            if code == codes::INVALID_ROOM {
                act_just_err(text_of("Operation Performed on an invalid room. Try again"))
            } else if code == codes::NICKNAME_COLLISION {
                ClientAction {
                    output: None,
                    errout: Some(
                        text_of(
                            "Nickname already in use on server. Connect again with a different one",
                        ),
                    ),
                    exit: Some(1),
                }
            } else if code == codes::SERVER_FULL {
                act_just_err(text_of("Server is full. Try again later"))
            } else if code == codes::NOT_IN_ROOM {
                act_just_err(text_of("Cannot send a message before joining room. Use /join [room]."))
            } else if code == codes::EMPTY_ROOM {
                act_just_err(text_of("Room is Empty"))
            } else if code == codes::ALREADY_IN_ROOM {
                act_just_err(text_of("You are already in that room"))
            } else {
                let digits: Vec<u8> = hex_bytes(code);
                act_just_err(text_then_bytes("Error code: ", digits.as_slice()))
            }
        }
    } else if op == codes::MESSAGE {
        act_just_out(text_then_bytes("[server]:", p))
    } else if op == codes::MESSAGE_ROOM {
        let first: Option<(Vec<u8>, Vec<u8>)> = split_payload(p);
        match first {
            None => act_just_err(text_then_bytes("Malformed message recieved: ", p)),
            Some(parts) => {
                let second: Option<(Vec<u8>, Vec<u8>)> = split_payload(parts.1.as_slice());
                match second {
                    None => act_just_err(text_then_bytes("Malformed message recieved: ", p)),
                    Some(inner) => {
                        if bytes_eq(inner.0.as_slice(), nick) {
                            ClientAction { output: None, errout: None, exit: None }
                        } else {
                            let mut t: Vec<u8> = Vec::new();
                            extend_bytes(&mut t, "[".as_bytes());
                            extend_bytes(&mut t, parts.0.as_slice());
                            extend_bytes(&mut t, "]:[".as_bytes());
                            extend_bytes(&mut t, inner.0.as_slice());
                            extend_bytes(&mut t, "]: ".as_bytes());
                            extend_bytes(&mut t, inner.1.as_slice());
                            proof {
                                assert(t@ =~= room_message_display(
                                    parts.0@,
                                    inner.0@,
                                    inner.1@,
                                ));
                            }
                            act_just_out(t)
                        }
                    },
                }
            },
        }
    } else if op == codes::RESPONSE_OK {
        ClientAction { output: None, errout: None, exit: None }
    } else if op == codes::RESPONSE {
        let mut t: Vec<u8> = Vec::new();
        extend_bytes(&mut t, p);
        proof {
            assert(t@ =~= p@);
        }
        act_just_out(t)
    } else if op == codes::QUIT {
        ClientAction {
            output: Some(text_of("Server has closed the connection. Stopping client")),
            errout: None,
            exit: Some(0),
        }
    } else {
        let digits: Vec<u8> = hex_bytes(op);
        let mut t: Vec<u8> = Vec::new();
        extend_bytes(&mut t, "BAD RESPONSE = ".as_bytes());
        extend_bytes(&mut t, digits.as_slice());
        extend_bytes(&mut t, " ".as_bytes());
        proof {
            assert(t@ =~= "BAD RESPONSE = ".spec_bytes() + hex_text(op) + " ".spec_bytes());
        }
        act_just_err(t)
    }
}

/// What one line of user input asks the client to do: send a frame, stop,
/// show the command list, or complain about the line.
pub enum ClientCommand {
    Send(Vec<u8>),
    Disconnect,
    ShowHelp,
    Notice(Vec<u8>),
}

/// The mathematical content of a parsed input line.
pub ghost enum ClientCommandModel {
    Send(Seq<u8>),
    Disconnect,
    ShowHelp,
    Notice(Seq<u8>),
}

impl View for ClientCommand {
    type V = ClientCommandModel;

    open spec fn view(&self) -> ClientCommandModel {
        match self {
            ClientCommand::Send(f) => ClientCommandModel::Send(f@),
            ClientCommand::Disconnect => ClientCommandModel::Disconnect,
            ClientCommand::ShowHelp => ClientCommandModel::ShowHelp,
            ClientCommand::Notice(t) => ClientCommandModel::Notice(t@),
        }
    }
}

/// How one line of input is read. A line with a space is a command with a
/// parameter when it starts with a known command word; the room commands
/// refuse a parameter that itself holds a space, and `/msg` splits its
/// parameter into the room and the message. A line without a space is one
/// of the bare commands. Anything else is sent as a plain message, the
/// whole line as the text.
pub open spec fn command_model(line: Seq<u8>) -> ClientCommandModel {
    match space_split(line) {
        Option::Some(parts) => {
            if parts.0 == "/list".spec_bytes() {
                if space_split(parts.1) is Some {
                    ClientCommandModel::Notice("Malformaed. Try /list [room-name]".spec_bytes())
                } else {
                    ClientCommandModel::Send(spec_one_param(codes::LIST_USERS_IN_ROOM, parts.1))
                }
            } else if parts.0 == "/join".spec_bytes() {
                if space_split(parts.1) is Some {
                    ClientCommandModel::Notice("Malformed. Try /join [room-name]".spec_bytes())
                } else {
                    ClientCommandModel::Send(spec_one_param(codes::JOIN_ROOM, parts.1))
                }
            } else if parts.0 == "/leave".spec_bytes() {
                if space_split(parts.1) is Some {
                    ClientCommandModel::Notice("Malformed. Try /leave [room-name]".spec_bytes())
                } else {
                    ClientCommandModel::Send(spec_one_param(codes::LEAVE_ROOM, parts.1))
                }
            } else if parts.0 == "/msg".spec_bytes() {
                match space_split(parts.1) {
                    Option::Some(mp) => ClientCommandModel::Send(
                        spec_two_param(codes::MESSAGE_ROOM, mp.0, mp.1),
                    ),
                    Option::None => ClientCommandModel::Notice(
                        "Usage: /msg [room] [message]".spec_bytes(),
                    ),
                }
            } else {
                ClientCommandModel::Send(spec_one_param(codes::MESSAGE, line))
            }
        },
        Option::None => {
            if line == "/quit".spec_bytes() {
                ClientCommandModel::Disconnect
            } else if line == "/rooms".spec_bytes() {
                ClientCommandModel::Send(seq![codes::LIST_ROOMS])
            } else if line == "/users".spec_bytes() {
                ClientCommandModel::Send(seq![codes::LIST_USERS])
            } else if line == "/help".spec_bytes() {
                ClientCommandModel::ShowHelp
            } else if line == "/".spec_bytes() {
                ClientCommandModel::Notice("Invalid command".spec_bytes())
            } else {
                ClientCommandModel::Send(spec_one_param(codes::MESSAGE, line))
            }
        },
    }
}

/// Parse one line of user input, as `command_model` describes it.
pub fn encode_user_input(line: &[u8]) -> (r: ClientCommand)
    ensures
        r@ == command_model(line@),
{
    let parts: Option<(Vec<u8>, Vec<u8>)> = split_payload(line);
    match parts {
        Some(p) => {
            let cmd: &[u8] = p.0.as_slice();
            let param: &[u8] = p.1.as_slice();
            if bytes_eq(cmd, "/list".as_bytes()) {
                if has_space(param) {
                    ClientCommand::Notice(text_of("Malformaed. Try /list [room-name]"))
                } else {
                    ClientCommand::Send(one_param_frame(codes::LIST_USERS_IN_ROOM, param))
                }
            } else if bytes_eq(cmd, "/join".as_bytes()) {
                if has_space(param) {
                    ClientCommand::Notice(text_of("Malformed. Try /join [room-name]"))
                } else {
                    ClientCommand::Send(one_param_frame(codes::JOIN_ROOM, param))
                }
            } else if bytes_eq(cmd, "/leave".as_bytes()) {
                if has_space(param) {
                    ClientCommand::Notice(text_of("Malformed. Try /leave [room-name]"))
                } else {
                    ClientCommand::Send(one_param_frame(codes::LEAVE_ROOM, param))
                }
            } else if bytes_eq(cmd, "/msg".as_bytes()) {
                let inner: Option<(Vec<u8>, Vec<u8>)> = split_payload(param);
                match inner {
                    Some(mp) => ClientCommand::Send(
                        two_param_frame(codes::MESSAGE_ROOM, mp.0.as_slice(), mp.1.as_slice()),
                    ),
                    None => ClientCommand::Notice(text_of("Usage: /msg [room] [message]")),
                }
            } else {
                ClientCommand::Send(one_param_frame(codes::MESSAGE, line))
            }
        },
        None => {
            if bytes_eq(line, "/quit".as_bytes()) {
                ClientCommand::Disconnect
            } else if bytes_eq(line, "/rooms".as_bytes()) {
                let mut f: Vec<u8> = Vec::new();
                f.push(codes::LIST_ROOMS);
                proof {
                    assert(f@ =~= seq![codes::LIST_ROOMS]);
                }
                ClientCommand::Send(f)
            } else if bytes_eq(line, "/users".as_bytes()) {
                let mut f: Vec<u8> = Vec::new();
                f.push(codes::LIST_USERS);
                proof {
                    assert(f@ =~= seq![codes::LIST_USERS]);
                }
                ClientCommand::Send(f)
            } else if bytes_eq(line, "/help".as_bytes()) {
                ClientCommand::ShowHelp
            } else if bytes_eq(line, "/".as_bytes()) {
                ClientCommand::Notice(text_of("Invalid command"))
            } else {
                ClientCommand::Send(one_param_frame(codes::MESSAGE, line))
            }
        },
    }
}

/// Whether any byte of the slice is a space, which is exactly when
/// splitting on a space succeeds.
fn has_space(p: &[u8]) -> (r: bool)
    ensures
        r == (space_split(p@) is Some),
{
    let parts: Option<(Vec<u8>, Vec<u8>)> = split_payload(p);
    match parts {
        Some(_) => true,
        None => false,
    }
}

/// What the keepalive watchdog does after the given silence, in
/// milliseconds: give up past thirty seconds, send a keepalive past five.
#[derive(Clone, Copy, PartialEq, Eq, Structural, Debug)]
pub enum WatchdogStep {
    Idle,
    SendKeepAlive,
    GiveUp,
}

/// Decide the watchdog's next action from the time since the server was
/// last heard.
pub fn watchdog_step(elapsed_ms: u64) -> (r: WatchdogStep)
    ensures
        elapsed_ms > 30000 ==> r == WatchdogStep::GiveUp,
        5000 < elapsed_ms <= 30000 ==> r == WatchdogStep::SendKeepAlive,
        elapsed_ms <= 5000 ==> r == WatchdogStep::Idle,
{
    if elapsed_ms > 30000 {
        WatchdogStep::GiveUp
    } else if elapsed_ms > 5000 {
        WatchdogStep::SendKeepAlive
    } else {
        WatchdogStep::Idle
    }
}

} // verus!
