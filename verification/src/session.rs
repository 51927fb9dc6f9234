//! The per-connection session state machine and the command handlers. A
//! session is fed one decoded frame at a time and yields the writes the
//! server must perform: frames back to the caller's own connection and
//! frames fanned out to peers, in the order they must be written — the
//! caller's acknowledgement always follows the fan-out. All I/O stays with
//! the caller.

use vstd::prelude::*;

verus! {

use crate::bytestr::bytes_eq;
use crate::bytestr::clone_bytes;
use crate::bytestr::contains_bytes;
use crate::bytestr::lemma_bytes_deep_view;
use crate::codec::SPACE;
use crate::codec::extend_bytes;
use crate::codec::one_param_frame;
use crate::codec::space_split;
use crate::codec::spec_one_param;
use crate::codec::spec_three_param;
use crate::codec::split_payload;
use crate::codec::three_param_frame;
use crate::codes;
use crate::registry::Registry;
use crate::registry::RegistryModel;
use crate::registry::has_room_name;
use crate::registry::join_model;
use crate::registry::leave_model;
use crate::registry::lemma_membership_symmetry;
use crate::registry::members_model;
use crate::registry::register_model;
use crate::registry::room_names;
use crate::registry::rooms_of_model;
use crate::registry::unregister_model;
use crate::registry::RegistryError;
use vstd::string::StringSliceAdditionalSpecFns;

broadcast use vstd::seq_lib::group_seq_properties, lemma_bytes_deep_view;

/// The byte that separates room names in a comma-joined room list.
pub const COMMA: u8 = 0x2C;

/// One write the server must perform: a frame to the connection whose frame
/// is being handled, or a frame to a registered peer named by nickname.
pub enum OutFrame {
    ToCaller(Vec<u8>),
    ToPeer(Vec<u8>, Vec<u8>),
}

/// The mathematical content of one outgoing write.
pub ghost enum OutModel {
    ToCaller(Seq<u8>),
    ToPeer(Seq<u8>, Seq<u8>),
}

impl View for OutFrame {
    type V = OutModel;

    open spec fn view(&self) -> OutModel {
        match self {
            OutFrame::ToCaller(f) => OutModel::ToCaller(f@),
            OutFrame::ToPeer(n, f) => OutModel::ToPeer(n@, f@),
        }
    }
}

impl DeepView for OutFrame {
    type V = OutModel;

    open spec fn deep_view(&self) -> OutModel {
        self@
    }
}

/// One frame to every user, in registration order.
pub open spec fn to_every_user(users: Seq<Seq<u8>>, frame: Seq<u8>) -> Seq<OutModel> {
    Seq::new(users.len(), |i: int| OutModel::ToPeer(users[i], frame))
}

/// The frame that carries one room message to a recipient.
pub open spec fn room_msg_frame(room: Seq<u8>, sender: Seq<u8>, text: Seq<u8>) -> Seq<u8> {
    spec_three_param(codes::MESSAGE_ROOM, room, sender, text)
}

/// Fan-out of one frame to every room member but the sender, in join order.
pub open spec fn fanout_model(members: Seq<Seq<u8>>, sender: Seq<u8>, frame: Seq<u8>) -> Seq<
    OutModel,
>
    decreases members.len(),
{
    if members.len() == 0 {
        Seq::empty()
    } else {
        let rest = fanout_model(members.drop_last(), sender, frame);
        if members.last() == sender {
            rest
        } else {
            rest.push(OutModel::ToPeer(members.last(), frame))
        }
    }
}

/// The listing text for a sequence of names: every name followed by one
/// space, so the text of a nonempty list ends in a trailing space.
pub open spec fn space_joined(names: Seq<Seq<u8>>) -> Seq<u8>
    decreases names.len(),
{
    if names.len() == 0 {
        Seq::empty()
    } else {
        space_joined(names.drop_last()) + names.last() + seq![SPACE]
    }
}

/// Names joined by single commas, with no trailing separator.
pub open spec fn comma_joined(names: Seq<Seq<u8>>) -> Seq<u8>
    decreases names.len(),
{
    if names.len() == 0 {
        Seq::empty()
    } else if names.len() == 1 {
        names[0]
    } else {
        comma_joined(names.drop_last()) + seq![COMMA] + names.last()
    }
}

/// The reply text after joining a room.
pub open spec fn joined_text(room: Seq<u8>, rooms: Seq<Seq<u8>>) -> Seq<u8> {
    "Joined ".spec_bytes() + room + ". Current rooms: ".spec_bytes() + comma_joined(rooms)
}

/// The reply text after leaving a room.
pub open spec fn left_text(room: Seq<u8>, rooms: Seq<Seq<u8>>) -> Seq<u8> {
    "Left ".spec_bytes() + room + ". Current rooms: ".spec_bytes() + comma_joined(rooms)
}

/// Build the fan-out writes of one frame to every member but the sender.
fn fanout(members: &Vec<Vec<u8>>, sender: &[u8], frame: &Vec<u8>) -> (out: Vec<OutFrame>)
    ensures
        out.deep_view() == fanout_model(members.deep_view(), sender@, frame@),
{
    let mut out: Vec<OutFrame> = Vec::new();
    let mut k: usize = 0;
    while k < members.len()
        invariant
            k <= members@.len(),
            out.deep_view() == fanout_model(members.deep_view().take(k as int), sender@, frame@),
        decreases members@.len() - k,
    {
        let ghost pre = out.deep_view();
        let ghost dv = members.deep_view();
        proof {
            assert(dv.take(k + 1).drop_last() =~= dv.take(k as int));
            assert(dv.take(k + 1).last() == dv[k as int]);
            assert(dv[k as int] == members@[k as int].deep_view());
        }
        let same: bool = bytes_eq(members[k].as_slice(), sender);
        if !same {
            out.push(OutFrame::ToPeer(clone_bytes(members[k].as_slice()), clone_bytes(frame.as_slice())));
            proof {
                assert(out.deep_view() =~= pre.push(OutModel::ToPeer(dv[k as int], frame@)));
                assert(fanout_model(dv.take(k + 1), sender@, frame@) == pre.push(
                    OutModel::ToPeer(dv[k as int], frame@),
                ));
            }
        } else {
            proof {
                assert(fanout_model(dv.take(k + 1), sender@, frame@) == pre);
            }
        }
        k = k + 1;
    }
    proof {
        assert(members.deep_view().take(members.deep_view().len() as int) =~= members.deep_view());
    }
    out
}

/// Build the listing text of a sequence of names, each followed by a space.
fn space_join(names: &Vec<Vec<u8>>) -> (r: Vec<u8>)
    ensures
        r@ == space_joined(names.deep_view()),
{
    let mut r: Vec<u8> = Vec::new();
    let mut k: usize = 0;
    while k < names.len()
        invariant
            k <= names@.len(),
            r@ == space_joined(names.deep_view().take(k as int)),
        decreases names@.len() - k,
    {
        let ghost dv = names.deep_view();
        proof {
            assert(dv.take(k + 1).drop_last() =~= dv.take(k as int));
            assert(dv.take(k + 1).last() == dv[k as int]);
            assert(dv[k as int] == names@[k as int].deep_view());
        }
        extend_bytes(&mut r, names[k].as_slice());
        r.push(SPACE);
        proof {
            assert(r@ =~= space_joined(dv.take(k + 1)));
        }
        k = k + 1;
    }
    proof {
        assert(names.deep_view().take(names.deep_view().len() as int) =~= names.deep_view());
    }
    r
}

/// Build the comma-joined text of a sequence of names.
fn comma_join(names: &Vec<Vec<u8>>) -> (r: Vec<u8>)
    ensures
        r@ == comma_joined(names.deep_view()),
{
    let mut r: Vec<u8> = Vec::new();
    let mut k: usize = 0;
    while k < names.len()
        invariant
            k <= names@.len(),
            r@ == comma_joined(names.deep_view().take(k as int)),
        decreases names@.len() - k,
    {
        let ghost dv = names.deep_view();
        proof {
            assert(dv.take(k + 1).drop_last() =~= dv.take(k as int));
            assert(dv.take(k + 1).last() == dv[k as int]);
            assert(dv[k as int] == names@[k as int].deep_view());
            if k == 0 {
                assert(dv.take(1)[0] == dv[0]);
            }
        }
        if k > 0 {
            r.push(COMMA);
        }
        extend_bytes(&mut r, names[k].as_slice());
        proof {
            assert(r@ =~= comma_joined(dv.take(k + 1)));
        }
        k = k + 1;
    }
    proof {
        assert(names.deep_view().take(names.deep_view().len() as int) =~= names.deep_view());
    }
    r
}

/// A frame that is a single opcode byte, as an owned buffer.
fn op_frame(op: u8) -> (r: Vec<u8>)
    ensures
        r@ == seq![op],
{
    let mut r: Vec<u8> = Vec::new();
    r.push(op);
    proof {
        assert(r@ =~= seq![op]);
    }
    r
}

/// An `ERROR` frame carrying one sub-code.
fn err_frame(code: u8) -> (r: Vec<u8>)
    ensures
        r@ == seq![codes::ERROR, code],
{
    let mut r: Vec<u8> = Vec::new();
    r.push(codes::ERROR);
    r.push(code);
    proof {
        assert(r@ =~= seq![codes::ERROR, code]);
    }
    r
}

/// A single write back to the caller's own connection.
fn caller_only(frame: Vec<u8>) -> (out: Vec<OutFrame>)
    ensures
        out.deep_view() == seq![OutModel::ToCaller(frame@)],
{
    let ghost f = frame@;
    let mut out: Vec<OutFrame> = Vec::new();
    out.push(OutFrame::ToCaller(frame));
    proof {
        assert(out.deep_view() =~= seq![OutModel::ToCaller(f)]);
    }
    out
}

/// What handling a room-directed message yields: an unknown room or a
/// sender who is no member is refused; otherwise the message goes to every
/// other member, in join order, and the acknowledgement to the sender comes
/// last.
pub open spec fn message_room_out_model(
    m: RegistryModel,
    sender: Seq<u8>,
    room: Seq<u8>,
    msg: Seq<u8>,
) -> Seq<OutModel> {
    if !has_room_name(m.rooms, room) {
        seq![OutModel::ToCaller(seq![codes::ERROR, codes::EMPTY_ROOM])]
    } else if !members_model(m.rooms, room).contains(sender) {
        seq![OutModel::ToCaller(seq![codes::ERROR, codes::NOT_IN_ROOM])]
    } else {
        fanout_model(members_model(m.rooms, room), sender, room_msg_frame(room, sender, msg))
            + seq![OutModel::ToCaller(seq![codes::RESPONSE_OK])]
    }
}

/// Handle a message directed at one room: fan it out to the other members
/// and acknowledge the sender, or refuse it.
pub fn message_room(reg: &Registry, sender: &[u8], room: &[u8], msg: &[u8]) -> (out: Vec<OutFrame>)
    ensures
        out.deep_view() == message_room_out_model(reg@, sender@, room@, msg@),
{
    let found: Option<Vec<Vec<u8>>> = reg.members(room);
    match found {
        None => caller_only(err_frame(codes::EMPTY_ROOM)),
        Some(ms) => {
            if !contains_bytes(&ms, sender) {
                caller_only(err_frame(codes::NOT_IN_ROOM))
            } else {
                let frame: Vec<u8> = three_param_frame(codes::MESSAGE_ROOM, room, sender, msg);
                let mut out: Vec<OutFrame> = fanout(&ms, sender, &frame);
                let ghost pre = out.deep_view();
                out.push(OutFrame::ToCaller(op_frame(codes::RESPONSE_OK)));
                proof {
                    assert(out.deep_view() =~= pre + seq![
                        OutModel::ToCaller(seq![codes::RESPONSE_OK]),
                    ]);
                }
                out
            }
        },
    }
}

/// The fan-out of one text to a list of rooms, room by room in the order
/// given, each room's writes in member join order.
pub open spec fn fanout_rooms(
    names: Seq<Seq<u8>>,
    m: RegistryModel,
    sender: Seq<u8>,
    text: Seq<u8>,
) -> Seq<OutModel>
    decreases names.len(),
{
    if names.len() == 0 {
        Seq::empty()
    } else {
        fanout_rooms(names.drop_last(), m, sender, text) + fanout_model(
            members_model(m.rooms, names.last()),
            sender,
            room_msg_frame(names.last(), sender, text),
        )
    }
}

/// What a broadcast message yields: the text goes to every other member of
/// every room the sender is in, room by room in creation order.
pub open spec fn message_out_model(m: RegistryModel, sender: Seq<u8>, text: Seq<u8>) -> Seq<
    OutModel,
> {
    fanout_rooms(rooms_of_model(m.rooms, sender), m, sender, text)
}

/// Send a text to every room the sender has joined, fanning it out to the
/// other members of each.
pub fn message_all_senders_rooms(reg: &Registry, sender: &[u8], text: &[u8]) -> (out: Vec<
    OutFrame,
>)
    requires
        reg@.wf(),
    ensures
        out.deep_view() == message_out_model(reg@, sender@, text@),
{
    let rooms_list: Vec<Vec<u8>> = reg.rooms_of(sender);
    let mut out: Vec<OutFrame> = Vec::new();
    let mut k: usize = 0;
    while k < rooms_list.len()
        invariant
            reg@.wf(),
            k <= rooms_list@.len(),
            rooms_list.deep_view() == rooms_of_model(reg@.rooms, sender@),
            out.deep_view() == fanout_rooms(
                rooms_list.deep_view().take(k as int),
                reg@,
                sender@,
                text@,
            ),
        decreases rooms_list@.len() - k,
    {
        let ghost names = rooms_list.deep_view();
        let ghost pre = out.deep_view();
        proof {
            assert(names.take(k + 1).drop_last() =~= names.take(k as int));
            assert(names.take(k + 1).last() == names[k as int]);
            assert(names[k as int] == rooms_list@[k as int].deep_view());
            assert(names.contains(names[k as int]));
            lemma_membership_symmetry(reg@, sender@, names[k as int]);
        }
        let ms: Vec<Vec<u8>> = match reg.members(rooms_list[k].as_slice()) {
            Some(v) => v,
            None => vstd::pervasive::unreached(),
        };
        let frame: Vec<u8> = three_param_frame(
            codes::MESSAGE_ROOM,
            rooms_list[k].as_slice(),
            sender,
            text,
        );
        let mut add: Vec<OutFrame> = fanout(&ms, sender, &frame);
        out.append(&mut add);
        proof {
            assert(out.deep_view() =~= fanout_rooms(names.take(k + 1), reg@, sender@, text@));
        }
        k = k + 1;
    }
    proof {
        let names = rooms_list.deep_view();
        assert(names.take(names.len() as int) =~= names);
    }
    out
}

/// What joining yields for the caller: the updated room list on success, or
/// the refusal.
pub open spec fn join_out_model(m: RegistryModel, nick: Seq<u8>, room: Seq<u8>) -> Seq<OutModel> {
    let step = join_model(m, nick, room);
    if step.1 is Ok {
        seq![
            OutModel::ToCaller(
                spec_one_param(
                    codes::RESPONSE,
                    joined_text(room, rooms_of_model(step.0.rooms, nick)),
                ),
            ),
        ]
    } else {
        seq![OutModel::ToCaller(seq![codes::ERROR, codes::ALREADY_IN_ROOM])]
    }
}

/// Join a room and tell the caller which rooms it is now in.
pub fn join_room(reg: &mut Registry, nick: &[u8], room: &[u8]) -> (out: Vec<OutFrame>)
    requires
        old(reg)@.users.contains(nick@),
    ensures
        final(reg)@ == join_model(old(reg)@, nick@, room@).0,
        out.deep_view() == join_out_model(old(reg)@, nick@, room@),
        old(reg)@.wf() ==> final(reg)@.wf(),
{
    let res: Result<(), RegistryError> = reg.join(nick, room);
    match res {
        Ok(_) => {
            let rooms_after: Vec<Vec<u8>> = reg.rooms_of(nick);
            let listing: Vec<u8> = comma_join(&rooms_after);
            let mut text: Vec<u8> = Vec::new();
            extend_bytes(&mut text, "Joined ".as_bytes());
            extend_bytes(&mut text, room);
            extend_bytes(&mut text, ". Current rooms: ".as_bytes());
            extend_bytes(&mut text, listing.as_slice());
            proof {
                assert(text@ =~= joined_text(room@, rooms_of_model(reg@.rooms, nick@)));
            }
            caller_only(one_param_frame(codes::RESPONSE, text.as_slice()))
        },
        Err(_) => caller_only(err_frame(codes::ALREADY_IN_ROOM)),
    }
}

/// What leaving yields for the caller: the updated room list on success, or
/// the refusal that names what went wrong.
pub open spec fn leave_out_model(m: RegistryModel, nick: Seq<u8>, room: Seq<u8>) -> Seq<OutModel> {
    let step = leave_model(m, nick, room);
    match step.1 {
        Ok(_) => seq![
            OutModel::ToCaller(
                spec_one_param(
                    codes::RESPONSE,
                    left_text(room, rooms_of_model(step.0.rooms, nick)),
                ),
            ),
        ],
        Err(RegistryError::NotInRoom) => seq![
            OutModel::ToCaller(seq![codes::ERROR, codes::NOT_IN_ROOM]),
        ],
        Err(_) => seq![OutModel::ToCaller(seq![codes::ERROR, codes::INVALID_ROOM])],
    }
}

/// Leave a room and tell the caller which rooms it is still in.
pub fn leave_room(reg: &mut Registry, nick: &[u8], room: &[u8]) -> (out: Vec<OutFrame>)
    ensures
        final(reg)@ == leave_model(old(reg)@, nick@, room@).0,
        out.deep_view() == leave_out_model(old(reg)@, nick@, room@),
        old(reg)@.wf() ==> final(reg)@.wf(),
{
    let res: Result<(), RegistryError> = reg.leave(nick, room);
    match res {
        Ok(_) => {
            let rooms_after: Vec<Vec<u8>> = reg.rooms_of(nick);
            let listing: Vec<u8> = comma_join(&rooms_after);
            let mut text: Vec<u8> = Vec::new();
            extend_bytes(&mut text, "Left ".as_bytes());
            extend_bytes(&mut text, room);
            extend_bytes(&mut text, ". Current rooms: ".as_bytes());
            extend_bytes(&mut text, listing.as_slice());
            proof {
                assert(text@ =~= left_text(room@, rooms_of_model(reg@.rooms, nick@)));
            }
            caller_only(one_param_frame(codes::RESPONSE, text.as_slice()))
        },
        Err(RegistryError::NotInRoom) => caller_only(err_frame(codes::NOT_IN_ROOM)),
        Err(_) => caller_only(err_frame(codes::INVALID_ROOM)),
    }
}

/// The opcodes a registered client may send.
pub open spec fn known_opcode(opcode: u8) -> bool {
    ||| opcode == codes::REGISTER_NICK
    ||| opcode == codes::LIST_ROOMS
    ||| opcode == codes::LIST_USERS
    ||| opcode == codes::LIST_USERS_IN_ROOM
    ||| opcode == codes::JOIN_ROOM
    ||| opcode == codes::LEAVE_ROOM
    ||| opcode == codes::MESSAGE
    ||| opcode == codes::KEEP_ALIVE
    ||| opcode == codes::MESSAGE_ROOM
    ||| opcode == codes::QUIT
}

/// What dispatching one frame of a registered session does: how the
/// registry changes, which writes come out and in what order, and whether
/// the session ends. This one predicate is the contract of the dispatcher,
/// opcode by opcode.
pub open spec fn dispatch_post(
    m0: RegistryModel,
    nick: Seq<u8>,
    opcode: u8,
    payload: Seq<u8>,
    m1: RegistryModel,
    out: Seq<OutModel>,
    closed: bool,
) -> bool {
    &&& (opcode == codes::REGISTER_NICK ==> m1 == m0 && !closed && out == seq![
        OutModel::ToCaller(seq![codes::ERROR, codes::ALREADY_REGISTERED]),
    ])
    &&& (opcode == codes::LIST_ROOMS ==> m1 == m0 && !closed && out == seq![
        OutModel::ToCaller(
            spec_one_param(codes::RESPONSE, space_joined(room_names(m0.rooms))),
        ),
    ])
    &&& (opcode == codes::LIST_USERS ==> m1 == m0 && !closed && out == seq![
        OutModel::ToCaller(spec_one_param(codes::RESPONSE, space_joined(m0.users))),
    ])
    &&& (opcode == codes::LIST_USERS_IN_ROOM ==> m1 == m0 && !closed && out == (
    if has_room_name(m0.rooms, payload) {
        seq![
            OutModel::ToCaller(
                spec_one_param(
                    codes::RESPONSE,
                    space_joined(members_model(m0.rooms, payload)),
                ),
            ),
        ]
    } else {
        seq![OutModel::ToCaller(seq![codes::ERROR, codes::INVALID_ROOM])]
    }))
    &&& (opcode == codes::JOIN_ROOM ==> !closed && m1 == join_model(m0, nick, payload).0 && out
        == join_out_model(m0, nick, payload))
    &&& (opcode == codes::LEAVE_ROOM ==> !closed && m1 == leave_model(m0, nick, payload).0 && out
        == leave_out_model(m0, nick, payload))
    &&& (opcode == codes::MESSAGE ==> m1 == m0 && !closed && out == message_out_model(
        m0,
        nick,
        payload,
    ) + seq![OutModel::ToCaller(seq![codes::RESPONSE_OK])])
    &&& (opcode == codes::KEEP_ALIVE ==> m1 == m0 && !closed && out == seq![
        OutModel::ToCaller(seq![codes::RESPONSE_OK]),
    ])
    &&& (opcode == codes::MESSAGE_ROOM ==> m1 == m0 && !closed && out == (
    match space_split(payload) {
        Option::None => seq![OutModel::ToCaller(seq![codes::ERROR, codes::MALFORMED])],
        Option::Some(parts) => message_room_out_model(m0, nick, parts.0, parts.1),
    }))
    &&& (opcode == codes::QUIT ==> closed && m1 == unregister_model(m0, nick) && out
        == Seq::<OutModel>::empty())
    &&& (!known_opcode(opcode) ==> m1 == m0 && !closed && out == seq![
        OutModel::ToCaller(seq![codes::ERROR, codes::MALFORMED]),
    ])
}

/// What the dispatcher hands back: the writes to perform, in order, and
/// whether the session is over.
pub struct HandlerResult {
    pub out: Vec<OutFrame>,
    pub closed: bool,
}

/// Dispatch one frame of a registered session: mutate the registry, and
/// yield the writes to perform. `dispatch_post` states the outcome for
/// every opcode.
pub fn handle_client(reg: &mut Registry, nick: &[u8], opcode: u8, payload: &[u8]) -> (r:
    HandlerResult)
    requires
        old(reg)@.wf(),
        old(reg)@.users.contains(nick@),
    ensures
        final(reg)@.wf(),
        dispatch_post(
            old(reg)@,
            nick@,
            opcode,
            payload@,
            final(reg)@,
            r.out.deep_view(),
            r.closed,
        ),
        !r.closed ==> final(reg)@.users.contains(nick@),
{
    if opcode == codes::REGISTER_NICK {
        HandlerResult { out: caller_only(err_frame(codes::ALREADY_REGISTERED)), closed: false }
    } else if opcode == codes::LIST_ROOMS {
        let names: Vec<Vec<u8>> = reg.list_rooms();
        let text: Vec<u8> = space_join(&names);
        HandlerResult {
            out: caller_only(one_param_frame(codes::RESPONSE, text.as_slice())),
            closed: false,
        }
    } else if opcode == codes::LIST_USERS {
        let names: Vec<Vec<u8>> = reg.list_users();
        let text: Vec<u8> = space_join(&names);
        HandlerResult {
            out: caller_only(one_param_frame(codes::RESPONSE, text.as_slice())),
            closed: false,
        }
    } else if opcode == codes::LIST_USERS_IN_ROOM {
        let found: Option<Vec<Vec<u8>>> = reg.members(payload);
        match found {
            Some(ms) => {
                let text: Vec<u8> = space_join(&ms);
                HandlerResult {
                    out: caller_only(one_param_frame(codes::RESPONSE, text.as_slice())),
                    closed: false,
                }
            },
            None => HandlerResult {
                out: caller_only(err_frame(codes::INVALID_ROOM)),
                closed: false,
            },
        }
    } else if opcode == codes::JOIN_ROOM {
        HandlerResult { out: join_room(reg, nick, payload), closed: false }
    } else if opcode == codes::LEAVE_ROOM {
        HandlerResult { out: leave_room(reg, nick, payload), closed: false }
    } else if opcode == codes::MESSAGE {
        let mut out: Vec<OutFrame> = message_all_senders_rooms(reg, nick, payload);
        let ghost pre = out.deep_view();
        out.push(OutFrame::ToCaller(op_frame(codes::RESPONSE_OK)));
        proof {
            assert(out.deep_view() =~= pre + seq![OutModel::ToCaller(seq![codes::RESPONSE_OK])]);
        }
        HandlerResult { out, closed: false }
    } else if opcode == codes::KEEP_ALIVE {
        HandlerResult { out: caller_only(op_frame(codes::RESPONSE_OK)), closed: false }
    } else if opcode == codes::MESSAGE_ROOM {
        let parts: Option<(Vec<u8>, Vec<u8>)> = split_payload(payload);
        match parts {
            Some(p) => HandlerResult {
                out: message_room(reg, nick, p.0.as_slice(), p.1.as_slice()),
                closed: false,
            },
            None => HandlerResult { out: caller_only(err_frame(codes::MALFORMED)), closed: false },
        }
    } else if opcode == codes::QUIT {
        reg.unregister(nick);
        let out: Vec<OutFrame> = Vec::new();
        proof {
            assert(out.deep_view() =~= Seq::<OutModel>::empty());
        }
        HandlerResult { out, closed: true }
    } else {
        HandlerResult { out: caller_only(err_frame(codes::MALFORMED)), closed: false }
    }
}

/// Where a session stands: before registration, registered, or over.
#[derive(Clone, Copy, PartialEq, Eq, Structural, Debug)]
pub enum Phase {
    AwaitingNick,
    Active,
    Closed,
}

/// The per-connection session: its phase, and its nickname once registered.
pub struct Session {
    phase: Phase,
    nick: Option<Vec<u8>>,
}

/// What a session is, seen mathematically.
pub ghost struct SessionModel {
    pub phase: Phase,
    pub nick: Option<Seq<u8>>,
}

impl View for Session {
    type V = SessionModel;

    closed spec fn view(&self) -> SessionModel {
        SessionModel {
            phase: self.phase,
            nick: match self.nick {
                Option::Some(ref n) => Option::Some(n@),
                Option::None => Option::None,
            },
        }
    }
}

impl SessionModel {
    /// The nickname of a registered session.
    pub open spec fn nick_bytes(self) -> Seq<u8> {
        match self.nick {
            Option::Some(n) => n,
            Option::None => Seq::empty(),
        }
    }

    /// A registered session carries a nickname that the registry knows.
    pub open spec fn inv(self, m: RegistryModel) -> bool {
        self.phase == Phase::Active ==> (self.nick is Some && m.users.contains(self.nick_bytes()))
    }
}

impl Session {
    /// A fresh session, before any frame arrived.
    pub fn new() -> (s: Session)
        ensures
            s@.phase == Phase::AwaitingNick,
            s@.nick is None,
    {
        Session { phase: Phase::AwaitingNick, nick: None }
    }

    /// Where the session stands.
    pub fn phase(&self) -> (p: Phase)
        ensures
            p == self@.phase,
    {
        self.phase
    }
}

/// Feed one decoded frame to a session. Before registration only
/// `REGISTER_NICK` is accepted: success answers `RESPONSE_OK` and makes the
/// session active, a collision or any other opcode is refused and ends the
/// session. An active session dispatches the frame as `dispatch_post`
/// states; the session ends exactly when the frame was `QUIT`.
pub fn session_step(sess: &mut Session, reg: &mut Registry, opcode: u8, payload: &[u8]) -> (out:
    Vec<OutFrame>)
    requires
        old(sess)@.inv(old(reg)@),
        old(reg)@.wf(),
    ensures
        final(reg)@.wf(),
        final(sess)@.inv(final(reg)@),
        old(sess)@.phase == Phase::Closed ==> final(sess)@ == old(sess)@ && final(reg)@ == old(reg)@ && out.deep_view() == Seq::<OutModel>::empty(),
        old(sess)@.phase == Phase::AwaitingNick && opcode == codes::REGISTER_NICK
            && register_model(old(reg)@, payload@).1 is Ok ==> final(reg)@ == register_model(
            old(reg)@,
            payload@,
        ).0 && final(sess)@.phase == Phase::Active && final(sess)@.nick == Option::Some(payload@)
            && out.deep_view() == seq![OutModel::ToCaller(seq![codes::RESPONSE_OK])],
        old(sess)@.phase == Phase::AwaitingNick && opcode == codes::REGISTER_NICK
            && register_model(old(reg)@, payload@).1 is Err ==> final(reg)@ == old(reg)@ && final(sess)@.phase == Phase::Closed && out.deep_view() == seq![
            OutModel::ToCaller(seq![codes::ERROR, codes::NICKNAME_COLLISION]),
        ],
        old(sess)@.phase == Phase::AwaitingNick && opcode != codes::REGISTER_NICK ==> final(reg)@
            == old(reg)@ && final(sess)@.phase == Phase::Closed && out.deep_view() == seq![
            OutModel::ToCaller(seq![codes::ERROR, codes::NOT_YET_REGISTERED]),
        ],
        old(sess)@.phase == Phase::Active ==> final(sess)@.nick == old(sess)@.nick
            && dispatch_post(
            old(reg)@,
            old(sess)@.nick_bytes(),
            opcode,
            payload@,
            final(reg)@,
            out.deep_view(),
            final(sess)@.phase == Phase::Closed,
        ),
{
    let phase_now: Phase = sess.phase;
    match phase_now {
        Phase::Closed => {
            let out: Vec<OutFrame> = Vec::new();
            proof {
                assert(out.deep_view() =~= Seq::<OutModel>::empty());
            }
            out
        },
        Phase::AwaitingNick => {
            if opcode == codes::REGISTER_NICK {
                let res: Result<(), RegistryError> = reg.register(payload);
                match res {
                    Ok(_) => {
                        sess.phase = Phase::Active;
                        sess.nick = Some(clone_bytes(payload));
                        proof {
                            let u1 = reg@.users;
                            assert(u1[u1.len() - 1] == payload@);
                            assert(u1.contains(payload@));
                        }
                        caller_only(op_frame(codes::RESPONSE_OK))
                    },
                    Err(_) => {
                        sess.phase = Phase::Closed;
                        caller_only(err_frame(codes::NICKNAME_COLLISION))
                    },
                }
            } else {
                sess.phase = Phase::Closed;
                caller_only(err_frame(codes::NOT_YET_REGISTERED))
            }
        },
        Phase::Active => {
            let n: Vec<u8> = match &sess.nick {
                Some(n) => clone_bytes(n.as_slice()),
                None => vstd::pervasive::unreached(),
            };
            let r: HandlerResult = handle_client(reg, n.as_slice(), opcode, payload);
            if r.closed {
                sess.phase = Phase::Closed;
            }
            r.out
        },
    }
}

/// End a session whose connection reached end of file or failed: an active
/// session's nickname is unregistered, and the session is closed. Nothing
/// is written back.
pub fn session_eof(sess: &mut Session, reg: &mut Registry)
    requires
        old(sess)@.inv(old(reg)@),
        old(reg)@.wf(),
    ensures
        final(reg)@.wf(),
        final(sess)@.phase == Phase::Closed,
        final(sess)@.inv(final(reg)@),
        old(sess)@.phase == Phase::Active ==> final(reg)@ == unregister_model(
            old(reg)@,
            old(sess)@.nick_bytes(),
        ),
        old(sess)@.phase != Phase::Active ==> final(reg)@ == old(reg)@,
{
    if sess.phase == Phase::Active {
        let n: Vec<u8> = match &sess.nick {
            Some(n) => clone_bytes(n.as_slice()),
            None => vstd::pervasive::unreached(),
        };
        reg.unregister(n.as_slice());
    }
    sess.phase = Phase::Closed;
}

} // verus!
