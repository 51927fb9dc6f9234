//! The administrator surface: the menu choices, a broadcast to every
//! registered user, and the shutdown that tells every user to quit. The
//! menu I/O itself stays with the caller; these functions only decide and
//! build the writes.

use vstd::prelude::*;

verus! {

use crate::bytestr::clone_bytes;
use crate::bytestr::lemma_bytes_deep_view;
use crate::codec::one_param_frame;
use crate::codec::spec_one_param;
use crate::codes;
use crate::registry::Registry;
use crate::session::OutFrame;
use crate::session::OutModel;
use crate::session::to_every_user;
use vstd::string::StringSliceAdditionalSpecFns;

broadcast use vstd::seq_lib::group_seq_properties, lemma_bytes_deep_view;

/// What the administrator menu can do.
#[derive(Clone, Copy, PartialEq, Eq, Structural, Debug)]
pub enum AdminCommand {
    Quit,
    ListUsers,
    ListRooms,
    Broadcast,
    Freeze,
    Invalid,
}

/// Every byte is an ASCII decimal digit.
pub open spec fn all_digits(s: Seq<u8>) -> bool {
    forall|i: int| 0 <= i < s.len() ==> 0x30 <= #[trigger] s[i] <= 0x39
}

/// The number the decimal digits spell.
pub open spec fn digits_value(s: Seq<u8>) -> int
    decreases s.len(),
{
    if s.len() == 0 {
        0
    } else {
        digits_value(s.drop_last()) * 10 + (s.last() - 0x30)
    }
}

proof fn lemma_digits_value_nonneg(s: Seq<u8>)
    requires
        all_digits(s),
    ensures
        digits_value(s) >= 0,
    decreases s.len(),
{
    if s.len() > 0 {
        let d = s.drop_last();
        assert(forall|j: int| 0 <= j < d.len() ==> d[j] == s[j]);
        lemma_digits_value_nonneg(d);
        assert(s.last() >= 0x30);
    }
}

proof fn lemma_digits_value_monotone(s: Seq<u8>, i: int)
    requires
        0 <= i <= s.len(),
        all_digits(s),
    ensures
        digits_value(s.take(i)) <= digits_value(s),
    decreases s.len(),
{
    if i < s.len() {
        let d = s.drop_last();
        assert(forall|j: int| 0 <= j < d.len() ==> d[j] == s[j]);
        lemma_digits_value_monotone(d, i);
        lemma_digits_value_nonneg(d);
        assert(s.take(i) =~= d.take(i));
        assert(s.last() >= 0x30);
        assert(digits_value(s) >= digits_value(d));
    } else {
        assert(s.take(i) =~= s);
    }
}

/// Parse a small decimal number: every byte must be a digit and the value
/// must fit in a byte.
pub fn parse_menu_choice(s: &[u8]) -> (r: Option<u8>)
    ensures
        r is Some <==> (s@.len() > 0 && all_digits(s@) && digits_value(s@) <= 255),
        r matches Some(v) ==> v == digits_value(s@),
{
    if s.len() == 0 {
        return None;
    }
    let mut acc: u32 = 0;
    let mut i: usize = 0;
    while i < s.len()
        invariant
            0 < s@.len(),
            i <= s@.len(),
            all_digits(s@.take(i as int)),
            acc == digits_value(s@.take(i as int)),
            acc <= 255,
        decreases s@.len() - i,
    {
        proof {
            assert(s@.take(i + 1).drop_last() =~= s@.take(i as int));
            assert(s@.take(i + 1).last() == s@[i as int]);
        }
        let b: u8 = s[i];
        if b < 0x30 || b > 0x39 {
            return None;
        }
        acc = acc * 10 + ((b - 0x30) as u32);
        if acc > 255 {
            proof {
                if all_digits(s@) {
                    lemma_digits_value_monotone(s@, i + 1);
                }
            }
            return None;
        }
        i = i + 1;
    }
    proof {
        assert(s@.take(s@.len() as int) =~= s@);
    }
    Some(acc as u8)
}

/// The menu choice a line of input names.
pub open spec fn spec_admin_command(s: Seq<u8>) -> AdminCommand {
    if s.len() > 0 && all_digits(s) && digits_value(s) <= 255 {
        if digits_value(s) == 0 {
            AdminCommand::Quit
        } else if digits_value(s) == 1 {
            AdminCommand::ListUsers
        } else if digits_value(s) == 2 {
            AdminCommand::ListRooms
        } else if digits_value(s) == 3 {
            AdminCommand::Broadcast
        } else if digits_value(s) == 4 {
            AdminCommand::Freeze
        } else {
            AdminCommand::Invalid
        }
    } else {
        AdminCommand::Invalid
    }
}

/// Read one administrator menu line.
pub fn admin_command(line: &str) -> (c: AdminCommand)
    ensures
        c == spec_admin_command(line.spec_bytes()),
{
    let choice: Option<u8> = parse_menu_choice(line.as_bytes());
    match choice {
        Some(0) => AdminCommand::Quit,
        Some(1) => AdminCommand::ListUsers,
        Some(2) => AdminCommand::ListRooms,
        Some(3) => AdminCommand::Broadcast,
        Some(4) => AdminCommand::Freeze,
        _ => AdminCommand::Invalid,
    }
}

/// One frame addressed to every registered user, in registration order.
fn to_all(users: &Vec<Vec<u8>>, frame: &Vec<u8>) -> (out: Vec<OutFrame>)
    ensures
        out.deep_view() == to_every_user(users.deep_view(), frame@),
{
    let mut out: Vec<OutFrame> = Vec::new();
    let mut k: usize = 0;
    while k < users.len()
        invariant
            k <= users@.len(),
            out.deep_view().len() == k,
            forall|j: int|
                0 <= j < k ==> out.deep_view()[j] == OutModel::ToPeer(
                    users.deep_view()[j],
                    frame@,
                ),
        decreases users@.len() - k,
    {
        let ghost pre = out.deep_view();
        out.push(OutFrame::ToPeer(clone_bytes(users[k].as_slice()), clone_bytes(frame.as_slice())));
        proof {
            assert(out.deep_view().len() == pre.len() + 1);
            assert(forall|j: int| 0 <= j < pre.len() ==> #[trigger] out.deep_view()[j] == pre[j]);
            assert(out.deep_view()[k as int] == OutModel::ToPeer(users.deep_view()[k as int], frame@));
        }
        k = k + 1;
    }
    proof {
        assert(out.deep_view() =~= to_every_user(users.deep_view(), frame@));
    }
    out
}

/// Broadcast one text to every registered user under the given opcode.
pub fn broadcast(reg: &Registry, op: u8, message: &[u8]) -> (out: Vec<OutFrame>)
    ensures
        out.deep_view() == to_every_user(reg@.users, spec_one_param(op, message@)),
{
    let users: Vec<Vec<u8>> = reg.list_users();
    let frame: Vec<u8> = one_param_frame(op, message);
    to_all(&users, &frame)
}

/// Tell every registered user to quit; the caller closes the connections.
pub fn disconnect_all(reg: &Registry) -> (out: Vec<OutFrame>)
    ensures
        out.deep_view() == to_every_user(reg@.users, seq![codes::QUIT]),
{
    let users: Vec<Vec<u8>> = reg.list_users();
    let mut frame: Vec<u8> = Vec::new();
    frame.push(codes::QUIT);
    proof {
        assert(frame@ =~= seq![codes::QUIT]);
    }
    to_all(&users, &frame)
}

} // verus!
