//! The frame codec. A frame is one opcode byte followed by the payload bytes;
//! there is no length prefix and no terminator. A frame with two parameters
//! separates them with the first 0x20 byte of the payload, one with three
//! parameters with the first two; the final parameter may itself contain
//! 0x20, so decoding always splits on the first space only.

use vstd::prelude::*;

verus! {

use vstd::slice::slice_subrange;
use vstd::slice::slice_to_vec;
use vstd::string::StringSliceAdditionalSpecFns;

/// The single byte that separates the parameters of a payload.
pub const SPACE: u8 = 0x20;

/// Payload layout for one parameter: the parameter bytes follow the opcode.
pub open spec fn spec_one_param(opcode: u8, p: Seq<u8>) -> Seq<u8> {
    seq![opcode] + p
}

/// Payload layout for two parameters, separated by one space byte.
pub open spec fn spec_two_param(opcode: u8, p0: Seq<u8>, p1: Seq<u8>) -> Seq<u8> {
    seq![opcode] + p0 + seq![SPACE] + p1
}

/// Payload layout for three parameters, separated by two space bytes.
pub open spec fn spec_three_param(opcode: u8, p0: Seq<u8>, p1: Seq<u8>, p2: Seq<u8>) -> Seq<u8> {
    seq![opcode] + p0 + seq![SPACE] + p1 + seq![SPACE] + p2
}

/// Append every byte of `s` to `v`.
pub fn extend_bytes(v: &mut Vec<u8>, s: &[u8])
    ensures
        final(v)@ == old(v)@ + s@,
{
    let mut i: usize = 0;
    while i < s.len()
        invariant
            i <= s@.len(),
            v@ == old(v)@ + s@.take(i as int),
        decreases s@.len() - i,
    {
        let b: u8 = s[i];
        v.push(b);
        proof {
            assert(old(v)@ + s@.take(i + 1) =~= (old(v)@ + s@.take(i as int)).push(s@[i as int]));
        }
        i = i + 1;
    }
    proof {
        assert(s@.take(s@.len() as int) =~= s@);
    }
}

/// A frame that is an opcode alone.
pub fn one_op_buf(opcode: u8) -> (r: [u8; 1])
    ensures
        r@ == seq![opcode],
{
    let r: [u8; 1] = [opcode];
    proof {
        assert(r@ =~= seq![opcode]);
    }
    r
}

/// A frame of two bytes: an opcode and one byte that follows it, most often
/// `ERROR` and its sub-code.
pub fn two_op_buf(opcode0: u8, opcode1: u8) -> (r: [u8; 2])
    ensures
        r@ == seq![opcode0, opcode1],
{
    let r: [u8; 2] = [opcode0, opcode1];
    proof {
        assert(r@ =~= seq![opcode0, opcode1]);
    }
    r
}

/// A one-parameter frame from raw payload bytes.
pub fn one_param_frame(opcode: u8, p: &[u8]) -> (r: Vec<u8>)
    ensures
        r@ == spec_one_param(opcode, p@),
{
    let mut r: Vec<u8> = Vec::new();
    r.push(opcode);
    extend_bytes(&mut r, p);
    proof {
        assert(r@ =~= spec_one_param(opcode, p@));
    }
    r
}

/// A two-parameter frame from raw parameter bytes.
pub fn two_param_frame(opcode: u8, p0: &[u8], p1: &[u8]) -> (r: Vec<u8>)
    ensures
        r@ == spec_two_param(opcode, p0@, p1@),
{
    let mut r: Vec<u8> = Vec::new();
    r.push(opcode);
    extend_bytes(&mut r, p0);
    r.push(SPACE);
    extend_bytes(&mut r, p1);
    proof {
        assert(r@ =~= spec_two_param(opcode, p0@, p1@));
    }
    r
}

/// A three-parameter frame from raw parameter bytes.
pub fn three_param_frame(opcode: u8, p0: &[u8], p1: &[u8], p2: &[u8]) -> (r: Vec<u8>)
    ensures
        r@ == spec_three_param(opcode, p0@, p1@, p2@),
{
    let mut r: Vec<u8> = Vec::new();
    r.push(opcode);
    extend_bytes(&mut r, p0);
    r.push(SPACE);
    extend_bytes(&mut r, p1);
    r.push(SPACE);
    extend_bytes(&mut r, p2);
    proof {
        assert(r@ =~= spec_three_param(opcode, p0@, p1@, p2@));
    }
    r
}

/// A one-parameter frame whose parameter is UTF-8 text.
pub fn one_param_buf(opcode: u8, param: &str) -> (r: Vec<u8>)
    ensures
        r@ == spec_one_param(opcode, param.spec_bytes()),
{
    one_param_frame(opcode, param.as_bytes())
}

/// A two-parameter frame whose parameters are UTF-8 text.
pub fn two_param_buf(opcode: u8, param0: &str, param1: &str) -> (r: Vec<u8>)
    ensures
        r@ == spec_two_param(opcode, param0.spec_bytes(), param1.spec_bytes()),
{
    two_param_frame(opcode, param0.as_bytes(), param1.as_bytes())
}

/// A three-parameter frame whose parameters are UTF-8 text.
pub fn three_param_buf(opcode: u8, param0: &str, param1: &str, param2: &str) -> (r: Vec<u8>)
    ensures
        r@ == spec_three_param(
            opcode,
            param0.spec_bytes(),
            param1.spec_bytes(),
            param2.spec_bytes(),
        ),
{
    three_param_frame(opcode, param0.as_bytes(), param1.as_bytes(), param2.as_bytes())
}

/// What splitting a payload on its first space byte yields: `None` when no
/// byte is a space, otherwise the bytes before the first space and all the
/// bytes after it (later spaces stay inside the second part).
pub open spec fn space_split(s: Seq<u8>) -> Option<(Seq<u8>, Seq<u8>)>
    decreases s.len(),
{
    if s.len() == 0 {
        None
    } else if s[0] == SPACE {
        Some((Seq::empty(), s.drop_first()))
    } else {
        match space_split(s.drop_first()) {
            None => None,
            Some(parts) => Some((seq![s[0]] + parts.0, parts.1)),
        }
    }
}

/// When the first space of `s` stands at index `i`, the split yields the
/// bytes before `i` and the bytes after `i`.
proof fn lemma_space_split_at(s: Seq<u8>, i: int)
    requires
        0 <= i < s.len(),
        s[i] == SPACE,
        forall|j: int| 0 <= j < i ==> s[j] != SPACE,
    ensures
        space_split(s) == Some((s.take(i), s.skip(i + 1))),
    decreases i,
{
    if i == 0 {
        assert(s.take(0) =~= Seq::<u8>::empty());
        assert(s.skip(1) =~= s.drop_first());
    } else {
        lemma_space_split_at(s.drop_first(), i - 1);
        assert(seq![s[0]] + s.drop_first().take(i - 1) =~= s.take(i));
        assert(s.drop_first().skip(i) =~= s.skip(i + 1));
    }
}

/// When no byte of `s` is a space, the split yields nothing.
proof fn lemma_space_split_none(s: Seq<u8>)
    requires
        forall|j: int| 0 <= j < s.len() ==> s[j] != SPACE,
    ensures
        space_split(s) is None,
    decreases s.len(),
{
    if s.len() > 0 {
        lemma_space_split_none(s.drop_first());
    }
}

/// Split a payload on its first space byte, as `space_split` describes.
pub fn split_payload(p: &[u8]) -> (r: Option<(Vec<u8>, Vec<u8>)>)
    ensures
        r is Some <==> space_split(p@) is Some,
        r matches Some(parts) ==> space_split(p@) == Some((parts.0@, parts.1@)),
{
    let mut i: usize = 0;
    while i < p.len()
        invariant
            i <= p@.len(),
            forall|j: int| 0 <= j < i ==> p@[j] != SPACE,
        decreases p@.len() - i,
    {
        if p[i] == SPACE {
            let before: Vec<u8> = slice_to_vec(slice_subrange(p, 0, i));
            let after: Vec<u8> = slice_to_vec(slice_subrange(p, i + 1, p.len()));
            proof {
                lemma_space_split_at(p@, i as int);
            }
            return Some((before, after));
        }
        i = i + 1;
    }
    proof {
        lemma_space_split_none(p@);
    }
    None
}

/// Split a received buffer into its opcode byte and its payload bytes. An
/// empty buffer holds no frame.
pub fn decode_frame(buf: &[u8]) -> (r: Option<(u8, Vec<u8>)>)
    ensures
        r is Some <==> buf@.len() >= 1,
        r matches Some(f) ==> f.0 == buf@[0] && f.1@ == buf@.skip(1),
{
    if buf.len() == 0 {
        None
    } else {
        let payload: Vec<u8> = slice_to_vec(slice_subrange(buf, 1, buf.len()));
        Some((buf[0], payload))
    }
}

/// A one-parameter frame decodes to its opcode and its parameter.
pub proof fn lemma_round_trip_one(opcode: u8, p: Seq<u8>)
    ensures
        spec_one_param(opcode, p)[0] == opcode,
        spec_one_param(opcode, p).skip(1) == p,
{
    assert(spec_one_param(opcode, p).skip(1) =~= p);
}

/// A two-parameter frame decodes to its opcode, and its payload splits back
/// into the two parameters, as long as the first parameter holds no space.
pub proof fn lemma_round_trip_two(opcode: u8, p0: Seq<u8>, p1: Seq<u8>)
    requires
        !p0.contains(SPACE),
    ensures
        spec_two_param(opcode, p0, p1)[0] == opcode,
        space_split(spec_two_param(opcode, p0, p1).skip(1)) == Some((p0, p1)),
{
    let payload = p0 + seq![SPACE] + p1;
    assert(spec_two_param(opcode, p0, p1).skip(1) =~= payload);
    assert(payload[p0.len() as int] == SPACE);
    assert(forall|j: int| 0 <= j < p0.len() ==> payload[j] == p0[j] && p0[j] != SPACE);
    lemma_space_split_at(payload, p0.len() as int);
    assert(payload.take(p0.len() as int) =~= p0);
    assert(payload.skip(p0.len() as int + 1) =~= p1);
}

/// A three-parameter frame decodes to its opcode, and splitting its payload
/// twice gives the three parameters back, as long as neither of the first two
/// parameters holds a space; the last parameter may.
pub proof fn lemma_round_trip_three(opcode: u8, p0: Seq<u8>, p1: Seq<u8>, p2: Seq<u8>)
    requires
        !p0.contains(SPACE),
        !p1.contains(SPACE),
    ensures
        spec_three_param(opcode, p0, p1, p2)[0] == opcode,
        space_split(spec_three_param(opcode, p0, p1, p2).skip(1)) == Some(
            (p0, p1 + seq![SPACE] + p2),
        ),
        space_split(p1 + seq![SPACE] + p2) == Some((p1, p2)),
{
    let payload = p0 + seq![SPACE] + (p1 + seq![SPACE] + p2);
    assert(spec_three_param(opcode, p0, p1, p2).skip(1) =~= payload);
    assert(payload[p0.len() as int] == SPACE);
    assert(forall|j: int| 0 <= j < p0.len() ==> payload[j] == p0[j] && p0[j] != SPACE);
    lemma_space_split_at(payload, p0.len() as int);
    assert(payload.take(p0.len() as int) =~= p0);
    assert(payload.skip(p0.len() as int + 1) =~= p1 + seq![SPACE] + p2);
    let rest = p1 + seq![SPACE] + p2;
    assert(rest[p1.len() as int] == SPACE);
    assert(forall|j: int| 0 <= j < p1.len() ==> rest[j] == p1[j] && p1[j] != SPACE);
    lemma_space_split_at(rest, p1.len() as int);
    assert(rest.take(p1.len() as int) =~= p1);
    assert(rest.skip(p1.len() as int + 1) =~= p2);
}

} // verus!
