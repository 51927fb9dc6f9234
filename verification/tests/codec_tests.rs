use rust_irc::codec::{
    decode_frame, one_op_buf, one_param_buf, split_payload, three_param_buf, two_op_buf,
    two_param_buf,
};
use rust_irc::codes;

#[test]
pub fn test_one_op_buf() {
    let buf_in: [u8; 1] = one_op_buf(codes::RESPONSE_OK);
    assert_eq!(buf_in, [codes::RESPONSE_OK])
}

#[test]
pub fn test_two_op_buf() {
    let buf_in: [u8; 2] = two_op_buf(codes::ERROR, codes::ALREADY_IN_ROOM);
    assert_eq!(buf_in, [codes::ERROR, codes::ALREADY_IN_ROOM]);
}

#[test]
pub fn test_one_param_buf() {
    let opcode_buf: &[u8; 1] = &[codes::MESSAGE];
    let string_buf: &[u8] = "hello world".as_bytes();
    let checker_buf: Vec<u8> = [opcode_buf, string_buf].concat();
    let result: Vec<u8> = one_param_buf(codes::MESSAGE, "hello world");
    assert_eq!(result, checker_buf);
}

#[test]
pub fn test_two_param_buf() {
    let opcode_buf: &[u8; 1] = &[codes::MESSAGE];
    let string0_buf: &[u8] = "cat".as_bytes();
    let string1_buf: &[u8] = "dog".as_bytes();
    let space_bytes: &[u8] = &[0x20];

    let checker_buf: Vec<u8> = [opcode_buf, string0_buf, space_bytes, string1_buf].concat();
    let result: Vec<u8> = two_param_buf(codes::MESSAGE, "cat", "dog");
    assert_eq!(result, checker_buf);
}

#[test]
pub fn test_three_param_buf() {
    let opcode_buf: &[u8; 1] = &[codes::MESSAGE];
    let string0_buf: &[u8] = "cat".as_bytes();
    let string1_buf: &[u8] = "dog".as_bytes();
    let string2_buf: &[u8] = "frog".as_bytes();
    let space_bytes: &[u8] = &[0x20];

    let checker_buf: Vec<u8> = [
        opcode_buf,
        string0_buf,
        space_bytes,
        string1_buf,
        space_bytes,
        string2_buf,
    ]
    .concat();
    let result: Vec<u8> = three_param_buf(codes::MESSAGE, "cat", "dog", "frog");
    assert_eq!(result, checker_buf);
}

#[test]
fn test_decode_frame_splits_opcode_and_payload() {
    let frame: Vec<u8> = one_param_buf(codes::REGISTER_NICK, "alice");
    let (op, payload) = decode_frame(&frame).unwrap();
    assert_eq!(op, codes::REGISTER_NICK);
    assert_eq!(payload, b"alice".to_vec());
}

#[test]
fn test_decode_frame_empty_buffer() {
    assert!(decode_frame(&[]).is_none());
}

#[test]
fn test_round_trip_two_params() {
    // Encoding two parameters and splitting the payload on the first space
    // yields the parameters back, when the first one holds no space.
    let frame: Vec<u8> = two_param_buf(codes::MESSAGE_ROOM, "chan1", "hi there friend");
    let (op, payload) = decode_frame(&frame).unwrap();
    assert_eq!(op, codes::MESSAGE_ROOM);
    let (p0, p1) = split_payload(&payload).unwrap();
    assert_eq!(p0, b"chan1".to_vec());
    assert_eq!(p1, b"hi there friend".to_vec());
}

#[test]
fn test_round_trip_three_params() {
    let frame: Vec<u8> = three_param_buf(codes::MESSAGE_ROOM, "chan1", "alice", "hi there");
    let (op, payload) = decode_frame(&frame).unwrap();
    assert_eq!(op, codes::MESSAGE_ROOM);
    let (room, rest) = split_payload(&payload).unwrap();
    let (sender, text) = split_payload(&rest).unwrap();
    assert_eq!(room, b"chan1".to_vec());
    assert_eq!(sender, b"alice".to_vec());
    assert_eq!(text, b"hi there".to_vec());
}

#[test]
fn test_split_payload_no_space() {
    assert!(split_payload(b"nospace").is_none());
    assert!(split_payload(b"").is_none());
}

#[test]
fn test_split_payload_first_space_only() {
    let (a, b) = split_payload(b"one two three").unwrap();
    assert_eq!(a, b"one".to_vec());
    assert_eq!(b, b"two three".to_vec());
}
