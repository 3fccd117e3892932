use poll_maker::codec::{write_string, write_string_vec, write_u64};
use poll_maker::errors::PollError;
use poll_maker::instruction::PollMakerInstruction;

fn create_poll_command(
    title: &str,
    description: &str,
    ends_at: u64,
    options: &[&str],
    authorized: &[&str],
) -> Vec<u8> {
    let mut buf = vec![0u8];
    write_string(&mut buf, title);
    write_string(&mut buf, description);
    write_u64(&mut buf, ends_at);
    let options: Vec<String> = options.iter().map(|s| s.to_string()).collect();
    write_string_vec(&mut buf, &options);
    let authorized: Vec<String> = authorized.iter().map(|s| s.to_string()).collect();
    write_string_vec(&mut buf, &authorized);
    buf
}

fn vote_command(poll_id: u64, option: &str) -> Vec<u8> {
    let mut buf = vec![1u8];
    write_u64(&mut buf, poll_id);
    write_string(&mut buf, option);
    buf
}

#[test]
fn unpack_decodes_create_poll() {
    let buf = create_poll_command("T", "D", 2_000_000_000, &["A", "B"], &["addrX"]);
    match PollMakerInstruction::unpack(&buf) {
        Ok(PollMakerInstruction::CreatePoll(p)) => {
            assert_eq!(p.title, "T");
            assert_eq!(p.description, "D");
            assert_eq!(p.ends_at, 2_000_000_000);
            assert_eq!(p.options, vec!["A".to_string(), "B".to_string()]);
            assert_eq!(p.authorized_addresses, vec!["addrX".to_string()]);
        },
        other => panic!("expected a create command, got {:?}", other.is_ok()),
    }
}

#[test]
fn unpack_decodes_vote_on_poll() {
    let buf = vote_command(1, "A");
    match PollMakerInstruction::unpack(&buf) {
        Ok(PollMakerInstruction::VoteOnPoll(p)) => {
            assert_eq!(p.poll_id, 1);
            assert_eq!(p.option, "A");
        },
        other => panic!("expected a vote command, got {:?}", other.is_ok()),
    }
}

#[test]
fn unpack_rejects_empty_buffer() {
    assert!(matches!(
        PollMakerInstruction::unpack(&[]),
        Err(PollError::DecodeError)
    ));
}

#[test]
fn unpack_rejects_unknown_discriminant() {
    assert!(matches!(
        PollMakerInstruction::unpack(&[2, 0, 0, 0]),
        Err(PollError::DecodeError)
    ));
}

#[test]
fn unpack_rejects_truncated_payload() {
    let mut buf = vote_command(1, "A");
    buf.pop();
    assert!(matches!(
        PollMakerInstruction::unpack(&buf),
        Err(PollError::DecodeError)
    ));
}

#[test]
fn unpack_rejects_trailing_bytes() {
    let mut buf = vote_command(1, "A");
    buf.push(0);
    assert!(matches!(
        PollMakerInstruction::unpack(&buf),
        Err(PollError::DecodeError)
    ));
}

#[test]
fn unpack_rejects_invalid_text() {
    // a one-byte string whose byte is not valid UTF-8
    let mut buf = vec![1u8];
    write_u64(&mut buf, 1);
    buf.extend_from_slice(&[1, 0, 0, 0, 0xff]);
    assert!(matches!(
        PollMakerInstruction::unpack(&buf),
        Err(PollError::DecodeError)
    ));
}

#[test]
fn unpack_rejects_length_overrun() {
    // a string length prefix larger than the remaining buffer
    let mut buf = vec![1u8];
    write_u64(&mut buf, 1);
    buf.extend_from_slice(&[200, 0, 0, 0, b'a']);
    assert!(matches!(
        PollMakerInstruction::unpack(&buf),
        Err(PollError::DecodeError)
    ));
}
