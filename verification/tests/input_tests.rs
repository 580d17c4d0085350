use grabchars::input::{
    decode_from, decode_step, event_of, key_of_byte, parse_escape_seq, read_key, DecodeState,
    Decoded, InputEvent, KeyInput, ReadError, ReadEvent, ESC, ESCAPE_WAIT_MS,
};

fn bytes(input: &[u8]) -> Vec<ReadEvent> {
    input.iter().map(|&b| ReadEvent::Byte(b)).collect()
}

fn key_of(input: &[u8]) -> KeyInput {
    read_key(&bytes(input), 0).key.expect("a key")
}

#[test]
fn lone_escape_followed_by_nothing_is_escape() {
    let events = [ReadEvent::Byte(0x1B), ReadEvent::Idle];
    let read = read_key(&events, 0);
    assert_eq!(read.key, Ok(KeyInput::Escape));
    assert_eq!(read.next, 2);
}

#[test]
fn escape_at_end_of_input_is_escape() {
    let read = read_key(&[ReadEvent::Byte(0x1B)], 0);
    assert_eq!(read.key, Ok(KeyInput::Escape));
    assert_eq!(read.next, 1);
    let failed = read_key(&[ReadEvent::Byte(0x1B), ReadEvent::Failed], 0);
    assert_eq!(failed.key, Ok(KeyInput::Escape));
}

#[test]
fn escape_bracket_a_is_up() {
    let read = read_key(&bytes(&[0x1B, b'[', b'A']), 0);
    assert_eq!(read.key, Ok(KeyInput::Up));
    assert_eq!(read.next, 3);
}

#[test]
fn escape_bracket_three_tilde_is_delete() {
    let read = read_key(&bytes(&[0x1B, b'[', b'3', b'~']), 0);
    assert_eq!(read.key, Ok(KeyInput::Delete));
    assert_eq!(read.next, 4);
}

#[test]
fn arrows_and_home_end_sequences() {
    assert_eq!(key_of(&[0x1B, b'[', b'B']), KeyInput::Down);
    assert_eq!(key_of(&[0x1B, b'[', b'C']), KeyInput::Right);
    assert_eq!(key_of(&[0x1B, b'[', b'D']), KeyInput::Left);
    assert_eq!(key_of(&[0x1B, b'[', b'H']), KeyInput::Home);
    assert_eq!(key_of(&[0x1B, b'[', b'F']), KeyInput::End);
    assert_eq!(key_of(&[0x1B, b'[', b'1', b'~']), KeyInput::Home);
    assert_eq!(key_of(&[0x1B, b'[', b'4', b'~']), KeyInput::End);
}

#[test]
fn control_bytes_are_editing_keys() {
    assert_eq!(key_of(&[0x01]), KeyInput::Home);
    assert_eq!(key_of(&[0x02]), KeyInput::Left);
    assert_eq!(key_of(&[0x04]), KeyInput::Delete);
    assert_eq!(key_of(&[0x05]), KeyInput::End);
    assert_eq!(key_of(&[0x06]), KeyInput::Right);
    assert_eq!(key_of(&[0x0B]), KeyInput::KillToEnd);
    assert_eq!(key_of(&[0x15]), KeyInput::KillToStart);
    assert_eq!(key_of(&[0x17]), KeyInput::KillWordBack);
    assert_eq!(key_of(&[0x09]), KeyInput::Tab);
    assert_eq!(key_of(&[0x7F]), KeyInput::Backspace);
    assert_eq!(key_of(&[0x08]), KeyInput::Backspace);
    assert_eq!(key_of(&[0x0A]), KeyInput::Enter);
    assert_eq!(key_of(&[0x0D]), KeyInput::Enter);
}

#[test]
fn other_bytes_are_characters() {
    assert_eq!(key_of(b"a"), KeyInput::Char(b'a'));
    assert_eq!(key_of(&[0x00]), KeyInput::Char(0));
    assert_eq!(key_of(&[0x03]), KeyInput::Char(3));
    assert_eq!(key_of(&[0xFF]), KeyInput::Char(0xFF));
    assert_eq!(key_of_byte(b' '), KeyInput::Char(b' '));
    for b in 0u8..=255 {
        if b != ESC {
            assert_eq!(key_of(&[b]), key_of_byte(b));
        }
    }
}

#[test]
fn escape_then_other_byte_is_unknown() {
    let read = read_key(&bytes(&[0x1B, b'O', b'P']), 0);
    assert_eq!(read.key, Ok(KeyInput::Unknown));
    assert_eq!(read.next, 2);
}

#[test]
fn unknown_digit_sequence_is_absorbed() {
    let events = bytes(&[0x1B, b'[', b'5', b'~', b'x']);
    let read = read_key(&events, 0);
    assert_eq!(read.key, Ok(KeyInput::Unknown));
    assert_eq!(read.next, 4);
    let following = read_key(&events, read.next);
    assert_eq!(following.key, Ok(KeyInput::Char(b'x')));
    assert_eq!(following.next, 5);
}

#[test]
fn digit_sequence_without_tilde_is_unknown_and_takes_the_byte() {
    let events = bytes(&[0x1B, b'[', b'3', b'x', b'y']);
    let read = read_key(&events, 0);
    assert_eq!(read.key, Ok(KeyInput::Unknown));
    assert_eq!(read.next, 4);
    let two = read_key(&bytes(&[0x1B, b'[', b'2', b'~']), 0);
    assert_eq!(two.key, Ok(KeyInput::Unknown));
    assert_eq!(two.next, 4);
}

#[test]
fn unknown_final_byte_takes_three() {
    let read = read_key(&bytes(&[0x1B, b'[', b'Z', b'a']), 0);
    assert_eq!(read.key, Ok(KeyInput::Unknown));
    assert_eq!(read.next, 3);
}

#[test]
fn interrupted_sequence_is_unknown() {
    let events = [ReadEvent::Byte(0x1B), ReadEvent::Byte(b'['), ReadEvent::Interrupted];
    let read = read_key(&events, 0);
    assert_eq!(read.key, Ok(KeyInput::Unknown));
    assert_eq!(read.next, 3);
    let idle = [ReadEvent::Byte(0x1B), ReadEvent::Byte(b'['), ReadEvent::Byte(b'3'), ReadEvent::Idle];
    assert_eq!(read_key(&idle, 0).key, Ok(KeyInput::Unknown));
}

#[test]
fn end_of_input_inside_a_sequence_is_an_error() {
    assert_eq!(read_key(&bytes(&[0x1B, b'[']), 0).key, Err(ReadError::Eof));
    assert_eq!(read_key(&bytes(&[0x1B, b'[', b'3']), 0).key, Err(ReadError::Eof));
    assert_eq!(read_key(&bytes(&[0x1B, b'[', b'5']), 0).key, Err(ReadError::Eof));
    let events = [ReadEvent::Byte(0x1B), ReadEvent::Byte(b'['), ReadEvent::Eof];
    let read = read_key(&events, 0);
    assert_eq!(read.key, Err(ReadError::Eof));
    assert_eq!(read.next, 3);
    assert_eq!(parse_escape_seq(&bytes(b"["), 0).key, Err(ReadError::Eof));
    assert_eq!(parse_escape_seq(&[ReadEvent::Byte(b'['), ReadEvent::Eof], 0).key, Err(ReadError::Eof));
}

#[test]
fn failed_read_inside_a_sequence_is_an_error() {
    let after_bracket = [ReadEvent::Byte(0x1B), ReadEvent::Byte(b'['), ReadEvent::Failed];
    assert_eq!(read_key(&after_bracket, 0).key, Err(ReadError::Failed));
    let after_digit =
        [ReadEvent::Byte(0x1B), ReadEvent::Byte(b'['), ReadEvent::Byte(b'1'), ReadEvent::Failed];
    let read = read_key(&after_digit, 0);
    assert_eq!(read.key, Err(ReadError::Failed));
    assert_eq!(read.next, 4);
    let skipping =
        [ReadEvent::Byte(0x1B), ReadEvent::Byte(b'['), ReadEvent::Byte(b'7'), ReadEvent::Failed];
    assert_eq!(read_key(&skipping, 0).key, Err(ReadError::Failed));
    assert_eq!(
        decode_step(DecodeState::CsiSkip, ReadEvent::Eof),
        Decoded::Error(ReadError::Eof)
    );
    assert_eq!(
        decode_step(DecodeState::Csi, ReadEvent::Failed),
        Decoded::Error(ReadError::Failed)
    );
}

#[test]
fn first_read_failures_are_errors() {
    assert_eq!(read_key(&[], 0).key, Err(ReadError::Eof));
    assert_eq!(read_key(&[], 0).next, 0);
    assert_eq!(read_key(&[ReadEvent::Eof], 0).key, Err(ReadError::Eof));
    assert_eq!(read_key(&[ReadEvent::Interrupted], 0).key, Err(ReadError::Interrupted));
    assert_eq!(read_key(&[ReadEvent::Failed], 0).key, Err(ReadError::Failed));
    assert_eq!(read_key(&[ReadEvent::Failed], 0).next, 1);
    assert_eq!(read_key(&bytes(b"a"), 5).key, Err(ReadError::Eof));
}

#[test]
fn keys_are_read_one_after_the_other() {
    let events = bytes(&[b'a', 0x1B, b'[', b'A', 0x7F, 0x1B, b'[', b'3', b'~', b'z']);
    let mut pos = 0;
    let mut seen = Vec::new();
    while pos < events.len() {
        let read = read_key(&events, pos);
        assert!(read.next > pos);
        assert!(read.next - pos <= 4);
        seen.push(read.key.expect("a key"));
        pos = read.next;
    }
    assert_eq!(
        seen,
        vec![
            KeyInput::Char(b'a'),
            KeyInput::Up,
            KeyInput::Backspace,
            KeyInput::Delete,
            KeyInput::Char(b'z'),
        ]
    );
}

#[test]
fn no_key_takes_more_than_four_events() {
    for b2 in 0u8..=255 {
        for b3 in [b'0', b'1', b'3', b'4', b'9', b'A', b'~', b'['] {
            let events = bytes(&[0x1B, b2, b3, b'~', b'~', b'~']);
            let read = read_key(&events, 0);
            assert!(read.key.is_ok());
            assert!(read.next >= 1 && read.next <= 4);
        }
    }
}

#[test]
fn parse_escape_seq_reads_what_follows_escape() {
    let events = bytes(&[b'[', b'D', b'q']);
    let read = parse_escape_seq(&events, 0);
    assert_eq!(read.key, Ok(KeyInput::Left));
    assert_eq!(read.next, 2);
    assert_eq!(parse_escape_seq(&[], 0).key, Ok(KeyInput::Escape));
    assert_eq!(parse_escape_seq(&[ReadEvent::Idle], 0).key, Ok(KeyInput::Escape));
}

#[test]
fn decode_step_walks_the_states() {
    assert_eq!(
        decode_step(DecodeState::Start, ReadEvent::Byte(0x1B)),
        Decoded::More(DecodeState::Escape)
    );
    assert_eq!(
        decode_step(DecodeState::Escape, ReadEvent::Byte(b'[')),
        Decoded::More(DecodeState::Csi)
    );
    assert_eq!(
        decode_step(DecodeState::Csi, ReadEvent::Byte(b'4')),
        Decoded::More(DecodeState::CsiParam(b'4'))
    );
    assert_eq!(
        decode_step(DecodeState::Csi, ReadEvent::Byte(b'7')),
        Decoded::More(DecodeState::CsiSkip)
    );
    assert_eq!(
        decode_step(DecodeState::CsiParam(b'4'), ReadEvent::Byte(b'~')),
        Decoded::Key(KeyInput::End)
    );
    assert_eq!(
        decode_step(DecodeState::CsiSkip, ReadEvent::Byte(b'~')),
        Decoded::Key(KeyInput::Unknown)
    );
    assert_eq!(
        decode_step(DecodeState::Start, ReadEvent::Idle),
        Decoded::Error(ReadError::Interrupted)
    );
    let read = decode_from(DecodeState::Csi, &bytes(b"3~"), 0);
    assert_eq!(read.key, Ok(KeyInput::Delete));
}

#[test]
fn only_the_byte_after_escape_is_waited_for_briefly() {
    assert_eq!(ESCAPE_WAIT_MS, 50);
    assert_eq!(DecodeState::Escape.wait_ms(), Some(50));
    assert_eq!(DecodeState::Start.wait_ms(), None);
    assert_eq!(DecodeState::Csi.wait_ms(), None);
    assert_eq!(DecodeState::CsiParam(b'1').wait_ms(), None);
    assert_eq!(DecodeState::CsiSkip.wait_ms(), None);
}

#[test]
fn read_results_become_events() {
    assert_eq!(event_of(Ok(KeyInput::Tab)), InputEvent::Key(KeyInput::Tab));
    assert_eq!(event_of(Err(ReadError::Interrupted)), InputEvent::Interrupted);
    assert_eq!(event_of(Err(ReadError::Eof)), InputEvent::EndOfInput);
    assert_eq!(event_of(Err(ReadError::Failed)), InputEvent::EndOfInput);
}
