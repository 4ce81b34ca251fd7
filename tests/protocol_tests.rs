use concurrent_network_server::connection::{
    action_reply, serve_bytes, verdict_line, Action, Connection, ProtocolState,
};
use concurrent_network_server::number::{collect_byte, is_digit, parse_number, ProtocolError};
use concurrent_network_server::prime::is_prime;
use concurrent_network_server::protocol::{
    is_command, is_end, is_start, transform, END_MARKER, HANDSHAKE, PRIME_CMD, START_MARKER,
};

#[test]
fn transform_adds_one_to_every_other_byte() {
    for b in 0u16..=255 {
        let b = b as u8;
        if b == START_MARKER || b == END_MARKER || b == PRIME_CMD {
            continue;
        }
        assert_eq!(transform(b) as u16, (b as u16 + 1) % 256);
    }
}

#[test]
fn transform_wraps_at_255() {
    assert_eq!(transform(255), 0);
    assert_eq!(transform(b'a'), b'b');
}

#[test]
fn marker_bytes_are_distinct() {
    assert_eq!(HANDSHAKE, b'*');
    assert_eq!(START_MARKER, b'^');
    assert_eq!(END_MARKER, b'$');
    assert_eq!(PRIME_CMD, b'P');
    assert!(is_start(b'^') && !is_start(b'$'));
    assert!(is_end(b'$') && !is_end(b'^'));
    assert!(is_command(b'P') && !is_command(b'p'));
}

#[test]
fn message_is_echoed_transformed() {
    let (out, r) = serve_bytes(b"^ab$");
    assert_eq!(out, vec![b'*', b'b', b'c']);
    assert_eq!(r, Ok(()));
}

#[test]
fn bytes_outside_a_message_are_ignored() {
    let (out, r) = serve_bytes(b"xy$P7^a$zz");
    assert_eq!(out, vec![b'*', b'b']);
    assert_eq!(r, Ok(()));
}

#[test]
fn markers_inside_a_message_are_transformed() {
    let (out, r) = serve_bytes(b"^^*$");
    assert_eq!(out, vec![b'*', b'_', b'+']);
    assert_eq!(r, Ok(()));
}

#[test]
fn command_seven_is_prime() {
    let (out, r) = serve_bytes(b"^P7$");
    assert_eq!(out, b"*prime\n".to_vec());
    assert_eq!(r, Ok(()));
}

#[test]
fn command_eight_is_composite() {
    let (out, r) = serve_bytes(b"^P8$");
    assert_eq!(out, b"*composite\n".to_vec());
    assert_eq!(r, Ok(()));
}

#[test]
fn command_returns_to_waiting_for_start() {
    let (out, r) = serve_bytes(b"^aP13$b^c$");
    assert_eq!(out, b"*bprime\nd".to_vec());
    assert_eq!(r, Ok(()));
}

#[test]
fn twenty_one_digits_are_too_long() {
    let mut input = b"^P".to_vec();
    input.extend_from_slice(&[b'1'; 21]);
    let (out, r) = serve_bytes(&input);
    assert_eq!(out, vec![b'*']);
    assert_eq!(r, Err(ProtocolError::NumberTooLong));
}

#[test]
fn no_digits_is_an_empty_number() {
    let (out, r) = serve_bytes(b"^P$");
    assert_eq!(out, vec![b'*']);
    assert_eq!(r, Err(ProtocolError::EmptyNumber));
}

#[test]
fn non_digit_in_number_is_invalid() {
    let (out, r) = serve_bytes(b"^ab P1x$");
    assert_eq!(out, vec![b'*', b'b', b'c', b'!']);
    assert_eq!(r, Err(ProtocolError::InvalidDigit));
}

#[test]
fn number_above_u64_overflows() {
    let (out, r) = serve_bytes(b"^P18446744073709551616$");
    assert_eq!(out, vec![b'*']);
    assert_eq!(r, Err(ProtocolError::Overflow));
}

#[test]
fn largest_u64_is_accepted() {
    let (out, r) = serve_bytes(b"^P18446744073709551615$");
    assert_eq!(out, b"*composite\n".to_vec());
    assert_eq!(r, Ok(()));
}

#[test]
fn twenty_digits_with_leading_zeros_are_accepted() {
    let (out, r) = serve_bytes(b"^P00000000000000000007$");
    assert_eq!(out, b"*prime\n".to_vec());
    assert_eq!(r, Ok(()));
}

#[test]
fn number_may_span_several_reads() {
    let mut conn = Connection::new();
    assert_eq!(conn.handshake(), Some(HANDSHAKE));
    assert_eq!(conn.handshake(), None);
    let mut out = Vec::new();
    assert_eq!(conn.process_chunk(b"^P1", &mut out), Ok(()));
    assert!(conn.collecting());
    assert_eq!(conn.process_chunk(b"0", &mut out), Ok(()));
    assert_eq!(conn.process_chunk(b"1$^z", &mut out), Ok(()));
    assert_eq!(conn.state(), ProtocolState::InMessage);
    assert!(!conn.collecting());
    assert_eq!(out, b"prime\n{".to_vec());
}

#[test]
fn split_reads_give_the_same_output_in_order() {
    let input = b"q^hello$P^P97$^wor^ld$".to_vec();
    let (whole, r) = serve_bytes(&input);
    assert_eq!(r, Ok(()));
    for cut in 0..=input.len() {
        let mut conn = Connection::new();
        let mut out = vec![conn.handshake().unwrap()];
        assert_eq!(conn.process_chunk(&input[..cut], &mut out), Ok(()));
        assert_eq!(conn.process_chunk(&input[cut..], &mut out), Ok(()));
        assert_eq!(out, whole);
    }
}

#[test]
fn two_connections_do_not_disturb_each_other() {
    let mut a = Connection::new();
    let mut b = Connection::new();
    let mut out_a = vec![a.handshake().unwrap()];
    let mut out_b = vec![b.handshake().unwrap()];
    assert_eq!(a.process_chunk(b"^ab", &mut out_a), Ok(()));
    assert_eq!(b.process_chunk(b"^P", &mut out_b), Ok(()));
    assert_eq!(a.process_chunk(b"c$", &mut out_a), Ok(()));
    assert_eq!(b.process_chunk(b"4$^x$", &mut out_b), Ok(()));
    assert_eq!(out_a, serve_bytes(b"^abc$").0);
    assert_eq!(out_b, serve_bytes(b"^P4$^x$").0);
}

#[test]
fn process_byte_reports_actions() {
    let mut conn = Connection::new();
    assert_eq!(conn.state(), ProtocolState::HandshakePending);
    conn.handshake();
    assert_eq!(conn.state(), ProtocolState::AwaitingStart);
    assert_eq!(conn.process_byte(b'a'), Ok(Action::Nothing));
    assert_eq!(conn.process_byte(b'^'), Ok(Action::Nothing));
    assert_eq!(conn.process_byte(b'a'), Ok(Action::Emit(b'b')));
    assert_eq!(conn.process_byte(b'P'), Ok(Action::Nothing));
    assert_eq!(conn.process_byte(b'9'), Ok(Action::Nothing));
    assert_eq!(conn.process_byte(b'$'), Ok(Action::CheckPrime(9)));
    assert_eq!(conn.state(), ProtocolState::AwaitingStart);
}

#[test]
fn replies_for_actions() {
    assert_eq!(action_reply(Action::Nothing), Vec::<u8>::new());
    assert_eq!(action_reply(Action::Emit(7)), vec![7]);
    assert_eq!(action_reply(Action::CheckPrime(11)), b"prime\n".to_vec());
    assert_eq!(action_reply(Action::CheckPrime(9)), b"composite\n".to_vec());
    assert_eq!(verdict_line(true), b"prime\n".to_vec());
    assert_eq!(verdict_line(false), b"composite\n".to_vec());
}

#[test]
fn digits_are_collected_and_parsed() {
    assert!(is_digit(b'0') && is_digit(b'9') && !is_digit(b'a') && !is_digit(b'/'));
    assert_eq!(parse_number(&b"0".to_vec()), Ok(0));
    assert_eq!(parse_number(&b"12345".to_vec()), Ok(12345));
    assert_eq!(parse_number(&Vec::new()), Err(ProtocolError::EmptyNumber));
    assert_eq!(parse_number(&b"99999999999999999999".to_vec()), Err(ProtocolError::Overflow));
    let mut d = Vec::new();
    assert_eq!(collect_byte(&mut d, b'4'), Ok(None));
    assert_eq!(collect_byte(&mut d, b'2'), Ok(None));
    assert_eq!(d, b"42".to_vec());
    assert_eq!(collect_byte(&mut d, b'$'), Ok(Some(42)));
    assert_eq!(collect_byte(&mut d, b'x'), Err(ProtocolError::InvalidDigit));
    let mut full = vec![b'1'; 20];
    assert_eq!(collect_byte(&mut full, b'1'), Err(ProtocolError::NumberTooLong));
    assert_eq!(full.len(), 20);
}

#[test]
fn primality() {
    assert!(!is_prime(0));
    assert!(!is_prime(1));
    assert!(is_prime(2));
    assert!(is_prime(3));
    assert!(!is_prime(4));
    assert!(!is_prime(9));
    assert!(!is_prime(25));
    assert!(is_prime(97));
    assert!(is_prime(7919));
    assert!(!is_prime(7917));
    assert!(is_prime(1_000_000_007));
    assert!(!is_prime(1_000_000_007 * 3));
    assert!(is_prime(18446744073709551557));
    assert!(!is_prime(u64::MAX));
}

#[test]
fn closing_inside_a_number_is_an_error() {
    let (out, r) = serve_bytes(b"^P1");
    assert_eq!(out, vec![b'*']);
    assert_eq!(r, Err(ProtocolError::UnexpectedEnd));
    let (out, r) = serve_bytes(b"^P");
    assert_eq!(out, vec![b'*']);
    assert_eq!(r, Err(ProtocolError::UnexpectedEnd));
}

#[test]
fn closing_inside_a_message_is_fine() {
    let (out, r) = serve_bytes(b"^ab");
    assert_eq!(out, vec![b'*', b'b', b'c']);
    assert_eq!(r, Ok(()));
    let mut conn = Connection::new();
    conn.handshake();
    assert_eq!(conn.end_of_stream(), Ok(()));
    let mut out = Vec::new();
    assert_eq!(conn.process_chunk(b"^P42", &mut out), Ok(()));
    assert_eq!(conn.end_of_stream(), Err(ProtocolError::UnexpectedEnd));
}
