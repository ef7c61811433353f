use p2pshare::codec::{Receipt, Receiver, CHUNK_SIZE, FLUSH_THRESHOLD};
use p2pshare::digest::digest;
use p2pshare::protocol::{
    add_row, destination_path, header_for, inbound_payload, outbound_header, receipt_path,
    ProtocolEvent, TransferError, TransferPayload, UPGRADE_TIMEOUT_SECS,
};

fn pattern(n: usize) -> Vec<u8> {
    (0..n).map(|i| ((i * 31 + 7) % 251) as u8).collect()
}

/// Sends `contents` under `name` and receives it in reads of at most `step` bytes.
fn transfer(name: &str, contents: &Vec<u8>, step: usize) -> (Receipt, Vec<u8>, usize) {
    let mut wire = outbound_header(name, contents);
    wire.extend_from_slice(contents);
    let mut receiver = Receiver::new();
    let mut sink: Vec<u8> = Vec::new();
    let mut flushes = 0;
    for chunk in wire.chunks(step) {
        if let Some(bytes) = receiver.feed(chunk) {
            assert!(bytes.len() > FLUSH_THRESHOLD);
            sink.extend_from_slice(&bytes);
            flushes += 1;
        }
    }
    let receipt = receiver.finish();
    sink.extend_from_slice(&receipt.rest);
    (receipt, sink, flushes)
}

fn round_trip(n: usize) {
    let contents = pattern(n);
    let (receipt, sink, _) = transfer("data.bin", &contents, CHUNK_SIZE);
    assert_eq!(receipt.size_bytes, n);
    assert_eq!(sink, contents);
    assert_eq!(receipt.name, b"data.bin".to_vec());
    let payload = inbound_payload(receipt, "/tmp/files/1_data.bin".to_string()).unwrap();
    assert_eq!(payload.size_bytes, n);
    assert_eq!(payload.hash, digest(&contents));
    assert_eq!(payload.name, "data.bin");
    assert_eq!(payload.path, "/tmp/files/1_data.bin");
    assert_eq!(payload.check_file(&sink), Ok(()));
}

#[test]
fn digest_of_known_inputs() {
    assert_eq!(digest(&vec![]), "da39a3ee5e6b4b0d3255bfef95601890afd80709");
    assert_eq!(digest(&b"abc".to_vec()), "a9993e364706816aba3e25717850c26c9cd0d89d");
    assert_eq!(digest(&b"hello".to_vec()), "aaf4c61ddcc5e8a2dabede0f3b482cd9aea9434d");
}

#[test]
fn digest_is_forty_lowercase_hex_characters() {
    let text = digest(&pattern(1000));
    assert_eq!(text.len(), 40);
    assert!(text.chars().all(|c| c.is_ascii_digit() || ('a'..='f').contains(&c)));
}

#[test]
fn add_row_appends_a_newline() {
    assert_eq!(add_row("abc"), b"abc\n".to_vec());
    assert_eq!(add_row(""), b"\n".to_vec());
    assert_eq!(add_row("é"), vec![0xc3, 0xa9, b'\n']);
}

#[test]
fn outbound_header_is_name_line_and_digest_line() {
    let header = outbound_header("a.txt", &b"hello".to_vec());
    assert_eq!(header, b"a.txt\naaf4c61ddcc5e8a2dabede0f3b482cd9aea9434d\n".to_vec());
}

#[test]
fn header_for_joins_two_rows() {
    assert_eq!(header_for("a.txt", "abc"), b"a.txt\nabc\n".to_vec());
    assert_eq!(header_for("", ""), b"\n\n".to_vec());
}

#[test]
fn verify_digest_compares_with_the_declared_one() {
    let payload = TransferPayload::new("f".into(), "p".into(), "0a1b".into(), 2);
    assert_eq!(payload.verify_digest("0a1b"), Ok(()));
    assert_eq!(payload.verify_digest("0a1c"), Err(TransferError::Corrupted));
    assert_eq!(payload.verify_digest("0a1"), Err(TransferError::Corrupted));
    assert_eq!(payload.verify_digest(""), Err(TransferError::Corrupted));
}

#[test]
fn round_trip_empty_file() {
    round_trip(0);
}

#[test]
fn round_trip_one_byte() {
    round_trip(1);
}

#[test]
fn round_trip_chunk_minus_one() {
    round_trip(CHUNK_SIZE - 1);
}

#[test]
fn round_trip_exact_chunk() {
    round_trip(CHUNK_SIZE);
}

#[test]
fn round_trip_chunk_plus_one() {
    round_trip(CHUNK_SIZE + 1);
}

#[test]
fn round_trip_three_thresholds_and_seven() {
    let n = FLUSH_THRESHOLD * 3 + 7;
    let contents = pattern(n);
    let (receipt, sink, flushes) = transfer("big", &contents, CHUNK_SIZE);
    assert_eq!(receipt.size_bytes, n);
    assert_eq!(sink, contents);
    assert_eq!(flushes, 2);
    assert!(receipt.rest.len() <= FLUSH_THRESHOLD);
}

#[test]
fn round_trip_with_single_byte_reads() {
    let contents = pattern(300);
    let (receipt, sink, flushes) = transfer("tiny reads", &contents, 1);
    assert_eq!(receipt.name, b"tiny reads".to_vec());
    assert_eq!(receipt.digest, digest(&contents).into_bytes());
    assert_eq!(receipt.size_bytes, 300);
    assert_eq!(sink, contents);
    assert_eq!(flushes, 0);
}

#[test]
fn round_trip_with_uneven_reads() {
    let contents = pattern(FLUSH_THRESHOLD + 12345);
    let mut wire = outbound_header("uneven", &contents);
    wire.extend_from_slice(&contents);
    let sizes = [1usize, 7, 4096, 100_000, 3, 65_536];
    let mut receiver = Receiver::new();
    let mut sink: Vec<u8> = Vec::new();
    let mut at = 0;
    let mut turn = 0;
    while at < wire.len() {
        let end = usize::min(wire.len(), at + sizes[turn % sizes.len()]);
        if let Some(bytes) = receiver.feed(&wire[at..end]) {
            sink.extend_from_slice(&bytes);
        }
        assert!(receiver.received() - sink.len() <= FLUSH_THRESHOLD);
        at = end;
        turn += 1;
    }
    let receipt = receiver.finish();
    assert!(receipt.rest.len() <= FLUSH_THRESHOLD);
    sink.extend_from_slice(&receipt.rest);
    assert_eq!(sink, contents);
    assert_eq!(receipt.size_bytes, contents.len());
    assert_eq!(receipt.name, b"uneven".to_vec());
    assert_eq!(receipt.digest, digest(&contents).into_bytes());
}

#[test]
fn flush_happens_only_above_the_threshold() {
    let mut receiver = Receiver::new();
    assert_eq!(receiver.feed(b"n\nd\n"), None);
    assert!(receiver.header_complete());
    let exact = vec![7u8; FLUSH_THRESHOLD];
    assert_eq!(receiver.feed(&exact), None);
    assert_eq!(receiver.received(), FLUSH_THRESHOLD);
    let flushed = receiver.feed(&[8u8]).expect("a flush");
    assert_eq!(flushed.len(), FLUSH_THRESHOLD + 1);
    assert_eq!(flushed[FLUSH_THRESHOLD], 8);
    assert_eq!(receiver.feed(&[9u8]), None);
    let receipt = receiver.finish();
    assert_eq!(receipt.rest, vec![9u8]);
    assert_eq!(receipt.size_bytes, FLUSH_THRESHOLD + 2);
}

#[test]
fn body_may_hold_newlines() {
    let mut receiver = Receiver::new();
    assert_eq!(receiver.feed(b"name\ndig"), None);
    assert!(!receiver.header_complete());
    assert_eq!(receiver.name(), &b"name".to_vec());
    assert_eq!(receiver.feed(b"est\nline1\nline2\n"), None);
    assert!(receiver.header_complete());
    assert_eq!(receiver.digest(), &b"digest".to_vec());
    let receipt = receiver.finish();
    assert_eq!(receipt.rest, b"line1\nline2\n".to_vec());
    assert_eq!(receipt.size_bytes, 12);
}

#[test]
fn stream_that_ends_in_the_header() {
    let mut receiver = Receiver::new();
    assert_eq!(receiver.feed(b"only a na"), None);
    assert_eq!(receiver.feed(b"me"), None);
    assert!(!receiver.header_complete());
    let receipt = receiver.finish();
    assert_eq!(receipt.name, b"only a name".to_vec());
    assert_eq!(receipt.digest, Vec::<u8>::new());
    assert_eq!(receipt.size_bytes, 0);
    assert_eq!(receipt.rest, Vec::<u8>::new());
}

#[test]
fn empty_stream_gives_empty_receipt() {
    let receipt = Receiver::new().finish();
    assert_eq!(
        receipt,
        Receipt { name: vec![], digest: vec![], size_bytes: 0, rest: vec![] }
    );
}

#[test]
fn check_file_accepts_untouched_bytes() {
    let contents = pattern(5000);
    let payload =
        TransferPayload::new("f".into(), "/tmp/files/9_f".into(), digest(&contents), 5000);
    assert_eq!(payload.check_file(&contents), Ok(()));
}

#[test]
fn check_file_detects_corruption() {
    let contents = pattern(5000);
    let payload =
        TransferPayload::new("f".into(), "/tmp/files/9_f".into(), digest(&contents), 5000);
    let mut mutated = contents.clone();
    mutated[1234] ^= 1;
    assert_eq!(payload.check_file(&mutated), Err(TransferError::Corrupted));
    let mut truncated = contents.clone();
    truncated.pop();
    assert_eq!(payload.check_file(&truncated), Err(TransferError::Corrupted));
}

#[test]
fn check_file_rejects_wrong_declared_digest() {
    let payload = TransferPayload::new("f".into(), "p".into(), "not a digest".into(), 3);
    assert_eq!(payload.check_file(&b"abc".to_vec()), Err(TransferError::Corrupted));
}

#[test]
fn inbound_payload_refuses_non_utf8_header() {
    let bad_name = Receipt { name: vec![0xff, 0xfe], digest: b"ab".to_vec(), size_bytes: 0, rest: vec![] };
    assert_eq!(inbound_payload(bad_name, "p".into()), Err(TransferError::InvalidHeader));
    let bad_digest = Receipt { name: b"ok".to_vec(), digest: vec![0xc3], size_bytes: 0, rest: vec![] };
    assert_eq!(inbound_payload(bad_digest, "p".into()), Err(TransferError::InvalidHeader));
}

#[test]
fn inbound_payload_keeps_each_field() {
    let receipt = Receipt {
        name: "née.txt".as_bytes().to_vec(),
        digest: b"0123abcd".to_vec(),
        size_bytes: 77,
        rest: vec![1, 2, 3],
    };
    let payload = inbound_payload(receipt, "/tmp/files/5_x".into()).unwrap();
    assert_eq!(
        payload,
        TransferPayload::new("née.txt".into(), "/tmp/files/5_x".into(), "0123abcd".into(), 77)
    );
}

#[test]
fn destination_path_joins_timestamp_and_name() {
    assert_eq!(destination_path(1700000000, "a.txt"), "/tmp/files/1700000000_a.txt");
    assert_eq!(destination_path(0, "x"), "/tmp/files/0_x");
    assert_eq!(destination_path(10, ""), "/tmp/files/10_");
    assert_eq!(
        destination_path(u64::MAX, "m"),
        "/tmp/files/18446744073709551615_m"
    );
}

#[test]
fn receipt_path_takes_the_name_as_read() {
    assert_eq!(
        receipt_path(42, &b"notes.md".to_vec()),
        Ok("/tmp/files/42_notes.md".to_string())
    );
    assert_eq!(
        receipt_path(7, &"žluťoučký".as_bytes().to_vec()),
        Ok("/tmp/files/7_žluťoučký".to_string())
    );
    assert_eq!(receipt_path(42, &vec![b'a', 0x80]), Err(TransferError::InvalidHeader));
}

#[test]
fn payload_new_keeps_argument_order() {
    let p = TransferPayload::new("n".into(), "p".into(), "h".into(), 4);
    assert_eq!(p.name, "n");
    assert_eq!(p.path, "p");
    assert_eq!(p.hash, "h");
    assert_eq!(p.size_bytes, 4);
    assert_eq!(p.protocol_info(), "/transfer/1.0");
}

#[test]
fn default_payload_is_empty() {
    let p = TransferPayload::default();
    assert_eq!(p, TransferPayload::new(String::new(), String::new(), String::new(), 0));
}

#[test]
fn events_from_completions() {
    assert_eq!(ProtocolEvent::from(()), ProtocolEvent::Sent);
    let p = TransferPayload::new("n".into(), "p".into(), "h".into(), 4);
    assert_eq!(
        ProtocolEvent::from(p),
        ProtocolEvent::Received { name: "n".into(), path: "p".into(), hash: "h".into(), size_bytes: 4 }
    );
}

#[test]
fn upgrade_timeout_is_two_minutes() {
    assert_eq!(UPGRADE_TIMEOUT_SECS, 120);
}
