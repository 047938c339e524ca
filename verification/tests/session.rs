use tailsrv::session::{next_action, read_range, resolve_offset, stream_to_end, Action, CHUNK_SIZE};

#[test]
fn resolve_nonnegative_is_absolute() {
    assert_eq!(resolve_offset(0, 0), 0);
    assert_eq!(resolve_offset(5, 3), 5);
    assert_eq!(resolve_offset(3, 11), 3);
}

#[test]
fn resolve_negative_counts_from_end() {
    assert_eq!(resolve_offset(-5, 11), 6);
    assert_eq!(resolve_offset(-11, 11), 0);
}

#[test]
fn resolve_negative_saturates_to_zero() {
    assert_eq!(resolve_offset(-1000000, 4), 0);
    assert_eq!(resolve_offset(-1, 0), 0);
    assert_eq!(resolve_offset(i64::MIN, 4), 0);
}

#[test]
fn resolve_min_header_against_huge_file() {
    // 2^63 magnitude against a length above 2^63.
    assert_eq!(resolve_offset(i64::MIN, u64::MAX), u64::MAX - 9223372036854775808);
}

#[test]
fn caught_up_waits() {
    assert_eq!(next_action(0, 0), Action::Wait);
    assert_eq!(next_action(11, 11), Action::Wait);
}

#[test]
fn offset_beyond_length_waits() {
    assert_eq!(next_action(100, 3), Action::Wait);
}

#[test]
fn behind_sends_outstanding_bytes() {
    assert_eq!(next_action(3, 5), Action::Send { count: 2 });
    assert_eq!(next_action(0, 1), Action::Send { count: 1 });
}

#[test]
fn large_backlog_is_chunked() {
    assert_eq!(CHUNK_SIZE, 1048576);
    assert_eq!(next_action(0, 10 * CHUNK_SIZE), Action::Send { count: CHUNK_SIZE });
    assert_eq!(
        next_action(0, CHUNK_SIZE + 1),
        Action::Send { count: CHUNK_SIZE }
    );
    assert_eq!(next_action(0, CHUNK_SIZE), Action::Send { count: CHUNK_SIZE });
}

#[test]
fn read_range_is_the_exact_slice() {
    let file: Vec<u8> = b"hello world".to_vec();
    assert_eq!(read_range(&file, 6, 5), b"world".to_vec());
    assert_eq!(read_range(&file, 0, 0), Vec::<u8>::new());
}

#[test]
fn simple_append() {
    // A file holding "abc" is streamed from offset 0, grows by "de",
    // and the session catches up again: the client has seen "abcde".
    let file: Vec<u8> = b"abc".to_vec();
    let (part1, offset) = stream_to_end(&file, 0);
    assert_eq!(part1, b"abc".to_vec());
    assert_eq!(offset, 3);

    let grown: Vec<u8> = b"abcde".to_vec();
    let (part2, offset) = stream_to_end(&grown, offset);
    assert_eq!(part2, b"de".to_vec());
    assert_eq!(offset, 5);

    let mut received = part1;
    received.extend(part2);
    assert_eq!(received, grown);
}

#[test]
fn tail_with_negative_offset() {
    // Header -5 against "hello world" (11 bytes) delivers "world".
    let file: Vec<u8> = b"hello world".to_vec();
    let start = resolve_offset(-5, file.len() as u64);
    assert_eq!(start, 6);
    let (out, offset) = stream_to_end(&file, start);
    assert_eq!(out, b"world".to_vec());
    // Caught up: the next step waits.
    assert_eq!(next_action(offset, file.len() as u64), Action::Wait);
}

#[test]
fn saturated_header_delivers_whole_file() {
    // Header -1000000 against a 4-byte file starts at 0 and delivers
    // all 4 bytes.
    let file: Vec<u8> = b"abcd".to_vec();
    let start = resolve_offset(-1000000, file.len() as u64);
    assert_eq!(start, 0);
    let (out, _) = stream_to_end(&file, start);
    assert_eq!(out, file);
}

#[test]
fn header_equal_to_length_receives_nothing() {
    // A client that asks for the current end receives nothing until the
    // file grows.
    let file: Vec<u8> = b"abcdef".to_vec();
    let start = resolve_offset(file.len() as i64, file.len() as u64);
    let (out, offset) = stream_to_end(&file, start);
    assert_eq!(out, Vec::<u8>::new());
    assert_eq!(offset, 6);
}

#[test]
fn empty_file_blocks_then_delivers_from_zero() {
    // Header 0 on an empty file: nothing flows; once a byte exists, it
    // arrives from position 0.
    let empty: Vec<u8> = Vec::new();
    let (out, offset) = stream_to_end(&empty, 0);
    assert_eq!(out, Vec::<u8>::new());
    assert_eq!(offset, 0);
    assert_eq!(next_action(0, 0), Action::Wait);

    let file: Vec<u8> = b"X".to_vec();
    assert_eq!(next_action(0, file.len() as u64), Action::Send { count: 1 });
    let (out, _) = stream_to_end(&file, offset);
    assert_eq!(out, b"X".to_vec());
}

#[test]
fn chunking_is_unobservable() {
    // Two sessions streaming the same file from position 0 produce
    // byte-identical output, whether they saw it grow in stages or not.
    let mut file: Vec<u8> = Vec::new();
    for i in 0..10000u32 {
        file.push((i % 251) as u8);
    }
    let prefix: Vec<u8> = file[..4096].to_vec();

    // Session A watched the file while it was still short, then caught up.
    let (a1, a_off) = stream_to_end(&prefix, 0);
    let (a2, a_off) = stream_to_end(&file, a_off);
    let mut a = a1;
    a.extend(a2);
    assert_eq!(a_off, file.len() as u64);

    // Session B connected late and read everything in one sweep.
    let (b, b_off) = stream_to_end(&file, 0);
    assert_eq!(b_off, file.len() as u64);

    assert_eq!(a, b);
    assert_eq!(a, file);
}

#[test]
fn first_byte_matches_header_position() {
    let file: Vec<u8> = b"0123456789".to_vec();
    // Absolute header 4: first byte received is file[4].
    let start = resolve_offset(4, file.len() as u64);
    let (out, _) = stream_to_end(&file, start);
    assert_eq!(out[0], file[4]);
    // Header -3 against length 10: first byte received is file[7].
    let start = resolve_offset(-3, file.len() as u64);
    let (out, _) = stream_to_end(&file, start);
    assert_eq!(out[0], file[7]);
}
