use ttygif::coordinator::image_path;
use ttygif::coordinator::ReplayState;
use ttygif::errors::ReplayError;
use ttygif::reader::ScriptChunkReader;
use ttygif::replay::replay;
use ttygif::text::header_end;
use ttygif::text::split_lines;
use ttygif::timing::parse_timing_line;

#[test]
fn end_to_end_two_records() {
    // Timing stream "0.5 3\n1.0 4\n", typescript body "abcwxyz": the first
    // iteration buffers "abc" with no capture; the second emits "abc" and
    // captures frame 1; the run ends with one frame tagged with delay "0.5".
    let timing = b"0.5 3\n1.0 4\n".to_vec();
    let body = b"abcwxyz".to_vec();
    let out = replay(&timing, &body).unwrap();
    assert_eq!(out.frames.len(), 1);
    assert_eq!(out.frames[0].delay, b"0.5".to_vec());
    assert_eq!(out.frames[0].image_path, b"output/img-1.xwd".to_vec());
    assert_eq!(out.bytes_consumed, 7);
}

#[test]
fn end_to_end_step_by_step() {
    let timing = b"0.5 3\n1.0 4\n".to_vec();
    let body = b"abcwxyz".to_vec();
    let lines = split_lines(&timing);
    assert_eq!(lines.len(), 2);

    let mut st = ReplayState::new();
    let rec1 = parse_timing_line(&lines[0]).unwrap();
    let out1 = st.step(&rec1, &body).unwrap();
    // First record: nothing is emitted or captured, only buffered and paced.
    assert!(out1.emit.is_none());
    assert!(out1.frame.is_none());
    assert_eq!(out1.delay_secs, 0);
    assert_eq!(out1.delay_nanos, 500_000_000);

    let rec2 = parse_timing_line(&lines[1]).unwrap();
    let out2 = st.step(&rec2, &body).unwrap();
    // Second record: the buffered "abc" is emitted and frame 1 captured,
    // tagged with the delay spelling of the record it displays.
    assert_eq!(out2.emit, Some(b"abc".to_vec()));
    let frame = out2.frame.unwrap();
    assert_eq!(frame.delay, b"0.5".to_vec());
    assert_eq!(frame.image_path, b"output/img-1.xwd".to_vec());
    assert_eq!(out2.delay_secs, 1);
    assert_eq!(out2.delay_nanos, 0);
}

#[test]
fn frame_count_is_records_minus_one() {
    let timing = b"0.1 1\n0.2 1\n0.3 1\n".to_vec();
    let body = b"xyz".to_vec();
    let out = replay(&timing, &body).unwrap();
    assert_eq!(out.frames.len(), 2);
    assert_eq!(out.frames[0].image_path, b"output/img-1.xwd".to_vec());
    assert_eq!(out.frames[1].image_path, b"output/img-2.xwd".to_vec());
}

#[test]
fn empty_timing_stream_yields_no_frames() {
    let timing = Vec::new();
    let body = Vec::new();
    let out = replay(&timing, &body).unwrap();
    assert_eq!(out.frames.len(), 0);
    assert_eq!(out.bytes_consumed, 0);
}

#[test]
fn bytes_consumed_equals_sum_of_declared_sizes() {
    let timing = b"0.1 2\n0.2 0\n0.3 5\n".to_vec();
    let body = b"ab12345XX".to_vec();
    let out = replay(&timing, &body).unwrap();
    // 2 + 0 + 5 declared; the two trailing bytes are never consumed.
    assert_eq!(out.bytes_consumed, 7);
}

#[test]
fn zero_byte_chunk_produces_empty_emission() {
    // The first record declares a zero-byte chunk; on the second record the
    // buffered emission is an empty write, and the frame is still produced.
    let timing = b"1.0 0\n0.5 2\n".to_vec();
    let body = b"hi".to_vec();
    let lines = split_lines(&timing);
    let mut st = ReplayState::new();
    let rec1 = parse_timing_line(&lines[0]).unwrap();
    let out1 = st.step(&rec1, &body).unwrap();
    assert!(out1.frame.is_none());
    let rec2 = parse_timing_line(&lines[1]).unwrap();
    let out2 = st.step(&rec2, &body).unwrap();
    assert_eq!(out2.emit, Some(Vec::new()));
    let frame = out2.frame.unwrap();
    assert_eq!(frame.delay, b"1.0".to_vec());
    assert_eq!(frame.image_path, b"output/img-1.xwd".to_vec());
}

#[test]
fn truncated_script_fails_before_capture() {
    // 3 + 4 bytes declared but only 5 available: the second read fails with
    // a truncated script, and no capture is requested for that chunk.
    let timing = b"0.5 3\n1.0 4\n".to_vec();
    let body = b"abcwx".to_vec();
    assert_eq!(replay(&timing, &body), Err(ReplayError::TruncatedScript));

    let lines = split_lines(&timing);
    let mut st = ReplayState::new();
    let rec1 = parse_timing_line(&lines[0]).unwrap();
    assert!(st.step(&rec1, &body).is_ok());
    let rec2 = parse_timing_line(&lines[1]).unwrap();
    assert_eq!(st.step(&rec2, &body), Err(ReplayError::TruncatedScript));
}

#[test]
fn malformed_line_fails_with_no_capture() {
    let timing = b"0.1 2 3\n".to_vec();
    let body = b"ab".to_vec();
    assert_eq!(replay(&timing, &body), Err(ReplayError::MalformedTimingLine));
}

#[test]
fn undecodable_chunk_fails_on_emission() {
    // The first chunk is a lone 0xFF byte; when the second record tries to
    // emit it, the replay fails with undecodable output.
    let timing = b"0.1 1\n0.2 0\n".to_vec();
    let body = vec![0xFFu8];
    assert_eq!(replay(&timing, &body), Err(ReplayError::UndecodableOutput));
}

#[test]
fn header_line_is_discarded() {
    let script = b"Script started on Fri\nabcwxyz".to_vec();
    let start = header_end(&script);
    assert_eq!(start, 22);
    let body = script[start..].to_vec();
    let timing = b"0.5 3\n1.0 4\n".to_vec();
    let out = replay(&timing, &body).unwrap();
    assert_eq!(out.frames.len(), 1);
}

#[test]
fn header_without_newline_consumes_everything() {
    let script = b"no newline here".to_vec();
    assert_eq!(header_end(&script), script.len());
}

#[test]
fn split_lines_strips_newline_and_carriage_return() {
    let t = b"0.1 1\r\n0.2 2\n0.3 3".to_vec();
    let lines = split_lines(&t);
    assert_eq!(lines.len(), 3);
    assert_eq!(lines[0], b"0.1 1".to_vec());
    assert_eq!(lines[1], b"0.2 2".to_vec());
    assert_eq!(lines[2], b"0.3 3".to_vec());
}

#[test]
fn split_lines_ignores_trailing_newline() {
    let t = b"0.1 1\n".to_vec();
    let lines = split_lines(&t);
    assert_eq!(lines.len(), 1);
    assert_eq!(lines[0], b"0.1 1".to_vec());
}

#[test]
fn read_chunk_reads_exactly_and_fails_on_truncation() {
    let script = b"abcdef".to_vec();
    let mut reader = ScriptChunkReader::new();
    let mut cursor = 0usize;
    assert!(reader.read_chunk(&script, &mut cursor, 4).is_ok());
    assert_eq!(reader.buf, b"abcd".to_vec());
    assert_eq!(cursor, 4);
    // Fewer bytes remain than requested: the read fails and changes nothing.
    assert_eq!(reader.read_chunk(&script, &mut cursor, 3), Err(ReplayError::TruncatedScript));
    assert_eq!(cursor, 4);
    assert_eq!(reader.buf, b"abcd".to_vec());
    // The buffer is resized before each read; the old contents are gone.
    assert!(reader.read_chunk(&script, &mut cursor, 2).is_ok());
    assert_eq!(reader.buf, b"ef".to_vec());
    assert_eq!(cursor, 6);
}

#[test]
fn image_path_is_named_by_frame_index() {
    assert_eq!(image_path(1), b"output/img-1.xwd".to_vec());
    assert_eq!(image_path(305), b"output/img-305.xwd".to_vec());
}

#[test]
fn frame_indices_grow_with_each_capture() {
    let timing = b"0.1 1\n0.2 1\n0.3 1\n0.4 1\n".to_vec();
    let body = b"abcd".to_vec();
    let out = replay(&timing, &body).unwrap();
    assert_eq!(out.frames.len(), 3);
    assert_eq!(out.frames[2].image_path, b"output/img-3.xwd".to_vec());
    assert_eq!(out.frames[2].delay, b"0.3".to_vec());
}
