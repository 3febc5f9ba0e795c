use stream_worker::generator::GenStatus;
use stream_worker::generator::StreamEvent;
use stream_worker::generator::StreamingGenerator;

#[test]
fn record_split_across_two_chunks_is_reassembled() {
    let mut gen = StreamingGenerator::new();
    let first = gen.process_chunk(b"{\"response\":\"Hel");
    assert!(first.is_empty());
    let second = gen.process_chunk(b"lo.\"}\n");
    assert_eq!(second, vec!["Hello.".to_string()]);
    assert_eq!(gen.current_status(), GenStatus::Running);
}

#[test]
fn malformed_line_does_not_stop_the_stream() {
    let mut gen = StreamingGenerator::new();
    let out = gen.process_chunk(
        b"{\"response\":\"One.\"}\nthis is not json\n{\"response\":\" Two.\"}\n",
    );
    assert_eq!(out, vec!["One.".to_string(), " Two.".to_string()]);
}

#[test]
fn multiple_records_in_one_chunk() {
    let mut gen = StreamingGenerator::new();
    let out = gen.process_chunk(b"{\"response\":\"A.\"}\n{\"response\":\"B!\"}\n");
    assert_eq!(out, vec!["A.".to_string(), "B!".to_string()]);
}

#[test]
fn response_field_is_extracted_not_the_raw_line() {
    let mut gen = StreamingGenerator::new();
    let out = gen.process_chunk(b"{\"done\":false,\"response\":\"Hi.\"}\n");
    assert_eq!(out, vec!["Hi.".to_string()]);
}

#[test]
fn record_without_response_field_is_skipped() {
    let mut gen = StreamingGenerator::new();
    let out = gen.process_chunk(b"{\"done\":true}\n{\"response\":\"Ok.\"}\n");
    assert_eq!(out, vec!["Ok.".to_string()]);
}

#[test]
fn cancellation_emits_nothing_and_reports_cancelled() {
    let mut gen = StreamingGenerator::new();
    let before = gen.step(false, StreamEvent::Chunk(b"{\"response\":\"One.\"}\n".to_vec()));
    assert_eq!(before, vec!["One.".to_string()]);
    let after = gen.step(true, StreamEvent::Chunk(b"{\"response\":\"Two.\"}\n".to_vec()));
    assert!(after.is_empty());
    assert_eq!(gen.current_status(), GenStatus::Cancelled);
}

#[test]
fn natural_end_flushes_the_remainder() {
    let mut gen = StreamingGenerator::new();
    let during = gen.process_chunk(b"{\"response\":\"Hi. part\"}");
    assert!(during.is_empty());
    let out = gen.finish();
    assert_eq!(out, vec!["Hi.".to_string(), " part".to_string()]);
    assert_eq!(gen.current_status(), GenStatus::Completed);
}

#[test]
fn end_event_on_clean_stream_completes_with_nothing() {
    let mut gen = StreamingGenerator::new();
    let out = gen.step(false, StreamEvent::End);
    assert!(out.is_empty());
    assert_eq!(gen.current_status(), GenStatus::Completed);
}

#[test]
fn transport_failure_emits_nothing_and_reports_failed() {
    let mut gen = StreamingGenerator::new();
    let before = gen.step(false, StreamEvent::Chunk(b"{\"response\":\"Kept.\"}\n".to_vec()));
    assert_eq!(before, vec!["Kept.".to_string()]);
    let after = gen.step(false, StreamEvent::TransportFailure);
    assert!(after.is_empty());
    assert_eq!(gen.current_status(), GenStatus::Failed);
}
