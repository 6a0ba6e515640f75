use tcpaste::filename::generate_random_filename;
use tcpaste::ingest::{IngestStep, IngestionSession, ReadEvent};

#[test]
fn clean_ascii_payload_is_kept_verbatim() {
    let mut s = IngestionSession::new(b"abc".to_vec());
    let step = s.handle_event(ReadEvent::Received(b"hello world".to_vec()));
    match step {
        IngestStep::Append(out) => assert_eq!(out, b"hello world"),
        IngestStep::Stop => panic!("data must be appended"),
    }
    let step = s.handle_event(ReadEvent::Received(Vec::new()));
    assert!(matches!(step, IngestStep::Stop));
}

#[test]
fn valid_utf8_chunk_passes_through() {
    let mut s = IngestionSession::new(b"abc".to_vec());
    let payload = "héllo ☃".as_bytes().to_vec();
    match s.handle_event(ReadEvent::Received(payload.clone())) {
        IngestStep::Append(out) => assert_eq!(out, payload),
        IngestStep::Stop => panic!("data must be appended"),
    }
}

#[test]
fn invalid_bytes_become_replacement_characters() {
    let mut s = IngestionSession::new(b"abc".to_vec());
    match s.handle_event(ReadEvent::Received(vec![0xff, 0x61, 0xfe])) {
        IngestStep::Append(out) => {
            assert_eq!(out, "\u{fffd}a\u{fffd}".as_bytes());
        }
        IngestStep::Stop => panic!("data must be appended"),
    }
}

#[test]
fn timeout_stops_the_session() {
    let mut s = IngestionSession::new(b"abc".to_vec());
    assert!(matches!(s.handle_event(ReadEvent::TimedOut), IngestStep::Stop));
}

#[test]
fn read_error_stops_the_session() {
    let mut s = IngestionSession::new(b"abc".to_vec());
    assert!(matches!(s.handle_event(ReadEvent::Failed), IngestStep::Stop));
}

#[test]
fn chunked_payload_concatenates() {
    let mut s = IngestionSession::new(b"abc".to_vec());
    let chunks = vec![b"hello ".to_vec(), b"world".to_vec()];
    let mut written: Vec<u8> = Vec::new();
    for c in chunks {
        match s.handle_event(ReadEvent::Received(c)) {
            IngestStep::Append(out) => written.extend_from_slice(&out),
            IngestStep::Stop => panic!("data must be appended"),
        }
    }
    assert_eq!(written, b"hello world");
}

#[test]
fn ingest_all_decodes_each_chunk() {
    let mut s = IngestionSession::new(b"abc".to_vec());
    let chunks = vec![b"pa".to_vec(), b"ste".to_vec()];
    s.ingest_all(&chunks);
}

#[test]
fn filenames_are_fixed_length_alphanumeric() {
    for _ in 0..32 {
        let name = generate_random_filename();
        assert_eq!(name.len(), 10);
        for b in name {
            assert!(b.is_ascii_alphanumeric());
        }
    }
}

#[test]
fn filenames_vary() {
    let a = generate_random_filename();
    let b = generate_random_filename();
    let c = generate_random_filename();
    assert!(a != b || b != c);
}
