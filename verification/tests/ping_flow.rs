use ipcanvas::canvas::PixelColor;
use ipcanvas::events::Event;
use ipcanvas::ping::{PingServer, PingServerError};
use ipcanvas::ping_event::PingEvent;

fn record(x: u16, y: u16, r: u8, g: u8, b: u8) -> [u8; 32] {
    let mut destination = [0u8; 16];
    destination[6..8].copy_from_slice(&x.to_be_bytes());
    destination[8..10].copy_from_slice(&y.to_be_bytes());
    destination[11] = r;
    destination[13] = g;
    destination[15] = b;
    PingEvent::new([0xAA; 16], destination).as_bytes()
}

fn pixel(x: u16, y: u16, r: u8, g: u8, b: u8) -> Event {
    Event::PlacePixel {
        x,
        y,
        color: PixelColor { r, g, b },
    }
}

#[test]
fn default_server_has_the_documented_capacities() {
    let server = PingServer::default();
    assert_eq!(server.ingest_capacity(), 4096);
    assert_eq!(server.egress_capacity(), 32);
    assert_eq!(server.ingest_len(), 0);
    assert_eq!(server.ready_events(), 0);
}

#[test]
fn smallest_server_holds_one_record_and_one_event() {
    let mut server = PingServer::new(33, 1);
    assert_eq!(server.ingest(&record(1, 2, 3, 4, 5)), Ok(()));
    assert_eq!(server.progress(), Ok(()));
    assert_eq!(server.egress(1), vec![pixel(1, 2, 3, 4, 5)]);
}

#[test]
fn decode_ignores_the_source_and_the_unused_destination_bytes() {
    let mut noisy = [0xFFu8; 32];
    noisy[16 + 6] = 0x12;
    noisy[16 + 7] = 0x34;
    noisy[16 + 8] = 0xAB;
    noisy[16 + 9] = 0xCD;
    noisy[16 + 11] = 1;
    noisy[16 + 13] = 2;
    noisy[16 + 15] = 3;
    let events = PingServer::handle_ping_event(&PingEvent::from_bytes(&noisy));
    assert_eq!(events, vec![pixel(0x1234, 0xABCD, 1, 2, 3)]);
}

#[test]
fn ingest_of_nothing_is_ok_even_when_full() {
    let mut server = PingServer::new(40, 1);
    assert_eq!(
        server.ingest(&[7u8; 41]),
        Err(PingServerError::IngestFull { read: 40 })
    );
    assert_eq!(server.ingest(&[]), Ok(()));
    assert_eq!(server.ingest_len(), 40);
    assert_eq!(server.ingest(&[1]), Err(PingServerError::IngestFull { read: 0 }));
}

#[test]
fn ingest_that_fills_the_buffer_exactly_is_ok() {
    let mut server = PingServer::new(64, 4);
    assert_eq!(server.ingest(&[0u8; 64]), Ok(()));
    assert_eq!(server.ingest_len(), 64);
}

#[test]
fn progress_on_an_empty_server_reports_ingest_empty() {
    let mut server = PingServer::new(64, 1);
    assert_eq!(server.progress(), Err(PingServerError::IngestEmpty));
    assert_eq!(server.ready_events(), 0);
}

#[test]
fn progress_leaves_a_trailing_partial_record() {
    let mut server = PingServer::new(128, 8);
    let mut bytes = Vec::new();
    bytes.extend_from_slice(&record(1, 1, 1, 1, 1));
    bytes.extend_from_slice(&record(2, 2, 2, 2, 2));
    bytes.extend_from_slice(&record(3, 3, 3, 3, 3)[..31]);
    assert_eq!(server.ingest(&bytes), Ok(()));
    assert_eq!(server.progress(), Ok(()));
    assert_eq!(server.ready_events(), 2);
    assert_eq!(server.ingest_len(), 31);
    // the missing byte completes the third record
    assert_eq!(server.ingest(&record(3, 3, 3, 3, 3)[31..]), Ok(()));
    assert_eq!(server.progress(), Ok(()));
    assert_eq!(
        server.egress(8),
        vec![
            pixel(1, 1, 1, 1, 1),
            pixel(2, 2, 2, 2, 2),
            pixel(3, 3, 3, 3, 3)
        ]
    );
    assert_eq!(server.ingest_len(), 0);
}

#[test]
fn progress_with_full_egress_and_short_ingest_reports_ingest_empty() {
    let mut server = PingServer::new(64, 1);
    assert_eq!(server.ingest(&record(9, 9, 9, 9, 9)), Ok(()));
    assert_eq!(server.progress(), Ok(()));
    assert_eq!(server.ready_events(), 1);
    assert_eq!(server.ingest(&[0u8; 5]), Ok(()));
    assert_eq!(server.progress(), Err(PingServerError::IngestEmpty));
    assert_eq!(server.ingest_len(), 5);
}

#[test]
fn back_pressure_then_catch_up() {
    let mut server = PingServer::new(128, 2);
    let mut bytes = Vec::new();
    for i in 0..3u16 {
        bytes.extend_from_slice(&record(i, i + 10, 0, 0, 0));
    }
    assert_eq!(bytes.len(), 96);
    assert_eq!(server.ingest(&bytes), Ok(()));
    assert_eq!(server.progress(), Err(PingServerError::EgressFull));
    assert_eq!(server.ready_events(), 2);
    assert_eq!(server.ingest_len(), 32);
    // with the egress buffer still full nothing moves
    assert_eq!(server.progress(), Err(PingServerError::EgressFull));
    assert_eq!(server.ready_events(), 2);
    assert_eq!(server.ingest_len(), 32);

    let first = server.egress(2);
    assert_eq!(first, vec![pixel(0, 10, 0, 0, 0), pixel(1, 11, 0, 0, 0)]);
    assert_eq!(server.progress(), Ok(()));
    assert_eq!(server.ready_events(), 1);
    assert_eq!(server.ingest_len(), 0);
    assert_eq!(server.egress(2), vec![pixel(2, 12, 0, 0, 0)]);
}

#[test]
fn egress_of_zero_hands_out_nothing() {
    let mut server = PingServer::new(64, 2);
    server.ingest(&record(4, 5, 6, 7, 8)).unwrap();
    server.progress().unwrap();
    assert_eq!(server.egress(0), Vec::<Event>::new());
    assert_eq!(server.ready_events(), 1);
}

#[test]
fn pumping_to_completion_gives_the_decoded_stream() {
    // 10 records and 7 stray bytes, fed in chunks that cut across records.
    let mut stream = Vec::new();
    let mut expected = Vec::new();
    for i in 0..10u16 {
        stream.extend_from_slice(&record(i * 300, 65535 - i, i as u8, 2 * i as u8, 3 * i as u8));
        expected.push(pixel(i * 300, 65535 - i, i as u8, 2 * i as u8, 3 * i as u8));
    }
    stream.extend_from_slice(&[1, 2, 3, 4, 5, 6, 7]);

    let mut server = PingServer::new(50, 3);
    let mut emitted = Vec::new();
    let mut rest: &[u8] = &stream;
    while !rest.is_empty() {
        let chunk = &rest[..rest.len().min(45)];
        match server.ingest(chunk) {
            Ok(()) => rest = &rest[chunk.len()..],
            Err(PingServerError::IngestFull { read }) => {
                assert!(read < chunk.len());
                rest = &rest[read..];
            }
            Err(other) => panic!("unexpected signal {:?}", other),
        }
        let _ = server.progress();
        emitted.extend(server.egress(2));
    }
    loop {
        let _ = server.progress();
        let events = server.egress(2);
        if events.is_empty() {
            break;
        }
        emitted.extend(events);
    }
    assert_eq!(emitted, expected);
    assert_eq!(server.ingest_len(), 7);
    assert_eq!(server.ready_events(), 0);
}

#[test]
fn clone_of_a_server_is_in_the_same_state() {
    let mut server = PingServer::new(64, 2);
    server.ingest(&record(1, 2, 3, 4, 5)).unwrap();
    server.ingest(&[9, 9]).unwrap();
    server.progress().unwrap();
    let mut copy = server.clone();
    assert_eq!(copy, server);
    assert_eq!(copy.egress(5), server.egress(5));
    assert_eq!(copy.ingest_len(), 2);
}

#[test]
fn ping_event_round_trips_through_bytes() {
    let mut bytes = [0u8; 32];
    for (i, byte) in bytes.iter_mut().enumerate() {
        *byte = i as u8;
    }
    let event = PingEvent::from_bytes(&bytes);
    assert_eq!(event.source(), core::array::from_fn(|i| i as u8));
    assert_eq!(event.destination(), core::array::from_fn(|i| 16 + i as u8));
    assert_eq!(event.as_bytes(), bytes);
    assert_eq!(PingEvent::new(event.source(), event.destination()), event);
}

#[test]
fn signals_describe_themselves() {
    assert_eq!(
        PingServerError::IngestFull { read: 0 }.to_string(),
        "Ingest buffer full after reading 0 bytes"
    );
    assert_eq!(
        PingServerError::IngestFull { read: 9 }.to_string(),
        "Ingest buffer full after reading 9 bytes"
    );
    assert_eq!(
        PingServerError::IngestFull { read: 10 }.to_string(),
        "Ingest buffer full after reading 10 bytes"
    );
    assert_eq!(
        PingServerError::IngestFull { read: 4096 }.to_string(),
        "Ingest buffer full after reading 4096 bytes"
    );
    assert_eq!(
        PingServerError::IngestFull { read: 1234567890 }.to_string(),
        "Ingest buffer full after reading 1234567890 bytes"
    );
    assert_eq!(
        PingServerError::IngestFull { read: usize::MAX }.to_string(),
        format!("Ingest buffer full after reading {} bytes", usize::MAX)
    );
    assert_eq!(
        PingServerError::IngestEmpty.to_string(),
        "Ingest buffer is empty"
    );
    assert_eq!(
        PingServerError::EgressFull.to_string(),
        "Egress buffer is full"
    );
    assert_eq!(
        PingServerError::Unknown.to_string(),
        "Unknown PingServer error"
    );
}
