use ipcanvas::canvas::PixelColor;
use ipcanvas::events::Event;
use ipcanvas::ping::PingServer;
use ipcanvas::ping_event::PingEvent;
use ipcanvas::pump::{PingPump, PumpAction};

fn record_with_x(x: u16) -> [u8; 32] {
    let mut destination = [0u8; 16];
    destination[6..8].copy_from_slice(&x.to_be_bytes());
    PingEvent::new([0; 16], destination).as_bytes()
}

fn records(range: std::ops::Range<u16>) -> Vec<u8> {
    range.flat_map(|x| record_with_x(x)).collect()
}

fn pixel_at_x(x: u16) -> Event {
    Event::PlacePixel {
        x,
        y: 0,
        color: PixelColor { r: 0, g: 0, b: 0 },
    }
}

/// Plays a connection that has nothing more to give: grants all slots
/// asked for and lets every read without blocking come back empty, until
/// the pump wants to wait or to stop.
fn run_until_it_waits(pump: &mut PingPump) -> Vec<Event> {
    let mut emitted = Vec::new();
    for _ in 0..10_000 {
        match pump.pending() {
            PumpAction::Reserve(wanted) => emitted.extend(pump.on_slots(wanted).0),
            PumpAction::TryRead => {
                pump.on_would_block();
            }
            PumpAction::BlockingRead | PumpAction::Exit => return emitted,
        }
    }
    panic!("the pump never came to rest");
}

#[test]
fn new_pump_asks_for_a_read() {
    let pump = PingPump::new(PingServer::default(), 128);
    assert_eq!(pump.pending(), PumpAction::TryRead);
    assert_eq!(pump.unread_len(), 0);
    assert_eq!(pump.server().ready_events(), 0);
}

#[test]
fn nothing_to_read_and_nothing_to_do_means_wait() {
    let mut pump = PingPump::new(PingServer::default(), 128);
    assert_eq!(pump.on_would_block(), PumpAction::BlockingRead);
    assert_eq!(pump.pending(), PumpAction::BlockingRead);
}

#[test]
fn data_is_parsed_then_read_is_tried_then_events_need_slots() {
    let mut pump = PingPump::new(PingServer::default(), 128);
    // the bytes all fit; the server parses them, and the loop tries to read on
    assert_eq!(pump.on_read(&records(0..3)), PumpAction::TryRead);
    assert_eq!(pump.server().ready_events(), 3);
    // nothing more to read: back at the top, the events call for slots
    assert_eq!(pump.on_would_block(), PumpAction::Reserve(3));
    let (events, next) = pump.on_slots(3);
    assert_eq!(events, vec![pixel_at_x(0), pixel_at_x(1), pixel_at_x(2)]);
    assert_eq!(next, PumpAction::TryRead);
    // the server found nothing to parse, so the read after this one waits
    assert_eq!(pump.on_would_block(), PumpAction::BlockingRead);
}

#[test]
fn partial_record_waits_for_its_rest() {
    let mut pump = PingPump::new(PingServer::default(), 128);
    let bytes = record_with_x(77);
    assert_eq!(pump.on_read(&bytes[..10]), PumpAction::TryRead);
    assert_eq!(pump.on_would_block(), PumpAction::BlockingRead);
    assert_eq!(pump.on_read(&bytes[10..]), PumpAction::TryRead);
    assert_eq!(pump.on_would_block(), PumpAction::Reserve(1));
    assert_eq!(pump.on_slots(1).0, vec![pixel_at_x(77)]);
}

#[test]
fn slots_are_capped_by_the_channel() {
    let mut pump = PingPump::new(PingServer::new(4096, 32), 5);
    assert_eq!(pump.on_read(&records(0..8)), PumpAction::TryRead);
    assert_eq!(pump.on_would_block(), PumpAction::Reserve(5));
    let (events, next) = pump.on_slots(5);
    assert_eq!(events, (0..5).map(pixel_at_x).collect::<Vec<_>>());
    assert_eq!(pump.server().ready_events(), 3);
    assert_eq!(next, PumpAction::TryRead);
    // more data brings the loop back to the top, where the rest is drained
    assert_eq!(pump.on_read(&[0u8; 4]), PumpAction::Reserve(3));
    let (events, next) = pump.on_slots(3);
    assert_eq!(events, (5..8).map(pixel_at_x).collect::<Vec<_>>());
    assert_eq!(next, PumpAction::TryRead);
}

#[test]
fn fewer_slots_than_asked_for_leave_events_ready() {
    let mut pump = PingPump::new(PingServer::default(), 128);
    assert_eq!(pump.on_read(&records(0..4)), PumpAction::TryRead);
    assert_eq!(pump.on_would_block(), PumpAction::Reserve(4));
    let (events, _) = pump.on_slots(1);
    assert_eq!(events, vec![pixel_at_x(0)]);
    assert_eq!(pump.server().ready_events(), 3);
}

#[test]
fn bytes_that_do_not_fit_stay_unread_until_the_server_drains() {
    // room for two records and a bit, and for one event
    let mut pump = PingPump::new(PingServer::new(70, 1), 128);
    let stream = records(0..4);
    // the server is full and has nothing ready yet: it parses one record,
    // takes more bytes, and calls for a slot
    assert_eq!(pump.on_read(&stream), PumpAction::Reserve(1));
    assert_eq!(pump.server().ingest_len(), 70);
    assert_eq!(pump.unread_len(), 128 - 70 - 32);
    let emitted = run_until_it_waits(&mut pump);
    assert_eq!(emitted, vec![pixel_at_x(0), pixel_at_x(1), pixel_at_x(2), pixel_at_x(3)]);
    assert_eq!(pump.pending(), PumpAction::BlockingRead);
    assert_eq!(pump.unread_len(), 0);
    assert_eq!(pump.server().ingest_len(), 0);
}

#[test]
fn closed_connection_stops_the_pump() {
    let mut pump = PingPump::new(PingServer::default(), 128);
    assert_eq!(pump.on_read(&[]), PumpAction::Exit);
    assert_eq!(pump.pending(), PumpAction::Exit);
}

#[test]
fn failed_read_stops_the_pump() {
    let mut pump = PingPump::new(PingServer::default(), 128);
    assert_eq!(pump.on_read_failed(), PumpAction::Exit);
    assert_eq!(pump.pending(), PumpAction::Exit);
}

#[test]
fn closed_channel_stops_the_pump() {
    let mut pump = PingPump::new(PingServer::default(), 128);
    assert_eq!(pump.on_read(&record_with_x(1)), PumpAction::TryRead);
    assert_eq!(pump.on_would_block(), PumpAction::Reserve(1));
    assert_eq!(pump.on_channel_closed(), PumpAction::Exit);
    assert_eq!(pump.pending(), PumpAction::Exit);
}

#[test]
fn pump_built_on_a_loaded_server_drains_first() {
    let mut server = PingServer::new(64, 4);
    server.ingest(&record_with_x(5)).unwrap();
    server.progress().unwrap();
    let pump = PingPump::new(server, 128);
    assert_eq!(pump.pending(), PumpAction::Reserve(1));
}

#[test]
fn whole_stream_comes_out_in_order_whatever_the_chunks() {
    let stream = records(0..50);
    for chunk_len in [1usize, 7, 32, 33, 100, 1600] {
        let mut pump = PingPump::new(PingServer::new(100, 3), 3);
        let mut emitted = Vec::new();
        let mut chunks = stream.chunks(chunk_len);
        let mut steps = 0;
        loop {
            steps += 1;
            assert!(steps < 10_000);
            match pump.pending() {
                PumpAction::Reserve(wanted) => emitted.extend(pump.on_slots(wanted).0),
                PumpAction::TryRead => match chunks.next() {
                    Some(chunk) => {
                        pump.on_read(chunk);
                    }
                    None => {
                        pump.on_would_block();
                    }
                },
                PumpAction::BlockingRead => match chunks.next() {
                    Some(chunk) => {
                        pump.on_read(chunk);
                    }
                    None => {
                        pump.on_read(&[]);
                    }
                },
                PumpAction::Exit => break,
            }
        }
        assert_eq!(emitted, (0..50).map(pixel_at_x).collect::<Vec<_>>());
    }
}
