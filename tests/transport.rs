use quic_streams::connection::{Connection, Side, TransportConfig, VIOLATION_CODE};
use quic_streams::endpoint::{Endpoint, HandshakeOutcome};
use quic_streams::error::{TransportError, Violation};
use quic_streams::flow::FlowWindow;
use quic_streams::frame::{decode, encode, Frame};
use quic_streams::schedule::pick;
use quic_streams::stream::{
    local_finish, remote_finish, reset_state, ReadOutcome, RecvBuffer, SendBuffer, StreamState,
};

fn config(stream_window: u64, window: u64, chunk: u64) -> TransportConfig {
    TransportConfig { stream_receive_window: stream_window, receive_window: window, max_chunk: chunk }
}

fn pair(client_cfg: TransportConfig, server_cfg: TransportConfig) -> (Connection, Connection) {
    (
        Connection::new(Side::Client, client_cfg, server_cfg),
        Connection::new(Side::Server, server_cfg, client_cfg),
    )
}

/// Moves every frame `from` can send to `to`, through the wire form.
fn pump(from: &mut Connection, to: &mut Connection) -> usize {
    let mut n = 0;
    while let Some(f) = from.poll_transmit() {
        let bytes = encode(&f);
        let (g, used) = decode(&bytes).unwrap();
        assert_eq!(used, bytes.len());
        assert_eq!(g, f);
        to.handle_frame(g).unwrap();
        n += 1;
    }
    n
}

fn drain(c: &mut Connection, id: u64) -> (Vec<u8>, bool) {
    let mut out = Vec::new();
    loop {
        match c.read(id, 4096).unwrap() {
            ReadOutcome::Data(d) => out.extend_from_slice(&d),
            ReadOutcome::Pending => return (out, false),
            ReadOutcome::End => return (out, true),
        }
    }
}

#[test]
fn window_boundary_and_extension() {
    let mut w = FlowWindow::new(4096);
    assert_eq!(w.reserve(4096), 4096);
    assert_eq!(w.reserve(1), 0);
    assert_eq!(w.available(), 0);
    w.extend(1000).unwrap();
    assert_eq!(w.reserve(5000), 1000);
    assert_eq!(w.reserve(5000), 0);
}

#[test]
fn window_partial_grant() {
    let mut w = FlowWindow::new(100);
    assert_eq!(w.reserve(30), 30);
    assert_eq!(w.reserve(100), 70);
    assert_eq!(w, FlowWindow { capacity: 100, consumed: 100, granted: 100 });
}

#[test]
fn window_rejects_overflow() {
    let mut w = FlowWindow::new(10);
    let overflow = Err(TransportError::ProtocolViolation { detail: Violation::WindowOverflow });
    assert_eq!(w.extend(1), overflow);
    assert_eq!(w.consume(11), overflow);
    assert_eq!(w, FlowWindow::new(10));
    assert_eq!(w.consume(10), Ok(()));
    assert_eq!(w.extend(11), overflow);
    assert_eq!(w.extend(10), Ok(()));
    assert_eq!(w.granted, 20);
    let mut big = FlowWindow { capacity: u64::MAX, consumed: 5, granted: u64::MAX - 1 };
    assert_eq!(big.extend(2), overflow);
}

#[test]
fn window_invariant_under_mixed_operations() {
    let mut w = FlowWindow::new(64);
    let mut seed: u64 = 12345;
    for _ in 0..10_000 {
        seed = seed.wrapping_mul(6364136223846793005).wrapping_add(1442695040888963407);
        let n = (seed >> 33) % 80;
        let _ = match (seed >> 20) % 3 {
            0 => {
                w.reserve(n);
                Ok(())
            }
            1 => w.consume(n),
            _ => w.extend(n),
        };
        assert!(w.consumed <= w.granted);
        assert!(w.granted <= w.consumed + w.capacity);
    }
}

#[test]
fn state_machine_transitions() {
    assert_eq!(local_finish(StreamState::Open), StreamState::HalfClosedLocal);
    assert_eq!(local_finish(StreamState::HalfClosedLocal), StreamState::HalfClosedLocal);
    assert_eq!(local_finish(StreamState::HalfClosedRemote), StreamState::Closed);
    assert_eq!(remote_finish(StreamState::Open), StreamState::HalfClosedRemote);
    assert_eq!(remote_finish(StreamState::HalfClosedLocal), StreamState::Closed);
    assert_eq!(reset_state(StreamState::HalfClosedRemote), StreamState::Reset);
    assert_eq!(reset_state(StreamState::Closed), StreamState::Closed);
}

#[test]
fn send_and_receive_buffers_keep_order() {
    let mut s = SendBuffer::new();
    let mut r = RecvBuffer::new();
    s.write(b"hello ").unwrap();
    s.write(b"world").unwrap();
    while s.pending_len() > 0 {
        let (offset, data) = s.next_chunk(4);
        assert!(data.len() <= 4);
        r.on_data(offset, &data).unwrap();
    }
    s.finish();
    let size = s.take_fin().unwrap();
    assert_eq!(size, 11);
    assert_eq!(s.take_fin(), None);
    r.on_finish(size).unwrap();
    assert_eq!(r.read(3), ReadOutcome::Data(b"hel".to_vec()));
    assert_eq!(r.read(100), ReadOutcome::Data(b"lo world".to_vec()));
    assert_eq!(r.read(100), ReadOutcome::End);
    assert_eq!(s.write(b"x"), Err(TransportError::StreamFinished));
}

#[test]
fn receive_buffer_rejects_bad_offsets() {
    let mut r = RecvBuffer::new();
    assert_eq!(r.read(1), ReadOutcome::Pending);
    assert_eq!(
        r.on_data(3, &b"abc".to_vec()),
        Err(TransportError::ProtocolViolation { detail: Violation::OffsetMismatch })
    );
    r.on_data(0, &b"abc".to_vec()).unwrap();
    assert_eq!(
        r.on_finish(2),
        Err(TransportError::ProtocolViolation { detail: Violation::OffsetMismatch })
    );
    r.on_finish(3).unwrap();
    assert_eq!(
        r.on_data(3, &b"d".to_vec()),
        Err(TransportError::ProtocolViolation { detail: Violation::DataAfterFinish })
    );
}

#[test]
fn frame_wire_form_is_exact() {
    let f = Frame::WindowUpdate { stream: None, credit: 0x0102 };
    assert_eq!(encode(&f), vec![2, 0x02, 0x01, 0, 0, 0, 0, 0, 0]);
    let d = Frame::Data { stream_id: 4, offset: 1, payload: b"ab".to_vec() };
    let mut expected = vec![0, 4, 0, 0, 0, 0, 0, 0, 0, 1, 0, 0, 0, 0, 0, 0, 0, 2, 0, 0, 0, 0, 0, 0, 0];
    expected.extend_from_slice(b"ab");
    assert_eq!(encode(&d), expected);
}

#[test]
fn frame_round_trip_with_trailing_bytes() {
    let frames = vec![
        Frame::Data { stream_id: 8, offset: 1 << 40, payload: b"chunk 2".to_vec() },
        Frame::Data { stream_id: 1, offset: 0, payload: Vec::new() },
        Frame::WindowUpdate { stream: Some(5), credit: 4096 },
        Frame::WindowUpdate { stream: None, credit: u64::MAX },
        Frame::Finish { stream_id: 4, final_size: 21 },
        Frame::Reset { stream_id: 0, reason: 7 },
    ];
    for f in frames {
        let mut bytes = encode(&f);
        let len = bytes.len();
        bytes.extend_from_slice(&[9, 9, 9]);
        let (g, used) = decode(&bytes).unwrap();
        assert_eq!(g, f);
        assert_eq!(used, len);
    }
}

#[test]
fn malformed_frames_are_rejected() {
    let bad = Err(TransportError::ProtocolViolation { detail: Violation::MalformedFrame });
    assert_eq!(decode(&[]), bad);
    assert_eq!(decode(&[9, 0, 0]), bad);
    assert_eq!(decode(&[1, 0, 0, 0]), bad);
    let mut short = encode(&Frame::Data { stream_id: 0, offset: 0, payload: b"abc".to_vec() });
    short.pop();
    assert_eq!(decode(&short), bad);
}

#[test]
fn round_robin_pick() {
    assert_eq!(pick(&vec![true, true, true], 1), Some(1));
    assert_eq!(pick(&vec![true, false, false], 1), Some(0));
    assert_eq!(pick(&vec![false, false], 0), None);
    assert_eq!(pick(&vec![true, true], 2), Some(0));
}

#[test]
fn stream_ids_are_namespaced() {
    let (mut c, mut s) = pair(config(100, 100, 10), config(100, 100, 10));
    assert_eq!(c.open_stream(), Ok(0));
    assert_eq!(c.open_stream(), Ok(4));
    assert_eq!(s.open_stream(), Ok(1));
    assert_eq!(s.open_stream(), Ok(5));
    assert_eq!(c.state_of(4), Some(StreamState::Open));
    assert_eq!(c.state_of(8), None);
}

#[test]
fn three_streams_keep_their_chunks_in_order() {
    let (mut client, mut server) = pair(config(1 << 16, 1 << 20, 1024), config(1 << 16, 1 << 20, 1024));
    let ids: Vec<u64> = (0..3).map(|_| client.open_stream().unwrap()).collect();
    for i in 0..3 {
        for &id in &ids {
            client.write(id, format!("chunk {}", i).as_bytes()).unwrap();
        }
        pump(&mut client, &mut server);
    }
    for &id in &ids {
        client.finish(id).unwrap();
    }
    pump(&mut client, &mut server);
    let mut accepted = Vec::new();
    while let Ok(Some(id)) = server.accept_stream() {
        accepted.push(id);
    }
    assert_eq!(accepted, ids);
    for &id in &ids {
        let (bytes, ended) = drain(&mut server, id);
        assert_eq!(bytes, b"chunk 0chunk 1chunk 2".to_vec());
        assert!(ended);
        assert_eq!(server.state_of(id), Some(StreamState::HalfClosedRemote));
    }
}

#[test]
fn writes_suspend_at_the_stream_window() {
    let client_cfg = config(1 << 20, 1 << 20, 1024);
    let server_cfg = config(4096, 8192, 1024);
    let (mut client, mut server) = pair(client_cfg, server_cfg);
    let id = client.open_stream().unwrap();
    let chunk = vec![b'x'; 1024];
    for _ in 0..10_000 {
        client.write(id, &chunk).unwrap();
    }
    assert_eq!(pump(&mut client, &mut server), 4);
    assert!(client.poll_transmit().is_none());
    assert_eq!(client.unsent(id), Some(10_000 * 1024 - 4096));
    assert_eq!(server.accept_stream(), Ok(Some(id)));
    match server.read(id, 1024).unwrap() {
        ReadOutcome::Data(d) => assert_eq!(d.len(), 1024),
        other => panic!("expected data, got {:?}", other),
    }
    assert_eq!(pump(&mut server, &mut client), 2);
    assert_eq!(pump(&mut client, &mut server), 1);
    assert_eq!(client.unsent(id), Some(10_000 * 1024 - 5120));
    assert!(client.poll_transmit().is_none());
}

#[test]
fn two_writers_share_the_connection_fairly() {
    let cfg = config(1 << 20, 1 << 24, 10);
    let (mut client, mut server) = pair(cfg, cfg);
    let a = client.open_stream().unwrap();
    let b = client.open_stream().unwrap();
    for _ in 0..1000 {
        client.write(a, &[1u8; 10]).unwrap();
        client.write(b, &[2u8; 10]).unwrap();
    }
    let mut count_a = 0i64;
    let mut count_b = 0i64;
    let mut last = None;
    for _ in 0..1000 {
        let f = client.poll_transmit().unwrap();
        let id = match &f {
            Frame::Data { stream_id, .. } => *stream_id,
            other => panic!("unexpected frame {:?}", other),
        };
        assert_ne!(Some(id), last);
        last = Some(id);
        if id == a {
            count_a += 1;
        } else {
            count_b += 1;
        }
        server.handle_frame(f).unwrap();
        assert!((count_a - count_b).abs() <= 1);
    }
    assert_eq!(count_a, 500);
    assert_eq!(count_b, 500);
    assert_eq!(client.send_window.consumed, 10_000);
    assert_eq!(server.recv_window.consumed, 10_000);
}

#[test]
fn bytes_arrive_as_concatenation_of_writes() {
    let (mut client, mut server) = pair(config(64, 128, 7), config(64, 128, 7));
    let id = client.open_stream().unwrap();
    let mut expected = Vec::new();
    let mut got = Vec::new();
    for i in 0..50u8 {
        let piece: Vec<u8> = (0..(i % 13)).map(|k| i.wrapping_mul(31).wrapping_add(k)).collect();
        client.write(id, &piece).unwrap();
        expected.extend_from_slice(&piece);
        pump(&mut client, &mut server);
        if server.state_of(id).is_some() {
            got.extend(drain(&mut server, id).0);
        }
        pump(&mut server, &mut client);
    }
    client.finish(id).unwrap();
    for _ in 0..100 {
        pump(&mut client, &mut server);
        let (bytes, ended) = drain(&mut server, id);
        got.extend(bytes);
        pump(&mut server, &mut client);
        if ended {
            break;
        }
    }
    assert_eq!(got, expected);
    assert_eq!(server.read(id, 10), Ok(ReadOutcome::End));
}

#[test]
fn finish_is_idempotent_and_ends_the_stream() {
    let cfg = config(1000, 1000, 100);
    let (mut client, mut server) = pair(cfg, cfg);
    let id = client.open_stream().unwrap();
    client.write(id, b"done").unwrap();
    client.finish(id).unwrap();
    client.finish(id).unwrap();
    assert_eq!(client.state_of(id), Some(StreamState::HalfClosedLocal));
    assert_eq!(client.write(id, b"more"), Err(TransportError::StreamFinished));
    assert_eq!(pump(&mut client, &mut server), 2);
    assert_eq!(drain(&mut server, id), (b"done".to_vec(), true));
    assert_eq!(server.read(id, 1), Ok(ReadOutcome::End));
}

#[test]
fn reset_reaches_the_peer() {
    let cfg = config(1000, 1000, 100);
    let (mut client, mut server) = pair(cfg, cfg);
    let id = client.open_stream().unwrap();
    client.write(id, b"abandoned").unwrap();
    client.reset(id, 42).unwrap();
    assert_eq!(client.write(id, b"x"), Err(TransportError::StreamReset { reason: 42 }));
    assert_eq!(pump(&mut client, &mut server), 1);
    assert_eq!(server.state_of(id), Some(StreamState::Reset));
    assert_eq!(server.read(id, 10), Err(TransportError::StreamReset { reason: 42 }));
}

#[test]
fn unknown_and_closed_are_reported() {
    let cfg = config(1000, 1000, 100);
    let (mut client, _server) = pair(cfg, cfg);
    assert_eq!(client.write(0, b"x"), Err(TransportError::NoSuchStream));
    let id = client.open_stream().unwrap();
    client.close(7);
    assert!(client.is_closed());
    let closed = Err(TransportError::ConnectionClosed { reason: 7 });
    assert_eq!(client.write(id, b"x"), closed);
    assert_eq!(client.open_stream(), Err(TransportError::ConnectionClosed { reason: 7 }));
    assert_eq!(client.read(id, 1), Err(TransportError::ConnectionClosed { reason: 7 }));
    assert_eq!(client.accept_stream(), Err(TransportError::ConnectionClosed { reason: 7 }));
    assert_eq!(client.state_of(id), Some(StreamState::Reset));
    assert!(client.poll_transmit().is_none());
}

#[test]
fn protocol_violations_close_the_connection() {
    let cfg = config(16, 1000, 100);
    let mut server = Connection::new(Side::Server, cfg, cfg);
    assert_eq!(
        server.handle_frame(Frame::Data { stream_id: 1, offset: 0, payload: vec![1] }),
        Err(TransportError::ProtocolViolation { detail: Violation::UnknownStream })
    );
    assert!(server.is_closed());
    assert_eq!(server.closed, Some(VIOLATION_CODE));

    let mut server = Connection::new(Side::Server, cfg, cfg);
    assert_eq!(
        server.handle_frame(Frame::Data { stream_id: 0, offset: 3, payload: vec![1] }),
        Err(TransportError::ProtocolViolation { detail: Violation::OffsetMismatch })
    );
    assert_eq!(
        server.handle_frame(Frame::Finish { stream_id: 0, final_size: 0 }),
        Err(TransportError::ConnectionClosed { reason: VIOLATION_CODE })
    );

    let mut server = Connection::new(Side::Server, cfg, cfg);
    assert_eq!(
        server.handle_frame(Frame::Data { stream_id: 0, offset: 0, payload: vec![0; 17] }),
        Err(TransportError::ProtocolViolation { detail: Violation::WindowOverflow })
    );

    let mut server = Connection::new(Side::Server, cfg, cfg);
    server.handle_frame(Frame::Finish { stream_id: 0, final_size: 0 }).unwrap();
    assert_eq!(
        server.handle_frame(Frame::Data { stream_id: 0, offset: 0, payload: vec![1] }),
        Err(TransportError::ProtocolViolation { detail: Violation::DataAfterFinish })
    );

    let mut client = Connection::new(Side::Client, cfg, cfg);
    assert_eq!(
        client.handle_frame(Frame::WindowUpdate { stream: None, credit: 1 }),
        Err(TransportError::ProtocolViolation { detail: Violation::WindowOverflow })
    );
}

#[test]
fn accept_follows_first_frame_order() {
    let cfg = config(1000, 1000, 100);
    let (mut client, mut server) = pair(cfg, cfg);
    let a = client.open_stream().unwrap();
    let b = client.open_stream().unwrap();
    client.write(b, b"first").unwrap();
    pump(&mut client, &mut server);
    client.write(a, b"second").unwrap();
    pump(&mut client, &mut server);
    assert_eq!(server.accept_stream(), Ok(Some(b)));
    assert_eq!(server.accept_stream(), Ok(Some(a)));
    assert_eq!(server.accept_stream(), Ok(None));
}

#[test]
fn endpoint_maps_handshake_outcomes() {
    let cfg = config(4096, 8192, 1024);
    let mut ep = Endpoint::new(Side::Server, cfg);
    assert_eq!(ep.establish(HandshakeOutcome::Failed), Err(TransportError::HandshakeFailed));
    assert_eq!(
        ep.establish(HandshakeOutcome::Completed { peer: cfg, trusted: false }),
        Err(TransportError::TrustRejected)
    );
    assert_eq!(ep.connections.len(), 0);
    assert_eq!(ep.establish(HandshakeOutcome::Completed { peer: cfg, trusted: true }), Ok(0));
    assert_eq!(ep.establish(HandshakeOutcome::Completed { peer: cfg, trusted: true }), Ok(1));
    assert_eq!(ep.connections[1].open_stream(), Ok(1));
    ep.shutdown(9);
    assert!(ep.connections.iter().all(|c| c.closed == Some(9)));
    assert_eq!(ep.connections[0].open_stream(), Err(TransportError::ConnectionClosed { reason: 9 }));
}

#[test]
fn reset_stream_still_checks_windows_and_keeps_reason() {
    let cfg = config(16, 1000, 100);
    let (mut client, mut server) = pair(cfg, cfg);
    let id = client.open_stream().unwrap();
    client.write(id, b"abc").unwrap();
    pump(&mut client, &mut server);
    server.reset(id, 5).unwrap();
    assert_eq!(server.read(id, 10), Err(TransportError::StreamReset { reason: 5 }));
    assert_eq!(
        server.handle_frame(Frame::Data { stream_id: id, offset: 3, payload: vec![0; 14] }),
        Err(TransportError::ProtocolViolation { detail: Violation::WindowOverflow })
    );
    assert_eq!(server.closed, Some(VIOLATION_CODE));
}

#[test]
fn every_read_grants_credit_back() {
    let cfg = config(16, 32, 8);
    let (mut client, mut server) = pair(cfg, cfg);
    let id = client.open_stream().unwrap();
    client.write(id, &[1u8; 16]).unwrap();
    pump(&mut client, &mut server);
    assert_eq!(server.read(id, 5), Ok(ReadOutcome::Data(vec![1u8; 5])));
    assert_eq!(server.poll_transmit(), Some(Frame::WindowUpdate { stream: None, credit: 5 }));
    assert_eq!(server.poll_transmit(), Some(Frame::WindowUpdate { stream: Some(id), credit: 5 }));
    assert_eq!(server.poll_transmit(), None);
    assert_eq!(server.recv_window.granted, 37);
}
