//! End-to-end exercises of the framed stream engine: VarInts, framing,
//! compression, interception, and serialize/deserialize round trips.

use mcbot::bot::{Bot, BootstrapGate, BotBuilder, GateStep, PacketEffect};
use mcbot::packets::{Packet, State};
use mcbot::stream::{serialize_packet, Stream};
use mcbot::varint::{varint_encode, varint_peek, VarIntPeek};

fn play_stream(threshold: i32) -> Stream {
    let mut s = Stream::new();
    s.state = State::Play;
    s.compression_threshold = threshold;
    s
}

#[test]
fn varint_round_trip_values() {
    for v in [0u32, 1, 127, 128, 300, 16384, 0x7FFF_FFFF, 0xFFFF_FFFF] {
        let e = varint_encode(v);
        match varint_peek(&e, 0) {
            VarIntPeek::Done(got, n) => {
                assert_eq!(got, v);
                assert_eq!(n, e.len());
            }
            _ => panic!("expected a complete VarInt"),
        }
    }
}

#[test]
fn varint_five_byte_split_matches_unsplit() {
    // A value needing all 5 bytes, arriving in two reads.
    let id = -1i32; // encodes as 5 VarInt bytes
    let frame = serialize_packet(&Packet::KeepAlive { id }, -1).unwrap();
    // unsplit
    let mut s1 = play_stream(-1);
    let p1 = s1.read_packets(&frame).unwrap();
    // split in the middle of the id VarInt
    let mut s2 = play_stream(-1);
    let first = s2.read_packets(&frame[..3]).unwrap();
    assert!(first.is_empty());
    let p2 = s2.read_packets(&frame[3..]).unwrap();
    assert_eq!(p1.len(), 1);
    assert_eq!(p2.len(), 1);
    match (&p1[0], &p2[0]) {
        (Packet::KeepAlive { id: a }, Packet::KeepAlive { id: b }) => {
            assert_eq!(*a, id);
            assert_eq!(*b, id);
        }
        _ => panic!("expected KeepAlive from both arrivals"),
    }
}

#[test]
fn round_trip_across_thresholds() {
    let msg: String = "a".repeat(300);
    for t in [-1i32, 0, 64, 256, 10_000_000] {
        let p = Packet::Chat { message: msg.clone(), position: 0 };
        let frame = serialize_packet(&p, t).unwrap();
        let mut s = play_stream(t);
        let got = s.read_packets(&frame).unwrap();
        assert_eq!(got.len(), 1);
        match &got[0] {
            Packet::Chat { message, position } => {
                assert_eq!(message, &msg);
                assert_eq!(*position, 0);
            }
            _ => panic!("expected Chat back"),
        }
    }
}

#[test]
fn compression_actually_compresses() {
    // With threshold 0 everything is deflated: a repetitive 3000-byte body
    // must come out much shorter than the plain encoding.
    let msg: String = "abcabcabc".repeat(300);
    let p = Packet::Chat { message: msg.clone(), position: 0 };
    let plain = serialize_packet(&p, -1).unwrap();
    let packed = serialize_packet(&p, 0).unwrap();
    assert!(packed.len() < plain.len() / 2);
    let mut s = play_stream(0);
    let got = s.read_packets(&packed).unwrap();
    assert_eq!(got.len(), 1);
    match &got[0] {
        Packet::Chat { message, .. } => assert_eq!(message, &msg),
        _ => panic!("expected Chat back"),
    }
}

#[test]
fn login_no_compression_bootstrap() {
    let mut s = Stream::new();
    assert!(matches!(s.state, State::Login));
    assert_eq!(s.compression_threshold, -1);
    let login = serialize_packet(
        &Packet::LoginSuccess { uuid: "u".to_string(), username: "n".to_string() },
        -1,
    )
    .unwrap();
    let join = serialize_packet(
        &Packet::JoinGame { entity_id: 7, game_mode: 0, dimension: 0 },
        -1,
    )
    .unwrap();
    let mut bytes = login.clone();
    bytes.extend_from_slice(&join);
    let pkts = s.read_packets(&bytes).unwrap();
    assert!(matches!(s.state, State::Play));
    let mut gate = BootstrapGate::new();
    let mut ready = false;
    for p in pkts {
        match gate.observe(p) {
            GateStep::Ready => ready = true,
            GateStep::Abort => panic!("unexpected disconnect"),
            GateStep::Continue => {}
        }
    }
    assert!(ready);
    assert_eq!(gate.uuid.as_deref(), Some("u"));
    assert_eq!(gate.entity_id, Some(7));
    assert_eq!(gate.game_mode, Some(0));
}

#[test]
fn compression_threshold_flip() {
    let mut s = Stream::new();
    // SetCompression arrives while still in Login, uncompressed.
    let setc = serialize_packet(&Packet::SetCompression { threshold: 256 }, -1).unwrap();
    let got = s.read_packets(&setc).unwrap();
    assert_eq!(got.len(), 1);
    assert_eq!(s.compression_threshold, 256);
    // A 300-byte body now arrives deflated with its true size declared.
    s.state = State::Play;
    let big: String = "x".repeat(300);
    let f1 = serialize_packet(&Packet::Chat { message: big.clone(), position: 1 }, 256).unwrap();
    let got = s.read_packets(&f1).unwrap();
    assert_eq!(got.len(), 1);
    match &got[0] {
        Packet::Chat { message, .. } => assert_eq!(message.len(), 300),
        _ => panic!("expected Chat back"),
    }
    // A 100-byte body arrives with data length 0, parsed plain.
    let small: String = "y".repeat(100);
    let f2 = serialize_packet(&Packet::Chat { message: small.clone(), position: 1 }, 256).unwrap();
    let got = s.read_packets(&f2).unwrap();
    assert_eq!(got.len(), 1);
    match &got[0] {
        Packet::Chat { message, .. } => assert_eq!(message, &small),
        _ => panic!("expected Chat back"),
    }
}

#[test]
fn keepalive_echo_same_id() {
    let id = 0xDEADBEEFu32 as i32;
    let mut s = play_stream(-1);
    let frame = serialize_packet(&Packet::KeepAlive { id }, -1).unwrap();
    let got = s.read_packets(&frame).unwrap();
    assert_eq!(got.len(), 1);
    let out = s.take_outbound();
    assert_eq!(out.len(), 1);
    let expect = serialize_packet(&Packet::ClientKeepAlive { id }, -1).unwrap();
    assert_eq!(out[0], expect);
}

#[test]
fn unknown_packet_is_dropped_silently() {
    let mut s = play_stream(-1);
    // id 0x7E is not a known Play/server id: body bytes are ignored.
    let mut payload = varint_encode(0x7E);
    payload.push(1);
    payload.push(2);
    let mut frame = varint_encode(payload.len() as u32);
    frame.extend_from_slice(&payload);
    let got = s.read_packets(&frame).unwrap();
    assert!(got.is_empty());
    assert!(s.take_outbound().is_empty());
}

#[test]
fn invalid_utf8_body_drops_frame() {
    let mut s = play_stream(-1);
    // A Chat frame whose string bytes are not UTF-8: dropped, not decoded.
    let mut payload = varint_encode(0x02);
    payload.extend_from_slice(&varint_encode(2)); // string of 2 bytes
    payload.push(0xFF);
    payload.push(0xFE);
    payload.push(0); // position
    let mut frame = varint_encode(payload.len() as u32);
    frame.extend_from_slice(&payload);
    let got = s.read_packets(&frame).unwrap();
    assert!(got.is_empty());
}

#[test]
fn malformed_length_varint_is_fatal() {
    let mut s = play_stream(-1);
    let bad = [0x80u8, 0x80, 0x80, 0x80, 0x80];
    assert!(s.read_packets(&bad).is_err());
}

#[test]
fn partial_frame_stays_buffered() {
    let mut s = play_stream(-1);
    let frame = serialize_packet(&Packet::KeepAlive { id: 5 }, -1).unwrap();
    let half = frame.len() / 2;
    let got = s.read_packets(&frame[..half]).unwrap();
    assert!(got.is_empty());
    let got = s.read_packets(&frame[half..]).unwrap();
    assert_eq!(got.len(), 1);
}

#[test]
fn empty_read_returns_empty_batch() {
    let mut s = play_stream(-1);
    let got = s.read_packets(&[]).unwrap();
    assert!(got.is_empty());
}

#[test]
fn builder_defaults_and_setters() {
    let b = BotBuilder::new();
    assert_eq!(b.username, "minecraft_bot_1");
    assert_eq!(b.host, "127.0.0.1");
    assert_eq!(b.port, 25565);
    assert_eq!(b.autoreconnect_ms, Some(5000));
    let b = b
        .with_username("bot2".to_string())
        .with_host("example.invalid".to_string())
        .with_port(1234)
        .with_autoreconnect(None);
    assert_eq!(b.username, "bot2");
    assert_eq!(b.host, "example.invalid");
    assert_eq!(b.port, 1234);
    assert_eq!(b.autoreconnect_ms, None);
}

fn fresh_bot() -> Bot {
    let mut s = Stream::new();
    s.state = State::Play;
    Bot::new("n".to_string(), "u".to_string(), 7, 0, s)
}

#[test]
fn death_triggers_respawn() {
    let mut bot = fresh_bot();
    let eff: PacketEffect = bot
        .apply_packet(&Packet::UpdateHealth {
            health_bits: 0.0f32.to_bits(),
            food: 20,
            saturation_bits: 5.0f32.to_bits(),
        })
        .unwrap();
    assert!(eff.died);
    let out = bot.tcp.take_outbound();
    assert_eq!(out.len(), 1);
    let expect = serialize_packet(&Packet::ClientCommand { action: 0 }, -1).unwrap();
    assert_eq!(out[0], expect);
}

#[test]
fn positive_health_is_not_fatal() {
    let mut bot = fresh_bot();
    let eff = bot
        .apply_packet(&Packet::UpdateHealth {
            health_bits: 19.5f32.to_bits(),
            food: 20,
            saturation_bits: 0.0f32.to_bits(),
        })
        .unwrap();
    assert!(!eff.died);
    assert!(bot.tcp.take_outbound().is_empty());
}

#[test]
fn login_success_sends_settings_then_signals_connect() {
    let mut bot = fresh_bot();
    let eff = bot
        .apply_packet(&Packet::LoginSuccess { uuid: "u".to_string(), username: "n".to_string() })
        .unwrap();
    assert!(eff.connected);
    let out = bot.tcp.take_outbound();
    assert_eq!(out.len(), 1, "ClientSettings must be queued before on_connect fires");
}

#[test]
fn kick_disconnect_carries_reason() {
    let mut bot = fresh_bot();
    let err = bot
        .apply_packet(&Packet::KickDisconnect { reason: "bye".to_string() })
        .unwrap_err();
    match err {
        mcbot::error::Error::Disconnected(t) => assert_eq!(t, "bye"),
        _ => panic!("expected the disconnect reason"),
    }
}
