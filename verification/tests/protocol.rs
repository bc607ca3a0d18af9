use openvoxel::codec::{FlushStep, ReadOutcome, TcpDecoder, TcpEncoder, UdpDecoder, UdpEncoder, WriteOutcome};
use openvoxel::session::{Session, SessionMap};
use openvoxel::exit::{ExitCode, ExitStatus};
use openvoxel::packet::{ChannelId, Version};
use openvoxel::shared::bytes_as_slice;

const TEST_DATA_1: u64 = 0x7A38C591;
const TEST_DATA_2: u64 = 0x9FEB3911;

/// Flush an encoder into a vector, which takes every byte in one write.
fn flush_into(encoder: &mut TcpEncoder, out: &mut Vec<u8>) -> usize {
    let mut amt = 0;
    while encoder.has_unwritten() {
        let pending = encoder.unwritten().to_vec();
        out.extend_from_slice(&pending);
        match encoder.on_write(WriteOutcome::Wrote(pending.len())) {
            FlushStep::Wrote(n) => amt += n,
            FlushStep::Retry => continue,
            FlushStep::Stop => break,
            FlushStep::Fail(e) => panic!("{:?}", e),
        }
    }
    amt
}

#[test]
fn tcp_encode_decode_vec() {
    let mut encoder = TcpEncoder::new();
    let mut decoder = TcpDecoder::new();

    encoder.encode(ChannelId(0), &(TEST_DATA_1).to_ne_bytes());
    encoder.encode(ChannelId(1), &(TEST_DATA_2).to_ne_bytes());

    let mut flush = Vec::new();
    assert_eq!(flush_into(&mut encoder, &mut flush), 28);

    assert_eq!(decoder.receive(ReadOutcome::Data(flush)).unwrap().unwrap(), 28);

    let (p1, c1) = decoder.decode().unwrap().unwrap();
    assert_eq!(c1, ChannelId(0));
    assert_eq!(u64::from_ne_bytes(bytes_as_slice(&p1).try_into().unwrap()), TEST_DATA_1);

    let (p2, c2) = decoder.decode().unwrap().unwrap();
    assert_eq!(c2, ChannelId(1));
    assert_eq!(u64::from_ne_bytes(bytes_as_slice(&p2).try_into().unwrap()), TEST_DATA_2);
}

#[test]
fn tcp_decode_waits_for_whole_message() {
    let mut encoder = TcpEncoder::new();
    encoder.encode(ChannelId(7), &[1, 2, 3, 4, 5]);
    let bytes = encoder.unwritten().to_vec();
    let mut decoder = TcpDecoder::new();
    decoder.receive(ReadOutcome::Data(bytes[..3].to_vec()));
    assert!(decoder.decode().unwrap().is_none());
    decoder.receive(ReadOutcome::Data(bytes[3..8].to_vec()));
    assert!(decoder.decode().unwrap().is_none());
    decoder.receive(ReadOutcome::Data(bytes[8..].to_vec()));
    let (p, c) = decoder.decode().unwrap().unwrap();
    assert_eq!(c, ChannelId(7));
    assert_eq!(bytes_as_slice(&p), &[1, 2, 3, 4, 5]);
}

#[test]
fn tcp_exit_code_ends_decoding() {
    let mut encoder = TcpEncoder::new();
    let exit = ExitCode::with_short(ExitStatus::TimedOut, "late");
    encoder.encode_exit(&exit);
    let mut decoder = TcpDecoder::new();
    decoder.receive(ReadOutcome::Data(encoder.unwritten().to_vec()));
    let e = decoder.decode().unwrap_err();
    assert_eq!(e.status, ExitStatus::TimedOut);
    assert_eq!(e.short.as_deref(), Some("late"));
    assert!(e.long.is_none());
}

#[test]
fn tcp_too_large_is_protocol_violation() {
    let mut bytes = vec![0u8; 6];
    bytes[0..4].copy_from_slice(&2_000_000u32.to_le_bytes());
    let mut decoder = TcpDecoder::new();
    decoder.receive(ReadOutcome::Data(bytes));
    let e = decoder.decode().unwrap_err();
    assert_eq!(e.status, ExitStatus::ProtocolViolation);
    assert_eq!(e.short.as_deref(), Some("[N811] TCP Packet too large"));
}

#[test]
fn tcp_read_outcomes() {
    let mut decoder = TcpDecoder::new();
    assert!(decoder.receive(ReadOutcome::Interrupted).is_none());
    assert_eq!(decoder.receive(ReadOutcome::WouldBlock).unwrap().unwrap(), 0);
    let e = decoder.receive(ReadOutcome::Data(Vec::new())).unwrap().unwrap_err();
    assert_eq!(e.status, ExitStatus::Disconnected);
    let e = decoder.receive(ReadOutcome::Failed("boom".to_string())).unwrap().unwrap_err();
    assert_eq!(e.status, ExitStatus::NetworkError);
    assert_eq!(e.long.as_deref(), Some("boom"));
}

#[test]
fn channel_ids_and_versions() {
    assert!(ChannelId::exit_code().is_special());
    assert!(!ChannelId(32767).is_special());
    assert!(ChannelId(32768).is_special());
    let mut v = Version::new();
    assert_eq!(v.next(), Version(1));
    assert!(v.update(Version(5)));
    assert!(!v.update(Version(3)));
    let mut w = Version(40000);
    assert!(w.update(Version(2)));
    assert_eq!(w, Version(2));
    let mut m = Version(u32::MAX);
    assert_eq!(m.next(), Version(0));
}

#[test]
fn udp_encode_decode() {
    let session = Session::new(5, 77);
    let mut enc = UdpEncoder::new(session);
    assert_eq!(enc.flush(), None);
    assert_eq!(enc.encode(ChannelId(3), &[1, 2, 3]), None);
    assert_eq!(enc.encode(ChannelId(4), &[9]), None);
    let datagram = enc.flush().unwrap();
    assert_eq!(datagram.len(), 8 + 4 + 3 + 4 + 1);
    assert_eq!(&datagram[0..8], &session.0.to_le_bytes());
    assert_eq!(&datagram[8..12], &[3, 0, 3, 0]);
    assert_eq!(enc.flush(), None);

    let mut dec = UdpDecoder::new();
    assert_eq!(dec.receive(&datagram), Some(session));
    let (ch, data) = dec.decode().unwrap();
    assert_eq!(ch, ChannelId(3));
    assert_eq!(&data[..], &[1, 2, 3]);
    let (ch, data) = dec.decode().unwrap();
    assert_eq!(ch, ChannelId(4));
    assert_eq!(&data[..], &[9]);
    assert!(dec.decode().is_none());
}

#[test]
fn udp_encoder_flushes_when_full() {
    let session = Session(42);
    let mut enc = UdpEncoder::new(session);
    let big = vec![7u8; 1000];
    assert_eq!(enc.encode(ChannelId(1), &big), None);
    // this message would take the datagram past 1180 bytes
    let first = enc.encode(ChannelId(2), &big).unwrap();
    assert_eq!(first.len(), 8 + 4 + 1000);
    let second = enc.flush().unwrap();
    assert_eq!(second.len(), 8 + 4 + 1000);
    assert_eq!(&second[8..12], &[0xE8, 0x03, 2, 0]);
}

#[test]
fn udp_set_session() {
    let mut enc = UdpEncoder::new(Session(1));
    enc.encode(ChannelId(0), &[5]);
    enc.set_session(Session(0x0102030405060708));
    let d = enc.flush().unwrap();
    assert_eq!(&d[0..8], &[8, 7, 6, 5, 4, 3, 2, 1]);
    assert_eq!(&d[8..], &[1, 0, 0, 0, 5]);
}

#[test]
fn udp_short_datagram_has_no_session() {
    let mut dec = UdpDecoder::new();
    assert_eq!(dec.receive(&[1, 2, 3]), None);
    assert!(dec.decode().is_none());
}

#[test]
fn udp_cut_payload_is_not_decoded() {
    let mut dec = UdpDecoder::new();
    let datagram = [0, 0, 0, 0, 0, 0, 0, 0, 5, 0, 1, 0, 1, 2];
    assert_eq!(dec.receive(&datagram), Some(Session(0)));
    assert!(dec.decode().is_none());
}

#[test]
fn exit_code_bytes_round_trip() {
    let c = ExitCode::with_messages(ExitStatus::TimedOut, "late", "the server waited too long");
    let b = c.encode();
    let r = ExitCode::from_bytes(&b);
    assert_eq!(r.status, c.status);
    assert_eq!(r.short, c.short);
    assert_eq!(r.long, c.long);
    let d = ExitCode::from_bytes(&[3, 0, 0, 0]);
    assert_eq!(d.status, ExitStatus::Disconnected);
    assert!(d.short.is_none() && d.long.is_none());
}

#[test]
fn session_map_iter_lists_occupied_slots() {
    let mut map = SessionMap::new();
    let a = Session::new(0, 1);
    let b = Session::new(1, 2);
    assert!(map.insert(a, 10u32).is_none());
    assert!(map.insert(b, 20u32).is_none());
    let all = map.iter();
    assert_eq!(all.len(), 2);
    assert_eq!((all[0].0, *all[0].1), (a, 10));
    assert_eq!((all[1].0, *all[1].1), (b, 20));
}

#[test]
fn session_map_remove_and_get_or_insert_leave_others() {
    let mut map = SessionMap::new();
    let a = Session::new(0, 1);
    let b = Session::new(1, 2);
    let c = Session::new(2, 3);
    map.insert(a, 1u32);
    map.insert(b, 2u32);
    map.insert(c, 3u32);
    assert_eq!(map.remove(b), Some(2));
    assert_eq!(map.get(b), None);
    assert_eq!(map.get(a), Some(&1));
    assert_eq!(map.get(c), Some(&3));
    assert_eq!(*map.get_or_insert(a, || 99), 1);
    assert_eq!(map.get(c), Some(&3));
    let a2 = Session::new(0, 5);
    assert_eq!(*map.get_or_insert(a2, || 7), 7);
    assert_eq!(map.get(a), None);
}
