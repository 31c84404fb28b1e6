use gpuf_c::envelope::{
    p2p_decode_data_plane_envelope, p2p_encode_data_plane_envelope, EnvelopeError,
};
use gpuf_c::p2p_udp::{
    p2p_udp_ack_packet, p2p_udp_fragment_count, p2p_udp_fragment_packet, p2p_udp_is_valid_ack,
    p2p_udp_make_header, p2p_udp_parse_header, p2p_udp_tag, p2p_udp_try_reassemble,
    p2p_udp_validate_fragment, P2PUdpError, P2P_MAX_FRAGMENTS_PER_MESSAGE, P2P_REPLAY_WINDOW_SECS,
    P2P_UDP_HEADER_LEN,
};
use gpuf_c::reassembly::{IpKey, P2PUdpReassemblyState, PeerAddr, ReassemblyError, NANOS_PER_SEC};
use gpuf_c::replay::P2PReplayWindow;
use std::collections::HashMap;

const NOW: u64 = 1_700_000_000;
const MAX_MESSAGE: usize = 16 * 1024 * 1024;

fn localhost_9999() -> PeerAddr {
    PeerAddr { ip: IpKey { v6: false, hi: 0, lo: 0x7f00_0001 }, port: 9999 }
}

#[test]
fn udp_fragment_auth_rejects_tamper_and_stale_timestamp() {
    let secret = [7u8; 32];
    let connection_id = [3u8; 16];
    let payload = b"payload";
    let now = NOW;
    let tag = p2p_udp_tag(&secret, &connection_id, 0, 42, 0, 1, now, payload);

    assert!(p2p_udp_validate_fragment(
        &secret,
        &connection_id,
        0,
        42,
        0,
        1,
        now,
        payload,
        &tag,
        now,
    )
    .is_ok());

    let mut tampered = *payload;
    tampered[0] ^= 1;
    assert!(p2p_udp_validate_fragment(
        &secret,
        &connection_id,
        0,
        42,
        0,
        1,
        now,
        &tampered,
        &tag,
        now,
    )
    .is_err());

    assert!(p2p_udp_validate_fragment(
        &secret,
        &connection_id,
        0,
        42,
        0,
        1,
        now.saturating_sub(P2P_REPLAY_WINDOW_SECS + 1),
        payload,
        &tag,
        now,
    )
    .is_err());
}

#[test]
fn tcp_envelope_rejects_replay_and_cross_connection() {
    let secret = [9u8; 32];
    let connection_id = [4u8; 16];
    let command = b"p2p-inference-done task-1".to_vec();
    let signed =
        p2p_encode_data_plane_envelope(command, connection_id, secret, 1, NOW, MAX_MESSAGE)
            .unwrap();

    let mut replay = P2PReplayWindow::new();
    assert!(p2p_decode_data_plane_envelope(
        signed.clone(),
        connection_id,
        secret,
        &mut replay,
        NOW,
        MAX_MESSAGE,
    )
    .is_ok());
    assert!(p2p_decode_data_plane_envelope(
        signed.clone(),
        connection_id,
        secret,
        &mut replay,
        NOW,
        MAX_MESSAGE,
    )
    .is_err());

    let mut other_replay = P2PReplayWindow::new();
    assert!(p2p_decode_data_plane_envelope(
        signed,
        [5u8; 16],
        secret,
        &mut other_replay,
        NOW,
        MAX_MESSAGE,
    )
    .is_err());
}

#[test]
fn udp_reassembly_enforces_fragment_limits_and_dedupes_completed_messages() {
    let mut state = P2PUdpReassemblyState::new(MAX_MESSAGE);
    let from = localhost_9999();
    let now = 5 * NANOS_PER_SEC;

    assert!(state
        .accept_fragment(from, 1, 0, P2P_MAX_FRAGMENTS_PER_MESSAGE + 1, b"x", now)
        .is_err());

    assert!(state.accept_fragment(from, 2, 1, 2, b"b", now).unwrap().is_none());
    let full = state.accept_fragment(from, 2, 0, 2, b"a", now).unwrap().unwrap();
    assert_eq!(full, b"ab");
    assert!(state.accept_fragment(from, 2, 0, 2, b"a", now).unwrap().is_none());
}

#[test]
fn signed_payload_round_trip_preserves_command_shape() {
    let secret = [1u8; 32];
    let connection_id = [2u8; 16];
    // An encoded inference chunk: sequence number 7, then the delta text.
    let mut command = 7u32.to_be_bytes().to_vec();
    command.extend_from_slice(b"hello");
    let signed =
        p2p_encode_data_plane_envelope(command.clone(), connection_id, secret, 11, NOW, MAX_MESSAGE)
            .unwrap();
    let decoded = p2p_decode_data_plane_envelope(
        signed,
        connection_id,
        secret,
        &mut P2PReplayWindow::new(),
        NOW,
        MAX_MESSAGE,
    )
    .unwrap();
    assert_eq!(u32::from_be_bytes([decoded[0], decoded[1], decoded[2], decoded[3]]), 7);
    assert_eq!(&decoded[4..], b"hello");
    assert_eq!(decoded, command);
}

#[test]
fn envelope_errors_each_have_an_input() {
    let secret = [1u8; 32];
    let conn = [2u8; 16];
    assert_eq!(
        p2p_encode_data_plane_envelope(vec![0u8; 11], conn, secret, 1, NOW, 10).unwrap_err(),
        EnvelopeError::PayloadTooLarge
    );
    let env = p2p_encode_data_plane_envelope(b"x".to_vec(), conn, secret, 1, NOW, 10).unwrap();
    let mut w = P2PReplayWindow::new();
    assert_eq!(
        p2p_decode_data_plane_envelope(env.clone(), [9u8; 16], secret, &mut w, NOW, 10)
            .unwrap_err(),
        EnvelopeError::ConnectionMismatch
    );
    assert_eq!(
        p2p_decode_data_plane_envelope(env.clone(), conn, secret, &mut w, NOW + 1000, 10)
            .unwrap_err(),
        EnvelopeError::StaleEnvelope
    );
    assert_eq!(
        p2p_decode_data_plane_envelope(env.clone(), conn, [3u8; 32], &mut w, NOW, 10).unwrap_err(),
        EnvelopeError::AuthenticationFailed
    );
    assert_eq!(
        p2p_decode_data_plane_envelope(env.clone(), conn, secret, &mut w, NOW, 0).unwrap_err(),
        EnvelopeError::PayloadTooLarge
    );
    assert!(p2p_decode_data_plane_envelope(env.clone(), conn, secret, &mut w, NOW, 10).is_ok());
    assert_eq!(
        p2p_decode_data_plane_envelope(env, conn, secret, &mut w, NOW, 10).unwrap_err(),
        EnvelopeError::Replayed
    );
}

#[test]
fn envelope_tag_is_not_the_payload() {
    let env = p2p_encode_data_plane_envelope(b"abc".to_vec(), [2u8; 16], [1u8; 32], 5, NOW, 100)
        .unwrap();
    assert_eq!(env.payload, b"abc".to_vec());
    assert_ne!(env.tag.to_vec(), env.payload);
    assert_ne!(env.tag, [0u8; 32]);
}

#[test]
fn udp_header_round_trip() {
    let tag = [0xabu8; 32];
    let h = p2p_udp_make_header(0, 0x01020304, 3, 9, 0x1122334455667788, &tag);
    assert_eq!(h.len(), P2P_UDP_HEADER_LEN);
    let parsed = p2p_udp_parse_header(&h).unwrap();
    assert_eq!(parsed.flags, 0);
    assert_eq!(parsed.msg_id, 0x01020304);
    assert_eq!(parsed.frag_idx, 3);
    assert_eq!(parsed.frag_cnt, 9);
    assert_eq!(parsed.timestamp, 0x1122334455667788);
    assert_eq!(parsed.tag, tag.to_vec());
    assert!(p2p_udp_parse_header(&h[..P2P_UDP_HEADER_LEN - 1]).is_none());
    let mut bad = h.clone();
    bad[0] ^= 0xff;
    assert!(p2p_udp_parse_header(&bad).is_none());
}

#[test]
fn udp_fragment_errors_each_have_an_input() {
    let secret = [7u8; 32];
    let conn = [3u8; 16];
    let tag = [0u8; 32];
    assert_eq!(
        p2p_udp_validate_fragment(&secret, &conn, 1, 1, 1, 0, NOW, b"", &tag, NOW),
        Err(P2PUdpError::InvalidAckMetadata)
    );
    assert_eq!(
        p2p_udp_validate_fragment(&secret, &conn, 0, 1, 0, 0, NOW, b"", &tag, NOW),
        Err(P2PUdpError::InvalidFragmentCount)
    );
    assert_eq!(
        p2p_udp_validate_fragment(&secret, &conn, 0, 1, 2, 2, NOW, b"", &tag, NOW),
        Err(P2PUdpError::InvalidFragmentIndex)
    );
    assert_eq!(
        p2p_udp_validate_fragment(&secret, &conn, 0, 1, 0, 1, NOW + 31, b"", &tag, NOW),
        Err(P2PUdpError::StaleFragment)
    );
    assert_eq!(
        p2p_udp_validate_fragment(&secret, &conn, 0, 1, 0, 1, NOW, b"", &tag, NOW),
        Err(P2PUdpError::AuthenticationFailed)
    );
    assert_eq!(p2p_udp_fragment_count(1146 * 128 + 1), Err(P2PUdpError::TooManyFragments));
}

#[test]
fn udp_fragments_and_acks_are_accepted_by_the_receiver() {
    let secret = [7u8; 32];
    let conn = [3u8; 16];
    let payload: Vec<u8> = (0..3000u32).map(|i| (i % 251) as u8).collect();
    let cnt = p2p_udp_fragment_count(payload.len()).unwrap();
    assert_eq!(cnt, 3);
    assert_eq!(p2p_udp_fragment_count(0).unwrap(), 1);
    let mut parts: HashMap<u16, Vec<u8>> = HashMap::new();
    for idx in 0..cnt {
        let pkt = p2p_udp_fragment_packet(&secret, &conn, 77, &payload, idx, cnt, NOW);
        let h = p2p_udp_parse_header(&pkt).unwrap();
        let body = &pkt[P2P_UDP_HEADER_LEN..];
        let mut tag = [0u8; 32];
        tag.copy_from_slice(&h.tag);
        assert!(p2p_udp_validate_fragment(
            &secret, &conn, h.flags, h.msg_id, h.frag_idx, h.frag_cnt, h.timestamp, body, &tag,
            NOW
        )
        .is_ok());
        parts.insert(h.frag_idx, body.to_vec());
    }
    let whole = p2p_udp_try_reassemble(&mut parts, cnt).unwrap();
    assert_eq!(whole, payload);
    assert!(parts.is_empty());

    let ack = p2p_udp_ack_packet(conn, secret, 77, NOW);
    assert!(p2p_udp_is_valid_ack(&secret, &conn, 77, &ack, NOW));
    assert!(!p2p_udp_is_valid_ack(&secret, &conn, 78, &ack, NOW));
    assert!(!p2p_udp_is_valid_ack(&[8u8; 32], &conn, 77, &ack, NOW));
}

#[test]
fn try_reassemble_waits_for_every_fragment() {
    let mut parts: HashMap<u16, Vec<u8>> = HashMap::new();
    parts.insert(1, b"b".to_vec());
    assert!(p2p_udp_try_reassemble(&mut parts, 2).is_none());
    assert!(p2p_udp_try_reassemble(&mut parts, 0).is_none());
    assert_eq!(parts.len(), 1);
    parts.insert(0, b"a".to_vec());
    assert_eq!(p2p_udp_try_reassemble(&mut parts, 2).unwrap(), b"ab".to_vec());
}

#[test]
fn replay_window_refuses_a_repeat_until_it_expires() {
    let mut w = P2PReplayWindow::new();
    assert!(w.accept_tcp_seq(1, NOW, NOW));
    assert!(!w.accept_tcp_seq(1, NOW, NOW));
    assert!(w.accept_tcp_seq(2, NOW, NOW));
    // Once the first sighting is older than the window, the number is free again.
    assert!(w.accept_tcp_seq(1, NOW + 301, NOW + 301 + P2P_REPLAY_WINDOW_SECS + 1));
}

#[test]
fn reassembly_errors_each_have_an_input() {
    let from = localhost_9999();
    let now = NANOS_PER_SEC;
    let mut s = P2PUdpReassemblyState::new(4);
    assert_eq!(s.accept_fragment(from, 1, 0, 0, b"x", now), Err(ReassemblyError::InvalidMetadata));
    assert_eq!(s.accept_fragment(from, 1, 2, 2, b"x", now), Err(ReassemblyError::InvalidMetadata));
    assert_eq!(
        s.accept_fragment(from, 1, 0, 129, b"x", now),
        Err(ReassemblyError::TooManyFragments)
    );
    assert_eq!(
        s.accept_fragment(from, 1, 0, 1, &vec![0u8; 1201], now),
        Err(ReassemblyError::PayloadTooLarge)
    );
    assert_eq!(s.accept_fragment(from, 1, 0, 3, b"ab", now), Ok(None));
    assert_eq!(
        s.accept_fragment(from, 1, 1, 4, b"c", now),
        Err(ReassemblyError::FragmentCountChanged)
    );
    assert_eq!(
        s.accept_fragment(from, 1, 1, 3, b"cde", now),
        Err(ReassemblyError::MessageTooLarge)
    );
}

#[test]
fn reassembly_caps_messages_per_source() {
    let from = localhost_9999();
    let now = NANOS_PER_SEC;
    let mut s = P2PUdpReassemblyState::new(MAX_MESSAGE);
    for id in 0..32u32 {
        assert_eq!(s.accept_fragment(from, id, 0, 2, b"x", now), Ok(None));
    }
    assert_eq!(
        s.accept_fragment(from, 99, 0, 2, b"x", now),
        Err(ReassemblyError::PerSourceMessageLimit)
    );
}

#[test]
fn reassembly_bans_a_noisy_source_for_a_while() {
    let from = localhost_9999();
    let now = NANOS_PER_SEC;
    let mut s = P2PUdpReassemblyState::new(MAX_MESSAGE);
    assert!(!s.is_source_banned(from, now));
    for _ in 0..64 {
        s.record_invalid_source(from, now);
    }
    assert!(s.is_source_banned(from, now));
    assert!(!s.is_source_banned(from, now + 61 * NANOS_PER_SEC));
}

#[test]
fn reassembly_delivers_once_in_index_order_whatever_the_arrival_order() {
    let from = PeerAddr { ip: IpKey { v6: false, hi: 0, lo: 0x0a00_0001 }, port: 4000 };
    let mut s = P2PUdpReassemblyState::new(1 << 20);
    let now = 5 * NANOS_PER_SEC;
    assert_eq!(s.accept_fragment(from, 9, 2, 4, b"cc", now), Ok(None));
    assert_eq!(s.accept_fragment(from, 9, 0, 4, b"a", now + 1), Ok(None));
    assert_eq!(s.accept_fragment(from, 9, 3, 4, b"ddd", now + 2), Ok(None));
    assert_eq!(s.accept_fragment(from, 9, 1, 4, b"b", now + 3), Ok(Some(b"abccddd".to_vec())));
    assert_eq!(s.accept_fragment(from, 9, 1, 4, b"b", now + 4), Ok(None));
}

#[test]
fn reassembly_limits_partial_messages_per_source_ip() {
    let mut s = P2PUdpReassemblyState::new(1 << 20);
    let now = 5 * NANOS_PER_SEC;
    for id in 0..32u32 {
        let from = PeerAddr { ip: IpKey { v6: false, hi: 0, lo: 7 }, port: 1000 + id as u16 };
        assert_eq!(s.accept_fragment(from, id, 0, 2, b"x", now), Ok(None));
    }
    let from = PeerAddr { ip: IpKey { v6: false, hi: 0, lo: 7 }, port: 9 };
    assert_eq!(
        s.accept_fragment(from, 99, 0, 2, b"x", now),
        Err(ReassemblyError::PerSourceMessageLimit)
    );
    let other = PeerAddr { ip: IpKey { v6: false, hi: 0, lo: 8 }, port: 9 };
    assert_eq!(s.accept_fragment(other, 99, 0, 2, b"x", now), Ok(None));
}

#[test]
fn reassembly_ignores_retransmitted_copies_and_keeps_the_first_payload() {
    let from = PeerAddr { ip: IpKey { v6: false, hi: 0, lo: 0x0a00_0002 }, port: 4001 };
    let mut s = P2PUdpReassemblyState::new(1 << 20);
    let now = 5 * NANOS_PER_SEC;
    assert_eq!(s.accept_fragment(from, 3, 1, 3, b"B", now), Ok(None));
    assert_eq!(s.accept_fragment(from, 3, 1, 3, b"X", now + 1), Ok(None));
    assert_eq!(s.accept_fragment(from, 3, 0, 3, b"A", now + 2), Ok(None));
    assert_eq!(s.accept_fragment(from, 3, 0, 3, b"Y", now + 3), Ok(None));
    assert_eq!(s.accept_fragment(from, 3, 2, 3, b"C", now + 4), Ok(Some(b"ABC".to_vec())));
}
