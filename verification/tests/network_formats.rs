use gpuf_c::command_frame::{udp_frame_command, udp_unframe_command, FrameError};
use gpuf_c::endpoints::{
    client_id_from_hex, parse_stun_host_port, parse_turns_url, turn_server_host_port, TurnUrlError,
};
use gpuf_c::reassembly::{IpKey, PeerAddr};
use gpuf_c::stun::{
    build_stun_binding_request, parse_xor_mapped_address, stun_attr_iter, stun_binding_srflx_request,
    stun_build_message, stun_get_text_attr, stun_parse_xor_addr, stun_write_attr,
    turn_encode_xor_peer_address, turn_parse_data_indication, StunError,
};

const TXID: [u8; 12] = [1, 2, 3, 4, 5, 6, 7, 8, 9, 10, 11, 12];

fn v4(a: u8, b: u8, c: u8, d: u8, port: u16) -> PeerAddr {
    let lo = u32::from_be_bytes([a, b, c, d]) as u64;
    PeerAddr { ip: IpKey { v6: false, hi: 0, lo }, port }
}

#[test]
fn stun_message_with_integrity_and_fingerprint() {
    let attrs = vec![(0x0019u16, vec![17u8, 0, 0, 0]), (0x0006u16, b"alice".to_vec())];
    let msg = stun_build_message(0x0003, TXID, &attrs, Some(("alice", "realm", "pw")), true);
    let expected: Vec<u8> = vec![
        0, 3, 0, 52, 33, 18, 164, 66, 1, 2, 3, 4, 5, 6, 7, 8, 9, 10, 11, 12, 0, 25, 0, 4, 17, 0, 0,
        0, 0, 6, 0, 5, 97, 108, 105, 99, 101, 0, 0, 0, 0, 8, 0, 20, 40, 253, 10, 124, 35, 22, 207,
        65, 68, 88, 161, 196, 83, 185, 38, 160, 28, 150, 10, 239, 128, 40, 0, 4, 29, 227, 31, 190,
    ];
    assert_eq!(msg, expected);
}

#[test]
fn stun_binding_request_with_fingerprint() {
    let msg = stun_build_message(0x0001, TXID, &[], None, true);
    assert_eq!(
        msg,
        vec![0, 1, 0, 8, 33, 18, 164, 66, 1, 2, 3, 4, 5, 6, 7, 8, 9, 10, 11, 12, 128, 40, 0, 4, 91, 32, 249, 204]
    );
    let (txid, req) = stun_binding_srflx_request();
    assert_eq!(&req[8..20], &txid);
    assert_eq!(&req[0..4], &[0, 1, 0, 8]);
    let fp = crc32fast::hash(&req[..20]) ^ 0x5354_554e;
    assert_eq!(&req[20..24], &[0x80, 0x28, 0, 4]);
    assert_eq!(&req[24..28], &fp.to_be_bytes());
}

#[test]
fn plain_binding_request() {
    let (txid, req) = build_stun_binding_request();
    assert_eq!(req.len(), 20);
    assert_eq!(&req[0..8], &[0, 1, 0, 0, 0x21, 0x12, 0xa4, 0x42]);
    assert_eq!(&req[8..20], &txid);
}

#[test]
fn attribute_padding() {
    let mut buf = Vec::new();
    stun_write_attr(&mut buf, 0x0006, b"abcde");
    assert_eq!(buf, vec![0, 6, 0, 5, b'a', b'b', b'c', b'd', b'e', 0, 0, 0]);
    let mut buf = Vec::new();
    stun_write_attr(&mut buf, 0x0013, b"");
    assert_eq!(buf, vec![0, 0x13, 0, 0]);
}

#[test]
fn attributes_read_back() {
    let attrs = vec![(0x0019u16, vec![17u8, 0, 0, 0]), (0x0006u16, b"alice".to_vec())];
    let msg = stun_build_message(0x0003, TXID, &attrs, None, false);
    let read = stun_attr_iter(&msg).unwrap();
    assert_eq!(read, attrs);
    assert_eq!(msg.len() % 4, 0);
    assert_eq!(u16::from_be_bytes([msg[2], msg[3]]) as usize, msg.len() - 20);
    assert_eq!(msg.len(), 20 + 8 + 12);
    assert_eq!(stun_get_text_attr(&read, 0x0006), Some("alice".to_string()));
    assert_eq!(stun_get_text_attr(&read, 0x0015), None);
    assert_eq!(stun_attr_iter(&msg[..19]), Err(StunError::TooShort));
    assert_eq!(stun_attr_iter(&msg[..msg.len() - 1]), Err(StunError::LengthMismatch));
}

#[test]
fn xor_address_round_trip() {
    let peer = v4(192, 168, 1, 10, 3478);
    let enc = turn_encode_xor_peer_address(peer, &TXID);
    let ip = u32::from_be_bytes([192, 168, 1, 10]) ^ 0x2112_a442;
    let mut expected = vec![0u8, 1];
    expected.extend_from_slice(&(3478u16 ^ 0x2112).to_be_bytes());
    expected.extend_from_slice(&ip.to_be_bytes());
    assert_eq!(enc, expected);
    assert_eq!(stun_parse_xor_addr(&enc, &TXID), Some(peer));

    let peer6 = PeerAddr { ip: IpKey { v6: true, hi: 0x2001_0db8_0000_0000, lo: 1 }, port: 443 };
    let enc6 = turn_encode_xor_peer_address(peer6, &TXID);
    assert_eq!(enc6.len(), 20);
    assert_eq!(stun_parse_xor_addr(&enc6, &TXID), Some(peer6));
    assert_eq!(stun_parse_xor_addr(&enc6[..7], &TXID), None);
}

#[test]
fn mapped_address_from_binding_response() {
    let peer = v4(203, 0, 113, 7, 50000);
    let value = turn_encode_xor_peer_address(peer, &TXID);
    let resp = stun_build_message(0x0101, TXID, &[(0x0020, value)], None, false);
    assert_eq!(parse_xor_mapped_address(&resp, &TXID), Some(peer));
    assert_eq!(parse_xor_mapped_address(&resp, &[0u8; 12]), None);
    let mut wrong_type = resp.clone();
    wrong_type[1] = 0x11;
    assert_eq!(parse_xor_mapped_address(&wrong_type, &TXID), None);
}

#[test]
fn data_indication_carries_peer_and_data() {
    let peer = v4(10, 0, 0, 2, 4000);
    let attrs = vec![(0x0012u16, turn_encode_xor_peer_address(peer, &TXID)), (0x0013u16, b"hi".to_vec())];
    let msg = stun_build_message(0x0017, TXID, &attrs, None, false);
    assert_eq!(turn_parse_data_indication(&msg), Some((peer, b"hi".to_vec())));
    let other = stun_build_message(0x0016, TXID, &attrs, None, false);
    assert_eq!(turn_parse_data_indication(&other), None);
    let no_data = stun_build_message(0x0017, TXID, &attrs[..1], None, false);
    assert_eq!(turn_parse_data_indication(&no_data), None);
}

#[test]
fn stun_server_addresses() {
    assert_eq!(
        parse_stun_host_port(" stun:stun.l.google.com:19302 \n"),
        Some(("stun.l.google.com".to_string(), 19302))
    );
    assert_eq!(parse_stun_host_port("stun://host:+80"), Some(("host".to_string(), 80)));
    assert_eq!(parse_stun_host_port("[::1]:3478"), Some(("[::1]".to_string(), 3478)));
    assert_eq!(parse_stun_host_port("host"), None);
    assert_eq!(parse_stun_host_port("h:70000"), None);
    assert_eq!(parse_stun_host_port("stun:h:"), None);
    assert_eq!(parse_stun_host_port("h:12a"), None);
}

#[test]
fn turn_server_urls() {
    assert_eq!(
        parse_turns_url("turns://turn.example.com:443"),
        Ok(("turn.example.com".to_string(), 443))
    );
    assert_eq!(
        parse_turns_url("turns://turn.example.com"),
        Ok(("turn.example.com".to_string(), 5349))
    );
    assert_eq!(parse_turns_url("turn://turn.example.com"), Err(TurnUrlError::NotTurns));
    assert_eq!(parse_turns_url("not a url"), Err(TurnUrlError::Invalid));
    assert_eq!(parse_turns_url("turns:opaque"), Err(TurnUrlError::MissingHost));
}

#[test]
fn client_ids_from_hex() {
    let id = client_id_from_hex("00112233445566778899aabbccddeeff");
    assert_eq!(
        id,
        [0x00, 0x11, 0x22, 0x33, 0x44, 0x55, 0x66, 0x77, 0x88, 0x99, 0xaa, 0xbb, 0xcc, 0xdd, 0xee, 0xff]
    );
    assert_eq!(client_id_from_hex("00112233445566778899AABBCCDDEEFF"), id);
    assert_eq!(client_id_from_hex("abc"), [0u8; 16]);
    assert_eq!(client_id_from_hex("zz112233445566778899aabbccddeeff"), [0u8; 16]);
    assert_eq!(client_id_from_hex("00112233445566778899aabbccddee"), [0u8; 16]);
    assert_eq!(client_id_from_hex(""), [0u8; 16]);
}

#[test]
fn command_framing() {
    let framed = udp_frame_command(b"abc");
    assert_eq!(framed, vec![0, 0, 0, 3, b'a', b'b', b'c']);
    assert_eq!(udp_unframe_command(&framed), Ok(b"abc".to_vec()));
    let mut longer = framed.clone();
    longer.extend_from_slice(b"zz");
    assert_eq!(udp_unframe_command(&longer), Ok(b"abc".to_vec()));
    assert_eq!(udp_unframe_command(&[0, 0]), Err(FrameError::TooShort));
    assert_eq!(udp_unframe_command(&[0, 0, 0, 5, 1]), Err(FrameError::Truncated));
    assert_eq!(udp_unframe_command(&udp_frame_command(b"")), Ok(Vec::new()));
}

#[test]
fn turn_server_host_and_port() {
    assert_eq!(
        turn_server_host_port("turn://relay.example.com:3478"),
        Ok(("relay.example.com".to_string(), 3478))
    );
    assert_eq!(turn_server_host_port("http://relay.example.com"), Ok(("relay.example.com".to_string(), 80)));
    assert_eq!(turn_server_host_port("wss://relay.example.com"), Ok(("relay.example.com".to_string(), 443)));
    assert_eq!(turn_server_host_port("turn://relay.example.com"), Err(TurnUrlError::MissingPort));
    assert_eq!(turn_server_host_port("turn:relay.example.com:3478"), Err(TurnUrlError::MissingHost));
    assert_eq!(turn_server_host_port("no url here"), Err(TurnUrlError::Invalid));
}
