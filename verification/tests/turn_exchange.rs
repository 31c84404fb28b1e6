use gpuf_c::generation::GenerationControl;
use gpuf_c::reassembly::{IpKey, PeerAddr};
use gpuf_c::stun::{stun_attr_iter, stun_build_message, turn_encode_xor_peer_address, StunError};
use gpuf_c::turn::{
    turn_allocate_request, turn_allocation, turn_authenticated_request, turn_challenge,
    turn_connection_id, turn_response_is, turn_send_indication_message, TurnError,
    TURN_ALLOCATE, TURN_CONNECTION_BIND_SUCCESS, TURN_CREATE_PERMISSION_SUCCESS,
};

const TXID: [u8; 12] = [1, 2, 3, 4, 5, 6, 7, 8, 9, 10, 11, 12];

fn peer() -> PeerAddr {
    PeerAddr { ip: IpKey { v6: false, hi: 0, lo: 0xc633_6402 }, port: 3478 }
}

#[test]
fn allocate_requests() {
    assert_eq!(
        turn_allocate_request(TXID, 17),
        vec![
            0, 3, 0, 24, 33, 18, 164, 66, 1, 2, 3, 4, 5, 6, 7, 8, 9, 10, 11, 12, 0, 25, 0, 4, 17, 0,
            0, 0, 0, 13, 0, 4, 0, 0, 2, 88, 128, 40, 0, 4, 117, 134, 75, 124
        ]
    );
    let extra = vec![(0x0019u16, vec![6u8, 0, 0, 0]), (0x000du16, 600u32.to_be_bytes().to_vec())];
    let req = turn_authenticated_request(
        TURN_ALLOCATE,
        TXID,
        "alice",
        "example.org",
        "n0nce",
        "secret",
        extra,
    );
    assert_eq!(
        req,
        vec![
            0, 3, 0, 88, 33, 18, 164, 66, 1, 2, 3, 4, 5, 6, 7, 8, 9, 10, 11, 12, 0, 6, 0, 5, 97,
            108, 105, 99, 101, 0, 0, 0, 0, 20, 0, 11, 101, 120, 97, 109, 112, 108, 101, 46, 111,
            114, 103, 0, 0, 21, 0, 5, 110, 48, 110, 99, 101, 0, 0, 0, 0, 25, 0, 4, 6, 0, 0, 0, 0,
            13, 0, 4, 0, 0, 2, 88, 0, 8, 0, 20, 124, 135, 55, 201, 252, 238, 4, 99, 98, 224, 49, 59,
            203, 16, 203, 30, 180, 157, 103, 191, 128, 40, 0, 4, 29, 27, 114, 44
        ]
    );
}

#[test]
fn challenge_gives_realm_and_nonce() {
    let resp = stun_build_message(
        0x0113,
        TXID,
        &[(0x0014, b"example.org".to_vec()), (0x0015, b"abc".to_vec())],
        None,
        false,
    );
    assert_eq!(turn_challenge(&resp), Ok(("example.org".to_string(), "abc".to_string())));
    let no_nonce = stun_build_message(0x0113, TXID, &[(0x0014, b"r".to_vec())], None, false);
    assert_eq!(turn_challenge(&no_nonce), Err(TurnError::MissingNonce));
    let no_realm = stun_build_message(0x0113, TXID, &[(0x0015, b"n".to_vec())], None, false);
    assert_eq!(turn_challenge(&no_realm), Err(TurnError::MissingRealm));
    let ok = stun_build_message(0x0103, TXID, &[], None, false);
    assert_eq!(turn_challenge(&ok), Err(TurnError::UnexpectedResponse(0x0103)));
    let mut cut = resp.clone();
    cut.truncate(19);
    assert_eq!(turn_challenge(&cut), Err(TurnError::Malformed(StunError::TooShort)));
}

#[test]
fn allocation_gives_the_relayed_address() {
    let relayed = turn_encode_xor_peer_address(peer(), &TXID);
    let resp = stun_build_message(0x0103, TXID, &[(0x0016, relayed)], None, true);
    assert_eq!(turn_allocation(&resp, &TXID), Ok(peer()));
    let empty = stun_build_message(0x0103, TXID, &[], None, true);
    assert_eq!(turn_allocation(&empty, &TXID), Err(TurnError::MissingRelayedAddress));
    let err = stun_build_message(0x0113, TXID, &[], None, true);
    assert_eq!(turn_allocation(&err, &TXID), Err(TurnError::UnexpectedResponse(0x0113)));
}

#[test]
fn connect_and_bind_answers() {
    let resp = stun_build_message(0x010a, TXID, &[(0x002a, vec![0, 0, 0, 7])], None, true);
    assert_eq!(turn_connection_id(&resp), Ok(vec![0, 0, 0, 7]));
    let none = stun_build_message(0x010a, TXID, &[], None, true);
    assert_eq!(turn_connection_id(&none), Err(TurnError::MissingConnectionId));
    let bind = stun_build_message(0x010b, TXID, &[], None, false);
    assert_eq!(turn_response_is(&bind, TURN_CONNECTION_BIND_SUCCESS), Ok(()));
    assert_eq!(
        turn_response_is(&bind, TURN_CREATE_PERMISSION_SUCCESS),
        Err(TurnError::UnexpectedResponse(0x010b))
    );
}

#[test]
fn send_indication_carries_peer_and_data() {
    let msg = turn_send_indication_message(TXID, peer(), b"payload");
    assert_eq!(&msg[0..2], &[0x00, 0x16]);
    let attrs = stun_attr_iter(&msg).unwrap();
    assert_eq!(attrs[0], (0x0012, turn_encode_xor_peer_address(peer(), &TXID)));
    assert_eq!(attrs[1], (0x0013, b"payload".to_vec()));
    assert_eq!(attrs[2].0, 0x8028);
}

#[test]
fn generation_stop_flag() {
    let mut c = GenerationControl::new();
    assert!(!c.should_stop_generation());
    c.set_generation_stop(true);
    assert!(!c.should_stop_generation());
    c.init_generation_control();
    assert!(!c.should_stop_generation());
    c.set_generation_stop(true);
    assert!(c.should_stop_generation());
    c.cleanup_generation_control();
    assert!(!c.should_stop_generation());
}
