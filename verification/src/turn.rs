use crate::bytes;
use crate::bytes::{copy_range, push_be32, read_be16};
use crate::reassembly::PeerAddr;
use crate::stun;
use crate::stun::{
    find_attr, stun_attr_iter, stun_build_message, stun_get_text_attr, stun_parse_xor_addr,
    turn_encode_xor_peer_address, StunError,
};
use vstd::prelude::*;
use vstd::string::StringSliceAdditionalSpecFns;
use vstd::utf8::{decode_utf8, valid_utf8};

verus! {

/// TURN methods and response types.
pub const TURN_ALLOCATE: u16 = 0x0003;
pub const TURN_ALLOCATE_SUCCESS: u16 = 0x0103;
pub const TURN_ALLOCATE_ERROR: u16 = 0x0113;
pub const TURN_CREATE_PERMISSION: u16 = 0x0008;
pub const TURN_CREATE_PERMISSION_SUCCESS: u16 = 0x0108;
pub const TURN_SEND_INDICATION: u16 = 0x0016;
pub const TURN_CONNECT: u16 = 0x000a;
pub const TURN_CONNECT_SUCCESS: u16 = 0x010a;
pub const TURN_CONNECTION_BIND: u16 = 0x000b;
pub const TURN_CONNECTION_BIND_SUCCESS: u16 = 0x010b;

/// TURN attribute types.
pub const ATTR_USERNAME: u16 = 0x0006;
pub const ATTR_LIFETIME: u16 = 0x000d;
pub const ATTR_XOR_PEER_ADDRESS: u16 = 0x0012;
pub const ATTR_DATA: u16 = 0x0013;
pub const ATTR_REALM: u16 = 0x0014;
pub const ATTR_NONCE: u16 = 0x0015;
pub const ATTR_XOR_RELAYED_ADDRESS: u16 = 0x0016;
pub const ATTR_REQUESTED_TRANSPORT: u16 = 0x0019;
pub const ATTR_CONNECTION_ID: u16 = 0x002a;

/// The allocation lifetime the client asks for, in seconds.
pub const TURN_LIFETIME_SECS: u32 = 600;

/// Why a TURN exchange failed.
#[derive(Debug, Clone, Copy, PartialEq, Eq, Structural)]
pub enum TurnError {
    /// The server answered with another message type than expected.
    UnexpectedResponse(u16),
    /// The answer is no readable STUN message.
    Malformed(StunError),
    /// The challenge names no realm.
    MissingRealm,
    /// The challenge carries no nonce.
    MissingNonce,
    /// The allocation names no relayed address.
    MissingRelayedAddress,
    /// The connect answer carries no connection id.
    MissingConnectionId,
}

/// The attributes of an Allocate request: the transport protocol (17 for
/// UDP, 6 for TCP) and the lifetime.
pub open spec fn allocate_attrs(protocol: u8) -> Seq<(u16, Seq<u8>)> {
    seq![
        (ATTR_REQUESTED_TRANSPORT, seq![protocol, 0u8, 0u8, 0u8]),
        (ATTR_LIFETIME, bytes::be32(TURN_LIFETIME_SECS)),
    ]
}

/// The attributes that carry long-term credentials, in front of `extra`.
pub open spec fn credential_attrs(
    username: Seq<u8>,
    realm: Seq<u8>,
    nonce: Seq<u8>,
    extra: Seq<(u16, Seq<u8>)>,
) -> Seq<(u16, Seq<u8>)> {
    seq![(ATTR_USERNAME, username), (ATTR_REALM, realm), (ATTR_NONCE, nonce)] + extra
}

fn allocate_attr_list(protocol: u8) -> (r: Vec<(u16, Vec<u8>)>)
    ensures
        stun::attrs_view(r@) == allocate_attrs(protocol),
{
    let mut lifetime: Vec<u8> = Vec::new();
    push_be32(&mut lifetime, TURN_LIFETIME_SECS);
    let mut r: Vec<(u16, Vec<u8>)> = Vec::new();
    r.push((ATTR_REQUESTED_TRANSPORT, vec![protocol, 0u8, 0u8, 0u8]));
    r.push((ATTR_LIFETIME, lifetime));
    assert(stun::attrs_view(r@) =~= allocate_attrs(protocol));
    r
}

/// The first Allocate request, without credentials, for the transport
/// `protocol`.
pub fn turn_allocate_request(txid: [u8; 12], protocol: u8) -> (r: Vec<u8>)
    ensures
        r@ == stun::stun_message(TURN_ALLOCATE, txid@, allocate_attrs(protocol), None, true),
{
    let attrs = allocate_attr_list(protocol);
    proof {
        let a = allocate_attrs(protocol);
        stun::lemma_attrs_bytes_two(a[0], a[1]);
        stun::lemma_attrs_bytes_two(a[1], a[0]);
        assert(a =~= seq![a[0], a[1]]);
    }
    stun_build_message(TURN_ALLOCATE, txid, attrs.as_slice(), None, true)
}

fn str_bytes_vec(s: &str) -> (r: Vec<u8>)
    ensures
        r@ == s.spec_bytes(),
{
    let b = s.as_bytes();
    copy_range(b, 0, b.len())
}

/// A request of `method` under long-term credentials: USERNAME, REALM and
/// NONCE, then the `extra` attributes, MESSAGE-INTEGRITY and FINGERPRINT.
pub fn turn_authenticated_request(
    method: u16,
    txid: [u8; 12],
    username: &str,
    realm: &str,
    nonce: &str,
    password: &str,
    extra: Vec<(u16, Vec<u8>)>,
) -> (r: Vec<u8>)
    requires
        stun::attrs_bytes(
            credential_attrs(
                username.spec_bytes(),
                realm.spec_bytes(),
                nonce.spec_bytes(),
                stun::attrs_view(extra@),
            ),
        ).len() + 64 <= usize::MAX,
    ensures
        r@ == stun::stun_message(
            method,
            txid@,
            credential_attrs(
                username.spec_bytes(),
                realm.spec_bytes(),
                nonce.spec_bytes(),
                stun::attrs_view(extra@),
            ),
            Some((username.spec_bytes(), realm.spec_bytes(), password.spec_bytes())),
            true,
        ),
{
    let mut attrs: Vec<(u16, Vec<u8>)> = Vec::new();
    attrs.push((ATTR_USERNAME, str_bytes_vec(username)));
    attrs.push((ATTR_REALM, str_bytes_vec(realm)));
    attrs.push((ATTR_NONCE, str_bytes_vec(nonce)));
    let ghost head = attrs@;
    let mut extra = extra;
    let ghost extra0 = extra@;
    attrs.append(&mut extra);
    assert(stun::attrs_view(attrs@) =~= credential_attrs(
        username.spec_bytes(),
        realm.spec_bytes(),
        nonce.spec_bytes(),
        stun::attrs_view(extra0),
    ));
    stun_build_message(method, txid, attrs.as_slice(), Some((username, realm, password)), true)
}

/// The message type of a response.
pub open spec fn response_type(resp: Seq<u8>) -> u16 {
    bytes::be16_at(resp, 0)
}

/// Realm and nonce from the server's 401 answer to the first Allocate.
pub open spec fn challenge_spec(resp: Seq<u8>) -> Result<(Seq<char>, Seq<char>), TurnError> {
    if response_type(resp) != TURN_ALLOCATE_ERROR {
        Err(TurnError::UnexpectedResponse(response_type(resp)))
    } else {
        match stun::attr_iter_spec(resp) {
            Err(e) => Err(TurnError::Malformed(e)),
            Ok(attrs) => match stun::first_attr(attrs, ATTR_REALM) {
                Some(r) if valid_utf8(r) => match stun::first_attr(attrs, ATTR_NONCE) {
                    Some(n) if valid_utf8(n) => Ok((decode_utf8(r), decode_utf8(n))),
                    _ => Err(TurnError::MissingNonce),
                },
                _ => Err(TurnError::MissingRealm),
            },
        }
    }
}

/// Reads the realm and nonce that the server asks the client to
/// authenticate with.
pub fn turn_challenge(resp: &[u8]) -> (r: Result<(String, String), TurnError>)
    requires
        resp@.len() >= 2,
    ensures
        match r {
            Ok((realm, nonce)) => challenge_spec(resp@) == Ok::<
                (Seq<char>, Seq<char>),
                TurnError,
            >((realm@, nonce@)),
            Err(e) => challenge_spec(resp@) == Err::<(Seq<char>, Seq<char>), TurnError>(e),
        },
{
    let t = read_be16(resp, 0);
    if t != TURN_ALLOCATE_ERROR {
        return Err(TurnError::UnexpectedResponse(t));
    }
    let attrs = match stun_attr_iter(resp) {
        Ok(a) => a,
        Err(e) => return Err(TurnError::Malformed(e)),
    };
    let realm = match stun_get_text_attr(attrs.as_slice(), ATTR_REALM) {
        Some(r) => r,
        None => return Err(TurnError::MissingRealm),
    };
    let nonce = match stun_get_text_attr(attrs.as_slice(), ATTR_NONCE) {
        Some(n) => n,
        None => return Err(TurnError::MissingNonce),
    };
    Ok((realm, nonce))
}

/// The relayed address from the server's answer to the authenticated
/// Allocate, read under transaction id `txid`.
pub open spec fn allocation_spec(resp: Seq<u8>, txid: Seq<u8>) -> Result<PeerAddr, TurnError> {
    if response_type(resp) != TURN_ALLOCATE_SUCCESS {
        Err(TurnError::UnexpectedResponse(response_type(resp)))
    } else {
        match stun::attr_iter_spec(resp) {
            Err(e) => Err(TurnError::Malformed(e)),
            Ok(attrs) => match stun::first_attr(attrs, ATTR_XOR_RELAYED_ADDRESS) {
                Some(v) => match stun::decode_xor_addr(v, txid) {
                    Some(p) => Ok(p),
                    None => Err(TurnError::MissingRelayedAddress),
                },
                None => Err(TurnError::MissingRelayedAddress),
            },
        }
    }
}

/// Reads the relayed address that an allocation got.
pub fn turn_allocation(resp: &[u8], txid: &[u8; 12]) -> (r: Result<PeerAddr, TurnError>)
    requires
        resp@.len() >= 2,
    ensures
        r == allocation_spec(resp@, txid@),
{
    let t = read_be16(resp, 0);
    if t != TURN_ALLOCATE_SUCCESS {
        return Err(TurnError::UnexpectedResponse(t));
    }
    let attrs = match stun_attr_iter(resp) {
        Ok(a) => a,
        Err(e) => return Err(TurnError::Malformed(e)),
    };
    match find_attr(attrs.as_slice(), ATTR_XOR_RELAYED_ADDRESS) {
        Some(i) => match stun_parse_xor_addr(attrs[i].1.as_slice(), txid) {
            Some(p) => Ok(p),
            None => Err(TurnError::MissingRelayedAddress),
        },
        None => Err(TurnError::MissingRelayedAddress),
    }
}

/// Whether the server answered with the expected success type.
pub fn turn_response_is(resp: &[u8], expected: u16) -> (r: Result<(), TurnError>)
    requires
        resp@.len() >= 2,
    ensures
        response_type(resp@) == expected ==> r is Ok,
        response_type(resp@) != expected ==> r == Err::<(), TurnError>(
            TurnError::UnexpectedResponse(response_type(resp@)),
        ),
{
    let t = read_be16(resp, 0);
    if t != expected {
        Err(TurnError::UnexpectedResponse(t))
    } else {
        Ok(())
    }
}

/// The connection id from the server's answer to a Connect request.
pub open spec fn connect_spec(resp: Seq<u8>) -> Result<Seq<u8>, TurnError> {
    if response_type(resp) != TURN_CONNECT_SUCCESS {
        Err(TurnError::UnexpectedResponse(response_type(resp)))
    } else {
        match stun::attr_iter_spec(resp) {
            Err(e) => Err(TurnError::Malformed(e)),
            Ok(attrs) => match stun::first_attr(attrs, ATTR_CONNECTION_ID) {
                Some(v) => Ok(v),
                None => Err(TurnError::MissingConnectionId),
            },
        }
    }
}

/// Reads the connection id that a Connect request got.
pub fn turn_connection_id(resp: &[u8]) -> (r: Result<Vec<u8>, TurnError>)
    requires
        resp@.len() >= 2,
    ensures
        match r {
            Ok(v) => connect_spec(resp@) == Ok::<Seq<u8>, TurnError>(v@),
            Err(e) => connect_spec(resp@) == Err::<Seq<u8>, TurnError>(e),
        },
{
    let t = read_be16(resp, 0);
    if t != TURN_CONNECT_SUCCESS {
        return Err(TurnError::UnexpectedResponse(t));
    }
    let attrs = match stun_attr_iter(resp) {
        Ok(a) => a,
        Err(e) => return Err(TurnError::Malformed(e)),
    };
    match find_attr(attrs.as_slice(), ATTR_CONNECTION_ID) {
        Some(i) => {
            let v = copy_range(attrs[i].1.as_slice(), 0, attrs[i].1.len());
            assert(v@ =~= attrs@[i as int].1@);
            Ok(v)
        },
        None => Err(TurnError::MissingConnectionId),
    }
}

/// A Send indication that carries `data` to `peer` through the relay.
pub fn turn_send_indication_message(txid: [u8; 12], peer: PeerAddr, data: &[u8]) -> (r: Vec<u8>)
    requires
        data@.len() <= 0xffff,
    ensures
        r@ == stun::stun_message(
            TURN_SEND_INDICATION,
            txid@,
            seq![
                (ATTR_XOR_PEER_ADDRESS, stun::encode_xor_addr(peer, txid@)),
                (ATTR_DATA, data@),
            ],
            None,
            true,
        ),
{
    let xor_peer = turn_encode_xor_peer_address(peer, &txid);
    let payload = copy_range(data, 0, data.len());
    let mut attrs: Vec<(u16, Vec<u8>)> = Vec::new();
    attrs.push((ATTR_XOR_PEER_ADDRESS, xor_peer));
    attrs.push((ATTR_DATA, payload));
    proof {
        assert(payload@ =~= data@);
        let pa = (ATTR_XOR_PEER_ADDRESS, stun::encode_xor_addr(peer, txid@));
        let da = (ATTR_DATA, data@);
        let v = stun::attrs_view(attrs@);
        assert(v =~= seq![pa, da]);
        stun::lemma_attrs_bytes_two(pa, da);
        stun::lemma_attrs_bytes_two(da, pa);
        assert(stun::encode_xor_addr(peer, txid@).len() <= 20);
    }
    stun_build_message(TURN_SEND_INDICATION, txid, attrs.as_slice(), None, true)
}

} // verus!
