use crate::bytes;
use crate::bytes::{bytes_equal, copy_range, push_be16, push_be32, push_be64, push_bytes, read_be16, read_be32, read_be64};
use crate::crypto;
use crate::crypto::p2p_hmac_sha256;
use std::collections::HashMap;
use vstd::prelude::*;
use vstd::std_specs::hash::group_hash_axioms;

verus! {

broadcast use group_hash_axioms;

/// Magic bytes that open every P2P UDP datagram: "P2PU".
pub open spec fn p2p_udp_magic() -> Seq<u8> {
    seq![0x50u8, 0x32u8, 0x50u8, 0x55u8]
}

/// Wire version of the authenticated P2P UDP header.
pub const P2P_UDP_VERSION: u8 = 2;

/// Flag bit that marks an acknowledgement datagram.
pub const P2P_UDP_FLAG_ACK: u8 = 0x01;

/// magic(4) + version(1) + flags(1) + msg_id(4) + frag_idx(2) + frag_cnt(2) + timestamp(8) + tag(32).
pub const P2P_UDP_HEADER_LEN: usize = 54;

/// Largest datagram (header included) that the sender emits.
pub const P2P_UDP_MTU_PAYLOAD: usize = 1200;

/// How far back (seconds) a timestamp may lie and still be accepted.
pub const P2P_REPLAY_WINDOW_SECS: u64 = 300;

/// How far ahead (seconds) a timestamp may lie and still be accepted.
pub const P2P_CLOCK_SKEW_SECS: u64 = 30;

/// Most fragments one message may be split into.
pub const P2P_MAX_FRAGMENTS_PER_MESSAGE: u16 = 128;

/// Domain-separation prefix of the UDP MAC input: "GPUF-P2P-UDP-V2".
pub open spec fn udp_mac_domain() -> Seq<u8> {
    seq![
        0x47u8, 0x50u8, 0x55u8, 0x46u8, 0x2du8, 0x50u8, 0x32u8, 0x50u8, 0x2du8, 0x55u8, 0x44u8,
        0x50u8, 0x2du8, 0x56u8, 0x32u8,
    ]
}

/// The bytes of a header with the given fields.
pub open spec fn udp_header(
    flags: u8,
    msg_id: u32,
    frag_idx: u16,
    frag_cnt: u16,
    timestamp: u64,
    tag: Seq<u8>,
) -> Seq<u8> {
    p2p_udp_magic() + seq![P2P_UDP_VERSION, flags] + bytes::be32(msg_id) + bytes::be16(frag_idx) + bytes::be16(frag_cnt)
        + bytes::be64(timestamp) + tag
}

/// The fields of a header: flags, message id, fragment index and count, timestamp, tag.
pub struct P2PUdpHeader {
    pub flags: u8,
    pub msg_id: u32,
    pub frag_idx: u16,
    pub frag_cnt: u16,
    pub timestamp: u64,
    pub tag: Vec<u8>,
}

/// What a datagram's header says, if it has a well-formed one.
pub open spec fn parse_header_spec(buf: Seq<u8>) -> Option<(u8, u32, u16, u16, u64, Seq<u8>)> {
    if buf.len() < P2P_UDP_HEADER_LEN || buf.subrange(0, 4) != p2p_udp_magic() || buf[4]
        != P2P_UDP_VERSION {
        None
    } else {
        Some(
            (
                buf[5],
                bytes::be32_at(buf, 6),
                bytes::be16_at(buf, 10),
                bytes::be16_at(buf, 12),
                bytes::be64_at(buf, 14),
                buf.subrange(22, 54),
            ),
        )
    }
}

/// The view of a parsed header.
pub open spec fn header_view(h: P2PUdpHeader) -> (u8, u32, u16, u16, u64, Seq<u8>) {
    (h.flags, h.msg_id, h.frag_idx, h.frag_cnt, h.timestamp, h.tag@)
}

/// The bytes that the UDP fragment tag authenticates.
pub open spec fn udp_mac_input(
    connection_id: Seq<u8>,
    flags: u8,
    msg_id: u32,
    frag_idx: u16,
    frag_cnt: u16,
    timestamp: u64,
    payload: Seq<u8>,
) -> Seq<u8> {
    udp_mac_domain() + connection_id + seq![flags] + bytes::be32(msg_id) + bytes::be16(frag_idx) + bytes::be16(frag_cnt)
        + bytes::be64(timestamp) + payload
}

/// The tag of a UDP fragment.
pub open spec fn udp_tag(
    secret: Seq<u8>,
    connection_id: Seq<u8>,
    flags: u8,
    msg_id: u32,
    frag_idx: u16,
    frag_cnt: u16,
    timestamp: u64,
    payload: Seq<u8>,
) -> Seq<u8> {
    crypto::hmac_sha256(
        secret,
        udp_mac_input(connection_id, flags, msg_id, frag_idx, frag_cnt, timestamp, payload),
    )@
}

/// A timestamp is fresh when it is at most the skew ahead of `now` and at
/// most the replay window behind it (both bounds saturate at the ends of u64).
pub open spec fn timestamp_fresh(timestamp: u64, now: u64) -> bool {
    &&& timestamp <= (if now + P2P_CLOCK_SKEW_SECS > u64::MAX { u64::MAX as int } else { now
        + P2P_CLOCK_SKEW_SECS })
    &&& (if now >= timestamp { now - timestamp } else { 0 }) <= P2P_REPLAY_WINDOW_SECS
}

/// Why a fragment or acknowledgement is refused.
#[derive(Debug, PartialEq, Eq, Clone, Copy)]
pub enum P2PUdpError {
    InvalidAckMetadata,
    InvalidFragmentCount,
    InvalidFragmentIndex,
    StaleFragment,
    AuthenticationFailed,
    TooManyFragments,
}

/// The outcome of validating a fragment with the given fields.
pub open spec fn validate_fragment_spec(
    secret: Seq<u8>,
    connection_id: Seq<u8>,
    flags: u8,
    msg_id: u32,
    frag_idx: u16,
    frag_cnt: u16,
    timestamp: u64,
    payload: Seq<u8>,
    tag: Seq<u8>,
    now: u64,
) -> Result<(), P2PUdpError> {
    if flags & P2P_UDP_FLAG_ACK != 0 && (frag_idx != 0 || frag_cnt != 0 || payload.len() != 0) {
        Err(P2PUdpError::InvalidAckMetadata)
    } else if flags & P2P_UDP_FLAG_ACK == 0 && (frag_cnt == 0 || frag_cnt
        > P2P_MAX_FRAGMENTS_PER_MESSAGE) {
        Err(P2PUdpError::InvalidFragmentCount)
    } else if flags & P2P_UDP_FLAG_ACK == 0 && frag_idx >= frag_cnt {
        Err(P2PUdpError::InvalidFragmentIndex)
    } else if !timestamp_fresh(timestamp, now) {
        Err(P2PUdpError::StaleFragment)
    } else if udp_tag(secret, connection_id, flags, msg_id, frag_idx, frag_cnt, timestamp, payload)
        != tag {
        Err(P2PUdpError::AuthenticationFailed)
    } else {
        Ok(())
    }
}

/// A fragment or acknowledgement stamped outside the acceptance window
/// (older than the replay window, or further ahead than the allowed clock
/// skew) is never accepted, whatever its tag.
pub proof fn lemma_stale_fragment_refused(
    secret: Seq<u8>,
    connection_id: Seq<u8>,
    flags: u8,
    msg_id: u32,
    frag_idx: u16,
    frag_cnt: u16,
    timestamp: u64,
    payload: Seq<u8>,
    tag: Seq<u8>,
    now: u64,
)
    requires
        timestamp + P2P_REPLAY_WINDOW_SECS < now || timestamp > now + P2P_CLOCK_SKEW_SECS,
    ensures
        validate_fragment_spec(
            secret,
            connection_id,
            flags,
            msg_id,
            frag_idx,
            frag_cnt,
            timestamp,
            payload,
            tag,
            now,
        ) is Err,
{
}

/// Builds the header bytes for a datagram.
pub fn p2p_udp_make_header(
    flags: u8,
    msg_id: u32,
    frag_idx: u16,
    frag_cnt: u16,
    timestamp: u64,
    tag: &[u8; 32],
) -> (h: Vec<u8>)
    ensures
        h@ == udp_header(flags, msg_id, frag_idx, frag_cnt, timestamp, tag@),
        h@.len() == P2P_UDP_HEADER_LEN,
{
    let mut h: Vec<u8> = Vec::with_capacity(P2P_UDP_HEADER_LEN);
    h.push(0x50u8);
    h.push(0x32u8);
    h.push(0x50u8);
    h.push(0x55u8);
    h.push(P2P_UDP_VERSION);
    h.push(flags);
    push_be32(&mut h, msg_id);
    push_be16(&mut h, frag_idx);
    push_be16(&mut h, frag_cnt);
    push_be64(&mut h, timestamp);
    push_bytes(&mut h, tag);
    assert(h@ =~= udp_header(flags, msg_id, frag_idx, frag_cnt, timestamp, tag@));
    h
}

/// Reads the header of a datagram: `None` when it is too short, does not
/// start with the magic, or carries another version.
pub fn p2p_udp_parse_header(buf: &[u8]) -> (r: Option<P2PUdpHeader>)
    ensures
        match r {
            Some(h) => parse_header_spec(buf@) == Some(header_view(h)),
            None => parse_header_spec(buf@) is None,
        },
{
    if buf.len() < P2P_UDP_HEADER_LEN {
        return None;
    }
    if buf[0] != 0x50u8 || buf[1] != 0x32u8 || buf[2] != 0x50u8 || buf[3] != 0x55u8 {
        assert(buf@.subrange(0, 4) != p2p_udp_magic()) by {
            let s = buf@.subrange(0, 4);
            assert(s[0] == buf@[0] && s[1] == buf@[1] && s[2] == buf@[2] && s[3] == buf@[3]);
        }
        return None;
    }
    assert(buf@.subrange(0, 4) =~= p2p_udp_magic());
    if buf[4] != P2P_UDP_VERSION {
        return None;
    }
    let flags = buf[5];
    let msg_id = read_be32(buf, 6);
    let frag_idx = read_be16(buf, 10);
    let frag_cnt = read_be16(buf, 12);
    let timestamp = read_be64(buf, 14);
    let mut tag: Vec<u8> = Vec::with_capacity(32);
    let mut i: usize = 22;
    while i < 54
        invariant
            22 <= i <= 54,
            buf@.len() >= 54,
            tag@ == buf@.subrange(22, i as int),
        decreases 54 - i,
    {
        tag.push(buf[i]);
        i = i + 1;
        assert(buf@.subrange(22, i as int) == buf@.subrange(22, i - 1) + seq![buf@[i - 1]]);
    }
    Some(P2PUdpHeader { flags, msg_id, frag_idx, frag_cnt, timestamp, tag })
}

/// A header written by `p2p_udp_make_header` and read back by
/// `p2p_udp_parse_header` gives the same fields, whatever payload follows it.
pub proof fn lemma_header_roundtrip(
    flags: u8,
    msg_id: u32,
    frag_idx: u16,
    frag_cnt: u16,
    timestamp: u64,
    tag: Seq<u8>,
    payload: Seq<u8>,
)
    requires
        tag.len() == 32,
    ensures
        parse_header_spec(udp_header(flags, msg_id, frag_idx, frag_cnt, timestamp, tag) + payload)
            == Some((flags, msg_id, frag_idx, frag_cnt, timestamp, tag)),
{
    let b = udp_header(flags, msg_id, frag_idx, frag_cnt, timestamp, tag) + payload;
    bytes::lemma_be32_roundtrip(msg_id);
    bytes::lemma_be16_roundtrip(frag_idx);
    bytes::lemma_be16_roundtrip(frag_cnt);
    bytes::lemma_be64_roundtrip(timestamp);
    assert(b.subrange(0, 4) =~= p2p_udp_magic());
    assert(b.subrange(14, 22) =~= bytes::be64(timestamp));
    assert(b.subrange(22, 54) =~= tag);
    assert(b[6] == bytes::be32(msg_id)[0] && b[7] == bytes::be32(msg_id)[1] && b[8] == bytes::be32(msg_id)[2] && b[9]
        == bytes::be32(msg_id)[3]);
    assert(b[10] == bytes::be16(frag_idx)[0] && b[11] == bytes::be16(frag_idx)[1]);
    assert(b[12] == bytes::be16(frag_cnt)[0] && b[13] == bytes::be16(frag_cnt)[1]);
}

/// Builds the bytes that a UDP fragment tag authenticates.
pub fn p2p_udp_mac_input(
    connection_id: &[u8; 16],
    flags: u8,
    msg_id: u32,
    frag_idx: u16,
    frag_cnt: u16,
    timestamp: u64,
    payload: &[u8],
) -> (data: Vec<u8>)
    ensures
        data@ == udp_mac_input(
            connection_id@,
            flags,
            msg_id,
            frag_idx,
            frag_cnt,
            timestamp,
            payload@,
        ),
{
    let mut data: Vec<u8> = Vec::new();
    data.push(0x47u8);
    data.push(0x50u8);
    data.push(0x55u8);
    data.push(0x46u8);
    data.push(0x2du8);
    data.push(0x50u8);
    data.push(0x32u8);
    data.push(0x50u8);
    data.push(0x2du8);
    data.push(0x55u8);
    data.push(0x44u8);
    data.push(0x50u8);
    data.push(0x2du8);
    data.push(0x56u8);
    data.push(0x32u8);
    let ghost prefix = data@;
    assert(prefix =~= udp_mac_domain());
    push_bytes(&mut data, connection_id);
    data.push(flags);
    push_be32(&mut data, msg_id);
    push_be16(&mut data, frag_idx);
    push_be16(&mut data, frag_cnt);
    push_be64(&mut data, timestamp);
    push_bytes(&mut data, payload);
    assert(data@ =~= udp_mac_input(
        connection_id@,
        flags,
        msg_id,
        frag_idx,
        frag_cnt,
        timestamp,
        payload@,
    ));
    data
}

/// The tag that authenticates a UDP fragment.
pub fn p2p_udp_tag(
    secret: &[u8; 32],
    connection_id: &[u8; 16],
    flags: u8,
    msg_id: u32,
    frag_idx: u16,
    frag_cnt: u16,
    timestamp: u64,
    payload: &[u8],
) -> (t: [u8; 32])
    ensures
        t@ == udp_tag(
            secret@,
            connection_id@,
            flags,
            msg_id,
            frag_idx,
            frag_cnt,
            timestamp,
            payload@,
        ),
{
    let data = p2p_udp_mac_input(
        connection_id,
        flags,
        msg_id,
        frag_idx,
        frag_cnt,
        timestamp,
        payload,
    );
    p2p_hmac_sha256(secret, data.as_slice())
}

/// Whether `timestamp` lies inside the acceptance window around `now`.
pub fn p2p_timestamp_is_fresh(timestamp: u64, now: u64) -> (r: bool)
    ensures
        r == timestamp_fresh(timestamp, now),
{
    let upper = if now > u64::MAX - P2P_CLOCK_SKEW_SECS {
        u64::MAX
    } else {
        now + P2P_CLOCK_SKEW_SECS
    };
    let age = if now >= timestamp {
        now - timestamp
    } else {
        0
    };
    timestamp <= upper && age <= P2P_REPLAY_WINDOW_SECS
}

/// Checks a received fragment (or acknowledgement): its metadata, its
/// timestamp against `now`, and its tag.
pub fn p2p_udp_validate_fragment(
    secret: &[u8; 32],
    connection_id: &[u8; 16],
    flags: u8,
    msg_id: u32,
    frag_idx: u16,
    frag_cnt: u16,
    timestamp: u64,
    payload: &[u8],
    tag: &[u8; 32],
    now: u64,
) -> (r: Result<(), P2PUdpError>)
    ensures
        r == validate_fragment_spec(
            secret@,
            connection_id@,
            flags,
            msg_id,
            frag_idx,
            frag_cnt,
            timestamp,
            payload@,
            tag@,
            now,
        ),
{
    let is_ack = (flags & P2P_UDP_FLAG_ACK) != 0;
    if is_ack {
        if frag_idx != 0 || frag_cnt != 0 || payload.len() != 0 {
            return Err(P2PUdpError::InvalidAckMetadata);
        }
    } else {
        if frag_cnt == 0 || frag_cnt > P2P_MAX_FRAGMENTS_PER_MESSAGE {
            return Err(P2PUdpError::InvalidFragmentCount);
        }
        if frag_idx >= frag_cnt {
            return Err(P2PUdpError::InvalidFragmentIndex);
        }
    }
    if !p2p_timestamp_is_fresh(timestamp, now) {
        return Err(P2PUdpError::StaleFragment);
    }
    let expected = p2p_udp_tag(
        secret,
        connection_id,
        flags,
        msg_id,
        frag_idx,
        frag_cnt,
        timestamp,
        payload,
    );
    if !bytes_equal(expected.as_slice(), tag.as_slice()) {
        return Err(P2PUdpError::AuthenticationFailed);
    }
    Ok(())
}


/// Payload bytes that fit in one datagram after the header.
pub const P2P_UDP_MAX_FRAGMENT_PAYLOAD: usize = 1146;

/// The number of fragments a payload of `len` bytes is sent in.
pub open spec fn fragment_count_spec(len: nat) -> nat {
    let n: int = (len + P2P_UDP_MAX_FRAGMENT_PAYLOAD - 1) as int / (P2P_UDP_MAX_FRAGMENT_PAYLOAD as int);
    if n == 0 {
        1
    } else {
        n as nat
    }
}

/// The bytes of fragment `idx` of a payload.
pub open spec fn fragment_range(payload: Seq<u8>, idx: nat) -> Seq<u8> {
    let start = idx * P2P_UDP_MAX_FRAGMENT_PAYLOAD;
    let end = if (idx + 1) * P2P_UDP_MAX_FRAGMENT_PAYLOAD < payload.len() {
        (idx + 1) * P2P_UDP_MAX_FRAGMENT_PAYLOAD
    } else {
        payload.len() as int
    };
    payload.subrange(start as int, end)
}

/// The datagram that carries fragment `idx` of `cnt`.
pub open spec fn fragment_packet_spec(
    secret: Seq<u8>,
    connection_id: Seq<u8>,
    msg_id: u32,
    payload: Seq<u8>,
    idx: u16,
    cnt: u16,
    timestamp: u64,
) -> Seq<u8> {
    let part = fragment_range(payload, idx as nat);
    udp_header(
        0,
        msg_id,
        idx,
        cnt,
        timestamp,
        udp_tag(secret, connection_id, 0, msg_id, idx, cnt, timestamp, part),
    ) + part
}

/// The acknowledgement datagram for message `msg_id`.
pub open spec fn ack_packet_spec(
    secret: Seq<u8>,
    connection_id: Seq<u8>,
    msg_id: u32,
    timestamp: u64,
) -> Seq<u8> {
    udp_header(
        P2P_UDP_FLAG_ACK,
        msg_id,
        0,
        0,
        timestamp,
        udp_tag(secret, connection_id, P2P_UDP_FLAG_ACK, msg_id, 0, 0, timestamp, Seq::empty()),
    )
}

/// Whether `datagram` acknowledges message `msg_id` on this connection at `now`.
pub open spec fn valid_ack_spec(
    secret: Seq<u8>,
    connection_id: Seq<u8>,
    msg_id: u32,
    datagram: Seq<u8>,
    now: u64,
) -> bool {
    match parse_header_spec(datagram) {
        Some((flags, ack_id, idx, cnt, ts, tag)) => {
            &&& flags & P2P_UDP_FLAG_ACK != 0
            &&& ack_id == msg_id
            &&& idx == 0
            &&& cnt == 0
            &&& validate_fragment_spec(
                secret,
                connection_id,
                flags,
                ack_id,
                idx,
                cnt,
                ts,
                Seq::empty(),
                tag,
                now,
            ) is Ok
        },
        None => false,
    }
}

/// Builds the acknowledgement datagram for message `msg_id`, stamped `timestamp`.
pub fn p2p_udp_ack_packet(connection_id: [u8; 16], secret: [u8; 32], msg_id: u32, timestamp: u64) -> (r:
    Vec<u8>)
    ensures
        r@ == ack_packet_spec(secret@, connection_id@, msg_id, timestamp),
{
    let empty: Vec<u8> = Vec::new();
    let tag = p2p_udp_tag(
        &secret,
        &connection_id,
        P2P_UDP_FLAG_ACK,
        msg_id,
        0,
        0,
        timestamp,
        empty.as_slice(),
    );
    proof {
        assert(empty@ =~= Seq::<u8>::empty());
    }
    p2p_udp_make_header(P2P_UDP_FLAG_ACK, msg_id, 0, 0, timestamp, &tag)
}

/// How many fragments a payload of `len` bytes needs; more than the limit
/// is refused.
pub fn p2p_udp_fragment_count(len: usize) -> (r: Result<u16, P2PUdpError>)
    ensures
        match r {
            Ok(n) => n == fragment_count_spec(len as nat) && n <= P2P_MAX_FRAGMENTS_PER_MESSAGE,
            Err(e) => e == P2PUdpError::TooManyFragments && fragment_count_spec(len as nat)
                > P2P_MAX_FRAGMENTS_PER_MESSAGE,
        },
{
    let n = len / P2P_UDP_MAX_FRAGMENT_PAYLOAD + (if len % P2P_UDP_MAX_FRAGMENT_PAYLOAD == 0 {
        0usize
    } else {
        1usize
    });
    let n = if n == 0 {
        1
    } else {
        n
    };
    assert(n == fragment_count_spec(len as nat)) by (nonlinear_arith)
        requires
            n == (if len / 1146 + (if len % 1146 == 0 { 0int } else { 1int }) == 0 { 1int } else {
                len / 1146 + (if len % 1146 == 0 { 0int } else { 1int })
            }),
            P2P_UDP_MAX_FRAGMENT_PAYLOAD == 1146,
    ;
    if n > P2P_MAX_FRAGMENTS_PER_MESSAGE as usize {
        return Err(P2PUdpError::TooManyFragments);
    }
    Ok(n as u16)
}

/// Builds the datagram carrying fragment `frag_idx` of `frag_cnt` of `payload`.
pub fn p2p_udp_fragment_packet(
    secret: &[u8; 32],
    connection_id: &[u8; 16],
    msg_id: u32,
    payload: &[u8],
    frag_idx: u16,
    frag_cnt: u16,
    timestamp: u64,
) -> (r: Vec<u8>)
    requires
        frag_idx < frag_cnt,
        frag_cnt == fragment_count_spec(payload@.len()),
    ensures
        r@ == fragment_packet_spec(
            secret@,
            connection_id@,
            msg_id,
            payload@,
            frag_idx,
            frag_cnt,
            timestamp,
        ),
{
    let ghost len = payload@.len();
    assert((frag_idx as int) * 1146 <= len) by (nonlinear_arith)
        requires
            (frag_idx as int) < (frag_cnt as int),
            frag_cnt == (if (len + 1145) as int / 1146int == 0 { 1int } else { (len + 1145) as int / 1146int }),
    ;
    assert((frag_idx as int) * 1146 <= 65535 * 1146) by (nonlinear_arith)
        requires
            frag_idx <= 65535,
    ;
    let start = (frag_idx as usize) * P2P_UDP_MAX_FRAGMENT_PAYLOAD;
    let next = start as u64 + P2P_UDP_MAX_FRAGMENT_PAYLOAD as u64;
    let end = if next < payload.len() as u64 {
        next as usize
    } else {
        payload.len()
    };
    let part = copy_range(payload, start, end);
    let tag = p2p_udp_tag(secret, connection_id, 0, msg_id, frag_idx, frag_cnt, timestamp, part.as_slice());
    let mut pkt = p2p_udp_make_header(0, msg_id, frag_idx, frag_cnt, timestamp, &tag);
    push_bytes(&mut pkt, part.as_slice());
    assert(part@ == fragment_range(payload@, frag_idx as nat));
    pkt
}

/// Whether a received datagram is a valid acknowledgement of `msg_id`.
pub fn p2p_udp_is_valid_ack(
    secret: &[u8; 32],
    connection_id: &[u8; 16],
    msg_id: u32,
    datagram: &[u8],
    now: u64,
) -> (r: bool)
    ensures
        r == valid_ack_spec(secret@, connection_id@, msg_id, datagram@, now),
{
    match p2p_udp_parse_header(datagram) {
        Some(h) => {
            if (h.flags & P2P_UDP_FLAG_ACK) == 0 || h.msg_id != msg_id || h.frag_idx != 0
                || h.frag_cnt != 0 {
                return false;
            }
            if h.tag.len() != 32 {
                return false;
            }
            let tag: [u8; 32] = [
                h.tag[0], h.tag[1], h.tag[2], h.tag[3], h.tag[4], h.tag[5], h.tag[6], h.tag[7],
                h.tag[8], h.tag[9], h.tag[10], h.tag[11], h.tag[12], h.tag[13], h.tag[14],
                h.tag[15], h.tag[16], h.tag[17], h.tag[18], h.tag[19], h.tag[20], h.tag[21],
                h.tag[22], h.tag[23], h.tag[24], h.tag[25], h.tag[26], h.tag[27], h.tag[28],
                h.tag[29], h.tag[30], h.tag[31],
            ];
            assert(tag@ =~= h.tag@);
            let empty: Vec<u8> = Vec::new();
            assert(empty@ =~= Seq::<u8>::empty());
            p2p_udp_validate_fragment(
                secret,
                connection_id,
                h.flags,
                h.msg_id,
                h.frag_idx,
                h.frag_cnt,
                h.timestamp,
                empty.as_slice(),
                &tag,
                now,
            ).is_ok()
        },
        None => false,
    }
}

/// An acknowledgement built by `p2p_udp_ack_packet` is accepted by
/// `p2p_udp_is_valid_ack` for the same connection, secret and message while
/// its timestamp is fresh.
pub proof fn lemma_ack_accepted(
    secret: Seq<u8>,
    connection_id: Seq<u8>,
    msg_id: u32,
    timestamp: u64,
    now: u64,
)
    requires
        timestamp_fresh(timestamp, now),
    ensures
        valid_ack_spec(
            secret,
            connection_id,
            msg_id,
            ack_packet_spec(secret, connection_id, msg_id, timestamp),
            now,
        ),
{
    let tag = udp_tag(secret, connection_id, P2P_UDP_FLAG_ACK, msg_id, 0, 0, timestamp, Seq::empty());
    lemma_header_roundtrip(P2P_UDP_FLAG_ACK, msg_id, 0, 0, timestamp, tag, Seq::empty());
    assert(udp_header(P2P_UDP_FLAG_ACK, msg_id, 0, 0, timestamp, tag) + Seq::<u8>::empty() =~= udp_header(P2P_UDP_FLAG_ACK, msg_id, 0, 0, timestamp, tag));
    assert(P2P_UDP_FLAG_ACK & P2P_UDP_FLAG_ACK != 0) by (bit_vector);
}

/// A fragment built by `p2p_udp_fragment_packet` passes
/// `p2p_udp_validate_fragment` on the receiving side of the same connection
/// while its timestamp is fresh.
pub proof fn lemma_fragment_accepted(
    secret: Seq<u8>,
    connection_id: Seq<u8>,
    msg_id: u32,
    payload: Seq<u8>,
    idx: u16,
    cnt: u16,
    timestamp: u64,
    now: u64,
)
    requires
        idx < cnt <= P2P_MAX_FRAGMENTS_PER_MESSAGE,
        timestamp_fresh(timestamp, now),
    ensures
        ({
            let part = fragment_range(payload, idx as nat);
            let tag = udp_tag(secret, connection_id, 0, msg_id, idx, cnt, timestamp, part);
            validate_fragment_spec(
                secret,
                connection_id,
                0,
                msg_id,
                idx,
                cnt,
                timestamp,
                part,
                tag,
                now,
            ) == Ok::<(), P2PUdpError>(())
        }),
{
    assert(0u8 & P2P_UDP_FLAG_ACK == 0) by (bit_vector);
}

/// Fragments `0..frag_cnt` of a map, concatenated in index order.
pub open spec fn concat_fragments(parts: Map<u16, Vec<u8>>, n: nat) -> Seq<u8>
    decreases n,
{
    if n == 0 {
        Seq::empty()
    } else {
        concat_fragments(parts, (n - 1) as nat) + parts[(n - 1) as u16]@
    }
}

/// Whether fragments `0..n` are all present.
pub open spec fn all_fragments_present(parts: Map<u16, Vec<u8>>, n: u16) -> bool {
    forall|i: u16| i < n ==> #[trigger] parts.contains_key(i)
}

/// Takes fragments `0..frag_cnt` out of `parts` and joins them, if all are
/// there and the count is within bounds; otherwise leaves `parts` alone.
pub fn p2p_udp_try_reassemble(parts: &mut HashMap<u16, Vec<u8>>, frag_cnt: u16) -> (r: Option<
    Vec<u8>,
>)
    ensures
        frag_cnt == 0 || frag_cnt > P2P_MAX_FRAGMENTS_PER_MESSAGE || !all_fragments_present(
            old(parts)@,
            frag_cnt,
        ) ==> r is None && final(parts)@ == old(parts)@,
        0 < frag_cnt <= P2P_MAX_FRAGMENTS_PER_MESSAGE && all_fragments_present(old(parts)@, frag_cnt)
            ==> r is Some && r->0@ == concat_fragments(old(parts)@, frag_cnt as nat)
            && final(parts)@ == old(parts)@.remove_keys(Set::new(|k: u16| k < frag_cnt)),
{
    if frag_cnt == 0 || frag_cnt > P2P_MAX_FRAGMENTS_PER_MESSAGE {
        return None;
    }
    let mut i: u16 = 0;
    while i < frag_cnt
        invariant
            0 <= i <= frag_cnt,
            forall|k: u16| k < i ==> #[trigger] parts@.contains_key(k),
        decreases frag_cnt - i,
    {
        if !parts.contains_key(&i) {
            return None;
        }
        i = i + 1;
    }
    let ghost orig = parts@;
    let mut out: Vec<u8> = Vec::new();
    let mut i: u16 = 0;
    while i < frag_cnt
        invariant
            0 <= i <= frag_cnt,
            all_fragments_present(orig, frag_cnt),
            out@ == concat_fragments(orig, i as nat),
            parts@ == orig.remove_keys(Set::new(|k: u16| k < i)),
        decreases frag_cnt - i,
    {
        let ghost before = parts@;
        assert(before.contains_key(i));
        match parts.remove(&i) {
            Some(p) => {
                push_bytes(&mut out, p.as_slice());
            },
            None => {},
        }
        i = i + 1;
        assert(parts@ =~= orig.remove_keys(Set::new(|k: u16| k < i)));
    }
    Some(out)
}

} // verus!
