use crate::bytes;
use crate::bytes::{bytes_equal, push_be64, push_bytes};
use crate::crypto;
use crate::crypto::p2p_hmac_sha256;
use crate::p2p_udp;
use crate::p2p_udp::p2p_timestamp_is_fresh;
use crate::replay;
use crate::replay::P2PReplayWindow;
use vstd::prelude::*;

verus! {

/// Domain-separation prefix of the data-plane MAC input: "GPUF-P2P-TCP-V1".
pub open spec fn tcp_mac_domain() -> Seq<u8> {
    seq![
        0x47u8, 0x50u8, 0x55u8, 0x46u8, 0x2du8, 0x50u8, 0x32u8, 0x50u8, 0x2du8, 0x54u8, 0x43u8,
        0x50u8, 0x2du8, 0x56u8, 0x31u8,
    ]
}

/// The bytes that an envelope's tag authenticates.
pub open spec fn envelope_mac_input(
    connection_id: Seq<u8>,
    seq: u64,
    timestamp: u64,
    payload: Seq<u8>,
) -> Seq<u8> {
    tcp_mac_domain() + connection_id + bytes::be64(seq) + bytes::be64(timestamp) + payload
}

/// The tag of an envelope.
pub open spec fn envelope_tag(
    secret: Seq<u8>,
    connection_id: Seq<u8>,
    seq: u64,
    timestamp: u64,
    payload: Seq<u8>,
) -> Seq<u8> {
    crypto::hmac_sha256(secret, envelope_mac_input(connection_id, seq, timestamp, payload))@
}

/// A signed data-plane message: an encoded command bound to a connection,
/// a sequence number and a timestamp.
#[derive(Clone, Debug)]
pub struct DataPlaneEnvelope {
    pub connection_id: [u8; 16],
    pub seq: u64,
    pub timestamp: u64,
    pub payload: Vec<u8>,
    pub tag: [u8; 32],
}

/// Why an envelope is refused.
#[derive(Debug, PartialEq, Eq, Clone, Copy)]
pub enum EnvelopeError {
    PayloadTooLarge,
    ConnectionMismatch,
    StaleEnvelope,
    AuthenticationFailed,
    Replayed,
}

/// What decoding an envelope leaves in the replay window and returns.
pub open spec fn decode_spec(
    env_connection_id: Seq<u8>,
    env_seq: u64,
    env_timestamp: u64,
    env_payload: Seq<u8>,
    env_tag: Seq<u8>,
    connection_id: Seq<u8>,
    secret: Seq<u8>,
    window: Seq<(u64, u64)>,
    now: u64,
    max_message_size: nat,
) -> (Seq<(u64, u64)>, Result<Seq<u8>, EnvelopeError>) {
    if env_connection_id != connection_id {
        (window, Err(EnvelopeError::ConnectionMismatch))
    } else if env_payload.len() > max_message_size {
        (window, Err(EnvelopeError::PayloadTooLarge))
    } else if !p2p_udp::timestamp_fresh(env_timestamp, now) {
        (window, Err(EnvelopeError::StaleEnvelope))
    } else if envelope_tag(secret, connection_id, env_seq, env_timestamp, env_payload) != env_tag {
        (window, Err(EnvelopeError::AuthenticationFailed))
    } else {
        let (w, ok) = replay::accept_seq_spec(window, env_seq, env_timestamp, now);
        if !ok {
            (w, Err(EnvelopeError::Replayed))
        } else {
            (w, Ok(env_payload))
        }
    }
}

fn envelope_mac_input_exec(connection_id: &[u8; 16], seq: u64, timestamp: u64, payload: &[u8]) -> (r:
    Vec<u8>)
    ensures
        r@ == envelope_mac_input(connection_id@, seq, timestamp, payload@),
{
    let mut data: Vec<u8> = Vec::new();
    data.push(0x47u8);
    data.push(0x50u8);
    data.push(0x55u8);
    data.push(0x46u8);
    data.push(0x2du8);
    data.push(0x50u8);
    data.push(0x32u8);
    data.push(0x50u8);
    data.push(0x2du8);
    data.push(0x54u8);
    data.push(0x43u8);
    data.push(0x50u8);
    data.push(0x2du8);
    data.push(0x56u8);
    data.push(0x31u8);
    assert(data@ =~= tcp_mac_domain());
    push_bytes(&mut data, connection_id);
    push_be64(&mut data, seq);
    push_be64(&mut data, timestamp);
    push_bytes(&mut data, payload);
    assert(data@ =~= envelope_mac_input(connection_id@, seq, timestamp, payload@));
    data
}

/// Signs an encoded command for the data plane of connection
/// `connection_id`; refuses a payload larger than `max_message_size`.
pub fn p2p_encode_data_plane_envelope(
    payload: Vec<u8>,
    connection_id: [u8; 16],
    secret: [u8; 32],
    seq: u64,
    timestamp: u64,
    max_message_size: usize,
) -> (r: Result<DataPlaneEnvelope, EnvelopeError>)
    ensures
        payload@.len() > max_message_size <==> r == Err::<DataPlaneEnvelope, EnvelopeError>(
            EnvelopeError::PayloadTooLarge,
        ),
        payload@.len() <= max_message_size ==> r is Ok,
        r matches Ok(env) ==> {
            &&& env.connection_id@ == connection_id@
            &&& env.seq == seq
            &&& env.timestamp == timestamp
            &&& env.payload@ == payload@
            &&& env.tag@ == envelope_tag(secret@, connection_id@, seq, timestamp, payload@)
        },
{
    if payload.len() > max_message_size {
        return Err(EnvelopeError::PayloadTooLarge);
    }
    let mac_input = envelope_mac_input_exec(&connection_id, seq, timestamp, payload.as_slice());
    let tag = p2p_hmac_sha256(&secret, mac_input.as_slice());
    Ok(DataPlaneEnvelope { connection_id, seq, timestamp, payload, tag })
}

/// Checks an envelope received on connection `connection_id` at `now`:
/// connection, size, freshness, tag, and that its sequence number was not
/// seen before. Returns the encoded command it carries.
pub fn p2p_decode_data_plane_envelope(
    envelope: DataPlaneEnvelope,
    connection_id: [u8; 16],
    secret: [u8; 32],
    replay: &mut P2PReplayWindow,
    now: u64,
    max_message_size: usize,
) -> (r: Result<Vec<u8>, EnvelopeError>)
    requires
        old(replay).wf(),
    ensures
        final(replay).wf(),
        ({
            let (w, res) = decode_spec(
                envelope.connection_id@,
                envelope.seq,
                envelope.timestamp,
                envelope.payload@,
                envelope.tag@,
                connection_id@,
                secret@,
                old(replay)@,
                now,
                max_message_size as nat,
            );
            &&& final(replay)@ == w
            &&& match r {
                Ok(p) => res == Ok::<Seq<u8>, EnvelopeError>(p@),
                Err(e) => res == Err::<Seq<u8>, EnvelopeError>(e),
            }
        }),
{
    let DataPlaneEnvelope { connection_id: req_conn_id, seq, timestamp, payload, tag } = envelope;
    if !bytes_equal(req_conn_id.as_slice(), connection_id.as_slice()) {
        return Err(EnvelopeError::ConnectionMismatch);
    }
    if payload.len() > max_message_size {
        return Err(EnvelopeError::PayloadTooLarge);
    }
    if !p2p_timestamp_is_fresh(timestamp, now) {
        return Err(EnvelopeError::StaleEnvelope);
    }
    let mac_input = envelope_mac_input_exec(&connection_id, seq, timestamp, payload.as_slice());
    let expected = p2p_hmac_sha256(&secret, mac_input.as_slice());
    if !bytes_equal(expected.as_slice(), tag.as_slice()) {
        return Err(EnvelopeError::AuthenticationFailed);
    }
    if !replay.accept_tcp_seq(seq, timestamp, now) {
        return Err(EnvelopeError::Replayed);
    }
    Ok(payload)
}

/// An envelope signed for a connection is accepted on that connection, at
/// a time when its timestamp is fresh and its sequence number not
/// remembered, and gives back the payload it was made from.
pub proof fn lemma_envelope_roundtrip(
    payload: Seq<u8>,
    connection_id: Seq<u8>,
    secret: Seq<u8>,
    seq: u64,
    timestamp: u64,
    window: Seq<(u64, u64)>,
    now: u64,
    max_message_size: nat,
)
    requires
        payload.len() <= max_message_size,
        p2p_udp::timestamp_fresh(timestamp, now),
        !replay::remembers(replay::prune_replay(window, now), seq),
    ensures
        decode_spec(
            connection_id,
            seq,
            timestamp,
            payload,
            envelope_tag(secret, connection_id, seq, timestamp, payload),
            connection_id,
            secret,
            window,
            now,
            max_message_size,
        ).1 == Ok::<Seq<u8>, EnvelopeError>(payload),
{
}

/// An envelope is refused on any connection other than the one it was
/// signed for.
pub proof fn lemma_envelope_bound_to_connection(
    env_connection_id: Seq<u8>,
    seq: u64,
    timestamp: u64,
    payload: Seq<u8>,
    tag: Seq<u8>,
    connection_id: Seq<u8>,
    secret: Seq<u8>,
    window: Seq<(u64, u64)>,
    now: u64,
    max_message_size: nat,
)
    requires
        env_connection_id != connection_id,
    ensures
        decode_spec(
            env_connection_id,
            seq,
            timestamp,
            payload,
            tag,
            connection_id,
            secret,
            window,
            now,
            max_message_size,
        ) == (window, Err::<Seq<u8>, EnvelopeError>(EnvelopeError::ConnectionMismatch)),
{
}

/// An envelope that was accepted is refused when it is offered again at
/// the same time: the window that accepting it left remembers it.
pub proof fn lemma_envelope_replay_refused(
    env_connection_id: Seq<u8>,
    seq: u64,
    timestamp: u64,
    payload: Seq<u8>,
    tag: Seq<u8>,
    connection_id: Seq<u8>,
    secret: Seq<u8>,
    window: Seq<(u64, u64)>,
    now: u64,
    max_message_size: nat,
)
    requires
        decode_spec(
            env_connection_id,
            seq,
            timestamp,
            payload,
            tag,
            connection_id,
            secret,
            window,
            now,
            max_message_size,
        ).1 is Ok,
    ensures
        decode_spec(
            env_connection_id,
            seq,
            timestamp,
            payload,
            tag,
            connection_id,
            secret,
            decode_spec(
                env_connection_id,
                seq,
                timestamp,
                payload,
                tag,
                connection_id,
                secret,
                window,
                now,
                max_message_size,
            ).0,
            now,
            max_message_size,
        ).1 == Err::<Seq<u8>, EnvelopeError>(EnvelopeError::Replayed),
{
    replay::lemma_replay_refused(window, seq, timestamp, timestamp, now);
}

} // verus!
