use crate::bytes;
use crate::bytes::{copy_range, push_be16, push_be32, push_be64, push_bytes, read_be16, read_be32, read_be64};
use crate::reassembly::{IpKey, PeerAddr};
use crate::text_wrappers::string_from_utf8;
use vstd::utf8::{decode_utf8, valid_utf8};
use crate::crypto;
use crate::crypto::{crc32_compute, hmac_sha1_compute, md5_compute};
use vstd::prelude::*;
use vstd::string::StringSliceAdditionalSpecFns;

verus! {

/// The STUN magic cookie.
pub const STUN_MAGIC_COOKIE: u32 = 0x2112A442;

/// Length of the STUN header: type(2) + length(2) + cookie(4) + transaction id(12).
pub const STUN_HEADER_LEN: usize = 20;

/// MESSAGE-INTEGRITY attribute type.
pub const STUN_ATTR_MESSAGE_INTEGRITY: u16 = 0x0008;

/// FINGERPRINT attribute type.
pub const STUN_ATTR_FINGERPRINT: u16 = 0x8028;

/// Value XORed into the CRC-32 of a message to form its fingerprint ("STUN").
pub const STUN_FINGERPRINT_XOR: u32 = 0x5354554e;

/// Zero padding that brings a value of `len` bytes to a multiple of four.
pub open spec fn pad_len(len: nat) -> nat {
    ((4 - (len % 4) as int) % 4) as nat
}

/// `n` zero bytes.
pub open spec fn zeros(n: nat) -> Seq<u8> {
    Seq::new(n, |i: int| 0u8)
}

/// One attribute as it appears on the wire: type, length (as 16 bits),
/// value, padding.
pub open spec fn attr_bytes(t: u16, v: Seq<u8>) -> Seq<u8> {
    bytes::be16(t) + bytes::be16(v.len() as u16) + v + zeros(pad_len(v.len()))
}

/// A list of attributes as it appears on the wire.
pub open spec fn attrs_bytes(attrs: Seq<(u16, Seq<u8>)>) -> Seq<u8>
    decreases attrs.len(),
{
    if attrs.len() == 0 {
        Seq::empty()
    } else {
        attrs_bytes(attrs.drop_last()) + attr_bytes(attrs.last().0, attrs.last().1)
    }
}

/// The view of an attribute list.
pub open spec fn attrs_view(attrs: Seq<(u16, Vec<u8>)>) -> Seq<(u16, Seq<u8>)> {
    attrs.map_values(|a: (u16, Vec<u8>)| (a.0, a.1@))
}

/// A message with its length field (bytes 2 and 3) set to `len`.
pub open spec fn with_length(m: Seq<u8>, len: u16) -> Seq<u8> {
    m.update(2, bytes::be16(len)[0]).update(3, bytes::be16(len)[1])
}

/// The STUN header with a zero length field.
pub open spec fn stun_header(msg_type: u16, txid: Seq<u8>) -> Seq<u8> {
    bytes::be16(msg_type) + bytes::be16(0) + bytes::be32(STUN_MAGIC_COOKIE) + txid
}

/// The long-term credential key source "username:realm:password".
pub open spec fn credential_source(username: Seq<u8>, realm: Seq<u8>, password: Seq<u8>) -> Seq<
    u8,
> {
    username + seq![0x3au8] + realm + seq![0x3au8] + password
}

/// The message with MESSAGE-INTEGRITY appended (or just its length set when
/// there are no credentials).
pub open spec fn with_integrity(
    base: Seq<u8>,
    creds: Option<(Seq<u8>, Seq<u8>, Seq<u8>)>,
    fingerprint: bool,
) -> Seq<u8> {
    match creds {
        Some((u, r, p)) => {
            let fp_total: int = if fingerprint { 8 } else { 0 };
            let m1 = with_length(base, (base.len() - 20 + 24 + fp_total) as u16);
            let mi_header = bytes::be16(STUN_ATTR_MESSAGE_INTEGRITY) + bytes::be16(20);
            let key = crypto::md5_digest(credential_source(u, r, p));
            m1 + mi_header + crypto::hmac_sha1(key@, m1 + mi_header + zeros(20))@
        },
        None => with_length(base, (base.len() - 20) as u16),
    }
}

/// The message with FINGERPRINT appended, when asked for.
pub open spec fn with_fingerprint(m: Seq<u8>, fingerprint: bool) -> Seq<u8> {
    if fingerprint {
        let m2 = with_length(m, (m.len() - 20 + 8) as u16);
        m2 + bytes::be16(STUN_ATTR_FINGERPRINT) + bytes::be16(4) + bytes::be32(
            crypto::crc32_checksum(m2) ^ STUN_FINGERPRINT_XOR,
        )
    } else {
        m
    }
}

/// A complete STUN message.
pub open spec fn stun_message(
    msg_type: u16,
    txid: Seq<u8>,
    attrs: Seq<(u16, Seq<u8>)>,
    creds: Option<(Seq<u8>, Seq<u8>, Seq<u8>)>,
    fingerprint: bool,
) -> Seq<u8> {
    with_fingerprint(
        with_integrity(stun_header(msg_type, txid) + attrs_bytes(attrs), creds, fingerprint),
        fingerprint,
    )
}

/// The bytes of a string slice.
pub open spec fn str_bytes(s: &str) -> Seq<u8> {
    s.spec_bytes()
}

/// The credentials' bytes, if any.
pub open spec fn creds_view(mi: Option<(&str, &str, &str)>) -> Option<(Seq<u8>, Seq<u8>, Seq<u8>)> {
    match mi {
        Some((u, r, p)) => Some((u.spec_bytes(), r.spec_bytes(), p.spec_bytes())),
        None => None,
    }
}

/// Appends one attribute (type, length, value, zero padding).
pub fn stun_write_attr(buf: &mut Vec<u8>, attr_type: u16, value: &[u8])
    ensures
        final(buf)@ == old(buf)@ + attr_bytes(attr_type, value@),
{
    push_be16(buf, attr_type);
    push_be16(buf, value.len() as u16);
    push_bytes(buf, value);
    let pad = (4 - (value.len() % 4)) % 4;
    let ghost before = buf@;
    let mut k: usize = 0;
    while k < pad
        invariant
            k <= pad,
            pad == pad_len(value@.len()),
            buf@ == before + zeros(k as nat),
        decreases pad - k,
    {
        buf.push(0u8);
        k = k + 1;
        assert(buf@ =~= before + zeros(k as nat));
    }
    assert(final(buf)@ =~= old(buf)@ + attr_bytes(attr_type, value@)) by {
        assert(buf@ =~= old(buf)@ + attr_bytes(attr_type, value@));
    }
}

fn set_length(msg: &mut Vec<u8>, len: u16)
    requires
        old(msg)@.len() >= 4,
    ensures
        final(msg)@ == with_length(old(msg)@, len),
{
    msg.set(2, (len >> 8u16) as u8);
    msg.set(3, (len & 0xffu16) as u8);
}

/// Builds a STUN message: header, attributes, then MESSAGE-INTEGRITY under
/// the long-term credentials `mi` if given, then FINGERPRINT if asked for.
/// The length field counts what follows the header, to 16 bits.
pub fn stun_build_message(
    msg_type: u16,
    txid: [u8; 12],
    attrs: &[(u16, Vec<u8>)],
    mi: Option<(&str, &str, &str)>,
    fingerprint: bool,
) -> (r: Vec<u8>)
    requires
        attrs_bytes(attrs_view(attrs@)).len() + 64 <= usize::MAX,
    ensures
        r@ == stun_message(msg_type, txid@, attrs_view(attrs@), creds_view(mi), fingerprint),
{
    let mut body: Vec<u8> = Vec::new();
    let mut i: usize = 0;
    while i < attrs.len()
        invariant
            0 <= i <= attrs@.len(),
            body@ == attrs_bytes(attrs_view(attrs@).take(i as int)),
        decreases attrs@.len() - i,
    {
        stun_write_attr(&mut body, attrs[i].0, attrs[i].1.as_slice());
        i = i + 1;
        assert(attrs_view(attrs@).take(i as int).drop_last() =~= attrs_view(attrs@).take(
            i - 1,
        ));
    }
    assert(attrs_view(attrs@).take(i as int) =~= attrs_view(attrs@));
    let mut msg: Vec<u8> = Vec::new();
    push_be16(&mut msg, msg_type);
    push_be16(&mut msg, 0);
    push_be32(&mut msg, STUN_MAGIC_COOKIE);
    push_bytes(&mut msg, &txid);
    push_bytes(&mut msg, body.as_slice());
    let ghost base = msg@;
    assert(base =~= stun_header(msg_type, txid@) + attrs_bytes(attrs_view(attrs@)));
    assert(msg@.len() == 20 + attrs_bytes(attrs_view(attrs@)).len());
    match mi {
        Some((username, realm, password)) => {
            let mut key_src: Vec<u8> = Vec::new();
            push_bytes(&mut key_src, username.as_bytes());
            key_src.push(0x3au8);
            push_bytes(&mut key_src, realm.as_bytes());
            key_src.push(0x3au8);
            push_bytes(&mut key_src, password.as_bytes());
            assert(key_src@ =~= credential_source(
                username.spec_bytes(),
                realm.spec_bytes(),
                password.spec_bytes(),
            ));
            let key = md5_compute(key_src.as_slice());
            let fp_total: usize = if fingerprint {
                8
            } else {
                0
            };
            let new_len = (msg.len() - 20 + 24 + fp_total) as u16;
            set_length(&mut msg, new_len);
            let ghost m1 = msg@;
            let mut tmp: Vec<u8> = Vec::new();
            push_bytes(&mut tmp, msg.as_slice());
            push_be16(&mut tmp, STUN_ATTR_MESSAGE_INTEGRITY);
            push_be16(&mut tmp, 20);
            let mut z: usize = 0;
            let ghost before = tmp@;
            while z < 20
                invariant
                    z <= 20,
                    tmp@ == before + zeros(z as nat),
                decreases 20 - z,
            {
                tmp.push(0u8);
                z = z + 1;
                assert(tmp@ =~= before + zeros(z as nat));
            }
            let out = hmac_sha1_compute(&key, tmp.as_slice());
            push_be16(&mut msg, STUN_ATTR_MESSAGE_INTEGRITY);
            push_be16(&mut msg, 20);
            push_bytes(&mut msg, &out);
            assert(tmp@ =~= m1 + (bytes::be16(STUN_ATTR_MESSAGE_INTEGRITY) + bytes::be16(20))
                + zeros(20));
            assert(msg@ =~= m1 + (bytes::be16(STUN_ATTR_MESSAGE_INTEGRITY) + bytes::be16(20))
                + out@);
        },
        None => {
            let new_len = (msg.len() - 20) as u16;
            set_length(&mut msg, new_len);
        },
    }
    let ghost after_mi = msg@;
    assert(after_mi == with_integrity(base, creds_view(mi), fingerprint));
    if fingerprint {
        let new_len = (msg.len() - 20 + 8) as u16;
        set_length(&mut msg, new_len);
        let crc = crc32_compute(msg.as_slice());
        let fp = crc ^ STUN_FINGERPRINT_XOR;
        push_be16(&mut msg, STUN_ATTR_FINGERPRINT);
        push_be16(&mut msg, 4);
        push_be32(&mut msg, fp);
    }
    msg
}


/// Why a STUN message cannot be read.
#[derive(Debug, PartialEq, Eq, Structural, Clone, Copy)]
pub enum StunError {
    TooShort,
    LengthMismatch,
}

/// The attributes found from `pos` to `end`: each is read while its header
/// and value fit before `end`; padding is skipped.
pub open spec fn parse_attrs(msg: Seq<u8>, pos: nat, end: nat) -> Seq<(u16, Seq<u8>)>
    decreases (if pos <= end { end - pos } else { 0 }),
{
    if pos + 4 > end {
        Seq::empty()
    } else {
        let p = pos as int;
        let t = bytes::be16_at(msg, p);
        let l = bytes::be16_at(msg, p + 2) as nat;
        if pos + 4 + l > end {
            Seq::empty()
        } else {
            seq![(t, msg.subrange(p + 4, p + 4 + l))] + parse_attrs(
                msg,
                pos + 4 + l + pad_len(l),
                end,
            )
        }
    }
}

/// The attribute list of a message.
pub open spec fn attr_iter_spec(msg: Seq<u8>) -> Result<Seq<(u16, Seq<u8>)>, StunError> {
    if msg.len() < 20 {
        Err(StunError::TooShort)
    } else if msg.len() < 20 + bytes::be16_at(msg, 2) {
        Err(StunError::LengthMismatch)
    } else {
        Ok(parse_attrs(msg, 20, (20 + bytes::be16_at(msg, 2)) as nat))
    }
}

/// Reads the attributes of a STUN message.
pub fn stun_attr_iter(msg: &[u8]) -> (r: Result<Vec<(u16, Vec<u8>)>, StunError>)
    ensures
        match r {
            Ok(v) => attr_iter_spec(msg@) == Ok::<Seq<(u16, Seq<u8>)>, StunError>(attrs_view(v@)),
            Err(e) => attr_iter_spec(msg@) == Err::<Seq<(u16, Seq<u8>)>, StunError>(e),
        },
{
    if msg.len() < 20 {
        return Err(StunError::TooShort);
    }
    let len = read_be16(msg, 2) as usize;
    if msg.len() < 20 + len {
        return Err(StunError::LengthMismatch);
    }
    let mut out: Vec<(u16, Vec<u8>)> = Vec::new();
    let mut pos: usize = 20;
    let end = 20 + len;
    let ghost full = parse_attrs(msg@, 20, end as nat);
    while pos + 4 <= end
        invariant
            end <= msg@.len(),
            end == 20 + len,
            len <= 65535,
            pos <= end + 3,
            attrs_view(out@) + parse_attrs(msg@, pos as nat, end as nat) == full,
        ensures
            attrs_view(out@) + parse_attrs(msg@, pos as nat, end as nat) == full,
            pos + 4 > end || parse_attrs(msg@, pos as nat, end as nat) == Seq::<(u16, Seq<u8>)>::empty(),
        decreases end + 3 - pos,
    {
        let t = read_be16(msg, pos);
        let l = read_be16(msg, pos + 2) as usize;
        if pos + 4 + l > end {
            assert(parse_attrs(msg@, pos as nat, end as nat) =~= Seq::<(u16, Seq<u8>)>::empty());
            break;
        }
        let value = copy_range(msg, pos + 4, pos + 4 + l);
        let ghost before = attrs_view(out@);
        out.push((t, value));
        assert(attrs_view(out@) =~= before + seq![(t, value@)]);
        pos = pos + 4 + l;
        let pad = (4 - (l % 4)) % 4;
        pos = pos + pad;
    }
    proof {
        if pos + 4 > end {
            assert(parse_attrs(msg@, pos as nat, end as nat) =~= Seq::<(u16, Seq<u8>)>::empty());
        }
    }
    assert(attrs_view(out@) =~= full);
    Ok(out)
}

/// The value of the first attribute of type `t`, if any.
pub open spec fn first_attr(attrs: Seq<(u16, Seq<u8>)>, t: u16) -> Option<Seq<u8>>
    decreases attrs.len(),
{
    if attrs.len() == 0 {
        None
    } else if attrs[0].0 == t {
        Some(attrs[0].1)
    } else {
        first_attr(attrs.drop_first(), t)
    }
}

pub(crate) fn find_attr(attrs: &[(u16, Vec<u8>)], t: u16) -> (r: Option<usize>)
    ensures
        match r {
            Some(i) => i < attrs@.len() && first_attr(attrs_view(attrs@), t) == Some(
                attrs@[i as int].1@,
            ),
            None => first_attr(attrs_view(attrs@), t) is None,
        },
{
    let ghost s = attrs_view(attrs@);
    let mut i: usize = 0;
    assert(s.skip(0) =~= s);
    while i < attrs.len()
        invariant
            s == attrs_view(attrs@),
            0 <= i <= attrs@.len(),
            first_attr(s.skip(i as int), t) == first_attr(s, t),
        decreases attrs@.len() - i,
    {
        assert(s.skip(i as int).drop_first() =~= s.skip(i + 1));
        if attrs[i].0 == t {
            return Some(i);
        }
        i = i + 1;
    }
    None
}

/// The text of the first attribute of type `t`, when it is valid UTF-8.
pub fn stun_get_text_attr(attrs: &[(u16, Vec<u8>)], t: u16) -> (r: Option<String>)
    ensures
        match first_attr(attrs_view(attrs@), t) {
            Some(v) => match r {
                Some(s) => valid_utf8(v) && s@ == decode_utf8(v),
                None => !valid_utf8(v),
            },
            None => r is None,
        },
{
    match find_attr(attrs, t) {
        Some(i) => {
            let v = copy_range(attrs[i].1.as_slice(), 0, attrs[i].1.len());
            assert(v@ =~= attrs@[i as int].1@);
            string_from_utf8(v)
        },
        None => None,
    }
}

/// The 16-byte mask of XOR-encoded IPv6 addresses: cookie then transaction id.
pub open spec fn xor_mask(txid: Seq<u8>) -> Seq<u8> {
    bytes::be32(STUN_MAGIC_COOKIE) + txid
}

/// Bytewise XOR of two sequences of the same length.
pub open spec fn xor_bytes(a: Seq<u8>, b: Seq<u8>) -> Seq<u8> {
    Seq::new(a.len(), |i: int| a[i] ^ b[i])
}

/// A valid key: an IPv4 key has zero high half and a 32-bit low half.
pub open spec fn ip_key_valid(ip: IpKey) -> bool {
    !ip.v6 ==> ip.hi == 0 && ip.lo <= u32::MAX
}

/// The address in an XOR-MAPPED-ADDRESS (or XOR-PEER-ADDRESS) value.
pub open spec fn decode_xor_addr(v: Seq<u8>, txid: Seq<u8>) -> Option<PeerAddr> {
    if v.len() < 8 {
        None
    } else {
        let port = bytes::be16_at(v, 2) ^ 0x2112u16;
        if v[1] == 1 {
            Some(
                PeerAddr {
                    ip: IpKey {
                        v6: false,
                        hi: 0,
                        lo: (bytes::be32_at(v, 4) ^ STUN_MAGIC_COOKIE) as u64,
                    },
                    port,
                },
            )
        } else if v[1] == 2 && v.len() >= 20 {
            let x = xor_bytes(v.subrange(4, 20), xor_mask(txid));
            Some(
                PeerAddr {
                    ip: IpKey {
                        v6: true,
                        hi: bytes::from_be64(x.subrange(0, 8)),
                        lo: bytes::from_be64(x.subrange(8, 16)),
                    },
                    port,
                },
            )
        } else {
            None
        }
    }
}

/// The XOR-PEER-ADDRESS value for `peer`.
pub open spec fn encode_xor_addr(peer: PeerAddr, txid: Seq<u8>) -> Seq<u8> {
    seq![0u8, if peer.ip.v6 { 2u8 } else { 1u8 }] + bytes::be16(peer.port ^ 0x2112u16) + if peer.ip.v6 {
        xor_bytes(bytes::be64(peer.ip.hi) + bytes::be64(peer.ip.lo), xor_mask(txid))
    } else {
        bytes::be32((peer.ip.lo as u32) ^ STUN_MAGIC_COOKIE)
    }
}

fn xor_mask_exec(txid: &[u8; 12]) -> (m: Vec<u8>)
    ensures
        m@ == xor_mask(txid@),
        m@.len() == 16,
{
    let mut m: Vec<u8> = Vec::new();
    push_be32(&mut m, STUN_MAGIC_COOKIE);
    push_bytes(&mut m, txid);
    m
}

fn xor_exec(a: &[u8], b: &[u8]) -> (r: Vec<u8>)
    requires
        a@.len() == b@.len(),
    ensures
        r@ == xor_bytes(a@, b@),
{
    let mut r: Vec<u8> = Vec::new();
    let mut i: usize = 0;
    while i < a.len()
        invariant
            a@.len() == b@.len(),
            0 <= i <= a@.len(),
            r@ =~= xor_bytes(a@.subrange(0, i as int), b@.subrange(0, i as int)),
        decreases a@.len() - i,
    {
        r.push(a[i] ^ b[i]);
        i = i + 1;
    }
    assert(a@.subrange(0, a@.len() as int) =~= a@);
    assert(b@.subrange(0, b@.len() as int) =~= b@);
    r
}

/// Reads an XOR-encoded address value (family 1 is IPv4, 2 is IPv6).
pub fn stun_parse_xor_addr(v: &[u8], txid: &[u8; 12]) -> (r: Option<PeerAddr>)
    ensures
        r == decode_xor_addr(v@, txid@),
{
    if v.len() < 8 {
        return None;
    }
    let family = v[1];
    let port = read_be16(v, 2) ^ 0x2112u16;
    if family == 1 {
        let ip = read_be32(v, 4) ^ STUN_MAGIC_COOKIE;
        return Some(PeerAddr { ip: IpKey { v6: false, hi: 0, lo: ip as u64 }, port });
    }
    if family == 2 && v.len() >= 20 {
        let raw = copy_range(v, 4, 20);
        let mask = xor_mask_exec(txid);
        let x = xor_exec(raw.as_slice(), mask.as_slice());
        let hi = read_be64(x.as_slice(), 0);
        let lo = read_be64(x.as_slice(), 8);
        return Some(PeerAddr { ip: IpKey { v6: true, hi, lo }, port });
    }
    None
}

/// Builds the XOR-PEER-ADDRESS value for `peer`.
pub fn turn_encode_xor_peer_address(peer: PeerAddr, txid: &[u8; 12]) -> (r: Vec<u8>)
    ensures
        r@ == encode_xor_addr(peer, txid@),
{
    let mut out: Vec<u8> = Vec::new();
    out.push(0u8);
    if peer.ip.v6 {
        out.push(2u8);
        push_be16(&mut out, peer.port ^ 0x2112u16);
        let mut raw: Vec<u8> = Vec::new();
        push_be64(&mut raw, peer.ip.hi);
        push_be64(&mut raw, peer.ip.lo);
        let mask = xor_mask_exec(txid);
        let x = xor_exec(raw.as_slice(), mask.as_slice());
        push_bytes(&mut out, x.as_slice());
    } else {
        out.push(1u8);
        push_be16(&mut out, peer.port ^ 0x2112u16);
        push_be32(&mut out, (peer.ip.lo as u32) ^ STUN_MAGIC_COOKIE);
    }
    assert(out@ =~= encode_xor_addr(peer, txid@));
    out
}

/// An address encoded by `turn_encode_xor_peer_address` decodes back to
/// itself under the same transaction id.
pub proof fn lemma_xor_addr_roundtrip(peer: PeerAddr, txid: Seq<u8>)
    requires
        txid.len() == 12,
        ip_key_valid(peer.ip),
    ensures
        decode_xor_addr(encode_xor_addr(peer, txid), txid) == Some(peer),
{
    let e = encode_xor_addr(peer, txid);
    let p = peer.port;
    bytes::lemma_be16_roundtrip(p ^ 0x2112u16);
    assert(e[2] == bytes::be16(p ^ 0x2112u16)[0] && e[3] == bytes::be16(p ^ 0x2112u16)[1]);
    assert((p ^ 0x2112u16) ^ 0x2112u16 == p) by (bit_vector);
    if peer.ip.v6 {
        let raw = bytes::be64(peer.ip.hi) + bytes::be64(peer.ip.lo);
        let m = xor_mask(txid);
        let x = xor_bytes(e.subrange(4, 20), m);
        assert forall|i: int| 0 <= i < 16 implies #[trigger] x[i] == raw[i] by {
            let a = raw[i];
            let b = m[i];
            assert(e[4 + i] == a ^ b);
            assert((a ^ b) ^ b == a) by (bit_vector);
        }
        assert(x.subrange(0, 8) =~= bytes::be64(peer.ip.hi));
        assert(x.subrange(8, 16) =~= bytes::be64(peer.ip.lo));
        bytes::lemma_be64_roundtrip(peer.ip.hi);
        bytes::lemma_be64_roundtrip(peer.ip.lo);
    } else {
        let v = (peer.ip.lo as u32) ^ STUN_MAGIC_COOKIE;
        bytes::lemma_be32_roundtrip(v);
        assert(e[4] == bytes::be32(v)[0] && e[5] == bytes::be32(v)[1] && e[6] == bytes::be32(v)[2]
            && e[7] == bytes::be32(v)[3]);
        let lo32 = peer.ip.lo as u32;
        assert((lo32 ^ 0x2112A442u32) ^ 0x2112A442u32 == lo32) by (bit_vector);
    }
}

/// The address in the first XOR-MAPPED-ADDRESS attribute from `pos` on, as
/// the binding-response reader finds it.
pub open spec fn scan_xor_mapped(resp: Seq<u8>, pos: nat, end: nat, txid: Seq<u8>) -> Option<
    PeerAddr,
>
    decreases (if pos <= end { end - pos } else { 0 }),
{
    if pos + 4 > end {
        None
    } else {
        let p = pos as int;
        let t = bytes::be16_at(resp, p);
        let l = bytes::be16_at(resp, p + 2) as nat;
        if pos + 4 + l > end {
            None
        } else if t == 0x0020 && l < 8 {
            None
        } else if t == 0x0020 && (resp[p + 5] == 1 || resp[p + 5] == 2) {
            decode_xor_addr(resp.subrange(p + 4, p + 4 + l), txid)
        } else {
            scan_xor_mapped(resp, pos + 4 + l + pad_len(l), end, txid)
        }
    }
}

/// The mapped address of a binding success response for transaction `txid`.
pub open spec fn xor_mapped_spec(resp: Seq<u8>, txid: Seq<u8>) -> Option<PeerAddr> {
    if resp.len() < 20 || bytes::be16_at(resp, 0) != 0x0101 || resp.len() < 20
        + bytes::be16_at(resp, 2) || resp.subrange(4, 8) != bytes::be32(STUN_MAGIC_COOKIE)
        || resp.subrange(8, 20) != txid {
        None
    } else {
        scan_xor_mapped(resp, 20, (20 + bytes::be16_at(resp, 2)) as nat, txid)
    }
}

/// Reads the XOR-MAPPED-ADDRESS of a binding success response to transaction `txid`.
pub fn parse_xor_mapped_address(resp: &[u8], txid: &[u8; 12]) -> (r: Option<PeerAddr>)
    ensures
        r == xor_mapped_spec(resp@, txid@),
{
    if resp.len() < 20 {
        return None;
    }
    if read_be16(resp, 0) != 0x0101 {
        return None;
    }
    let msg_len = read_be16(resp, 2) as usize;
    if resp.len() < 20 + msg_len {
        return None;
    }
    let cookie = copy_range(resp, 4, 8);
    let mut expected_cookie: Vec<u8> = Vec::new();
    push_be32(&mut expected_cookie, STUN_MAGIC_COOKIE);
    if !crate::bytes::bytes_equal(cookie.as_slice(), expected_cookie.as_slice()) {
        return None;
    }
    let tx = copy_range(resp, 8, 20);
    if !crate::bytes::bytes_equal(tx.as_slice(), txid) {
        return None;
    }
    let end = 20 + msg_len;
    let mut pos: usize = 20;
    while pos + 4 <= end
        invariant
            end <= resp@.len(),
            end <= 20 + 65535,
            pos <= end + 3,
            scan_xor_mapped(resp@, pos as nat, end as nat, txid@) == xor_mapped_spec(resp@, txid@),
        decreases end + 3 - pos,
    {
        let attr_type = read_be16(resp, pos);
        let attr_len = read_be16(resp, pos + 2) as usize;
        if pos + 4 + attr_len > end {
            return None;
        }
        if attr_type == 0x0020 {
            if attr_len < 8 {
                return None;
            }
            let family = resp[pos + 5];
            if family == 1 || family == 2 {
                let value = copy_range(resp, pos + 4, pos + 4 + attr_len);
                return stun_parse_xor_addr(value.as_slice(), txid);
            }
        }
        pos = pos + 4 + attr_len;
        let pad = (4 - (attr_len % 4)) % 4;
        pos = pos + pad;
    }
    None
}

/// Reads a TURN Data indication: the sending peer and the data it carries.
pub open spec fn data_indication_spec(msg: Seq<u8>) -> Option<(PeerAddr, Seq<u8>)> {
    if msg.len() < 20 || bytes::be16_at(msg, 0) != 0x0017 {
        None
    } else {
        match attr_iter_spec(msg) {
            Ok(attrs) => match first_attr(attrs, 0x0012) {
                Some(pv) => match decode_xor_addr(pv, msg.subrange(8, 20)) {
                    Some(peer) => match first_attr(attrs, 0x0013) {
                        Some(d) => Some((peer, d)),
                        None => None,
                    },
                    None => None,
                },
                None => None,
            },
            Err(_) => None,
        }
    }
}

/// Reads a TURN Data indication (type 0x0017): the XOR-PEER-ADDRESS and
/// DATA attributes.
pub fn turn_parse_data_indication(msg: &[u8]) -> (r: Option<(PeerAddr, Vec<u8>)>)
    ensures
        match r {
            Some((peer, data)) => data_indication_spec(msg@) == Some((peer, data@)),
            None => data_indication_spec(msg@) is None,
        },
{
    if msg.len() < 20 {
        return None;
    }
    if read_be16(msg, 0) != 0x0017 {
        return None;
    }
    let tx = copy_range(msg, 8, 20);
    let txid: [u8; 12] = [
        tx[0], tx[1], tx[2], tx[3], tx[4], tx[5], tx[6], tx[7], tx[8], tx[9], tx[10], tx[11],
    ];
    assert(txid@ =~= msg@.subrange(8, 20));
    let attrs = match stun_attr_iter(msg) {
        Ok(a) => a,
        Err(_) => {
            return None;
        },
    };
    let pi = match find_attr(attrs.as_slice(), 0x0012) {
        Some(i) => i,
        None => {
            return None;
        },
    };
    let peer = match stun_parse_xor_addr(attrs[pi].1.as_slice(), &txid) {
        Some(p) => p,
        None => {
            return None;
        },
    };
    let di = match find_attr(attrs.as_slice(), 0x0013) {
        Some(i) => i,
        None => {
            return None;
        },
    };
    let data = copy_range(attrs[di].1.as_slice(), 0, attrs[di].1.len());
    assert(data@ =~= attrs@[di as int].1@);
    Some((peer, data))
}

/// A fresh random transaction id.
///
/// Trusted: calls `uuid::Uuid::new_v4` and keeps the first 12 of its bytes.
/// The value is random, so nothing is claimed of it.
#[verifier::external_body]
fn stun_new_txid() -> [u8; 12] {
    let id = uuid::Uuid::new_v4();
    let b = id.as_bytes();
    [b[0], b[1], b[2], b[3], b[4], b[5], b[6], b[7], b[8], b[9], b[10], b[11]]
}

/// A STUN Binding request (no attributes) under a fresh random transaction
/// id, together with that id.
pub fn build_stun_binding_request() -> (r: ([u8; 12], Vec<u8>))
    ensures
        r.1@ == stun_header(0x0001, r.0@),
{
    let txid = stun_new_txid();
    let mut msg: Vec<u8> = Vec::new();
    push_be16(&mut msg, 0x0001);
    push_be16(&mut msg, 0);
    push_be32(&mut msg, STUN_MAGIC_COOKIE);
    push_bytes(&mut msg, &txid);
    (txid, msg)
}

/// The Binding request that asks a STUN server for this host's reflexive
/// address: no attributes and a FINGERPRINT, under a fresh random
/// transaction id, together with that id.
pub fn stun_binding_srflx_request() -> (r: ([u8; 12], Vec<u8>))
    ensures
        r.1@ == stun_message(0x0001, r.0@, Seq::empty(), None, true),
{
    let txid = stun_new_txid();
    let attrs: Vec<(u16, Vec<u8>)> = Vec::new();
    proof {
        assert(attrs_view(attrs@) =~= Seq::empty());
    }
    let msg = stun_build_message(0x0001, txid, attrs.as_slice(), None, true);
    (txid, msg)
}

proof fn lemma_attrs_bytes_front(attrs: Seq<(u16, Seq<u8>)>)
    requires
        attrs.len() > 0,
    ensures
        attrs_bytes(attrs) == attr_bytes(attrs[0].0, attrs[0].1) + attrs_bytes(attrs.drop_first()),
    decreases attrs.len(),
{
    if attrs.len() == 1 {
        assert(attrs.drop_last() =~= Seq::<(u16, Seq<u8>)>::empty());
        assert(attrs.drop_first() =~= Seq::<(u16, Seq<u8>)>::empty());
        assert(attrs.last() == attrs[0]);
        assert(attrs_bytes(attrs.drop_last()) == Seq::<u8>::empty());
        assert(Seq::<u8>::empty() + attr_bytes(attrs[0].0, attrs[0].1) =~= attr_bytes(
            attrs[0].0,
            attrs[0].1,
        ));
        assert(attrs_bytes(attrs) =~= attr_bytes(attrs[0].0, attrs[0].1));
        assert(attr_bytes(attrs[0].0, attrs[0].1) + Seq::<u8>::empty() =~= attr_bytes(
            attrs[0].0,
            attrs[0].1,
        ));
    } else {
        lemma_attrs_bytes_front(attrs.drop_last());
        assert(attrs.drop_last().drop_first() =~= attrs.drop_first().drop_last());
        assert(attrs.drop_first().last() == attrs.last());
        assert(attrs.drop_last()[0] == attrs[0]);
        assert(attrs_bytes(attrs) =~= attr_bytes(attrs[0].0, attrs[0].1) + attrs_bytes(
            attrs.drop_first(),
        ));
    }
}

/// Every value is short enough for its 16-bit length field.
pub open spec fn values_fit(attrs: Seq<(u16, Seq<u8>)>) -> bool {
    forall|i: int| 0 <= i < attrs.len() ==> (#[trigger] attrs[i]).1.len() <= 0xffff
}

proof fn lemma_parse_attrs_inverts(msg: Seq<u8>, pos: nat, attrs: Seq<(u16, Seq<u8>)>)
    requires
        values_fit(attrs),
        pos + attrs_bytes(attrs).len() <= msg.len(),
        msg.subrange(pos as int, (pos + attrs_bytes(attrs).len()) as int) == attrs_bytes(attrs),
    ensures
        parse_attrs(msg, pos, pos + attrs_bytes(attrs).len()) == attrs,
    decreases attrs.len(),
{
    let end = pos + attrs_bytes(attrs).len();
    if attrs.len() == 0 {
        assert(parse_attrs(msg, pos, end) =~= attrs);
    } else {
        lemma_attrs_bytes_front(attrs);
        let t = attrs[0].0;
        let v = attrs[0].1;
        let first = attr_bytes(t, v);
        let rest = attrs.drop_first();
        let whole = msg.subrange(pos as int, end as int);
        assert(whole == first + attrs_bytes(rest));
        assert(v.len() <= 0xffff);
        assert((v.len() as u16) as nat == v.len());
        let p = pos as int;
        assert(msg[p] == first[0] && msg[p + 1] == first[1]) by {
            assert(whole[0] == msg[p]);
            assert(whole[1] == msg[p + 1]);
        }
        assert(msg[p + 2] == first[2] && msg[p + 3] == first[3]) by {
            assert(whole[2] == msg[p + 2]);
            assert(whole[3] == msg[p + 3]);
        }
        bytes::lemma_be16_roundtrip(t);
        bytes::lemma_be16_roundtrip(v.len() as u16);
        assert(bytes::be16_at(msg, p) == t);
        assert(bytes::be16_at(msg, p + 2) == v.len());
        let l = v.len();
        assert(msg.subrange(p + 4, p + 4 + l) =~= v) by {
            assert forall|i: int| 0 <= i < l implies msg[p + 4 + i] == v[i] by {
                assert(whole[4 + i] == msg[p + 4 + i]);
                assert(first[4 + i] == v[i]);
            }
        }
        let next = pos + 4 + l + pad_len(l);
        assert(first.len() == 4 + l + pad_len(l));
        assert(msg.subrange(next as int, (next + attrs_bytes(rest).len()) as int) =~= attrs_bytes(rest)) by {
            assert forall|i: int| 0 <= i < attrs_bytes(rest).len() implies msg[next + i]
                == attrs_bytes(rest)[i] by {
                assert(whole[first.len() + i] == msg[next + i]);
            }
        }
        assert(values_fit(rest)) by {
            assert forall|i: int| 0 <= i < rest.len() implies (#[trigger] rest[i]).1.len()
                <= 0xffff by {
                assert(rest[i] == attrs[i + 1]);
            }
        }
        lemma_parse_attrs_inverts(msg, next, rest);
        assert(next + attrs_bytes(rest).len() == end);
        assert(parse_attrs(msg, pos, end) =~= seq![(t, v)] + rest);
        assert(seq![(t, v)] + rest =~= attrs);
    }
}

proof fn lemma_pad_aligns(l: nat)
    ensures
        (l + pad_len(l)) % 4 == 0,
        pad_len(l) <= 3,
{
}

/// Attributes on the wire take a multiple of four bytes.
proof fn lemma_attrs_bytes_aligned(attrs: Seq<(u16, Seq<u8>)>)
    ensures
        attrs_bytes(attrs).len() % 4 == 0,
    decreases attrs.len(),
{
    if attrs.len() > 0 {
        lemma_attrs_bytes_aligned(attrs.drop_last());
        lemma_pad_aligns(attrs.last().1.len());
    }
}

/// Reading the attributes of a message built without credentials or
/// fingerprint gives back the attributes it was built from, when every
/// value and the whole list fit their 16-bit length fields; the message is
/// padded to a multiple of four bytes, and its length field is the length
/// of its body (all but the 20-byte header).
pub proof fn lemma_attributes_read_back(msg_type: u16, txid: Seq<u8>, attrs: Seq<(u16, Seq<u8>)>)
    requires
        txid.len() == 12,
        values_fit(attrs),
        attrs_bytes(attrs).len() <= 0xffff,
    ensures
        attr_iter_spec(stun_message(msg_type, txid, attrs, None, false)) == Ok::<
            Seq<(u16, Seq<u8>)>,
            StunError,
        >(attrs),
        stun_message(msg_type, txid, attrs, None, false).len() % 4 == 0,
        bytes::be16_at(stun_message(msg_type, txid, attrs, None, false), 2) == stun_message(
            msg_type,
            txid,
            attrs,
            None,
            false,
        ).len() - 20,
{
    lemma_attrs_bytes_aligned(attrs);
    let body = attrs_bytes(attrs);
    let base = stun_header(msg_type, txid) + body;
    let m = stun_message(msg_type, txid, attrs, None, false);
    assert(m == with_length(base, body.len() as u16));
    assert(m.len() == 20 + body.len());
    bytes::lemma_be16_roundtrip(body.len() as u16);
    assert(bytes::be16_at(m, 2) == body.len());
    assert(m.subrange(20, 20 + body.len() as int) =~= body) by {
        assert forall|i: int| 0 <= i < body.len() implies m[20 + i] == body[i] by {
            assert(base[20 + i] == body[i]);
        }
    }
    lemma_parse_attrs_inverts(m, 20, attrs);
}

/// A Data indication that carries a peer's address and some data reads
/// back as that peer and that data.
pub proof fn lemma_data_indication_read_back(txid: Seq<u8>, peer: PeerAddr, data: Seq<u8>)
    requires
        txid.len() == 12,
        ip_key_valid(peer.ip),
        data.len() <= 0xffff - 24 - 4 - 3,
    ensures
        data_indication_spec(
            stun_message(
                0x0017,
                txid,
                seq![(0x0012u16, encode_xor_addr(peer, txid)), (0x0013u16, data)],
                None,
                false,
            ),
        ) == Some((peer, data)),
{
    let pv = encode_xor_addr(peer, txid);
    let attrs = seq![(0x0012u16, pv), (0x0013u16, data)];
    let m = stun_message(0x0017, txid, attrs, None, false);
    assert(pv.len() == 8 || pv.len() == 20);
    assert(attrs.drop_last() =~= seq![(0x0012u16, pv)]);
    assert(seq![(0x0012u16, pv)].drop_last() =~= Seq::<(u16, Seq<u8>)>::empty());
    assert(attrs.last() == (0x0013u16, data));
    assert(seq![(0x0012u16, pv)].last() == (0x0012u16, pv));
    assert(attrs_bytes(Seq::<(u16, Seq<u8>)>::empty()) == Seq::<u8>::empty());
    assert(Seq::<u8>::empty() + attr_bytes(0x0012u16, pv) =~= attr_bytes(0x0012u16, pv));
    assert(attrs_bytes(seq![(0x0012u16, pv)]) =~= attr_bytes(0x0012u16, pv));
    assert(attrs_bytes(attrs).len() == attr_bytes(0x0012u16, pv).len() + attr_bytes(
        0x0013u16,
        data,
    ).len());
    assert(pad_len(data.len()) <= 3);
    assert(values_fit(attrs));
    lemma_attributes_read_back(0x0017, txid, attrs);
    let base = stun_header(0x0017, txid) + attrs_bytes(attrs);
    assert(m == with_length(base, attrs_bytes(attrs).len() as u16));
    bytes::lemma_be16_roundtrip(0x0017);
    assert(m[0] == base[0] && m[1] == base[1]);
    assert(bytes::be16_at(m, 0) == 0x0017);
    assert(m.subrange(8, 20) =~= txid) by {
        assert forall|i: int| 0 <= i < 12 implies m[8 + i] == txid[i] by {
            assert(base[8 + i] == txid[i]);
        }
    }
    lemma_xor_addr_roundtrip(peer, txid);
    assert(first_attr(attrs, 0x0012) == Some(pv));
    assert(attrs.drop_first() =~= seq![(0x0013u16, data)]);
    assert(first_attr(seq![(0x0013u16, data)], 0x0013) == Some(data));
    assert(first_attr(attrs, 0x0013) == Some(data));
}

/// Two attributes on the wire: the first, then the second.
pub proof fn lemma_attrs_bytes_two(a: (u16, Seq<u8>), b: (u16, Seq<u8>))
    ensures
        attrs_bytes(seq![a, b]) == attr_bytes(a.0, a.1) + attr_bytes(b.0, b.1),
        attr_bytes(a.0, a.1).len() == 4 + a.1.len() + pad_len(a.1.len()),
        pad_len(a.1.len()) <= 3,
{
    let s = seq![a, b];
    assert(s.drop_last() =~= seq![a]);
    assert(seq![a].drop_last() =~= Seq::<(u16, Seq<u8>)>::empty());
    assert(attrs_bytes(Seq::<(u16, Seq<u8>)>::empty()) == Seq::<u8>::empty());
    assert(Seq::<u8>::empty() + attr_bytes(a.0, a.1) =~= attr_bytes(a.0, a.1));
    assert(attrs_bytes(seq![a]) =~= attr_bytes(a.0, a.1));
}

} // verus!
