use crate::bytes::push_bytes;
use vstd::prelude::*;

verus! {

/// An IP address as two 64-bit halves of its big-endian value: an IPv6
/// address fills both, an IPv4 address holds its 32 bits in `lo` and zero in `hi`.
#[derive(PartialEq, Eq, Structural, Clone, Copy, Debug)]
pub struct IpKey {
    pub v6: bool,
    pub hi: u64,
    pub lo: u64,
}

/// A UDP source: IP address and port.
#[derive(PartialEq, Eq, Structural, Clone, Copy, Debug)]
pub struct PeerAddr {
    pub ip: IpKey,
    pub port: u16,
}

/// Nanoseconds in one second.
pub const NANOS_PER_SEC: u64 = 1_000_000_000;

/// How long (ns) a partially received message is kept.
pub const P2P_REASSEMBLY_TTL_NANOS: u64 = 30_000_000_000;

/// How long (ns) a completed message id is remembered.
pub const P2P_REPLAY_WINDOW_NANOS: u64 = 300_000_000_000;

/// How long (ns) a source stays banned, and how long an idle source record lives.
pub const P2P_SOURCE_BAN_TTL_NANOS: u64 = 60_000_000_000;

/// Window (ns) over which invalid datagrams of a source are counted.
pub const P2P_BAD_WINDOW_NANOS: u64 = 10_000_000_000;

/// Most messages reassembled at once.
pub const P2P_MAX_INFLIGHT_MESSAGES: usize = 128;

/// Most payload bytes held across all partial messages.
pub const P2P_MAX_INFLIGHT_BYTES: usize = 8388608;

/// Most partial messages from one IP address.
pub const P2P_MAX_MESSAGES_PER_SOURCE: usize = 32;

/// Invalid datagrams within the window that get a source banned.
pub const P2P_SOURCE_BAN_THRESHOLD: u32 = 64;

/// Most fragments one message may have.
pub const P2P_MAX_FRAGMENTS: u16 = 128;

/// Largest fragment payload accepted.
pub const P2P_MAX_FRAGMENT_PAYLOAD: usize = 1200;

/// Time elapsed from `t` to `now`, zero when `t` is later.
pub open spec fn elapsed(now: u64, t: u64) -> int {
    if now >= t {
        now - t
    } else {
        0
    }
}

/// A message whose fragments are still arriving.
pub struct PartialMessage {
    pub from: PeerAddr,
    pub msg_id: u32,
    pub created_at: u64,
    pub last_seen: u64,
    pub frag_cnt: u16,
    pub bytes: usize,
    pub parts: Vec<Option<Vec<u8>>>,
}

/// The abstract value of a partial message.
pub struct PartialView {
    pub from: PeerAddr,
    pub msg_id: u32,
    pub created_at: u64,
    pub last_seen: u64,
    pub frag_cnt: u16,
    pub bytes: nat,
    pub parts: Seq<Option<Seq<u8>>>,
}

/// The bytes of a received fragment, if any.
pub open spec fn part_view(p: Option<Vec<u8>>) -> Option<Seq<u8>> {
    match p {
        Some(v) => Some(v@),
        None => None,
    }
}

impl View for PartialMessage {
    type V = PartialView;

    open spec fn view(&self) -> PartialView {
        PartialView {
            from: self.from,
            msg_id: self.msg_id,
            created_at: self.created_at,
            last_seen: self.last_seen,
            frag_cnt: self.frag_cnt,
            bytes: self.bytes as nat,
            parts: self.parts@.map_values(|p: Option<Vec<u8>>| part_view(p)),
        }
    }
}

/// A message id seen to completion, and when.
#[derive(Clone, Copy)]
pub struct CompletedMessage {
    pub from: PeerAddr,
    pub msg_id: u32,
    pub seen_at: u64,
}

/// The invalid-traffic record of one IP address.
#[derive(Clone, Copy)]
pub struct SourceState {
    pub ip: IpKey,
    pub window_started: u64,
    pub bad_count: u32,
    pub banned_until: Option<u64>,
}

/// Reassembly of fragmented P2P UDP messages, with limits on what a peer
/// can make the receiver hold and a ban on sources of invalid traffic.
pub struct P2PUdpReassemblyState {
    inflight: Vec<PartialMessage>,
    completed: Vec<CompletedMessage>,
    source_state: Vec<SourceState>,
    total_bytes: usize,
    max_message_size: usize,
}

/// The abstract value of the reassembly state.
pub struct ReassemblyView {
    pub inflight: Seq<PartialView>,
    pub completed: Seq<CompletedMessage>,
    pub sources: Seq<SourceState>,
    pub max_message_size: nat,
}

/// Number of fragments received.
pub open spec fn count_present(parts: Seq<Option<Seq<u8>>>) -> nat
    decreases parts.len(),
{
    if parts.len() == 0 {
        0
    } else {
        (if parts[0] is Some { 1nat } else { 0nat }) + count_present(parts.drop_first())
    }
}

/// Total length of the fragments received.
pub open spec fn present_len(parts: Seq<Option<Seq<u8>>>) -> nat
    decreases parts.len(),
{
    if parts.len() == 0 {
        0
    } else {
        (match parts[0] {
            Some(p) => p.len(),
            None => 0,
        }) + present_len(parts.drop_first())
    }
}

/// The fragments received, concatenated in index order.
pub open spec fn concat_parts(parts: Seq<Option<Seq<u8>>>) -> Seq<u8>
    decreases parts.len(),
{
    if parts.len() == 0 {
        Seq::empty()
    } else {
        (match parts[0] {
            Some(p) => p,
            None => Seq::empty(),
        }) + concat_parts(parts.drop_first())
    }
}

/// Sum of the bytes held by partial messages.
pub open spec fn inflight_bytes(s: Seq<PartialView>) -> nat
    decreases s.len(),
{
    if s.len() == 0 {
        0
    } else {
        s[0].bytes + inflight_bytes(s.drop_first())
    }
}

/// Partial messages that have not expired at `now`.
pub open spec fn keep_fresh_inflight(s: Seq<PartialView>, now: u64) -> Seq<PartialView>
    decreases s.len(),
{
    if s.len() == 0 {
        s
    } else {
        (if elapsed(now, s[0].created_at) <= P2P_REASSEMBLY_TTL_NANOS {
            seq![s[0]]
        } else {
            Seq::empty()
        }) + keep_fresh_inflight(s.drop_first(), now)
    }
}

/// Completed ids still within the replay window at `now`.
pub open spec fn keep_fresh_completed(s: Seq<CompletedMessage>, now: u64) -> Seq<CompletedMessage>
    decreases s.len(),
{
    if s.len() == 0 {
        s
    } else {
        (if elapsed(now, s[0].seen_at) <= P2P_REPLAY_WINDOW_NANOS {
            seq![s[0]]
        } else {
            Seq::empty()
        }) + keep_fresh_completed(s.drop_first(), now)
    }
}

/// Whether a source record is still kept at `now`.
pub open spec fn source_live(st: SourceState, now: u64) -> bool {
    match st.banned_until {
        Some(until) => until > now,
        None => elapsed(now, st.window_started) <= P2P_SOURCE_BAN_TTL_NANOS || st.bad_count > 0,
    }
}

/// Source records still kept at `now`.
pub open spec fn keep_live_sources(s: Seq<SourceState>, now: u64) -> Seq<SourceState>
    decreases s.len(),
{
    if s.len() == 0 {
        s
    } else {
        (if source_live(s[0], now) {
            seq![s[0]]
        } else {
            Seq::empty()
        }) + keep_live_sources(s.drop_first(), now)
    }
}

/// The state after dropping everything that expired at `now`.
pub open spec fn prune_view(v: ReassemblyView, now: u64) -> ReassemblyView {
    ReassemblyView {
        inflight: keep_fresh_inflight(v.inflight, now),
        completed: keep_fresh_completed(v.completed, now),
        sources: keep_live_sources(v.sources, now),
        max_message_size: v.max_message_size,
    }
}

/// Whether a partial message for this source and id exists.
pub open spec fn has_inflight(s: Seq<PartialView>, from: PeerAddr, msg_id: u32) -> bool {
    exists|i: int| 0 <= i < s.len() && s[i].from == from && s[i].msg_id == msg_id
}

/// The position of the partial message for this source and id, or -1.
pub open spec fn inflight_index(s: Seq<PartialView>, from: PeerAddr, msg_id: u32) -> int {
    if has_inflight(s, from, msg_id) {
        choose|i: int| 0 <= i < s.len() && s[i].from == from && s[i].msg_id == msg_id
    } else {
        -1
    }
}

/// Whether this source and id completed within the window.
pub open spec fn has_completed(s: Seq<CompletedMessage>, from: PeerAddr, msg_id: u32) -> bool {
    exists|i: int| 0 <= i < s.len() && s[i].from == from && s[i].msg_id == msg_id
}

/// Number of partial messages from this IP address.
pub open spec fn count_from_ip(s: Seq<PartialView>, ip: IpKey) -> nat
    decreases s.len(),
{
    if s.len() == 0 {
        0
    } else {
        (if s[0].from.ip == ip { 1nat } else { 0nat }) + count_from_ip(s.drop_first(), ip)
    }
}

/// Whether the source record for this IP address exists.
pub open spec fn has_source(s: Seq<SourceState>, ip: IpKey) -> bool {
    exists|i: int| 0 <= i < s.len() && s[i].ip == ip
}

/// The position of the source record for this IP address, or -1.
pub open spec fn source_index(s: Seq<SourceState>, ip: IpKey) -> int {
    if has_source(s, ip) {
        choose|i: int| 0 <= i < s.len() && s[i].ip == ip
    } else {
        -1
    }
}

/// Why a fragment is refused.
#[derive(Debug, PartialEq, Eq, Clone, Copy)]
pub enum ReassemblyError {
    InvalidMetadata,
    TooManyFragments,
    PayloadTooLarge,
    InflightMessageLimit,
    PerSourceMessageLimit,
    InflightByteLimit,
    FragmentCountChanged,
    MessageTooLarge,
}

/// A fresh partial message.
pub open spec fn new_partial(from: PeerAddr, msg_id: u32, frag_cnt: u16, now: u64) -> PartialView {
    PartialView {
        from,
        msg_id,
        created_at: now,
        last_seen: now,
        frag_cnt,
        bytes: 0,
        parts: Seq::new(frag_cnt as nat, |k: int| None::<Seq<u8>>),
    }
}

/// A partial message with one more fragment.
pub open spec fn add_part(e: PartialView, frag_idx: u16, payload: Seq<u8>, now: u64) -> PartialView {
    PartialView {
        parts: e.parts.update(frag_idx as int, Some(payload)),
        bytes: e.bytes + payload.len(),
        last_seen: now,
        ..e
    }
}

/// What accepting a fragment does to an already pruned state, and what it returns.
pub open spec fn accept_spec(
    v: ReassemblyView,
    from: PeerAddr,
    msg_id: u32,
    frag_idx: u16,
    frag_cnt: u16,
    payload: Seq<u8>,
    now: u64,
) -> (ReassemblyView, Result<Option<Seq<u8>>, ReassemblyError>) {
    let i = inflight_index(v.inflight, from, msg_id);
    if frag_cnt == 0 || frag_idx >= frag_cnt {
        (v, Err(ReassemblyError::InvalidMetadata))
    } else if frag_cnt > P2P_MAX_FRAGMENTS {
        (v, Err(ReassemblyError::TooManyFragments))
    } else if payload.len() > P2P_MAX_FRAGMENT_PAYLOAD {
        (v, Err(ReassemblyError::PayloadTooLarge))
    } else if has_completed(v.completed, from, msg_id) {
        (v, Ok(None))
    } else if i < 0 && v.inflight.len() >= P2P_MAX_INFLIGHT_MESSAGES {
        (v, Err(ReassemblyError::InflightMessageLimit))
    } else if i < 0 && count_from_ip(v.inflight, from.ip) >= P2P_MAX_MESSAGES_PER_SOURCE {
        (v, Err(ReassemblyError::PerSourceMessageLimit))
    } else if i >= 0 && frag_idx < v.inflight[i].parts.len() && v.inflight[i].parts[frag_idx as int] is Some {
        (v, Ok(None))
    } else if inflight_bytes(v.inflight) + payload.len() > P2P_MAX_INFLIGHT_BYTES {
        (v, Err(ReassemblyError::InflightByteLimit))
    } else {
        let e = if i >= 0 { v.inflight[i] } else { new_partial(from, msg_id, frag_cnt, now) };
        let with_entry = if i >= 0 { v.inflight } else { v.inflight.push(e) };
        let j = if i >= 0 { i } else { v.inflight.len() as int };
        if e.frag_cnt != frag_cnt {
            (v, Err(ReassemblyError::FragmentCountChanged))
        } else if e.bytes + payload.len() > v.max_message_size {
            (ReassemblyView { inflight: with_entry, ..v }, Err(ReassemblyError::MessageTooLarge))
        } else {
            let e2 = add_part(e, frag_idx, payload, now);
            if count_present(e2.parts) != frag_cnt {
                (ReassemblyView { inflight: with_entry.update(j, e2), ..v }, Ok(None))
            } else {
                (
                    ReassemblyView {
                        inflight: with_entry.remove(j),
                        completed: v.completed.push(
                            CompletedMessage { from, msg_id, seen_at: now },
                        ),
                        ..v
                    },
                    Ok(Some(concat_parts(e2.parts))),
                )
            }
        }
    }
}


/// The views of a sequence of partial messages.
pub open spec fn inflight_views(s: Seq<PartialMessage>) -> Seq<PartialView> {
    s.map_values(|e: PartialMessage| e@)
}

/// A partial message that respects the fragment and size bookkeeping.
pub open spec fn partial_wf(e: PartialView) -> bool {
    &&& 1 <= e.frag_cnt <= P2P_MAX_FRAGMENTS
    &&& e.parts.len() == e.frag_cnt
    &&& e.bytes == present_len(e.parts)
    &&& count_present(e.parts) < e.frag_cnt
}

/// The outcome of recording an invalid datagram from `ip` on a pruned state.
pub open spec fn record_invalid_spec(v: ReassemblyView, ip: IpKey, now: u64) -> ReassemblyView {
    let i = source_index(v.sources, ip);
    let st = if i >= 0 {
        v.sources[i]
    } else {
        SourceState { ip, window_started: now, bad_count: 0, banned_until: None }
    };
    if st.banned_until matches Some(u) && u > now {
        v
    } else {
        let st1 = if elapsed(now, st.window_started) > P2P_BAD_WINDOW_NANOS {
            SourceState { window_started: now, bad_count: 0, ..st }
        } else {
            st
        };
        let bad: u32 = if st1.bad_count == u32::MAX {
            u32::MAX
        } else {
            (st1.bad_count + 1) as u32
        };
        let st2 = if bad >= P2P_SOURCE_BAN_THRESHOLD {
            SourceState {
                banned_until: Some((now + P2P_SOURCE_BAN_TTL_NANOS) as u64),
                bad_count: 0,
                ..st1
            }
        } else {
            SourceState { bad_count: bad, ..st1 }
        };
        ReassemblyView {
            sources: if i >= 0 {
                v.sources.update(i, st2)
            } else {
                v.sources.push(st2)
            },
            ..v
        }
    }
}

/// Whether `ip` is banned at `now` in a pruned state.
pub open spec fn banned_spec(v: ReassemblyView, ip: IpKey, now: u64) -> bool {
    let i = source_index(v.sources, ip);
    &&& i >= 0
    &&& v.sources[i].banned_until matches Some(u) && u > now
}

proof fn lemma_bytes_push(s: Seq<PartialView>, e: PartialView)
    ensures
        inflight_bytes(s.push(e)) == inflight_bytes(s) + e.bytes,
    decreases s.len(),
{
    if s.len() == 0 {
        assert(s.push(e).drop_first() =~= s);
    } else {
        lemma_bytes_push(s.drop_first(), e);
        assert(s.push(e).drop_first() =~= s.drop_first().push(e));
    }
}

proof fn lemma_bytes_remove(s: Seq<PartialView>, i: int)
    requires
        0 <= i < s.len(),
    ensures
        inflight_bytes(s.remove(i)) + s[i].bytes == inflight_bytes(s),
    decreases s.len(),
{
    if i == 0 {
        assert(s.remove(0) =~= s.drop_first());
    } else {
        lemma_bytes_remove(s.drop_first(), i - 1);
        assert(s.remove(i).drop_first() =~= s.drop_first().remove(i - 1));
    }
}

proof fn lemma_bytes_update(s: Seq<PartialView>, i: int, e: PartialView)
    requires
        0 <= i < s.len(),
    ensures
        inflight_bytes(s.update(i, e)) + s[i].bytes == inflight_bytes(s) + e.bytes,
    decreases s.len(),
{
    if i == 0 {
        assert(s.update(0, e).drop_first() =~= s.drop_first());
    } else {
        lemma_bytes_update(s.drop_first(), i - 1, e);
        assert(s.update(i, e).drop_first() =~= s.drop_first().update(i - 1, e));
    }
}

proof fn lemma_parts_update(parts: Seq<Option<Seq<u8>>>, k: int, p: Seq<u8>)
    requires
        0 <= k < parts.len(),
        parts[k] is None,
    ensures
        count_present(parts.update(k, Some(p))) == count_present(parts) + 1,
        present_len(parts.update(k, Some(p))) == present_len(parts) + p.len(),
    decreases parts.len(),
{
    if k == 0 {
        assert(parts.update(0, Some(p)).drop_first() =~= parts.drop_first());
    } else {
        lemma_parts_update(parts.drop_first(), k - 1, p);
        assert(parts.update(k, Some(p)).drop_first() =~= parts.drop_first().update(k - 1, Some(p)));
    }
}

proof fn lemma_count_le_len(parts: Seq<Option<Seq<u8>>>)
    ensures
        count_present(parts) <= parts.len(),
    decreases parts.len(),
{
    if parts.len() > 0 {
        lemma_count_le_len(parts.drop_first());
    }
}

proof fn lemma_empty_parts(n: nat)
    ensures
        count_present(Seq::new(n, |k: int| None::<Seq<u8>>)) == 0,
        present_len(Seq::new(n, |k: int| None::<Seq<u8>>)) == 0,
    decreases n,
{
    if n > 0 {
        lemma_empty_parts((n - 1) as nat);
        assert(Seq::new(n, |k: int| None::<Seq<u8>>).drop_first() =~= Seq::new(
            (n - 1) as nat,
            |k: int| None::<Seq<u8>>,
        ));
    }
}

impl View for P2PUdpReassemblyState {
    type V = ReassemblyView;

    closed spec fn view(&self) -> ReassemblyView {
        ReassemblyView {
            inflight: inflight_views(self.inflight@),
            completed: self.completed@,
            sources: self.source_state@,
            max_message_size: self.max_message_size as nat,
        }
    }
}

impl P2PUdpReassemblyState {
    /// Bookkeeping that every operation keeps: each partial message is
    /// consistent, keys and source addresses occur once, and the byte total
    /// is the sum over partial messages and stays under its limit.
    pub closed spec fn wf(&self) -> bool {
        let v = self@;
        &&& forall|i: int| 0 <= i < v.inflight.len() ==> partial_wf(#[trigger] v.inflight[i])
        &&& forall|i: int, j: int|
            0 <= i < v.inflight.len() && 0 <= j < v.inflight.len() && #[trigger] v.inflight[i].from
                == #[trigger] v.inflight[j].from && v.inflight[i].msg_id == v.inflight[j].msg_id
                ==> i == j
        &&& forall|i: int, j: int|
            0 <= i < v.sources.len() && 0 <= j < v.sources.len() && #[trigger] v.sources[i].ip
                == #[trigger] v.sources[j].ip ==> i == j
        &&& self.total_bytes == inflight_bytes(v.inflight)
        &&& self.total_bytes <= P2P_MAX_INFLIGHT_BYTES
        &&& v.inflight.len() <= P2P_MAX_INFLIGHT_MESSAGES
        &&& per_source_ok(v.inflight)
        &&& keys_disjoint(v.inflight, v.completed)
    }

    /// An empty state; messages may grow to `max_message_size` bytes.
    pub fn new(max_message_size: usize) -> (r: Self)
        ensures
            r.wf(),
            r@.inflight.len() == 0,
            r@.completed.len() == 0,
            r@.sources.len() == 0,
            r@.max_message_size == max_message_size,
    {
        P2PUdpReassemblyState {
            inflight: Vec::new(),
            completed: Vec::new(),
            source_state: Vec::new(),
            total_bytes: 0,
            max_message_size,
        }
    }
}


/// No message is both partial and completed.
pub open spec fn keys_disjoint(s: Seq<PartialView>, c: Seq<CompletedMessage>) -> bool {
    forall|i: int| 0 <= i < s.len() ==> !has_completed(c, #[trigger] s[i].from, s[i].msg_id)
}

proof fn lemma_keep_completed_subset(c: Seq<CompletedMessage>, now: u64, from: PeerAddr, msg_id: u32)
    ensures
        has_completed(keep_fresh_completed(c, now), from, msg_id) ==> has_completed(c, from, msg_id),
    decreases c.len(),
{
    if c.len() > 0 {
        let head: Seq<CompletedMessage> = if elapsed(now, c[0].seen_at) <= P2P_REPLAY_WINDOW_NANOS {
            seq![c[0]]
        } else {
            Seq::empty()
        };
        let t = keep_fresh_completed(c.drop_first(), now);
        lemma_keep_completed_subset(c.drop_first(), now, from, msg_id);
        let r = keep_fresh_completed(c, now);
        assert(r == head + t);
        if has_completed(r, from, msg_id) {
            let i = choose|i: int| 0 <= i < r.len() && r[i].from == from && r[i].msg_id == msg_id;
            if i < head.len() {
                assert(r[i] == c[0]);
            } else {
                assert(r[i] == t[i - head.len()]);
                assert(has_completed(c.drop_first(), from, msg_id));
                let k = choose|k: int|
                    0 <= k < c.drop_first().len() && c.drop_first()[k].from == from
                        && c.drop_first()[k].msg_id == msg_id;
                assert(c[k + 1] == c.drop_first()[k]);
            }
        }
    }
}

proof fn lemma_keep_inflight_subset(s: Seq<PartialView>, now: u64, i: int)
    requires
        0 <= i < keep_fresh_inflight(s, now).len(),
    ensures
        exists|j: int| 0 <= j < s.len() && s[j] == keep_fresh_inflight(s, now)[i],
    decreases s.len(),
{
    let head: Seq<PartialView> = if elapsed(now, s[0].created_at) <= P2P_REASSEMBLY_TTL_NANOS {
        seq![s[0]]
    } else {
        Seq::empty()
    };
    let t = keep_fresh_inflight(s.drop_first(), now);
    let r = keep_fresh_inflight(s, now);
    assert(r == head + t);
    if i < head.len() {
        assert(r[i] == s[0]);
    } else {
        lemma_keep_inflight_subset(s.drop_first(), now, i - head.len());
        let j = choose|j: int| 0 <= j < s.drop_first().len() && s.drop_first()[j] == t[i - head.len()];
        assert(s[j + 1] == r[i]);
    }
}

/// No IP address has more partial messages than the per-source limit.
pub open spec fn per_source_ok(s: Seq<PartialView>) -> bool {
    forall|ip: IpKey| #[trigger] count_from_ip(s, ip) <= P2P_MAX_MESSAGES_PER_SOURCE
}

proof fn lemma_count_concat(a: Seq<PartialView>, b: Seq<PartialView>, ip: IpKey)
    ensures
        count_from_ip(a + b, ip) == count_from_ip(a, ip) + count_from_ip(b, ip),
    decreases a.len(),
{
    if a.len() == 0 {
        assert(a + b =~= b);
    } else {
        assert((a + b).drop_first() =~= a.drop_first() + b);
        lemma_count_concat(a.drop_first(), b, ip);
    }
}

proof fn lemma_count_single(e: PartialView, ip: IpKey)
    ensures
        count_from_ip(seq![e], ip) == (if e.from.ip == ip { 1int } else { 0int }),
        count_from_ip(Seq::<PartialView>::empty(), ip) == 0,
{
    assert(count_from_ip(Seq::<PartialView>::empty(), ip) == 0);
    assert(seq![e].drop_first() =~= Seq::<PartialView>::empty());
    assert(seq![e][0] == e);
    assert(count_from_ip(seq![e], ip) == (if e.from.ip == ip { 1nat } else { 0nat })
        + count_from_ip(seq![e].drop_first(), ip));
}

proof fn lemma_count_keep_fresh(s: Seq<PartialView>, now: u64, ip: IpKey)
    ensures
        count_from_ip(keep_fresh_inflight(s, now), ip) <= count_from_ip(s, ip),
    decreases s.len(),
{
    if s.len() > 0 {
        let head: Seq<PartialView> = if elapsed(now, s[0].created_at) <= P2P_REASSEMBLY_TTL_NANOS {
            seq![s[0]]
        } else {
            Seq::empty()
        };
        lemma_count_keep_fresh(s.drop_first(), now, ip);
        lemma_count_concat(head, keep_fresh_inflight(s.drop_first(), now), ip);
        lemma_count_single(s[0], ip);
        assert(keep_fresh_inflight(s, now) == head + keep_fresh_inflight(s.drop_first(), now));
    }
}

proof fn lemma_count_push(s: Seq<PartialView>, e: PartialView, ip: IpKey)
    ensures
        count_from_ip(s.push(e), ip) == count_from_ip(s, ip) + (if e.from.ip == ip { 1int } else { 0int }),
{
    lemma_count_concat(s, seq![e], ip);
    assert(s.push(e) =~= s + seq![e]);
    lemma_count_single(e, ip);
}

proof fn lemma_count_update(s: Seq<PartialView>, j: int, e: PartialView, ip: IpKey)
    requires
        0 <= j < s.len(),
        e.from == s[j].from,
    ensures
        count_from_ip(s.update(j, e), ip) == count_from_ip(s, ip),
    decreases s.len(),
{
    if j > 0 {
        lemma_count_update(s.drop_first(), j - 1, e, ip);
        assert(s.update(j, e).drop_first() =~= s.drop_first().update(j - 1, e));
    } else {
        assert(s.update(0, e).drop_first() =~= s.drop_first());
    }
}

proof fn lemma_count_remove(s: Seq<PartialView>, j: int, ip: IpKey)
    requires
        0 <= j < s.len(),
    ensures
        count_from_ip(s.remove(j), ip) <= count_from_ip(s, ip),
    decreases s.len(),
{
    if j == 0 {
        assert(s.remove(0) =~= s.drop_first());
    } else {
        lemma_count_remove(s.drop_first(), j - 1, ip);
        assert(s.remove(j).drop_first() =~= s.drop_first().remove(j - 1));
    }
}

/// Keys occur at most once among partial messages.
pub open spec fn inflight_unique(s: Seq<PartialView>) -> bool {
    forall|i: int, j: int|
        0 <= i < s.len() && 0 <= j < s.len() && #[trigger] s[i].from == #[trigger] s[j].from
            && s[i].msg_id == s[j].msg_id ==> i == j
}

/// Addresses occur at most once among source records.
pub open spec fn sources_unique(s: Seq<SourceState>) -> bool {
    forall|i: int, j: int|
        0 <= i < s.len() && 0 <= j < s.len() && #[trigger] s[i].ip == #[trigger] s[j].ip ==> i == j
}

fn prune_inflight(v: &mut Vec<PartialMessage>, total: &mut usize, now: u64)
    requires
        forall|i: int|
            0 <= i < inflight_views(old(v)@).len() ==> partial_wf(
                #[trigger] inflight_views(old(v)@)[i],
            ),
        inflight_unique(inflight_views(old(v)@)),
        *old(total) == inflight_bytes(inflight_views(old(v)@)),
        per_source_ok(inflight_views(old(v)@)),
    ensures
        per_source_ok(inflight_views(final(v)@)),
        inflight_views(final(v)@) == keep_fresh_inflight(inflight_views(old(v)@), now),
        forall|i: int|
            0 <= i < inflight_views(final(v)@).len() ==> partial_wf(
                #[trigger] inflight_views(final(v)@)[i],
            ),
        inflight_unique(inflight_views(final(v)@)),
        inflight_views(final(v)@).len() <= inflight_views(old(v)@).len(),
        *final(total) == inflight_bytes(inflight_views(final(v)@)),
        *final(total) <= *old(total),
{
    let mut rest: Vec<PartialMessage> = Vec::new();
    std::mem::swap(&mut rest, v);
    let ghost orig = inflight_views(rest@);
    let ghost mut idx: Seq<int> = Seq::empty();
    let ghost mut k: int = 0;
    let mut removed: usize = 0;
    let mut kept: usize = 0;
    assert(orig.skip(0) =~= orig);
    while rest.len() > 0
        invariant
            0 <= k <= orig.len(),
            inflight_views(rest@) == orig.skip(k),
            inflight_views(v@) + keep_fresh_inflight(orig.skip(k), now) == keep_fresh_inflight(
                orig,
                now,
            ),
            idx.len() == v@.len(),
            idx.len() <= k,
            forall|m: int| 0 <= m < idx.len() ==> 0 <= #[trigger] idx[m] < k,
            forall|m: int|
                0 <= m < idx.len() ==> #[trigger] inflight_views(v@)[m] == orig[idx[m]],
            forall|m: int, n: int| 0 <= m < n < idx.len() ==> #[trigger] idx[m] < #[trigger] idx[n],
            forall|i: int| 0 <= i < orig.len() ==> partial_wf(#[trigger] orig[i]),
            inflight_unique(orig),
            kept == inflight_bytes(inflight_views(v@)),
            kept + removed + inflight_bytes(orig.skip(k)) == inflight_bytes(orig),
            inflight_bytes(orig) == *old(total),
        decreases rest.len(),
    {
        let ghost before_v = inflight_views(v@);
        assert(inflight_views(rest@)[0] == orig[k]);
        assert(orig.skip(k).drop_first() =~= orig.skip(k + 1));
        let e = rest.remove(0);
        assert(inflight_views(rest@) =~= orig.skip(k + 1));
        let fresh = if now >= e.created_at {
            now - e.created_at <= P2P_REASSEMBLY_TTL_NANOS
        } else {
            true
        };
        if fresh {
            let b = e.bytes;
            proof {
                lemma_bytes_push(before_v, e@);
            }
            v.push(e);
            kept = kept + b;
            proof {
                assert(inflight_views(v@) =~= before_v.push(orig[k]));
                idx = idx.push(k);
            }
        } else {
            removed = removed + e.bytes;
        }
        proof {
            k = k + 1;
        }
    }
    assert(orig.skip(k) =~= Seq::<PartialView>::empty());
    assert(inflight_views(v@) =~= keep_fresh_inflight(orig, now));
    assert forall|ip: IpKey| #[trigger] count_from_ip(inflight_views(v@), ip)
        <= P2P_MAX_MESSAGES_PER_SOURCE by {
        lemma_count_keep_fresh(orig, now, ip);
    }
    assert forall|i: int, j: int|
        0 <= i < inflight_views(v@).len() && 0 <= j < inflight_views(v@).len()
            && #[trigger] inflight_views(v@)[i].from == #[trigger] inflight_views(v@)[j].from
            && inflight_views(v@)[i].msg_id == inflight_views(v@)[j].msg_id implies i == j by {
        if i != j {
            if i < j {
                assert(idx[i] < idx[j]);
            } else {
                assert(idx[j] < idx[i]);
            }
        }
    }
    *total = if *total >= removed {
        *total - removed
    } else {
        0
    };
}


fn prune_completed(v: &mut Vec<CompletedMessage>, now: u64)
    ensures
        final(v)@ == keep_fresh_completed(old(v)@, now),
{
    let mut out: Vec<CompletedMessage> = Vec::new();
    let mut i: usize = 0;
    let ghost orig = v@;
    assert(orig.skip(0) =~= orig);
    while i < v.len()
        invariant
            v@ == orig,
            0 <= i <= orig.len(),
            out@ + keep_fresh_completed(orig.skip(i as int), now) == keep_fresh_completed(orig, now),
        decreases orig.len() - i,
    {
        let c = v[i];
        assert(orig.skip(i as int).drop_first() =~= orig.skip(i + 1));
        let fresh = if now >= c.seen_at {
            now - c.seen_at <= P2P_REPLAY_WINDOW_NANOS
        } else {
            true
        };
        let ghost before = out@;
        if fresh {
            out.push(c);
            assert(out@ =~= before + seq![c]);
        }
        i = i + 1;
    }
    assert(orig.skip(i as int) =~= Seq::<CompletedMessage>::empty());
    assert(out@ =~= keep_fresh_completed(orig, now));
    *v = out;
}

fn prune_sources(v: &mut Vec<SourceState>, now: u64)
    requires
        sources_unique(old(v)@),
    ensures
        final(v)@ == keep_live_sources(old(v)@, now),
        sources_unique(final(v)@),
{
    let mut out: Vec<SourceState> = Vec::new();
    let mut i: usize = 0;
    let ghost orig = v@;
    let ghost mut idx: Seq<int> = Seq::empty();
    assert(orig.skip(0) =~= orig);
    while i < v.len()
        invariant
            v@ == orig,
            sources_unique(orig),
            0 <= i <= orig.len(),
            out@ + keep_live_sources(orig.skip(i as int), now) == keep_live_sources(orig, now),
            idx.len() == out@.len(),
            forall|m: int| 0 <= m < idx.len() ==> 0 <= #[trigger] idx[m] < i,
            forall|m: int| 0 <= m < idx.len() ==> #[trigger] out@[m] == orig[idx[m]],
            forall|m: int, n: int| 0 <= m < n < idx.len() ==> #[trigger] idx[m] < #[trigger] idx[n],
        decreases orig.len() - i,
    {
        let st = v[i];
        assert(orig.skip(i as int).drop_first() =~= orig.skip(i + 1));
        let live = match st.banned_until {
            Some(until) => until > now,
            None => (if now >= st.window_started {
                now - st.window_started <= P2P_SOURCE_BAN_TTL_NANOS
            } else {
                true
            }) || st.bad_count > 0,
        };
        let ghost before = out@;
        if live {
            out.push(st);
            assert(out@ =~= before + seq![st]);
            proof {
                idx = idx.push(i as int);
            }
        }
        i = i + 1;
    }
    assert(orig.skip(i as int) =~= Seq::<SourceState>::empty());
    assert(out@ =~= keep_live_sources(orig, now));
    assert forall|a: int, b: int|
        0 <= a < out@.len() && 0 <= b < out@.len() && #[trigger] out@[a].ip == #[trigger] out@[b].ip
        implies a == b by {
        if a != b {
            if a < b {
                assert(idx[a] < idx[b]);
            } else {
                assert(idx[b] < idx[a]);
            }
        }
    }
    *v = out;
}

impl P2PUdpReassemblyState {
    /// Drops partial messages past their TTL, completed ids past the replay
    /// window, and source records that are neither banned nor recent.
    pub fn prune(&mut self, now: u64)
        requires
            old(self).wf(),
        ensures
            final(self).wf(),
            final(self)@ == prune_view(old(self)@, now),
    {
        let ghost v0 = self@;
        prune_inflight(&mut self.inflight, &mut self.total_bytes, now);
        prune_completed(&mut self.completed, now);
        prune_sources(&mut self.source_state, now);
        proof {
            let v1 = self@;
            assert forall|i: int| 0 <= i < v1.inflight.len() implies !has_completed(
                v1.completed,
                #[trigger] v1.inflight[i].from,
                v1.inflight[i].msg_id,
            ) by {
                lemma_keep_inflight_subset(v0.inflight, now, i);
                let j = choose|j: int| 0 <= j < v0.inflight.len() && v0.inflight[j] == v1.inflight[i];
                assert(!has_completed(v0.completed, v0.inflight[j].from, v0.inflight[j].msg_id));
                lemma_keep_completed_subset(v0.completed, now, v1.inflight[i].from, v1.inflight[i].msg_id);
            }
        }
    }
}


fn find_inflight(v: &Vec<PartialMessage>, from: PeerAddr, msg_id: u32) -> (r: Option<usize>)
    ensures
        match r {
            Some(i) => i < v@.len() && inflight_views(v@)[i as int].from == from && inflight_views(
                v@,
            )[i as int].msg_id == msg_id,
            None => !has_inflight(inflight_views(v@), from, msg_id),
        },
{
    let mut i: usize = 0;
    while i < v.len()
        invariant
            0 <= i <= v@.len(),
            forall|j: int|
                0 <= j < i ==> !(#[trigger] inflight_views(v@)[j].from == from && inflight_views(
                    v@,
                )[j].msg_id == msg_id),
        decreases v@.len() - i,
    {
        if v[i].from == from && v[i].msg_id == msg_id {
            return Some(i);
        }
        i = i + 1;
    }
    None
}

fn completed_contains(v: &Vec<CompletedMessage>, from: PeerAddr, msg_id: u32) -> (r: bool)
    ensures
        r == has_completed(v@, from, msg_id),
{
    let mut i: usize = 0;
    while i < v.len()
        invariant
            0 <= i <= v@.len(),
            forall|j: int| 0 <= j < i ==> !(#[trigger] v@[j].from == from && v@[j].msg_id == msg_id),
        decreases v@.len() - i,
    {
        if v[i].from == from && v[i].msg_id == msg_id {
            return true;
        }
        i = i + 1;
    }
    false
}

fn count_inflight_from_ip(v: &Vec<PartialMessage>, ip: IpKey) -> (r: usize)
    requires
        v@.len() <= P2P_MAX_INFLIGHT_MESSAGES,
    ensures
        r == count_from_ip(inflight_views(v@), ip),
{
    let ghost s = inflight_views(v@);
    let mut i: usize = 0;
    let mut n: usize = 0;
    assert(s.skip(0) =~= s);
    while i < v.len()
        invariant
            s == inflight_views(v@),
            v@.len() <= P2P_MAX_INFLIGHT_MESSAGES,
            0 <= i <= v@.len(),
            n <= i,
            n + count_from_ip(s.skip(i as int), ip) == count_from_ip(s, ip),
        decreases v@.len() - i,
    {
        assert(s.skip(i as int).drop_first() =~= s.skip(i + 1));
        if v[i].from.ip == ip {
            n = n + 1;
        }
        i = i + 1;
    }
    assert(s.skip(i as int) =~= Seq::<PartialView>::empty());
    n
}

fn find_source(v: &Vec<SourceState>, ip: IpKey) -> (r: Option<usize>)
    ensures
        match r {
            Some(i) => i < v@.len() && v@[i as int].ip == ip,
            None => !has_source(v@, ip),
        },
{
    let mut i: usize = 0;
    while i < v.len()
        invariant
            0 <= i <= v@.len(),
            forall|j: int| 0 <= j < i ==> !(#[trigger] v@[j].ip == ip),
        decreases v@.len() - i,
    {
        if v[i].ip == ip {
            return Some(i);
        }
        i = i + 1;
    }
    None
}

impl P2PUdpReassemblyState {
    /// Whether datagrams from `from`'s address are refused at `now`
    /// (the state is pruned first).
    pub fn is_source_banned(&mut self, from: PeerAddr, now: u64) -> (r: bool)
        requires
            old(self).wf(),
        ensures
            final(self).wf(),
            final(self)@ == prune_view(old(self)@, now),
            r == banned_spec(final(self)@, from.ip, now),
    {
        self.prune(now);
        match find_source(&self.source_state, from.ip) {
            Some(i) => {
                let st = self.source_state[i];
                proof {
                    let c = source_index(self@.sources, from.ip);
                    assert(has_source(self@.sources, from.ip));
                    assert(self@.sources[c].ip == from.ip);
                }
                match st.banned_until {
                    Some(until) => until > now,
                    None => false,
                }
            },
            None => false,
        }
    }

    /// Counts an invalid datagram from `from`'s address; the address is
    /// banned for the ban TTL once the count within the window reaches the
    /// threshold (the state is pruned first).
    pub fn record_invalid_source(&mut self, from: PeerAddr, now: u64)
        requires
            old(self).wf(),
            now <= u64::MAX - P2P_SOURCE_BAN_TTL_NANOS,
        ensures
            final(self).wf(),
            final(self)@ == record_invalid_spec(prune_view(old(self)@, now), from.ip, now),
    {
        self.prune(now);
        let ghost pruned = self@;
        let idx = find_source(&self.source_state, from.ip);
        proof {
            if let Some(i) = idx {
                let c = source_index(pruned.sources, from.ip);
                assert(has_source(pruned.sources, from.ip));
                assert(pruned.sources[c].ip == from.ip);
            }
        }
        let mut st = match idx {
            Some(i) => self.source_state[i],
            None => SourceState { ip: from.ip, window_started: now, bad_count: 0, banned_until: None },
        };
        if let Some(until) = st.banned_until {
            if until > now {
                return;
            }
        }
        let since = if now >= st.window_started {
            now - st.window_started
        } else {
            0
        };
        if since > P2P_BAD_WINDOW_NANOS {
            st.window_started = now;
            st.bad_count = 0;
        }
        st.bad_count = if st.bad_count == u32::MAX {
            u32::MAX
        } else {
            st.bad_count + 1
        };
        if st.bad_count >= P2P_SOURCE_BAN_THRESHOLD {
            st.banned_until = Some(now + P2P_SOURCE_BAN_TTL_NANOS);
            st.bad_count = 0;
        }
        match idx {
            Some(i) => {
                self.source_state.set(i, st);
            },
            None => {
                self.source_state.push(st);
            },
        }
        assert(sources_unique(self@.sources)) by {
            let s = self@.sources;
            assert forall|a: int, b: int|
                0 <= a < s.len() && 0 <= b < s.len() && #[trigger] s[a].ip == #[trigger] s[b].ip
                implies a == b by {
                if idx is None {
                    if a < pruned.sources.len() && b < pruned.sources.len() {
                        assert(pruned.sources[a].ip == pruned.sources[b].ip);
                    } else if a < pruned.sources.len() {
                        assert(pruned.sources[a].ip == from.ip);
                    } else if b < pruned.sources.len() {
                        assert(pruned.sources[b].ip == from.ip);
                    }
                } else {
                    assert(pruned.sources[a].ip == pruned.sources[b].ip);
                }
            }
        }
    }
}


/// The view of what `accept_fragment` returns.
pub open spec fn accept_result_view(r: Result<Option<Vec<u8>>, ReassemblyError>) -> Result<
    Option<Seq<u8>>,
    ReassemblyError,
> {
    match r {
        Ok(Some(v)) => Ok(Some(v@)),
        Ok(None) => Ok(None),
        Err(e) => Err(e),
    }
}

fn new_partial_message(from: PeerAddr, msg_id: u32, frag_cnt: u16, now: u64) -> (e: PartialMessage)
    ensures
        e@ == new_partial(from, msg_id, frag_cnt, now),
{
    let mut parts: Vec<Option<Vec<u8>>> = Vec::new();
    let mut i: u16 = 0;
    while i < frag_cnt
        invariant
            0 <= i <= frag_cnt,
            parts@.len() == i,
            forall|k: int| 0 <= k < i ==> #[trigger] parts@[k] is None,
        decreases frag_cnt - i,
    {
        parts.push(None);
        i = i + 1;
    }
    let e = PartialMessage { from, msg_id, created_at: now, last_seen: now, frag_cnt, bytes: 0, parts };
    assert(e@.parts =~= Seq::new(frag_cnt as nat, |k: int| None::<Seq<u8>>));
    e
}

fn count_parts(parts: &Vec<Option<Vec<u8>>>) -> (n: usize)
    ensures
        n == count_present(parts@.map_values(|p: Option<Vec<u8>>| part_view(p))),
{
    let ghost s = parts@.map_values(|p: Option<Vec<u8>>| part_view(p));
    let mut i: usize = 0;
    let mut n: usize = 0;
    assert(s.skip(0) =~= s);
    while i < parts.len()
        invariant
            s == parts@.map_values(|p: Option<Vec<u8>>| part_view(p)),
            0 <= i <= parts@.len(),
            n <= i,
            n + count_present(s.skip(i as int)) == count_present(s),
        decreases parts@.len() - i,
    {
        assert(s.skip(i as int).drop_first() =~= s.skip(i + 1));
        if parts[i].is_some() {
            n = n + 1;
        }
        i = i + 1;
    }
    assert(s.skip(i as int) =~= Seq::<Option<Seq<u8>>>::empty());
    n
}

fn concat_parts_exec(parts: &Vec<Option<Vec<u8>>>) -> (out: Vec<u8>)
    ensures
        out@ == concat_parts(parts@.map_values(|p: Option<Vec<u8>>| part_view(p))),
{
    let ghost s = parts@.map_values(|p: Option<Vec<u8>>| part_view(p));
    let mut out: Vec<u8> = Vec::new();
    let mut i: usize = 0;
    assert(s.skip(0) =~= s);
    while i < parts.len()
        invariant
            s == parts@.map_values(|p: Option<Vec<u8>>| part_view(p)),
            0 <= i <= parts@.len(),
            out@ + concat_parts(s.skip(i as int)) == concat_parts(s),
        decreases parts@.len() - i,
    {
        assert(s.skip(i as int).drop_first() =~= s.skip(i + 1));
        let ghost before = out@;
        match &parts[i] {
            Some(p) => {
                push_bytes(&mut out, p.as_slice());
            },
            None => {},
        }
        assert(out@ + concat_parts(s.skip(i + 1)) =~= before + concat_parts(s.skip(i as int)));
        i = i + 1;
    }
    assert(s.skip(i as int) =~= Seq::<Option<Seq<u8>>>::empty());
    assert(out@ =~= concat_parts(s));
    out
}

fn copy_bytes(s: &[u8]) -> (r: Vec<u8>)
    ensures
        r@ == s@,
{
    let mut r: Vec<u8> = Vec::new();
    push_bytes(&mut r, s);
    assert(r@ =~= s@);
    r
}

impl P2PUdpReassemblyState {
    /// Takes one fragment of message `msg_id` from `from` (the state is
    /// pruned first). Returns the whole message once its last missing
    /// fragment arrives, `None` while fragments are missing or for a
    /// duplicate or a message already completed, and an error for metadata
    /// or payloads out of bounds or when a limit would be exceeded.
    pub fn accept_fragment(
        &mut self,
        from: PeerAddr,
        msg_id: u32,
        frag_idx: u16,
        frag_cnt: u16,
        payload: &[u8],
        now: u64,
    ) -> (r: Result<Option<Vec<u8>>, ReassemblyError>)
        requires
            old(self).wf(),
        ensures
            final(self).wf(),
            final(self)@ == accept_spec(
                prune_view(old(self)@, now),
                from,
                msg_id,
                frag_idx,
                frag_cnt,
                payload@,
                now,
            ).0,
            accept_result_view(r) == accept_spec(
                prune_view(old(self)@, now),
                from,
                msg_id,
                frag_idx,
                frag_cnt,
                payload@,
                now,
            ).1,
    {
        self.prune(now);
        let ghost v = self@;
        if frag_cnt == 0 || frag_idx >= frag_cnt {
            return Err(ReassemblyError::InvalidMetadata);
        }
        if frag_cnt > P2P_MAX_FRAGMENTS {
            return Err(ReassemblyError::TooManyFragments);
        }
        if payload.len() > P2P_MAX_FRAGMENT_PAYLOAD {
            return Err(ReassemblyError::PayloadTooLarge);
        }
        if completed_contains(&self.completed, from, msg_id) {
            return Ok(None);
        }
        let idx = find_inflight(&self.inflight, from, msg_id);
        proof {
            if let Some(i) = idx {
                assert(has_inflight(v.inflight, from, msg_id));
                let c = inflight_index(v.inflight, from, msg_id);
                assert(v.inflight[c].from == from && v.inflight[c].msg_id == msg_id);
                assert(c == i);
            } else {
                assert(inflight_index(v.inflight, from, msg_id) == -1);
            }
        }
        let fi = frag_idx as usize;
        match idx {
            None => {
                if self.inflight.len() >= P2P_MAX_INFLIGHT_MESSAGES {
                    return Err(ReassemblyError::InflightMessageLimit);
                }
                if count_inflight_from_ip(&self.inflight, from.ip) >= P2P_MAX_MESSAGES_PER_SOURCE {
                    return Err(ReassemblyError::PerSourceMessageLimit);
                }
            },
            Some(i) => {
                if fi < self.inflight[i].parts.len() && self.inflight[i].parts[fi].is_some() {
                    return Ok(None);
                }
            },
        }
        assert(idx is None ==> count_from_ip(v.inflight, from.ip) < P2P_MAX_MESSAGES_PER_SOURCE);
        if self.total_bytes + payload.len() > P2P_MAX_INFLIGHT_BYTES {
            return Err(ReassemblyError::InflightByteLimit);
        }
        let ghost old_total = self.total_bytes;
        let (mut entry, j) = match idx {
            Some(i) => {
                let e = self.inflight.remove(i);
                proof {
                    assert(inflight_views(self.inflight@) =~= v.inflight.remove(i as int));
                }
                (e, i)
            },
            None => {
                let e = new_partial_message(from, msg_id, frag_cnt, now);
                proof {
                    lemma_empty_parts(frag_cnt as nat);
                }
                (e, self.inflight.len())
            },
        };
        let ghost e0 = entry@;
        let ghost with_entry = if idx is Some {
            v.inflight
        } else {
            v.inflight.push(e0)
        };
        proof {
            assert(inflight_views(self.inflight@) =~= with_entry.remove(j as int));
            assert(with_entry[j as int] == e0);
            assert(partial_wf(e0) || idx is None);
            if idx is None {
                lemma_bytes_push(v.inflight, e0);
            } else {
                lemma_bytes_remove(v.inflight, j as int);
            }
            assert forall|ip: IpKey| #[trigger] count_from_ip(with_entry, ip)
                <= P2P_MAX_MESSAGES_PER_SOURCE by {
                if idx is None {
                    lemma_count_push(v.inflight, e0, ip);
                }
            }
            assert(keys_disjoint(with_entry, v.completed)) by {
                assert forall|k: int| 0 <= k < with_entry.len() implies !has_completed(
                    v.completed,
                    #[trigger] with_entry[k].from,
                    with_entry[k].msg_id,
                ) by {
                    if k < v.inflight.len() {
                        assert(with_entry[k] == v.inflight[k]);
                    }
                }
            }
        }
        if entry.frag_cnt != frag_cnt {
            self.inflight.insert(j, entry);
            proof {
                assert(inflight_views(self.inflight@) =~= v.inflight);
            }
            return Err(ReassemblyError::FragmentCountChanged);
        }
        if entry.bytes + payload.len() > self.max_message_size {
            self.inflight.insert(j, entry);
            proof {
                assert(inflight_views(self.inflight@) =~= with_entry);
                assert(inflight_unique(with_entry));
            }
            return Err(ReassemblyError::MessageTooLarge);
        }
        let part = copy_bytes(payload);
        let ghost parts0 = entry@.parts;
        entry.parts.set(fi, Some(part));
        entry.bytes = entry.bytes + payload.len();
        entry.last_seen = now;
        self.total_bytes = self.total_bytes + payload.len();
        let ghost e2 = add_part(e0, frag_idx, payload@, now);
        proof {
            assert(entry@.parts =~= parts0.update(fi as int, Some(payload@)));
            assert(entry@ == e2);
            lemma_parts_update(parts0, fi as int, payload@);
            lemma_count_le_len(e2.parts);
        }
        let cnt = count_parts(&entry.parts);
        if cnt != frag_cnt as usize {
            self.inflight.insert(j, entry);
            proof {
                assert(inflight_views(self.inflight@) =~= with_entry.update(j as int, e2));
                lemma_bytes_update(with_entry, j as int, e2);
                assert(inflight_unique(with_entry.update(j as int, e2)));
                assert forall|ip: IpKey| #[trigger] count_from_ip(with_entry.update(j as int, e2), ip)
                    <= P2P_MAX_MESSAGES_PER_SOURCE by {
                    lemma_count_update(with_entry, j as int, e2, ip);
                }
                let u = with_entry.update(j as int, e2);
                assert forall|k: int| 0 <= k < u.len() implies !has_completed(
                    v.completed,
                    #[trigger] u[k].from,
                    u[k].msg_id,
                ) by {
                    if k != j {
                        assert(u[k] == with_entry[k]);
                    }
                }
            }
            return Ok(None);
        }
        self.total_bytes = self.total_bytes - entry.bytes;
        proof {
            assert forall|ip: IpKey| #[trigger] count_from_ip(with_entry.remove(j as int), ip)
                <= P2P_MAX_MESSAGES_PER_SOURCE by {
                lemma_count_remove(with_entry, j as int, ip);
            }
            let rm = with_entry.remove(j as int);
            let c2 = v.completed.push(CompletedMessage { from, msg_id, seen_at: now });
            assert forall|k: int| 0 <= k < rm.len() implies !has_completed(
                c2,
                #[trigger] rm[k].from,
                rm[k].msg_id,
            ) by {
                let kk = if k < j { k } else { k + 1 };
                assert(rm[k] == with_entry[kk]);
                assert(!(rm[k].from == from && rm[k].msg_id == msg_id)) by {
                    if rm[k].from == from && rm[k].msg_id == msg_id {
                        assert(with_entry[j as int].from == from);
                    }
                }
                if has_completed(c2, rm[k].from, rm[k].msg_id) {
                    let m = choose|m: int|
                        0 <= m < c2.len() && c2[m].from == rm[k].from && c2[m].msg_id == rm[k].msg_id;
                    if m < v.completed.len() {
                        assert(c2[m] == v.completed[m]);
                    }
                }
            }
        }
        let out = concat_parts_exec(&entry.parts);
        self.completed.push(CompletedMessage { from, msg_id, seen_at: now });
        Ok(Some(out))
    }
}


proof fn lemma_keep_completed_contains(s: Seq<CompletedMessage>, k: int, now: u64)
    requires
        0 <= k < s.len(),
        elapsed(now, s[k].seen_at) <= P2P_REPLAY_WINDOW_NANOS,
    ensures
        has_completed(keep_fresh_completed(s, now), s[k].from, s[k].msg_id),
    decreases s.len(),
{
    let r = keep_fresh_completed(s, now);
    if k == 0 {
        assert(r[0] == s[0]);
    } else {
        lemma_keep_completed_contains(s.drop_first(), k - 1, now);
        let t = keep_fresh_completed(s.drop_first(), now);
        let j = choose|j: int|
            0 <= j < t.len() && t[j].from == s[k].from && t[j].msg_id == s[k].msg_id;
        let off = r.len() - t.len();
        assert(r[off + j] == t[j]);
    }
}

/// A message that completed is never delivered twice: while it is within
/// the replay window, any further well-formed fragment of it is answered
/// with `Ok(None)` and changes nothing but what pruning drops.
pub proof fn lemma_completed_message_not_redelivered(
    v: ReassemblyView,
    from: PeerAddr,
    msg_id: u32,
    frag_idx: u16,
    frag_cnt: u16,
    payload: Seq<u8>,
    now: u64,
    frag_idx2: u16,
    frag_cnt2: u16,
    payload2: Seq<u8>,
    now2: u64,
)
    requires
        accept_spec(v, from, msg_id, frag_idx, frag_cnt, payload, now).1 is Ok,
        accept_spec(v, from, msg_id, frag_idx, frag_cnt, payload, now).1->Ok_0 is Some,
        elapsed(now2, now) <= P2P_REPLAY_WINDOW_NANOS,
        0 < frag_cnt2 <= P2P_MAX_FRAGMENTS,
        frag_idx2 < frag_cnt2,
        payload2.len() <= P2P_MAX_FRAGMENT_PAYLOAD,
    ensures
        ({
            let v1 = prune_view(
                accept_spec(v, from, msg_id, frag_idx, frag_cnt, payload, now).0,
                now2,
            );
            accept_spec(v1, from, msg_id, frag_idx2, frag_cnt2, payload2, now2) == (v1, Ok::<
                Option<Seq<u8>>,
                ReassemblyError,
            >(None))
        }),
{
    let v0 = accept_spec(v, from, msg_id, frag_idx, frag_cnt, payload, now).0;
    let c = CompletedMessage { from, msg_id, seen_at: now };
    assert(v0.completed == v.completed.push(c));
    assert(v0.completed[v.completed.len() as int] == c);
    lemma_keep_completed_contains(v0.completed, v.completed.len() as int, now2);
}

impl P2PUdpReassemblyState {
    /// The receiver never holds more partial messages, nor more of their
    /// bytes, than its limits allow, nor more than the per-source limit of
    /// partial messages from one IP address; each partial message keeps its
    /// fragment bookkeeping, and no message is both partial and completed.
    pub proof fn lemma_limits(&self)
        requires
            self.wf(),
        ensures
            self@.inflight.len() <= P2P_MAX_INFLIGHT_MESSAGES,
            inflight_bytes(self@.inflight) <= P2P_MAX_INFLIGHT_BYTES,
            forall|i: int|
                0 <= i < self@.inflight.len() ==> partial_wf(#[trigger] self@.inflight[i]),
            forall|ip: IpKey| #[trigger] count_from_ip(self@.inflight, ip) <= P2P_MAX_MESSAGES_PER_SOURCE,
            keys_disjoint(self@.inflight, self@.completed),
    {
    }
}

/// The parts of a message of `n` fragments once the given fragments, each
/// an index and a payload, arrived in turn: each index holds the payload of
/// the first fragment with that index; later copies are ignored.
pub open spec fn placed_first(frags: Seq<(u16, Seq<u8>)>, n: u16) -> Seq<Option<Seq<u8>>>
    decreases frags.len(),
{
    if frags.len() == 0 {
        Seq::new(n as nat, |k: int| None::<Seq<u8>>)
    } else {
        let p = placed_first(frags.drop_last(), n);
        if !(0 <= frags.last().0 < p.len()) || p[frags.last().0 as int] is Some {
            p
        } else {
            p.update(frags.last().0 as int, Some(frags.last().1))
        }
    }
}

proof fn lemma_placed_first_len(frags: Seq<(u16, Seq<u8>)>, n: u16)
    ensures
        placed_first(frags, n).len() == n,
    decreases frags.len(),
{
    if frags.len() > 0 {
        lemma_placed_first_len(frags.drop_last(), n);
    }
}

proof fn lemma_keep_inflight_contains(s: Seq<PartialView>, now: u64, i0: int)
    requires
        0 <= i0 < s.len(),
        elapsed(now, s[i0].created_at) <= P2P_REASSEMBLY_TTL_NANOS,
    ensures
        exists|j: int| 0 <= j < keep_fresh_inflight(s, now).len() && keep_fresh_inflight(s, now)[j] == s[i0],
    decreases s.len(),
{
    let head: Seq<PartialView> = if elapsed(now, s[0].created_at) <= P2P_REASSEMBLY_TTL_NANOS {
        seq![s[0]]
    } else {
        Seq::empty()
    };
    let t = keep_fresh_inflight(s.drop_first(), now);
    let r = keep_fresh_inflight(s, now);
    assert(r == head + t);
    if i0 == 0 {
        assert(r[0] == s[0]);
    } else {
        assert(s.drop_first()[i0 - 1] == s[i0]);
        lemma_keep_inflight_contains(s.drop_first(), now, i0 - 1);
        let j = choose|j: int| 0 <= j < t.len() && t[j] == s[i0];
        assert(r[head.len() + j] == t[j]);
    }
}

/// The partial message for a key in `v`, its parts, count and creation time,
/// and that the key is not completed.
pub open spec fn entry_is(
    v: ReassemblyView,
    from: PeerAddr,
    msg_id: u32,
    parts: Seq<Option<Seq<u8>>>,
    n: u16,
    created: u64,
) -> bool {
    &&& has_inflight(v.inflight, from, msg_id)
    &&& v.inflight[inflight_index(v.inflight, from, msg_id)].parts == parts
    &&& v.inflight[inflight_index(v.inflight, from, msg_id)].frag_cnt == n
    &&& v.inflight[inflight_index(v.inflight, from, msg_id)].created_at == created
    &&& !has_completed(v.completed, from, msg_id)
}

/// The hypotheses of the delivery law: fragments of one message of `n`
/// fragments, each with an index below `n` (copies of an index allowed),
/// accepted one after the other by states that each keep the bookkeeping,
/// starting where the message is neither partial nor completed, all within
/// the reassembly TTL of the first, none refused, and every index arrived
/// only once the last fragment of the run came (the run ends where the
/// message is complete, if it is).
pub open spec fn delivery_run(
    states: Seq<P2PUdpReassemblyState>,
    results: Seq<Result<Option<Seq<u8>>, ReassemblyError>>,
    from: PeerAddr,
    msg_id: u32,
    n: u16,
    frags: Seq<(u16, Seq<u8>)>,
    nows: Seq<u64>,
) -> bool {
    &&& n >= 1
    &&& frags.len() >= 1
    &&& forall|k: int| 0 <= k < frags.len() ==> (#[trigger] frags[k]).0 < n
    &&& states.len() == frags.len() + 1
    &&& results.len() == frags.len()
    &&& nows.len() == frags.len()
    &&& forall|k: int| 0 <= k <= frags.len() ==> (#[trigger] states[k]).wf()
    &&& !has_inflight(states[0]@.inflight, from, msg_id)
    &&& !has_completed(states[0]@.completed, from, msg_id)
    &&& forall|k: int|
        0 <= k < frags.len() ==> nows[0] <= #[trigger] nows[k] && nows[k] - nows[0]
            <= P2P_REASSEMBLY_TTL_NANOS
    &&& forall|k: int|
        0 <= k < frags.len() ==> (states[k + 1]@, #[trigger] results[k]) == accept_spec(
            prune_view(states[k]@, nows[k]),
            from,
            msg_id,
            frags[k].0,
            n,
            frags[k].1,
            nows[k],
        )
    &&& forall|k: int| 0 <= k < frags.len() ==> (#[trigger] results[k]) is Ok
    &&& forall|k: int|
        1 <= k < frags.len() ==> count_present(#[trigger] placed_first(frags.take(k), n)) < n
}

proof fn lemma_delivery_inv(
    states: Seq<P2PUdpReassemblyState>,
    results: Seq<Result<Option<Seq<u8>>, ReassemblyError>>,
    from: PeerAddr,
    msg_id: u32,
    n: u16,
    frags: Seq<(u16, Seq<u8>)>,
    nows: Seq<u64>,
    k: int,
)
    requires
        delivery_run(states, results, from, msg_id, n, frags, nows),
        1 <= k <= frags.len(),
    ensures
        k < frags.len() ==> entry_is(
            states[k]@,
            from,
            msg_id,
            placed_first(frags.take(k), n),
            n,
            nows[0],
        ),
        k < frags.len() ==> results[k - 1] == Ok::<Option<Seq<u8>>, ReassemblyError>(None),
        k == frags.len() ==> results[k - 1] == (if count_present(placed_first(frags, n)) == n {
            Ok::<Option<Seq<u8>>, ReassemblyError>(Some(concat_parts(placed_first(frags, n))))
        } else {
            Ok::<Option<Seq<u8>>, ReassemblyError>(None)
        }),
    decreases k,
{
    if k > 1 {
        lemma_delivery_inv(states, results, from, msg_id, n, frags, nows, k - 1);
    }
    let p = k - 1;
    let st = states[p];
    assert(st.wf());
    assert(states[k].wf());
    let s = st@;
    let now = nows[p];
    let v = prune_view(s, now);
    let idx = frags[p].0;
    let pay = frags[p].1;
    assert(idx < n);
    let tk = frags.take(k);
    let tp = frags.take(p);
    assert(tk.drop_last() =~= tp);
    assert(tk.last() == frags[p]);
    lemma_placed_first_len(tp, n);
    lemma_placed_first_len(tk, n);
    lemma_keep_completed_subset(s.completed, now, from, msg_id);
    // Where the message stands after pruning.
    if p == 0 {
        if has_inflight(v.inflight, from, msg_id) {
            let j = choose|j: int|
                0 <= j < v.inflight.len() && v.inflight[j].from == from && v.inflight[j].msg_id
                    == msg_id;
            lemma_keep_inflight_subset(s.inflight, now, j);
            let j0 = choose|j0: int| 0 <= j0 < s.inflight.len() && s.inflight[j0] == v.inflight[j];
            assert(has_inflight(s.inflight, from, msg_id));
        }
        assert(inflight_index(v.inflight, from, msg_id) == -1);
        assert(tp =~= Seq::<(u16, Seq<u8>)>::empty());
        assert(new_partial(from, msg_id, n, now).parts =~= placed_first(tp, n));
    } else {
        let i0 = inflight_index(s.inflight, from, msg_id);
        assert(s.inflight[i0].created_at == nows[0]);
        lemma_keep_inflight_contains(s.inflight, now, i0);
        let j = choose|j: int| 0 <= j < v.inflight.len() && v.inflight[j] == s.inflight[i0];
        assert(has_inflight(v.inflight, from, msg_id));
        let i = inflight_index(v.inflight, from, msg_id);
        lemma_keep_inflight_subset(s.inflight, now, i);
        let j1 = choose|j1: int| 0 <= j1 < s.inflight.len() && s.inflight[j1] == v.inflight[i];
        assert(s.inflight[j1].from == s.inflight[i0].from);
        assert(j1 == i0);
        assert(v.inflight[i] == s.inflight[i0]);
    }
    let r = accept_spec(v, from, msg_id, idx, n, pay, now);
    assert(states[k]@ == r.0 && results[p] == r.1);
    assert(results[p] is Ok);
    let i = inflight_index(v.inflight, from, msg_id);
    let e = if i >= 0 {
        v.inflight[i]
    } else {
        new_partial(from, msg_id, n, now)
    };
    assert(e.parts == placed_first(tp, n));
    if placed_first(tp, n)[idx as int] is Some {
        // A copy of an index already held: nothing changes but pruning.
        assert(i >= 0);
        assert(placed_first(tk, n) == placed_first(tp, n));
        assert(states[k]@ == v);
        if k < frags.len() {
        } else {
            assert(tk =~= frags);
            assert(count_present(placed_first(tp, n)) < n || p == 0);
        }
    } else {
        lemma_parts_update(placed_first(tp, n), idx as int, pay);
        let with_entry = if i >= 0 {
            v.inflight
        } else {
            v.inflight.push(e)
        };
        let jj = if i >= 0 {
            i
        } else {
            v.inflight.len() as int
        };
        let e2 = add_part(e, idx, pay, now);
        assert(e2.parts == placed_first(tk, n));
        if k == frags.len() {
            assert(tk =~= frags);
        } else {
            assert(count_present(placed_first(tk, n)) < n);
            let u = states[k]@.inflight;
            assert(u == with_entry.update(jj, e2));
            assert(u[jj].from == from && u[jj].msg_id == msg_id);
            assert(has_inflight(u, from, msg_id));
            let c = inflight_index(u, from, msg_id);
            assert(u[c].from == u[jj].from && u[c].msg_id == u[jj].msg_id);
            assert(c == jj);
            assert(states[k]@.completed == v.completed);
        }
    }
}

/// A message is delivered once, whole, and in order of its indices: when
/// fragments of it (copies of an index allowed) are accepted one after the
/// other within the reassembly TTL of the first and none is refused, every
/// call answers `Ok(None)` until the call after which every index has
/// arrived; that call answers the payloads of the first fragment of each
/// index, joined in the order of the indices. (Later copies are answered
/// `Ok(None)`: see `lemma_completed_message_not_redelivered`.)
pub proof fn lemma_message_delivered_once_in_order(
    states: Seq<P2PUdpReassemblyState>,
    results: Seq<Result<Option<Seq<u8>>, ReassemblyError>>,
    from: PeerAddr,
    msg_id: u32,
    n: u16,
    frags: Seq<(u16, Seq<u8>)>,
    nows: Seq<u64>,
)
    requires
        delivery_run(states, results, from, msg_id, n, frags, nows),
    ensures
        forall|k: int|
            0 <= k < frags.len() - 1 ==> #[trigger] results[k] == Ok::<
                Option<Seq<u8>>,
                ReassemblyError,
            >(None),
        results[frags.len() - 1] == (if count_present(placed_first(frags, n)) == n {
            Ok::<Option<Seq<u8>>, ReassemblyError>(Some(concat_parts(placed_first(frags, n))))
        } else {
            Ok::<Option<Seq<u8>>, ReassemblyError>(None)
        }),
{
    assert forall|k: int| 0 <= k < frags.len() - 1 implies #[trigger] results[k] == Ok::<
        Option<Seq<u8>>,
        ReassemblyError,
    >(None) by {
        lemma_delivery_inv(states, results, from, msg_id, n, frags, nows, k + 1);
    }
    lemma_delivery_inv(states, results, from, msg_id, n, frags, nows, frags.len() as int);
}

} // verus!
