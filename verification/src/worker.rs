use crate::endpoints::chars_equal;
use crate::text;
use crate::text::derive_model_id_from_path;
use crate::text_wrappers::{str_chars, string_append, string_push};
use vstd::string::StringSliceAdditionalSpecFns;
use vstd::prelude::*;

verus! {

/// Why the worker gives up after the server's answer to its login or to a
/// model pull.
#[derive(Debug, Clone, Copy, PartialEq, Eq, Structural)]
pub enum WorkerFailure {
    /// The server refused the login.
    LoginFailed,
    /// The pull of a model failed on the server.
    PullFailed,
    /// The server assigned no model that this device can run.
    NoCompatibleModel,
}

/// The model names among the assigned pods, in order.
pub open spec fn named_models(names: Seq<Option<String>>) -> Seq<Seq<char>>
    decreases names.len(),
{
    if names.len() == 0 {
        Seq::empty()
    } else {
        let rest = named_models(names.drop_last());
        match names.last() {
            Some(n) => rest.push(n@),
            None => rest,
        }
    }
}

fn collect_named(names: &[Option<String>]) -> (r: Vec<String>)
    ensures
        r@.map_values(|s: String| s@) == named_models(names@),
{
    let mut out: Vec<String> = Vec::new();
    let mut i: usize = 0;
    while i < names.len()
        invariant
            i <= names@.len(),
            out@.map_values(|s: String| s@) == named_models(names@.take(i as int)),
        decreases names@.len() - i,
    {
        assert(names@.take(i + 1).drop_last() =~= names@.take(i as int));
        let ghost before = out@;
        match &names[i] {
            Some(n) => {
                out.push(n.clone());
                assert(out@.map_values(|s: String| s@) =~= before.map_values(|s: String| s@).push(
                    n@,
                ));
            },
            None => {},
        }
        i = i + 1;
    }
    assert(names@.take(names@.len() as int) =~= names@);
    out
}

/// What the worker does with the server's answer to its login: on success
/// it runs the named models of the pods it was given, and at least one pod
/// must be given; otherwise it stops.
pub fn login_outcome(success: bool, pod_models: &[Option<String>]) -> (r: Result<
    Vec<String>,
    WorkerFailure,
>)
    ensures
        !success ==> r == Err::<Vec<String>, WorkerFailure>(WorkerFailure::LoginFailed),
        success && pod_models@.len() == 0 ==> r == Err::<Vec<String>, WorkerFailure>(
            WorkerFailure::NoCompatibleModel,
        ),
        success && pod_models@.len() > 0 ==> (r matches Ok(v) && v@.map_values(|s: String| s@)
            == named_models(pod_models@)),
{
    if !success {
        return Err(WorkerFailure::LoginFailed);
    }
    if pod_models.len() == 0 {
        return Err(WorkerFailure::NoCompatibleModel);
    }
    Ok(collect_named(pod_models))
}

/// What the worker does with the answer to a model pull: an error stops
/// it, as does an empty list of pods; otherwise it runs the named models.
pub fn pull_model_outcome(failed: bool, pod_models: &[Option<String>]) -> (r: Result<
    Vec<String>,
    WorkerFailure,
>)
    ensures
        failed ==> r == Err::<Vec<String>, WorkerFailure>(WorkerFailure::PullFailed),
        !failed && pod_models@.len() == 0 ==> r == Err::<Vec<String>, WorkerFailure>(
            WorkerFailure::NoCompatibleModel,
        ),
        !failed && pod_models@.len() > 0 ==> (r matches Ok(v) && v@.map_values(|s: String| s@)
            == named_models(pod_models@)),
{
    if failed {
        return Err(WorkerFailure::PullFailed);
    }
    if pod_models.len() == 0 {
        return Err(WorkerFailure::NoCompatibleModel);
    }
    Ok(collect_named(pod_models))
}

/// The model id the phone reports after login: derived from the path of
/// the model it holds, or from `android` when it holds none.
pub fn reported_model_id(current_model: Option<&str>) -> (r: String)
    ensures
        r@ == text::model_id_spec(
            match current_model {
                Some(p) => p@,
                None => "android"@,
            },
        ),
{
    match current_model {
        Some(p) => derive_model_id_from_path(p),
        None => derive_model_id_from_path("android"),
    }
}

/// The decimal digit for `d`.
pub open spec fn digit_char(d: int) -> char {
    (('0' as u32) + d) as char
}

/// The decimal digits of `n`, without leading zeros.
pub open spec fn decimal_text(n: nat) -> Seq<char>
    decreases n,
{
    if n < 10 {
        seq![digit_char(n as int)]
    } else {
        decimal_text(n / 10).push(digit_char((n % 10) as int))
    }
}

/// Writes `n` in decimal after `s`.
fn append_decimal(s: &mut String, n: u32)
    ensures
        final(s)@ == old(s)@ + decimal_text(n as nat),
    decreases n,
{
    if n >= 10 {
        append_decimal(s, n / 10);
    }
    let d = n % 10;
    let c: char = if d == 0 {
        '0'
    } else if d == 1 {
        '1'
    } else if d == 2 {
        '2'
    } else if d == 3 {
        '3'
    } else if d == 4 {
        '4'
    } else if d == 5 {
        '5'
    } else if d == 6 {
        '6'
    } else if d == 7 {
        '7'
    } else if d == 8 {
        '8'
    } else {
        '9'
    };
    assert(c == digit_char(d as int));
    string_push(s, c);
}

/// How a peer can reach this worker's UDP data plane.
#[derive(Debug, Clone, Copy, PartialEq, Eq, Structural)]
pub enum CandidateKind {
    /// The worker's own address.
    Host,
    /// The address a STUN server saw.
    Srflx,
    /// An address relayed by a TURN server.
    Relay,
}

/// One address offered to the peer, with its preference.
pub struct P2PCandidate {
    pub kind: CandidateKind,
    pub addr: String,
    pub priority: u32,
}

/// The candidates offered for a fresh data-plane socket: the worker's own
/// address and port first (priority 200), then the address a STUN server
/// reported for it, if any (priority 100).
pub fn p2p_udp_candidates(advertise_ip: &str, local_port: u16, srflx: Option<String>) -> (r: Vec<
    P2PCandidate,
>)
    ensures
        r@.len() == (if srflx is Some { 2int } else { 1int }),
        r@[0].kind == CandidateKind::Host,
        r@[0].addr@ == advertise_ip@ + ":"@ + decimal_text(local_port as nat),
        r@[0].priority == 200,
        srflx matches Some(a) ==> r@[1].kind == CandidateKind::Srflx && r@[1].addr@ == a@
            && r@[1].priority == 100,
{
    let mut host = String::new();
    string_append(&mut host, advertise_ip);
    string_append(&mut host, ":");
    append_decimal(&mut host, local_port as u32);
    let mut out: Vec<P2PCandidate> = Vec::new();
    out.push(P2PCandidate { kind: CandidateKind::Host, addr: host, priority: 200 });
    match srflx {
        Some(a) => out.push(P2PCandidate { kind: CandidateKind::Srflx, addr: a, priority: 100 }),
        None => {},
    }
    out
}

/// The candidate for an address relayed by a TURN server (priority 50).
pub fn relay_candidate(relayed: String) -> (r: P2PCandidate)
    ensures
        r.kind == CandidateKind::Relay,
        r.addr@ == relayed@,
        r.priority == 50,
{
    P2PCandidate { kind: CandidateKind::Relay, addr: relayed, priority: 50 }
}

/// How the worker talks to the server.
#[derive(Debug, Clone, Copy, PartialEq, Eq, Structural)]
pub enum WorkerType {
    /// A plain TCP control connection.
    TCP,
    /// A WebSocket control connection.
    WS,
}

/// The worker type a caller names: exactly `TCP` or `WS`.
pub fn parse_worker_type(name: &str) -> (r: Option<WorkerType>)
    ensures
        r == (if name@ == "TCP"@ {
            Some(WorkerType::TCP)
        } else if name@ == "WS"@ {
            Some(WorkerType::WS)
        } else {
            None::<WorkerType>
        }),
{
    let n = str_chars(name);
    if chars_equal(n.as_slice(), str_chars("TCP").as_slice()) {
        Some(WorkerType::TCP)
    } else if chars_equal(n.as_slice(), str_chars("WS").as_slice()) {
        Some(WorkerType::WS)
    } else {
        None
    }
}

/// The bytes a status text takes in a caller's C buffer of `buffer_size`
/// bytes: its UTF-8 bytes and a closing NUL, or `None` when the text holds
/// a NUL itself or does not fit.
pub fn status_for_c_buffer(status: &str, buffer_size: usize) -> (r: Option<Vec<u8>>)
    ensures
        ({
            let b = status.spec_bytes();
            if b.contains(0u8) || b.len() + 1 > buffer_size {
                r is None
            } else {
                (r matches Some(v) && v@ == b.push(0u8))
            }
        }),
{
    let b = status.as_bytes();
    let n = b.len();
    let mut out: Vec<u8> = Vec::new();
    let mut i: usize = 0;
    while i < n
        invariant
            n == b@.len(),
            b@ == status.spec_bytes(),
            i <= n,
            out@ == b@.take(i as int),
            forall|j: int| 0 <= j < i ==> b@[j] != 0u8,
        decreases n - i,
    {
        if b[i] == 0 {
            assert(b@[i as int] == 0u8);
            assert(b@.contains(0u8));
            return None;
        }
        out.push(b[i]);
        i = i + 1;
        assert(out@ =~= b@.take(i as int));
    }
    assert(b@.take(n as int) =~= b@);
    assert(!b@.contains(0u8));
    if n >= buffer_size {
        return None;
    }
    out.push(0u8);
    Some(out)
}

} // verus!
