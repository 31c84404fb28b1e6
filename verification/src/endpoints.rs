use crate::bytes::copy_chars;
use crate::text_wrappers::{str_chars, string_from_chars};
use vstd::prelude::*;

verus! {

/// Characters with the Unicode `White_Space` property, those that
/// `str::trim` removes.
pub open spec fn is_whitespace(c: char) -> bool {
    let u = c as u32;
    ||| 0x09 <= u <= 0x0d
    ||| u == 0x20
    ||| u == 0x85
    ||| u == 0xa0
    ||| u == 0x1680
    ||| 0x2000 <= u <= 0x200a
    ||| u == 0x2028
    ||| u == 0x2029
    ||| u == 0x202f
    ||| u == 0x205f
    ||| u == 0x3000
}

/// The first position at or after `i` that holds no whitespace.
pub open spec fn first_non_ws(s: Seq<char>, i: int) -> int
    decreases s.len() - i,
{
    if i < 0 || i >= s.len() {
        s.len() as int
    } else if is_whitespace(s[i]) {
        first_non_ws(s, i + 1)
    } else {
        i
    }
}

/// The end of `s[lo..j]` once trailing whitespace is dropped.
pub open spec fn trimmed_end(s: Seq<char>, lo: int, j: int) -> int
    decreases j - lo,
{
    if j <= lo {
        lo
    } else if is_whitespace(s[j - 1]) {
        trimmed_end(s, lo, j - 1)
    } else {
        j
    }
}

/// `s` without leading and trailing whitespace.
pub open spec fn trim_spec(s: Seq<char>) -> Seq<char> {
    let a = first_non_ws(s, 0);
    s.subrange(a, trimmed_end(s, a, s.len() as int))
}

/// `s` without `p` in front, when it starts with `p`.
pub open spec fn strip_prefix_or_keep(s: Seq<char>, p: Seq<char>) -> Seq<char> {
    if p.len() <= s.len() && s.take(p.len() as int) == p {
        s.skip(p.len() as int)
    } else {
        s
    }
}

/// The position of the last `c` before `j`.
pub open spec fn last_index_before(s: Seq<char>, c: char, j: int) -> Option<int>
    decreases j,
{
    if j <= 0 {
        None
    } else if s[j - 1] == c {
        Some(j - 1)
    } else {
        last_index_before(s, c, j - 1)
    }
}

/// The value of an ASCII decimal digit.
pub open spec fn digit_value(c: char) -> int {
    (c as u32) - ('0' as u32)
}

/// Whether `c` is an ASCII decimal digit.
pub open spec fn is_digit(c: char) -> bool {
    '0' <= c <= '9'
}

/// The number that a string of decimal digits denotes.
pub open spec fn decimal_value(d: Seq<char>) -> int
    decreases d.len(),
{
    if d.len() == 0 {
        0
    } else {
        decimal_value(d.drop_last()) * 10 + digit_value(d.last())
    }
}

/// The digits of a number written with an optional `+` in front.
pub open spec fn unsigned_digits(s: Seq<char>) -> Seq<char> {
    if s.len() > 0 && s[0] == '+' {
        s.drop_first()
    } else {
        s
    }
}

/// Every character is a decimal digit.
pub open spec fn all_digits(d: Seq<char>) -> bool {
    forall|i: int| 0 <= i < d.len() ==> is_digit(#[trigger] d[i])
}

/// What `str::parse::<u16>` makes of a string: an optional `+`, then one
/// or more decimal digits denoting at most 65535.
pub open spec fn parse_u16_spec(s: Seq<char>) -> Option<u16> {
    match parse_unsigned_spec(s, 65535) {
        Some(v) => Some(v as u16),
        None => None,
    }
}

/// Host and port of a STUN server address such as `stun:host:3478`:
/// surrounding whitespace and a `stun:` and `//` in front are dropped, and
/// the text after the last `:` is the port.
pub open spec fn stun_host_port_spec(url: Seq<char>) -> Option<(Seq<char>, u16)> {
    let t = trim_spec(url);
    let r = strip_prefix_or_keep(strip_prefix_or_keep(t, "stun:"@), "//"@);
    match last_index_before(r, ':', r.len() as int) {
        None => None,
        Some(k) => match parse_u16_spec(r.subrange(k + 1, r.len() as int)) {
            None => None,
            Some(p) => Some((r.take(k), p)),
        },
    }
}

pub(crate) fn is_whitespace_exec(c: char) -> (r: bool)
    ensures
        r == is_whitespace(c),
{
    let u = c as u32;
    (0x09 <= u && u <= 0x0d) || u == 0x20 || u == 0x85 || u == 0xa0 || u == 0x1680 || (0x2000
        <= u && u <= 0x200a) || u == 0x2028 || u == 0x2029 || u == 0x202f || u == 0x205f || u
        == 0x3000
}

fn trim_chars(s: &[char]) -> (r: Vec<char>)
    ensures
        r@ == trim_spec(s@),
{
    let n = s.len();
    let mut a: usize = 0;
    while a < n && is_whitespace_exec(s[a])
        invariant
            n == s@.len(),
            a <= n,
            first_non_ws(s@, a as int) == first_non_ws(s@, 0),
        decreases n - a,
    {
        a = a + 1;
    }
    let mut b: usize = n;
    while b > a && is_whitespace_exec(s[b - 1])
        invariant
            n == s@.len(),
            a == first_non_ws(s@, 0),
            a <= b <= n,
            trimmed_end(s@, a as int, b as int) == trimmed_end(s@, a as int, n as int),
        decreases b,
    {
        b = b - 1;
    }
    copy_chars(s, a, b)
}

fn strip_prefix_chars(s: Vec<char>, p: &[char]) -> (r: Vec<char>)
    ensures
        r@ == strip_prefix_or_keep(s@, p@),
{
    if p.len() > s.len() {
        return s;
    }
    let mut i: usize = 0;
    while i < p.len()
        invariant
            p@.len() <= s@.len(),
            i <= p@.len(),
            forall|j: int| 0 <= j < i ==> s@[j] == p@[j],
        decreases p@.len() - i,
    {
        if s[i] != p[i] {
            assert(s@.take(p@.len() as int)[i as int] != p@[i as int]);
            return s;
        }
        i = i + 1;
    }
    assert(s@.take(p@.len() as int) =~= p@);
    copy_chars(s.as_slice(), p.len(), s.len())
}

fn last_index_exec(s: &[char], c: char) -> (r: Option<usize>)
    ensures
        match r {
            Some(k) => last_index_before(s@, c, s@.len() as int) == Some(k as int) && k < s@.len(),
            None => last_index_before(s@, c, s@.len() as int) is None,
        },
{
    let mut j: usize = s.len();
    while j > 0
        invariant
            j <= s@.len(),
            last_index_before(s@, c, j as int) == last_index_before(s@, c, s@.len() as int),
        decreases j,
    {
        if s[j - 1] == c {
            return Some(j - 1);
        }
        j = j - 1;
    }
    None
}

pub(crate) proof fn lemma_decimal_grows(d: Seq<char>, i: int)
    requires
        0 <= i <= d.len(),
        forall|k: int| 0 <= k < d.len() ==> is_digit(#[trigger] d[k]),
    ensures
        decimal_value(d.take(i)) <= decimal_value(d),
        0 <= decimal_value(d.take(i)),
    decreases d.len() - i,
{
    if i < d.len() {
        assert(d.take(i + 1).drop_last() =~= d.take(i));
        lemma_decimal_grows(d, i + 1);
    } else {
        assert(d.take(i) =~= d);
    }
    lemma_decimal_nonneg(d.take(i));
}

pub(crate) proof fn lemma_decimal_nonneg(d: Seq<char>)
    requires
        forall|k: int| 0 <= k < d.len() ==> is_digit(#[trigger] d[k]),
    ensures
        0 <= decimal_value(d),
    decreases d.len(),
{
    if d.len() > 0 {
        lemma_decimal_nonneg(d.drop_last());
    }
}

/// What `str::parse` makes of a string for an unsigned type whose largest
/// value is `max`: an optional `+`, then one or more decimal digits
/// denoting at most `max`.
pub open spec fn parse_unsigned_spec(s: Seq<char>, max: u64) -> Option<u64> {
    let d = unsigned_digits(s);
    if d.len() == 0 || !all_digits(d) {
        None
    } else if decimal_value(d) > max {
        None
    } else {
        Some(decimal_value(d) as u64)
    }
}

/// `str::parse` for an unsigned type whose largest value is `max`, on a
/// run of characters.
pub fn parse_unsigned_chars(s: &[char], max: u64) -> (r: Option<u64>)
    ensures
        r == parse_unsigned_spec(s@, max),
{
    let start: usize = if s.len() > 0 && s[0] == '+' {
        1
    } else {
        0
    };
    let ghost d = unsigned_digits(s@);
    assert(d =~= s@.skip(start as int));
    if start == s.len() {
        return None;
    }
    let mut i: usize = start;
    while i < s.len()
        invariant
            start <= i <= s@.len(),
            d =~= s@.skip(start as int),
            d == unsigned_digits(s@),
            forall|k: int| start <= k < i ==> is_digit(#[trigger] s@[k]),
        decreases s@.len() - i,
    {
        if !('0' <= s[i] && s[i] <= '9') {
            assert(d[i - start] == s@[i as int]);
            assert(!is_digit(d[i - start]));
            assert(!all_digits(d));
            return None;
        }
        i = i + 1;
    }
    assert(forall|k: int| 0 <= k < d.len() ==> is_digit(#[trigger] d[k])) by {
        assert forall|k: int| 0 <= k < d.len() implies is_digit(#[trigger] d[k]) by {
            assert(d[k] == s@[k + start]);
        }
    }
    let mut v: u128 = 0;
    let mut i: usize = start;
    while i < s.len()
        invariant
            start <= i <= s@.len(),
            d =~= s@.skip(start as int),
            d == unsigned_digits(s@),
            forall|k: int| 0 <= k < d.len() ==> is_digit(#[trigger] d[k]),
            v == decimal_value(d.take(i - start)),
            v <= max,
        decreases s@.len() - i,
    {
        proof {
            assert(d.take(i - start + 1).drop_last() =~= d.take(i - start));
            assert(d[i - start] == s@[i as int]);
        }
        let digit = (s[i] as u32) - ('0' as u32);
        v = v * 10 + (digit as u128);
        i = i + 1;
        assert(v == decimal_value(d.take(i - start)));
        if v > max as u128 {
            proof {
                lemma_decimal_grows(d, i - start);
                assert(decimal_value(d) > max);
            }
            return None;
        }
    }
    assert(d.take(i - start) =~= d);
    Some(v as u64)
}

/// `str::parse::<u16>` on a run of characters.
pub fn parse_u16_chars(s: &[char]) -> (r: Option<u16>)
    ensures
        r == parse_u16_spec(s@),
{
    match parse_unsigned_chars(s, 65535) {
        Some(v) => Some(v as u16),
        None => None,
    }
}

/// Splits a STUN server address into host and port, or `None` when it
/// has no `:` or the port is not a number that fits in 16 bits.
pub fn parse_stun_host_port(url: &str) -> (r: Option<(String, u16)>)
    ensures
        match r {
            Some((h, p)) => stun_host_port_spec(url@) == Some((h@, p)),
            None => stun_host_port_spec(url@) is None,
        },
{
    let t = trim_chars(str_chars(url).as_slice());
    let r1 = strip_prefix_chars(t, str_chars("stun:").as_slice());
    let r2 = strip_prefix_chars(r1, str_chars("//").as_slice());
    let n2 = r2.len();
    match last_index_exec(r2.as_slice(), ':') {
        None => None,
        Some(k) => {
            let port_chars = copy_chars(r2.as_slice(), k + 1, n2);
            match parse_u16_chars(port_chars.as_slice()) {
                None => None,
                Some(p) => {
                    let host = copy_chars(r2.as_slice(), 0, k);
                    Some((string_from_chars(host.as_slice()), p))
                },
            }
        },
    }
}

/// The parts of a URL that the TURN setup reads, as the `url` crate parses
/// it: scheme, host text and explicit port; `None` when the text is no URL.
pub uninterp spec fn url_parts(input: Seq<char>) -> Option<(Seq<char>, Option<Seq<char>>, Option<u16>)>;

/// The parts of a URL, taken by their characters.
pub open spec fn url_parts_view(p: Option<(String, Option<String>, Option<u16>)>) -> Option<
    (Seq<char>, Option<Seq<char>>, Option<u16>),
> {
    match p {
        None => None,
        Some((scheme, host, port)) => Some(
            (
                scheme@,
                match host {
                    Some(h) => Some(h@),
                    None => None,
                },
                port,
            ),
        ),
    }
}

/// Trusted: calls `url::Url::parse` and reads `scheme`, `host_str` and
/// `port` of the result; a parse error becomes `None`. The result is named
/// by `url_parts`, a function of the input alone.
#[verifier::external_body]
fn url_parse_parts(input: &str) -> (r: Option<(String, Option<String>, Option<u16>)>)
    ensures
        url_parts_view(r) == url_parts(input@),
{
    match url::Url::parse(input) {
        Ok(u) => {
            let host = match u.host_str() {
                Some(h) => Some(h.to_string()),
                None => None,
            };
            Some((u.scheme().to_string(), host, u.port()))
        },
        Err(_) => None,
    }
}

/// Why a TURN server address was refused.
#[derive(Debug, Clone, Copy, PartialEq, Eq, Structural)]
pub enum TurnUrlError {
    /// The text is no URL.
    Invalid,
    /// The scheme is not `turns`.
    NotTurns,
    /// The URL names no host.
    MissingHost,
    /// The URL gives no port and its scheme has no default one.
    MissingPort,
}

/// Host and port of a TLS TURN server from the parts of its URL; the port
/// is 5349 unless the URL gives one.
pub open spec fn turns_endpoint_spec(parts: Option<(Seq<char>, Option<Seq<char>>, Option<u16>)>) -> Result<
    (Seq<char>, u16),
    TurnUrlError,
> {
    match parts {
        None => Err(TurnUrlError::Invalid),
        Some((scheme, host, port)) => if scheme != "turns"@ {
            Err(TurnUrlError::NotTurns)
        } else {
            match host {
                None => Err(TurnUrlError::MissingHost),
                Some(h) => Ok(
                    (
                        h,
                        match port {
                            Some(p) => p,
                            None => 5349,
                        },
                    ),
                ),
            }
        },
    }
}

/// The endpoint result, taken by its characters.
pub open spec fn endpoint_view(r: Result<(String, u16), TurnUrlError>) -> Result<
    (Seq<char>, u16),
    TurnUrlError,
> {
    match r {
        Ok((h, p)) => Ok((h@, p)),
        Err(e) => Err(e),
    }
}

pub(crate) fn chars_equal(a: &[char], b: &[char]) -> (r: bool)
    ensures
        r == (a@ == b@),
{
    if a.len() != b.len() {
        return false;
    }
    let mut i: usize = 0;
    while i < a.len()
        invariant
            a@.len() == b@.len(),
            i <= a@.len(),
            forall|j: int| 0 <= j < i ==> a@[j] == b@[j],
        decreases a@.len() - i,
    {
        if a[i] != b[i] {
            return false;
        }
        i = i + 1;
    }
    assert(a@ =~= b@);
    true
}

/// Host and port of a TLS TURN server from the parts of its URL.
pub fn turns_endpoint(parts: Option<(String, Option<String>, Option<u16>)>) -> (r: Result<
    (String, u16),
    TurnUrlError,
>)
    ensures
        endpoint_view(r) == turns_endpoint_spec(url_parts_view(parts)),
{
    match parts {
        None => Err(TurnUrlError::Invalid),
        Some((scheme, host, port)) => {
            let turns = str_chars("turns");
            if !chars_equal(str_chars(scheme.as_str()).as_slice(), turns.as_slice()) {
                return Err(TurnUrlError::NotTurns);
            }
            match host {
                None => Err(TurnUrlError::MissingHost),
                Some(h) => {
                    let p: u16 = match port {
                        Some(p) => p,
                        None => 5349,
                    };
                    Ok((h, p))
                },
            }
        },
    }
}

/// The port a URL scheme implies when the URL gives none, as the `url`
/// crate knows them: 80 for `http` and `ws`, 443 for `https` and `wss`,
/// 21 for `ftp`.
pub open spec fn known_default_port(scheme: Seq<char>) -> Option<u16> {
    if scheme == "http"@ || scheme == "ws"@ {
        Some(80)
    } else if scheme == "https"@ || scheme == "wss"@ {
        Some(443)
    } else if scheme == "ftp"@ {
        Some(21)
    } else {
        None
    }
}

/// Host and port of a TURN server from the parts of its URL: the port the
/// URL gives, else the scheme's default; a URL with no host, or with
/// neither port nor default, is refused.
pub open spec fn turn_server_spec(parts: Option<(Seq<char>, Option<Seq<char>>, Option<u16>)>) -> Result<
    (Seq<char>, u16),
    TurnUrlError,
> {
    match parts {
        None => Err(TurnUrlError::Invalid),
        Some((scheme, host, port)) => match host {
            None => Err(TurnUrlError::MissingHost),
            Some(h) => match port {
                Some(p) => Ok((h, p)),
                None => match known_default_port(scheme) {
                    Some(p) => Ok((h, p)),
                    None => Err(TurnUrlError::MissingPort),
                },
            },
        },
    }
}

fn known_default_port_exec(scheme: &str) -> (r: Option<u16>)
    ensures
        r == known_default_port(scheme@),
{
    let s = str_chars(scheme);
    proof {
        reveal_strlit("http");
        reveal_strlit("ws");
        reveal_strlit("https");
        reveal_strlit("wss");
        reveal_strlit("ftp");
    }
    if chars_equal(s.as_slice(), str_chars("http").as_slice()) || chars_equal(
        s.as_slice(),
        str_chars("ws").as_slice(),
    ) {
        Some(80)
    } else if chars_equal(s.as_slice(), str_chars("https").as_slice()) || chars_equal(
        s.as_slice(),
        str_chars("wss").as_slice(),
    ) {
        Some(443)
    } else if chars_equal(s.as_slice(), str_chars("ftp").as_slice()) {
        Some(21)
    } else {
        None
    }
}

/// Host and port of a TURN server from the parts of its URL.
pub fn turn_server_endpoint(parts: Option<(String, Option<String>, Option<u16>)>) -> (r: Result<
    (String, u16),
    TurnUrlError,
>)
    ensures
        endpoint_view(r) == turn_server_spec(url_parts_view(parts)),
{
    match parts {
        None => Err(TurnUrlError::Invalid),
        Some((scheme, host, port)) => match host {
            None => Err(TurnUrlError::MissingHost),
            Some(h) => match port {
                Some(p) => Ok((h, p)),
                None => match known_default_port_exec(scheme.as_str()) {
                    Some(p) => Ok((h, p)),
                    None => Err(TurnUrlError::MissingPort),
                },
            },
        },
    }
}

/// Host and port of the TURN server that a `turn:` URL names.
pub fn turn_server_host_port(turn_url: &str) -> (r: Result<(String, u16), TurnUrlError>)
    ensures
        endpoint_view(r) == turn_server_spec(url_parts(turn_url@)),
{
    turn_server_endpoint(url_parse_parts(turn_url))
}

/// Host and port of a TLS TURN server from its `turns://` URL.
pub fn parse_turns_url(url: &str) -> (r: Result<(String, u16), TurnUrlError>)
    ensures
        endpoint_view(r) == turns_endpoint_spec(url_parts(url@)),
{
    turns_endpoint(url_parse_parts(url))
}

/// The value of a hexadecimal digit of either case.
pub open spec fn hex_value(c: char) -> Option<u8> {
    if '0' <= c <= '9' {
        Some(((c as u32) - ('0' as u32)) as u8)
    } else if 'a' <= c <= 'f' {
        Some(((c as u32) - ('a' as u32) + 10) as u8)
    } else if 'A' <= c <= 'F' {
        Some(((c as u32) - ('A' as u32) + 10) as u8)
    } else {
        None
    }
}

/// The bytes that a hex string spells, two digits a byte, or `None` when
/// its length is odd or it holds a character that is no hex digit.
pub open spec fn hex_decode_spec(s: Seq<char>) -> Option<Seq<u8>> {
    if s.len() % 2 != 0 || exists|i: int| 0 <= i < s.len() && (#[trigger] hex_value(s[i])) is None {
        None
    } else {
        Some(
            Seq::new(
                s.len() / 2,
                |i: int| (hex_value(s[2 * i])->0 * 16 + hex_value(s[2 * i + 1])->0) as u8,
            ),
        )
    }
}

/// Trusted: calls `hex::decode`, which reads the string two characters at
/// a time and fails on an odd length or a character that is no hex digit.
#[verifier::external_body]
fn hex_decode(s: &str) -> (r: Option<Vec<u8>>)
    ensures
        match r {
            Some(v) => hex_decode_spec(s@) == Some(v@),
            None => hex_decode_spec(s@) is None,
        },
{
    hex::decode(s).ok()
}

/// The 16-byte client id that a hex string spells; all zeros when it is
/// not hex or does not spell exactly 16 bytes.
pub open spec fn client_id_spec(s: Seq<char>) -> Seq<u8> {
    match hex_decode_spec(s) {
        Some(b) => if b.len() == 16 {
            b
        } else {
            Seq::new(16, |i: int| 0u8)
        },
        None => Seq::new(16, |i: int| 0u8),
    }
}

/// Reads a client id given in hex.
pub fn client_id_from_hex(s: &str) -> (r: [u8; 16])
    ensures
        r@ == client_id_spec(s@),
{
    let mut out: [u8; 16] = [0u8; 16];
    match hex_decode(s) {
        Some(v) => {
            if v.len() == 16 {
                let mut i: usize = 0;
                while i < 16
                    invariant
                        v@.len() == 16,
                        i <= 16,
                        forall|j: int| 0 <= j < i ==> out@[j] == v@[j],
                    decreases 16 - i,
                {
                    out[i] = v[i];
                    i = i + 1;
                }
                assert(out@ =~= v@);
            } else {
                assert(out@ =~= Seq::new(16, |i: int| 0u8));
            }
        },
        None => {
            assert(out@ =~= Seq::new(16, |i: int| 0u8));
        },
    }
    out
}

/// The port implied by a scheme when a URL gives none: 80 for `http` and
/// `ws`, 443 for `https` and `wss`, 21 for `ftp`, none for any other; and a
/// TURN server URL with a host takes its explicit port first.
pub proof fn lemma_default_ports(scheme: Seq<char>, host: Seq<char>, port: u16)
    ensures
        known_default_port("http"@) == Some(80u16),
        known_default_port("ws"@) == Some(80u16),
        known_default_port("https"@) == Some(443u16),
        known_default_port("wss"@) == Some(443u16),
        known_default_port("ftp"@) == Some(21u16),
        scheme != "http"@ && scheme != "ws"@ && scheme != "https"@ && scheme != "wss"@ && scheme
            != "ftp"@ ==> known_default_port(scheme) is None,
        turn_server_spec(Some((scheme, Some(host), Some(port)))) == Ok::<(Seq<char>, u16), TurnUrlError>(
            (host, port),
        ),
        turn_server_spec(Some((scheme, None, Some(port)))) == Err::<(Seq<char>, u16), TurnUrlError>(
            TurnUrlError::MissingHost,
        ),
        turns_endpoint_spec(Some(("turns"@, Some(host), None))) == Ok::<(Seq<char>, u16), TurnUrlError>(
            (host, 5349u16),
        ),
{
    reveal_strlit("http");
    reveal_strlit("ws");
    reveal_strlit("https");
    reveal_strlit("wss");
    reveal_strlit("ftp");
    assert("ws"@ != "http"@) by {
        assert("ws"@.len() != "http"@.len());
    }
    assert("https"@ != "http"@ && "https"@ != "ws"@) by {
        assert("https"@.len() != "http"@.len() && "https"@.len() != "ws"@.len());
    }
    assert("wss"@ != "http"@ && "wss"@ != "ws"@) by {
        assert("wss"@.len() != "http"@.len() && "wss"@.len() != "ws"@.len());
    }
    assert("ftp"@ != "http"@ && "ftp"@ != "ws"@ && "ftp"@ != "https"@ && "ftp"@ != "wss"@) by {
        assert("ftp"@[0] != "http"@[0] && "ftp"@[0] != "ws"@[0] && "ftp"@[0] != "https"@[0]
            && "ftp"@[0] != "wss"@[0]);
    }
}

/// Hex digits of either case have their usual values, and no other
/// character is a hex digit.
pub proof fn lemma_hex_digits(c: char, k: u32)
    ensures
        k < 10 && ('0' as u32) + k == c as u32 ==> hex_value(c) == Some(k as u8),
        k < 6 && ('a' as u32) + k == c as u32 ==> hex_value(c) == Some((10 + k) as u8),
        k < 6 && ('A' as u32) + k == c as u32 ==> hex_value(c) == Some((10 + k) as u8),
        !('0' <= c <= '9') && !('a' <= c <= 'f') && !('A' <= c <= 'F') ==> hex_value(c) is None,
{
}

} // verus!
