use crate::endpoints;
use crate::endpoints::is_whitespace_exec;
use crate::text;
use crate::text::contains_chars;
use crate::text_wrappers::str_chars;
use vstd::prelude::*;

verus! {

/// The end of the run of non-whitespace characters that starts at `i`.
pub open spec fn token_end(s: Seq<char>, i: int) -> int
    decreases s.len() - i,
{
    if i < 0 || i >= s.len() {
        s.len() as int
    } else if endpoints::is_whitespace(s[i]) {
        i
    } else {
        token_end(s, i + 1)
    }
}

/// Skipping whitespace from `i` stops at or after `i`, within the text, on
/// a character that is no whitespace.
pub proof fn lemma_first_non_ws(s: Seq<char>, i: int)
    requires
        0 <= i,
    ensures
        i <= endpoints::first_non_ws(s, i) || i > s.len(),
        endpoints::first_non_ws(s, i) <= s.len(),
        endpoints::first_non_ws(s, i) < s.len() ==> !endpoints::is_whitespace(
            s[endpoints::first_non_ws(s, i)],
        ),
    decreases s.len() - i,
{
    if i < s.len() && endpoints::is_whitespace(s[i]) {
        lemma_first_non_ws(s, i + 1);
    }
}

/// A word that starts at `i` ends within the text, after `i` when the
/// character at `i` is no whitespace.
pub proof fn lemma_token_end(s: Seq<char>, i: int)
    requires
        0 <= i <= s.len(),
    ensures
        i <= token_end(s, i) <= s.len(),
        i < s.len() && !endpoints::is_whitespace(s[i]) ==> i < token_end(s, i),
    decreases s.len() - i,
{
    if i < s.len() && !endpoints::is_whitespace(s[i]) {
        lemma_token_end(s, i + 1);
    }
}

/// The whitespace-separated words of `s` from position `i` on.
pub open spec fn words_from(s: Seq<char>, i: nat) -> Seq<Seq<char>>
    decreases s.len() - i,
{
    let a = endpoints::first_non_ws(s, i as int);
    proof {
        lemma_first_non_ws(s, i as int);
    }
    if i > s.len() || a >= s.len() {
        Seq::empty()
    } else {
        let e = token_end(s, a);
        proof {
            lemma_token_end(s, a);
        }
        seq![s.subrange(a, e)] + words_from(s, e as nat)
    }
}

/// What `str::split_whitespace` gives.
pub open spec fn words(s: Seq<char>) -> Seq<Seq<char>> {
    words_from(s, 0)
}

/// Splits a line into its whitespace-separated words.
pub fn split_whitespace_chars(s: &[char]) -> (r: Vec<Vec<char>>)
    ensures
        r@.len() == words(s@).len(),
        forall|k: int| 0 <= k < r@.len() ==> (#[trigger] r@[k])@ == words(s@)[k],
{
    let n = s.len();
    let mut out: Vec<Vec<char>> = Vec::new();
    let mut i: usize = 0;
    assert(out@.map_values(|w: Vec<char>| w@) + words_from(s@, 0) =~= words_from(s@, 0));
    while i < n
        invariant
            n == s@.len(),
            i <= n,
            out@.map_values(|w: Vec<char>| w@) + words_from(s@, i as nat) == words(s@),
        ensures
            i == n,
            out@.map_values(|w: Vec<char>| w@) + words_from(s@, i as nat) == words(s@),
        decreases n - i,
    {
        let mut a: usize = i;
        proof {
            lemma_first_non_ws(s@, i as int);
        }
        while a < n && is_whitespace_exec(s[a])
            invariant
                n == s@.len(),
                i <= a <= n,
                endpoints::first_non_ws(s@, a as int) == endpoints::first_non_ws(s@, i as int),
            decreases n - a,
        {
            a = a + 1;
        }
        if a >= n {
            assert(words_from(s@, i as nat) =~= Seq::<Seq<char>>::empty());
            i = n;
            assert(words_from(s@, n as nat) =~= Seq::<Seq<char>>::empty());
            break;
        }
        let mut e: usize = a;
        proof {
            lemma_token_end(s@, a as int);
        }
        while e < n && !is_whitespace_exec(s[e])
            invariant
                n == s@.len(),
                a <= e <= n,
                token_end(s@, e as int) == token_end(s@, a as int),
            decreases n - e,
        {
            e = e + 1;
        }
        let mut w: Vec<char> = Vec::new();
        let mut k: usize = a;
        while k < e
            invariant
                a <= k <= e <= n,
                n == s@.len(),
                w@ == s@.subrange(a as int, k as int),
            decreases e - k,
        {
            w.push(s[k]);
            k = k + 1;
            assert(w@ =~= s@.subrange(a as int, k as int));
        }
        let ghost before = out@;
        out.push(w);
        proof {
            assert(out@.map_values(|w: Vec<char>| w@) =~= before.map_values(|w: Vec<char>| w@).push(
                s@.subrange(a as int, e as int),
            ));
            assert(before.map_values(|w: Vec<char>| w@) + (seq![s@.subrange(a as int, e as int)]
                + words_from(s@, e as nat)) =~= out@.map_values(|w: Vec<char>| w@) + words_from(
                s@,
                e as nat,
            ));
        }
        i = e;
    }
    proof {
        assert(words_from(s@, n as nat) =~= Seq::<Seq<char>>::empty());
        assert(out@.map_values(|w: Vec<char>| w@) + Seq::<Seq<char>>::empty() =~= out@.map_values(
            |w: Vec<char>| w@,
        ));
        assert(out@.map_values(|w: Vec<char>| w@).len() == out@.len());
        assert forall|k: int| 0 <= k < out@.len() implies (#[trigger] out@[k])@ == words(s@)[k] by {
            assert(out@.map_values(|w: Vec<char>| w@)[k] == out@[k]@);
        }
    }
    out
}

/// Whether `s` starts with `p`.
pub open spec fn starts_with(s: Seq<char>, p: Seq<char>) -> bool {
    p.len() <= s.len() && s.take(p.len() as int) == p
}

fn starts_with_exec(s: &[char], p: &[char]) -> (r: bool)
    ensures
        r == starts_with(s@, p@),
{
    if p.len() > s.len() {
        return false;
    }
    let mut i: usize = 0;
    while i < p.len()
        invariant
            p@.len() <= s@.len(),
            i <= p@.len(),
            forall|j: int| 0 <= j < i ==> s@[j] == p@[j],
        decreases p@.len() - i,
    {
        if s[i] != p[i] {
            assert(s@.take(p@.len() as int)[i as int] != p@[i as int]);
            return false;
        }
        i = i + 1;
    }
    assert(s@.take(p@.len() as int) =~= p@);
    true
}

/// The lines of a text as characters.
pub open spec fn lines_view(lines: Seq<String>) -> Seq<Seq<char>> {
    lines.map_values(|l: String| l@)
}

/// The position of the first line that starts with `p`.
pub open spec fn first_line_with(lines: Seq<Seq<char>>, p: Seq<char>) -> Option<int>
    decreases lines.len(),
{
    if lines.len() == 0 {
        None
    } else if starts_with(lines[0], p) {
        Some(0)
    } else {
        match first_line_with(lines.drop_first(), p) {
            Some(k) => Some(k + 1),
            None => None,
        }
    }
}

/// The values of the words that read as `u64` numbers, in order; the
/// others are passed over.
pub open spec fn parsed_values(ws: Seq<Seq<char>>) -> Seq<u64>
    decreases ws.len(),
{
    if ws.len() == 0 {
        Seq::empty()
    } else {
        let rest = parsed_values(ws.drop_last());
        match endpoints::parse_unsigned_spec(ws.last(), u64::MAX) {
            Some(v) => rest.push(v),
            None => rest,
        }
    }
}

/// The sum of a run of numbers.
pub open spec fn sum(xs: Seq<u64>) -> int
    decreases xs.len(),
{
    if xs.len() == 0 {
        0
    } else {
        sum(xs.drop_last()) + xs.last()
    }
}

/// The CPU times of the first `cpu ` line of `/proc/stat`: the fields from
/// the second to the eighth that read as numbers, when the line has at
/// least eight fields.
pub open spec fn cpu_times(lines: Seq<Seq<char>>) -> Option<Seq<u64>> {
    match first_line_with(lines, "cpu "@) {
        None => None,
        Some(k) => {
            let parts = words(lines[k]);
            if parts.len() < 8 {
                None
            } else {
                Some(parsed_values(parts.subrange(1, 8)))
            }
        },
    }
}

/// The busy share of CPU time in percent, from the lines of `/proc/stat`:
/// the times other than idle (the fourth number) over their total, or 25
/// where the line is missing, short or all zero.
pub open spec fn cpu_usage_spec(lines: Seq<Seq<char>>) -> u32 {
    match cpu_times(lines) {
        None => 25,
        Some(times) => if times.len() < 4 || sum(times) == 0 {
            25
        } else {
            ((sum(times) - times[3]) * 100 / sum(times)) as u32
        },
    }
}

/// The CPU times add up, and their busy part times 100, without going past
/// `u64::MAX`.
pub open spec fn cpu_usage_fits(lines: Seq<Seq<char>>) -> bool {
    match cpu_times(lines) {
        None => true,
        Some(times) => times.len() >= 4 ==> sum(times) <= u64::MAX && (sum(times) - times[3])
            * 100 <= u64::MAX,
    }
}

proof fn lemma_sum_bounds(xs: Seq<u64>, i: int)
    requires
        0 <= i <= xs.len(),
    ensures
        0 <= sum(xs.take(i)) <= sum(xs),
    decreases xs.len() - i,
{
    if i < xs.len() {
        assert(xs.take(i + 1).drop_last() =~= xs.take(i));
        lemma_sum_bounds(xs, i + 1);
    } else {
        assert(xs.take(i) =~= xs);
    }
    lemma_sum_nonneg(xs.take(i));
}

proof fn lemma_sum_nonneg(xs: Seq<u64>)
    ensures
        0 <= sum(xs),
    decreases xs.len(),
{
    if xs.len() > 0 {
        lemma_sum_nonneg(xs.drop_last());
    }
}

proof fn lemma_sum_ge_elem(xs: Seq<u64>, j: int)
    requires
        0 <= j < xs.len(),
    ensures
        xs[j] <= sum(xs),
    decreases xs.len(),
{
    if j < xs.len() - 1 {
        lemma_sum_ge_elem(xs.drop_last(), j);
    }
    lemma_sum_nonneg(xs.drop_last());
}

/// The position of the first line that starts with `p`.
fn first_line_with_exec(lines: &[String], p: &[char]) -> (r: Option<usize>)
    ensures
        match r {
            Some(k) => first_line_with(lines_view(lines@), p@) == Some(k as int) && k
                < lines@.len(),
            None => first_line_with(lines_view(lines@), p@) is None,
        },
{
    let mut i: usize = 0;
    let ghost lv = lines_view(lines@);
    assert(lv.skip(0) =~= lv);
    while i < lines.len()
        invariant
            i <= lines@.len(),
            lv == lines_view(lines@),
            lv.len() == lines@.len(),
            first_line_with(lv, p@) == match first_line_with(lv.skip(i as int), p@) {
                Some(k) => Some(k + i),
                None => None::<int>,
            },
        decreases lines@.len() - i,
    {
        let l = str_chars(lines[i].as_str());
        assert(lv.skip(i as int)[0] == l@);
        assert(lv.skip(i as int).drop_first() =~= lv.skip(i + 1));
        if starts_with_exec(l.as_slice(), p) {
            return Some(i);
        }
        i = i + 1;
    }
    assert(lv.skip(i as int).len() == 0);
    None
}

/// The values among `ws[lo..hi]` that read as `u64` numbers.
fn parsed_values_exec(ws: &Vec<Vec<char>>, lo: usize, hi: usize) -> (r: Vec<u64>)
    requires
        lo <= hi <= ws@.len(),
    ensures
        r@ == parsed_values(ws@.subrange(lo as int, hi as int).map_values(|w: Vec<char>| w@)),
{
    let mut out: Vec<u64> = Vec::new();
    let mut i: usize = lo;
    while i < hi
        invariant
            lo <= i <= hi <= ws@.len(),
            out@ == parsed_values(ws@.subrange(lo as int, i as int).map_values(|w: Vec<char>| w@)),
        decreases hi - i,
    {
        let ghost before = ws@.subrange(lo as int, i as int).map_values(|w: Vec<char>| w@);
        let ghost after = ws@.subrange(lo as int, i + 1).map_values(|w: Vec<char>| w@);
        assert(after.drop_last() =~= before);
        assert(after.last() == ws@[i as int]@);
        match endpoints::parse_unsigned_chars(ws[i].as_slice(), u64::MAX) {
            Some(v) => out.push(v),
            None => {},
        }
        i = i + 1;
    }
    out
}

/// The CPU times of the first `cpu ` line of `/proc/stat` (see `cpu_times`).
pub fn cpu_times_from_proc_stat(lines: &[String]) -> (r: Option<Vec<u64>>)
    ensures
        match r {
            Some(v) => cpu_times(lines_view(lines@)) == Some(v@),
            None => cpu_times(lines_view(lines@)) is None,
        },
{
    let k = match first_line_with_exec(lines, str_chars("cpu ").as_slice()) {
        None => return None,
        Some(k) => k,
    };
    assert(lines_view(lines@)[k as int] == lines@[k as int]@);
    let parts = split_whitespace_chars(str_chars(lines[k].as_str()).as_slice());
    if parts.len() < 8 {
        return None;
    }
    let times = parsed_values_exec(&parts, 1, 8);
    proof {
        let pv = words(lines_view(lines@)[k as int]);
        assert(parts@.subrange(1, 8).map_values(|w: Vec<char>| w@) =~= pv.subrange(1, 8));
    }
    Some(times)
}

/// The busy share of CPU time in percent, read from the lines of
/// `/proc/stat`, with 25 as the fallback.
pub fn cpu_usage_from_proc_stat(lines: &[String]) -> (r: u32)
    requires
        cpu_usage_fits(lines_view(lines@)),
    ensures
        r == cpu_usage_spec(lines_view(lines@)),
{
    let times = match cpu_times_from_proc_stat(lines) {
        None => return 25,
        Some(t) => t,
    };
    if times.len() < 4 {
        return 25;
    }
    let mut total: u64 = 0;
    let mut j: usize = 0;
    while j < times.len()
        invariant
            j <= times@.len(),
            total == sum(times@.take(j as int)),
            sum(times@) <= u64::MAX,
        decreases times@.len() - j,
    {
        proof {
            assert(times@.take(j + 1).drop_last() =~= times@.take(j as int));
            lemma_sum_bounds(times@, j + 1);
        }
        total = total + times[j];
        j = j + 1;
    }
    assert(times@.take(j as int) =~= times@);
    if total == 0 {
        return 25;
    }
    let idle = times[3];
    proof {
        lemma_sum_ge_elem(times@, 3);
    }
    ((total - idle) * 100 / total) as u32
}

/// The values of the last `MemTotal:` and `MemAvailable:` lines (in kB),
/// 0 where none could be read.
pub open spec fn meminfo_scan(lines: Seq<Seq<char>>) -> (u64, u64)
    decreases lines.len(),
{
    if lines.len() == 0 {
        (0, 0)
    } else {
        let (t, a) = meminfo_scan(lines.drop_last());
        let l = lines.last();
        let parts = words(l);
        let v = if parts.len() >= 2 {
            endpoints::parse_unsigned_spec(parts[1], u64::MAX)
        } else {
            None
        };
        if starts_with(l, "MemTotal:"@) {
            match v {
                Some(x) => (x, a),
                None => (t, a),
            }
        } else if starts_with(l, "MemAvailable:"@) {
            match v {
                Some(x) => (t, x),
                None => (t, a),
            }
        } else {
            (t, a)
        }
    }
}

/// The used share of memory in percent, from the lines of `/proc/meminfo`,
/// or 45 where total or available memory is missing.
pub open spec fn memory_usage_spec(lines: Seq<Seq<char>>) -> u32 {
    let (t, a) = meminfo_scan(lines);
    if t > 0 && a > 0 {
        ((t - a) * 100 / (t as int)) as u32
    } else {
        45
    }
}

/// Available memory is no more than the total, and the used part times 100
/// fits in a `u64`.
pub open spec fn memory_usage_fits(lines: Seq<Seq<char>>) -> bool {
    let (t, a) = meminfo_scan(lines);
    t > 0 && a > 0 ==> a <= t && (t - a) * 100 <= u64::MAX
}

/// The used share of memory in percent, read from the lines of
/// `/proc/meminfo`, with 45 as the fallback.
pub fn memory_usage_from_meminfo(lines: &[String]) -> (r: u32)
    requires
        memory_usage_fits(lines_view(lines@)),
    ensures
        r == memory_usage_spec(lines_view(lines@)),
{
    let (total, available) = meminfo_values(lines);
    if total > 0 && available > 0 {
        ((total - available) * 100 / total) as u32
    } else {
        45
    }
}

/// The values of the last `MemTotal:` and `MemAvailable:` lines of
/// `/proc/meminfo` (in kB), 0 where none could be read.
pub fn meminfo_values(lines: &[String]) -> (r: (u64, u64))
    ensures
        r == meminfo_scan(lines_view(lines@)),
{
    let mut total: u64 = 0;
    let mut available: u64 = 0;
    let mut i: usize = 0;
    let ghost lv = lines_view(lines@);
    let mem_total = str_chars("MemTotal:");
    let mem_available = str_chars("MemAvailable:");
    while i < lines.len()
        invariant
            i <= lines@.len(),
            lv == lines_view(lines@),
            lv.len() == lines@.len(),
            mem_total@ == "MemTotal:"@,
            mem_available@ == "MemAvailable:"@,
            (total, available) == meminfo_scan(lv.take(i as int)),
        decreases lines@.len() - i,
    {
        let l = str_chars(lines[i].as_str());
        assert(lv.take(i + 1).drop_last() =~= lv.take(i as int));
        assert(lv.take(i + 1).last() == l@);
        let parts = split_whitespace_chars(l.as_slice());
        let v = if parts.len() >= 2 {
            endpoints::parse_unsigned_chars(parts[1].as_slice(), u64::MAX)
        } else {
            None
        };
        if starts_with_exec(l.as_slice(), mem_total.as_slice()) {
            if let Some(x) = v {
                total = x;
            }
        } else if starts_with_exec(l.as_slice(), mem_available.as_slice()) {
            if let Some(x) = v {
                available = x;
            }
        }
        i = i + 1;
    }
    assert(lv.take(i as int) =~= lv);
    (total, available)
}

/// `s` without the `:` characters at its end.
pub open spec fn trim_colons(s: Seq<char>) -> Seq<char>
    decreases s.len(),
{
    if s.len() > 0 && s.last() == ':' {
        trim_colons(s.drop_last())
    } else {
        s
    }
}

/// Interfaces whose traffic is not counted: loopback and virtual ones.
pub open spec fn skipped_interface(name: Seq<char>) -> bool {
    name == "lo"@ || starts_with(name, "dummy"@) || starts_with(name, "virbr"@) || starts_with(
        name,
        "docker"@,
    )
}

/// The received and sent bytes that one line of `/proc/net/dev` adds.
pub open spec fn net_line(l: Seq<char>) -> Option<(u64, u64)> {
    let parts = words(l);
    if text::contains_seq(l, "Inter-"@) || text::contains_seq(l, "face"@) {
        None
    } else if parts.len() < 17 {
        None
    } else if skipped_interface(trim_colons(parts[0])) {
        None
    } else {
        match (
            endpoints::parse_unsigned_spec(parts[1], u64::MAX),
            endpoints::parse_unsigned_spec(parts[9], u64::MAX),
        ) {
            (Some(rx), Some(tx)) => Some((rx, tx)),
            _ => None,
        }
    }
}

/// A line of loopback (`lo`) or virtual (`dummy…`, `virbr…`, `docker…`)
/// traffic adds nothing to the totals, whatever its numbers; a line of any
/// other interface with at least 17 fields and numeric byte counts adds its
/// received bytes (second field) and sent bytes (tenth field). Header lines
/// (holding `Inter-` or `face`) add nothing.
pub proof fn lemma_net_line_counts(lines: Seq<Seq<char>>, l: Seq<char>)
    ensures
        ({
            let parts = words(l);
            let name = trim_colons(parts[0]);
            parts.len() >= 1 && (name == "lo"@ || (name.len() >= 5 && name.take(5) == "dummy"@)
                || (name.len() >= 5 && name.take(5) == "virbr"@) || (name.len() >= 6 && name.take(6)
                == "docker"@)) ==> net_line(l) is None && net_totals(lines.push(l)) == net_totals(
                lines,
            )
        }),
        (text::contains_seq(l, "Inter-"@) || text::contains_seq(l, "face"@)) ==> net_totals(
            lines.push(l),
        ) == net_totals(lines),
        ({
            let parts = words(l);
            let name = trim_colons(parts[0]);
            &&& !text::contains_seq(l, "Inter-"@)
            &&& !text::contains_seq(l, "face"@)
            &&& parts.len() >= 17
            &&& name != "lo"@
            &&& !(name.len() >= 5 && name.take(5) == "dummy"@)
            &&& !(name.len() >= 5 && name.take(5) == "virbr"@)
            &&& !(name.len() >= 6 && name.take(6) == "docker"@)
            &&& endpoints::parse_unsigned_spec(parts[1], u64::MAX) is Some
            &&& endpoints::parse_unsigned_spec(parts[9], u64::MAX) is Some
        }) ==> net_totals(lines.push(l)) == (
            net_totals(lines).0 + endpoints::parse_unsigned_spec(words(l)[1], u64::MAX)->0,
            net_totals(lines).1 + endpoints::parse_unsigned_spec(words(l)[9], u64::MAX)->0,
        ),
{
    reveal_strlit("dummy");
    reveal_strlit("virbr");
    reveal_strlit("docker");
    assert(lines.push(l).drop_last() =~= lines);
    assert(lines.push(l).last() == l);
}

/// Received and sent bytes over all counted interfaces.
pub open spec fn net_totals(lines: Seq<Seq<char>>) -> (int, int)
    decreases lines.len(),
{
    if lines.len() == 0 {
        (0, 0)
    } else {
        let (rx, tx) = net_totals(lines.drop_last());
        match net_line(lines.last()) {
            Some((r, t)) => (rx + r, tx + t),
            None => (rx, tx),
        }
    }
}

proof fn lemma_net_totals_grow(lines: Seq<Seq<char>>, i: int)
    requires
        0 <= i <= lines.len(),
    ensures
        0 <= net_totals(lines.take(i)).0 <= net_totals(lines).0,
        0 <= net_totals(lines.take(i)).1 <= net_totals(lines).1,
    decreases lines.len() - i,
{
    lemma_net_totals_nonneg(lines.take(i));
    if i < lines.len() {
        assert(lines.take(i + 1).drop_last() =~= lines.take(i));
        lemma_net_totals_grow(lines, i + 1);
        let prev = net_totals(lines.take(i));
        let next = net_totals(lines.take(i + 1));
        assert(next.0 >= prev.0 && next.1 >= prev.1);
    } else {
        assert(lines.take(i) =~= lines);
    }
}

proof fn lemma_net_totals_nonneg(lines: Seq<Seq<char>>)
    ensures
        0 <= net_totals(lines).0,
        0 <= net_totals(lines).1,
    decreases lines.len(),
{
    if lines.len() > 0 {
        lemma_net_totals_nonneg(lines.drop_last());
    }
}

fn trim_colons_exec(s: &[char]) -> (r: Vec<char>)
    ensures
        r@ == trim_colons(s@),
{
    let mut e: usize = s.len();
    assert(s@.take(e as int) =~= s@);
    while e > 0 && s[e - 1] == ':'
        invariant
            e <= s@.len(),
            trim_colons(s@.take(e as int)) == trim_colons(s@),
        decreases e,
    {
        assert(s@.take(e as int).drop_last() =~= s@.take(e - 1));
        e = e - 1;
    }
    assert(s@.take(e as int) =~= s@.subrange(0, e as int));
    crate::bytes::copy_chars(s, 0, e)
}

fn chars_eq(a: &[char], b: &[char]) -> (r: bool)
    ensures
        r == (a@ == b@),
{
    crate::endpoints::chars_equal(a, b)
}

fn net_line_exec(l: &[char]) -> (r: Option<(u64, u64)>)
    ensures
        r == net_line(l@),
{
    let parts = split_whitespace_chars(l);
    if contains_chars(l, str_chars("Inter-").as_slice()) || contains_chars(
        l,
        str_chars("face").as_slice(),
    ) {
        return None;
    }
    if parts.len() < 17 {
        return None;
    }
    let name = trim_colons_exec(parts[0].as_slice());
    if chars_eq(name.as_slice(), str_chars("lo").as_slice()) || starts_with_exec(
        name.as_slice(),
        str_chars("dummy").as_slice(),
    ) || starts_with_exec(name.as_slice(), str_chars("virbr").as_slice()) || starts_with_exec(
        name.as_slice(),
        str_chars("docker").as_slice(),
    ) {
        return None;
    }
    match (
        endpoints::parse_unsigned_chars(parts[1].as_slice(), u64::MAX),
        endpoints::parse_unsigned_chars(parts[9].as_slice(), u64::MAX),
    ) {
        (Some(rx), Some(tx)) => Some((rx, tx)),
        _ => None,
    }
}

/// Received and sent bytes over all interfaces but loopback and virtual
/// ones, read from the lines of `/proc/net/dev`; `None` when either total
/// does not fit in a `u64`.
pub fn network_bytes_checked(lines: &[String]) -> (r: Option<(u64, u64)>)
    ensures
        r is Some <==> (net_totals(lines_view(lines@)).0 <= u64::MAX && net_totals(
            lines_view(lines@),
        ).1 <= u64::MAX),
        r matches Some(p) ==> p.0 == net_totals(lines_view(lines@)).0 && p.1 == net_totals(
            lines_view(lines@),
        ).1,
{
    let mut rx: u64 = 0;
    let mut tx: u64 = 0;
    let mut i: usize = 0;
    let ghost lv = lines_view(lines@);
    while i < lines.len()
        invariant
            i <= lines@.len(),
            lv == lines_view(lines@),
            lv.len() == lines@.len(),
            rx == net_totals(lv.take(i as int)).0,
            tx == net_totals(lv.take(i as int)).1,
        decreases lines@.len() - i,
    {
        let l = str_chars(lines[i].as_str());
        assert(lv.take(i + 1).drop_last() =~= lv.take(i as int));
        assert(lv.take(i + 1).last() == l@);
        proof {
            lemma_net_totals_grow(lv, i + 1);
        }
        match net_line_exec(l.as_slice()) {
            Some((r, t)) => {
                match (rx.checked_add(r), tx.checked_add(t)) {
                    (Some(x), Some(y)) => {
                        rx = x;
                        tx = y;
                    },
                    _ => {
                        return None;
                    },
                }
            },
            None => {},
        }
        i = i + 1;
    }
    assert(lv.take(i as int) =~= lv);
    Some((rx, tx))
}

/// Received and sent bytes over all interfaces but loopback and virtual
/// ones, read from the lines of `/proc/net/dev`.
pub fn network_bytes_from_proc_dev(lines: &[String]) -> (r: (u64, u64))
    requires
        net_totals(lines_view(lines@)).0 <= u64::MAX,
        net_totals(lines_view(lines@)).1 <= u64::MAX,
    ensures
        r.0 == net_totals(lines_view(lines@)).0,
        r.1 == net_totals(lines_view(lines@)).1,
{
    match network_bytes_checked(lines) {
        Some(p) => p,
        None => (0, 0),
    }
}

/// Traffic from the reading `last` to `current`, with the first reading
/// counting as none and counters that went backwards as no traffic.
pub open spec fn increment_spec(current: (u64, u64), last: Option<(u64, u64)>) -> (u64, u64) {
    let (lrx, ltx) = match last {
        Some(l) => l,
        None => current,
    };
    (
        if current.0 >= lrx { (current.0 - lrx) as u64 } else { 0 },
        if current.1 >= ltx { (current.1 - ltx) as u64 } else { 0 },
    )
}

/// Traffic since the last reading; counters that went backwards count as
/// no traffic, and the first reading counts as none.
pub fn network_increment(current: (u64, u64), last: Option<(u64, u64)>) -> (r: (u64, u64))
    ensures
        ({
            let (lrx, ltx) = match last {
                Some(l) => l,
                None => current,
            };
            &&& r.0 == if current.0 >= lrx { current.0 - lrx } else { 0 }
            &&& r.1 == if current.1 >= ltx { current.1 - ltx } else { 0 }
        }),
{
    let (lrx, ltx) = match last {
        Some(l) => l,
        None => current,
    };
    let rx = if current.0 >= lrx {
        current.0 - lrx
    } else {
        0
    };
    let tx = if current.1 >= ltx {
        current.1 - ltx
    } else {
        0
    };
    (rx, tx)
}

/// The last network reading, from which the next increment is counted.
pub struct NetworkBaseline {
    pub last: Option<(u64, u64)>,
}

impl NetworkBaseline {
    /// No reading yet.
    pub fn new() -> (r: Self)
        ensures
            r.last is None,
    {
        NetworkBaseline { last: None }
    }

    /// Traffic since the previous reading (none for the first), after
    /// which `current` becomes the reading that the next one is counted from.
    pub fn update(&mut self, current: (u64, u64)) -> (r: (u64, u64))
        ensures
            r == increment_spec(current, old(self).last),
            final(self).last == Some(current),
    {
        let r = network_increment(current, self.last);
        self.last = Some(current);
        r
    }
}

/// Two readings in a row count the traffic between them: the baseline
/// advances to every reading.
pub proof fn lemma_baseline_advances(a: (u64, u64), b: (u64, u64), last: Option<(u64, u64)>)
    ensures
        increment_spec(b, Some(a)) == (
            if b.0 >= a.0 { (b.0 - a.0) as u64 } else { 0u64 },
            if b.1 >= a.1 { (b.1 - a.1) as u64 } else { 0u64 },
        ),
        increment_spec(a, None) == (0u64, 0u64),
{
}

/// The used share of a file system in percent from its total and
/// available blocks, or `None` for a file system without blocks.
pub fn disk_usage_percent(f_blocks: u64, f_bavail: u64) -> (r: Option<u32>)
    requires
        f_blocks > 0 ==> f_bavail <= f_blocks && (f_blocks - f_bavail) * 100 <= u64::MAX,
    ensures
        f_blocks == 0 ==> r is None,
        f_blocks > 0 ==> r == Some((((f_blocks - f_bavail) * 100) / (f_blocks as int)) as u32),
{
    if f_blocks > 0 {
        let used = f_blocks - f_bavail;
        Some(((used * 100) / f_blocks) as u32)
    } else {
        None
    }
}

} // verus!
