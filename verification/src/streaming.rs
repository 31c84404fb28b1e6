use crate::bytes::copy_chars;
use crate::filter;
use crate::filter::filter_control_tokens;
use crate::text_wrappers::{str_chars, string_append, string_from_chars};
use vstd::prelude::*;

verus! {

/// Bytes in the UTF-8 encoding of `c`, as a machine integer.
fn char_width(c: char) -> (n: usize)
    ensures
        n == filter::char_utf8_len(c),
        1 <= n <= 4,
{
    let u = c as u32;
    if u < 0x80 {
        1
    } else if u < 0x800 {
        2
    } else if u < 0x10000 {
        3
    } else {
        4
    }
}

proof fn lemma_utf8_len_concat(a: Seq<char>, b: Seq<char>)
    ensures
        filter::utf8_len(a + b) == filter::utf8_len(a) + filter::utf8_len(b),
    decreases b.len(),
{
    if b.len() == 0 {
        assert(a + b =~= a);
    } else {
        assert((a + b).drop_last() =~= a + b.drop_last());
        lemma_utf8_len_concat(a, b.drop_last());
    }
}

proof fn lemma_utf8_len_take_step(s: Seq<char>, i: int)
    requires
        0 <= i < s.len(),
    ensures
        filter::utf8_len(s.take(i + 1)) == filter::utf8_len(s.take(i)) + filter::char_utf8_len(
            s[i],
        ),
{
    assert(s.take(i + 1).drop_last() =~= s.take(i));
}

proof fn lemma_utf8_len_take_mono(s: Seq<char>, i: int, j: int)
    requires
        0 <= i <= j <= s.len(),
    ensures
        filter::utf8_len(s.take(i)) <= filter::utf8_len(s.take(j)),
    decreases j - i,
{
    if i < j {
        lemma_utf8_len_take_step(s, j - 1);
        lemma_utf8_len_take_mono(s, i, j - 1);
    }
}

/// `min(utf8_len(s), cap)`, reading no further than needed.
fn utf8_len_up_to(s: &[char], cap: usize) -> (n: usize)
    requires
        cap <= usize::MAX - 4,
    ensures
        n == if filter::utf8_len(s@) < cap { filter::utf8_len(s@) } else { cap as nat },
{
    let mut n: usize = 0;
    let mut i: usize = 0;
    while i < s.len() && n < cap
        invariant
            0 <= i <= s@.len(),
            cap <= usize::MAX - 4,
            n == if filter::utf8_len(s@.take(i as int)) < cap {
                filter::utf8_len(s@.take(i as int))
            } else {
                cap as nat
            },
        decreases s@.len() - i,
    {
        proof {
            lemma_utf8_len_take_step(s@, i as int);
        }
        let c = char_width(s[i]);
        n = if n + c < cap {
            n + c
        } else {
            cap
        };
        i = i + 1;
    }
    proof {
        lemma_utf8_len_take_mono(s@, i as int, s@.len() as int);
        assert(s@.take(s@.len() as int) =~= s@);
    }
    n
}

/// One piece of a streamed answer as it goes to the server.
pub struct ResultChunk {
    pub seq: u32,
    pub delta: String,
    pub done: bool,
    pub prompt_tokens: u32,
    pub completion_tokens: u32,
}

/// The text of a streamed answer that has not gone out yet, and the
/// counters that go with it. Filtered text is gathered until it reaches
/// the chunk size, then sent as one chunk.
pub struct InferenceStream {
    seq: u32,
    buf: String,
    buf_bytes: usize,
    completion_tokens: u32,
    prompt_tokens: u32,
    max_bytes: usize,
}

/// `x + 1`, staying at the largest value.
pub open spec fn saturating_inc(x: u32) -> u32 {
    if x == u32::MAX {
        x
    } else {
        (x + 1) as u32
    }
}

/// `x + 1`, wrapping round to 0.
pub open spec fn wrapping_inc(x: u32) -> u32 {
    if x == u32::MAX {
        0
    } else {
        (x + 1) as u32
    }
}

impl InferenceStream {
    /// The next chunk number.
    pub closed spec fn seq(&self) -> u32 {
        self.seq
    }

    /// The text held back.
    pub closed spec fn pending(&self) -> Seq<char> {
        self.buf@
    }

    /// Pieces seen so far, one per generated token.
    pub closed spec fn completion_tokens(&self) -> u32 {
        self.completion_tokens
    }

    /// Tokens in the prompt, reported with every chunk.
    pub closed spec fn prompt_tokens(&self) -> u32 {
        self.prompt_tokens
    }

    /// Bytes of text that make a chunk.
    pub closed spec fn max_bytes(&self) -> usize {
        self.max_bytes
    }

    /// The held text is always shorter than a chunk.
    pub closed spec fn wf(&self) -> bool {
        &&& 1 <= self.max_bytes <= usize::MAX - 4
        &&& self.buf_bytes == filter::utf8_len(self.buf@)
        &&& self.buf_bytes < self.max_bytes
    }

    /// A stream that sends chunks of `stream_chunk_bytes` bytes (at least 1)
    /// and reports `prompt_tokens` with each.
    pub fn new(stream_chunk_bytes: usize, prompt_tokens: u32) -> (r: Self)
        requires
            stream_chunk_bytes <= usize::MAX - 4,
        ensures
            r.wf(),
            r.seq() == 0,
            r.pending() == Seq::<char>::empty(),
            r.completion_tokens() == 0,
            r.prompt_tokens() == prompt_tokens,
            r.max_bytes() == if stream_chunk_bytes < 1 { 1 } else { stream_chunk_bytes },
    {
        let max_bytes: usize = if stream_chunk_bytes < 1 {
            1
        } else {
            stream_chunk_bytes
        };
        InferenceStream {
            seq: 0,
            buf: String::new(),
            buf_bytes: 0,
            completion_tokens: 0,
            prompt_tokens,
            max_bytes,
        }
    }

    /// Takes one generated piece: counts it, filters it, and gives a chunk
    /// once the held text reaches the chunk size.
    pub fn on_piece(&mut self, piece: &str) -> (r: Option<ResultChunk>)
        requires
            old(self).wf(),
        ensures
            final(self).wf(),
            final(self).max_bytes() == old(self).max_bytes(),
            final(self).prompt_tokens() == old(self).prompt_tokens(),
            final(self).completion_tokens() == saturating_inc(old(self).completion_tokens()),
            ({
                let held = old(self).pending() + filter::filter_spec(piece@);
                if filter::filter_spec(piece@).len() > 0 && filter::utf8_len(held)
                    >= old(self).max_bytes() {
                    &&& r is Some
                    &&& r->0.seq == old(self).seq()
                    &&& r->0.delta@ == held
                    &&& !r->0.done
                    &&& r->0.prompt_tokens == old(self).prompt_tokens()
                    &&& r->0.completion_tokens == final(self).completion_tokens()
                    &&& final(self).pending() == Seq::<char>::empty()
                    &&& final(self).seq() == wrapping_inc(old(self).seq())
                } else {
                    &&& r is None
                    &&& final(self).pending() == held
                    &&& final(self).seq() == old(self).seq()
                }
            }),
    {
        let filtered = filter_control_tokens(piece);
        self.completion_tokens = if self.completion_tokens == u32::MAX {
            u32::MAX
        } else {
            self.completion_tokens + 1
        };
        let fchars = str_chars(filtered.as_str());
        if fchars.len() == 0 {
            assert(self.buf@ + filter::filter_spec(piece@) =~= self.buf@);
            return None;
        }
        let room = self.max_bytes - self.buf_bytes;
        let add = utf8_len_up_to(fchars.as_slice(), room);
        proof {
            lemma_utf8_len_concat(self.buf@, fchars@);
        }
        string_append(&mut self.buf, filtered.as_str());
        if add >= room {
            let mut delta = String::new();
            std::mem::swap(&mut delta, &mut self.buf);
            self.buf_bytes = 0;
            let chunk = ResultChunk {
                seq: self.seq,
                delta,
                done: false,
                prompt_tokens: self.prompt_tokens,
                completion_tokens: self.completion_tokens,
            };
            self.seq = if self.seq == u32::MAX {
                0
            } else {
                self.seq + 1
            };
            Some(chunk)
        } else {
            self.buf_bytes = self.buf_bytes + add;
            None
        }
    }

    /// Ends the stream: the held text, if any, as a last chunk, then the
    /// empty chunk that marks the end.
    pub fn finish(self) -> (r: Vec<ResultChunk>)
        requires
            self.wf(),
        ensures
            self.pending().len() > 0 ==> {
                &&& r@.len() == 2
                &&& r@[0].seq == self.seq()
                &&& r@[0].delta@ == self.pending()
                &&& !r@[0].done
                &&& r@[1].seq == wrapping_inc(self.seq())
            },
            self.pending().len() == 0 ==> r@.len() == 1 && r@[0].seq == self.seq(),
            r@.last().delta@ == Seq::<char>::empty(),
            r@.last().done,
            forall|i: int|
                0 <= i < r@.len() ==> (#[trigger] r@[i]).prompt_tokens == self.prompt_tokens()
                    && r@[i].completion_tokens == self.completion_tokens(),
    {
        let mut out: Vec<ResultChunk> = Vec::new();
        let mut seq = self.seq;
        let held = str_chars(self.buf.as_str());
        if held.len() > 0 {
            out.push(
                ResultChunk {
                    seq,
                    delta: self.buf,
                    done: false,
                    prompt_tokens: self.prompt_tokens,
                    completion_tokens: self.completion_tokens,
                },
            );
            seq = if seq == u32::MAX {
                0
            } else {
                seq + 1
            };
        }
        out.push(
            ResultChunk {
                seq,
                delta: String::new(),
                done: true,
                prompt_tokens: self.prompt_tokens,
                completion_tokens: self.completion_tokens,
            },
        );
        out
    }
}

/// How many characters from the front of `s` go into the next piece: as
/// many as fit in `max_bytes` bytes, and at least one.
pub open spec fn piece_len(s: Seq<char>, max_bytes: nat) -> nat
    decreases s.len(),
{
    if s.len() == 0 {
        0
    } else if filter::utf8_len(s) <= max_bytes {
        s.len()
    } else if s.len() == 1 {
        1
    } else {
        piece_len(s.drop_last(), max_bytes)
    }
}

/// `s` cut into pieces of at most `max_bytes` bytes at character
/// boundaries, front to back.
pub open spec fn split_spec(s: Seq<char>, max_bytes: nat) -> Seq<Seq<char>>
    decreases s.len(),
{
    if s.len() == 0 {
        Seq::empty()
    } else {
        let k = piece_len(s, max_bytes);
        proof {
            lemma_piece_len(s, max_bytes);
        }
        if k == 0 {
            Seq::empty()
        } else {
            seq![s.take(k as int)] + split_spec(s.skip(k as int), max_bytes)
        }
    }
}

/// The pieces written one after the other.
pub open spec fn concat_pieces(ps: Seq<Seq<char>>) -> Seq<char>
    decreases ps.len(),
{
    if ps.len() == 0 {
        Seq::empty()
    } else {
        ps[0] + concat_pieces(ps.drop_first())
    }
}

/// Splitting loses and adds nothing: the pieces put back together are the
/// text, none is empty, and each fits in `max_bytes` unless it is a single
/// character.
pub proof fn lemma_split_loses_nothing(s: Seq<char>, max_bytes: nat)
    ensures
        concat_pieces(split_spec(s, max_bytes)) == s,
        forall|i: int|
            0 <= i < split_spec(s, max_bytes).len() ==> {
                let p = #[trigger] split_spec(s, max_bytes)[i];
                &&& p.len() >= 1
                &&& p.len() == 1 || filter::utf8_len(p) <= max_bytes
            },
    decreases s.len(),
{
    if s.len() > 0 {
        lemma_piece_len(s, max_bytes);
        let k = piece_len(s, max_bytes);
        let rest = split_spec(s.skip(k as int), max_bytes);
        lemma_split_loses_nothing(s.skip(k as int), max_bytes);
        let all = split_spec(s, max_bytes);
        assert(all == seq![s.take(k as int)] + rest);
        assert(all.drop_first() =~= rest);
        assert(s.take(k as int) + s.skip(k as int) =~= s);
        assert forall|i: int| 0 <= i < all.len() implies {
            let p = #[trigger] all[i];
            &&& p.len() >= 1
            &&& p.len() == 1 || filter::utf8_len(p) <= max_bytes
        } by {
            if i > 0 {
                assert(all[i] == rest[i - 1]);
            }
        }
    }
}

/// Every character after the first fits in a piece on its own; a wider one
/// would stall the splitter.
pub open spec fn splittable(s: Seq<char>, max_bytes: nat) -> bool {
    forall|i: int| 1 <= i < s.len() ==> filter::char_utf8_len(#[trigger] s[i]) <= max_bytes
}

/// A piece takes at least one character and no more than there are; it
/// fits in `max_bytes` unless it is a single character, and one character
/// more would not fit.
pub proof fn lemma_piece_len(s: Seq<char>, max_bytes: nat)
    requires
        s.len() > 0,
    ensures
        1 <= piece_len(s, max_bytes) <= s.len(),
        piece_len(s, max_bytes) == 1 || filter::utf8_len(s.take(piece_len(s, max_bytes) as int))
            <= max_bytes,
        piece_len(s, max_bytes) < s.len() ==> filter::utf8_len(
            s.take(piece_len(s, max_bytes) + 1 as int),
        ) > max_bytes,
    decreases s.len(),
{
    assert(s.take(s.len() as int) =~= s);
    if filter::utf8_len(s) <= max_bytes {
    } else if s.len() == 1 {
    } else {
        let t = s.drop_last();
        lemma_piece_len(t, max_bytes);
        let k = piece_len(t, max_bytes);
        assert(t.take(k as int) =~= s.take(k as int));
        if k < t.len() {
            assert(t.take(k + 1 as int) =~= s.take(k + 1 as int));
        } else {
            assert(s.take(k + 1 as int) =~= s);
        }
    }
}

/// The largest `k <= n` with `utf8_len(s.take(k)) <= max_bytes`, found by
/// walking forward from `i`.
fn fit_prefix(s: &[char], start: usize, max_bytes: usize) -> (k: usize)
    requires
        start < s@.len(),
        max_bytes <= usize::MAX - 4,
    ensures
        1 <= k <= s@.len() - start,
        k == piece_len(s@.skip(start as int), max_bytes as nat),
{
    let ghost t = s@.skip(start as int);
    let n = s.len() - start;
    let mut used: usize = 0;
    let mut k: usize = 0;
    while k < n
        invariant
            n == t.len(),
            t == s@.skip(start as int),
            start + n == s@.len(),
            k <= n,
            max_bytes <= usize::MAX - 4,
            used == filter::utf8_len(t.take(k as int)),
            used <= max_bytes,
            start + n <= usize::MAX,
        ensures
            k <= n,
            used == filter::utf8_len(t.take(k as int)),
            used <= max_bytes,
            k < n ==> filter::utf8_len(t.take(k as int)) + filter::char_utf8_len(t[k as int])
                > max_bytes,
        decreases n - k,
    {
        proof {
            lemma_utf8_len_take_step(t, k as int);
        }
        assert(t[k as int] == s@[start + k]);
        let w = char_width(s[start + k]);
        if used + w > max_bytes {
            break;
        }
        used = used + w;
        k = k + 1;
    }
    proof {
        lemma_piece_len(t, max_bytes as nat);
        let p = piece_len(t, max_bytes as nat);
        if p < k {
            lemma_utf8_len_take_mono(t, p + 1 as int, k as int);
        }
        if k < n {
            lemma_utf8_len_take_step(t, k as int);
            if k < p {
                lemma_utf8_len_take_mono(t, k + 1, p as int);
            }
        } else {
            assert(t.take(k as int) =~= t);
        }
    }
    if k == 0 {
        1
    } else {
        k
    }
}

/// Cuts streamed text into pieces of at most `max_bytes` bytes (at least
/// one), at character boundaries. A first character wider than that forms
/// a piece of its own; any later one must fit.
pub fn split_at_char_boundaries(text: &str, max_bytes: usize) -> (r: Vec<String>)
    requires
        max_bytes <= usize::MAX - 4,
        splittable(text@, if max_bytes < 1 { 1 } else { max_bytes as nat }),
    ensures
        r@.len() == split_spec(text@, if max_bytes < 1 { 1 } else { max_bytes as nat }).len(),
        forall|i: int|
            0 <= i < r@.len() ==> (#[trigger] r@[i])@ == split_spec(
                text@,
                if max_bytes < 1 { 1 } else { max_bytes as nat },
            )[i],
{
    let max: usize = if max_bytes < 1 {
        1
    } else {
        max_bytes
    };
    let chars = str_chars(text);
    let n = chars.len();
    let mut out: Vec<String> = Vec::new();
    let mut start: usize = 0;
    proof {
        assert(chars@.skip(0) =~= chars@);
        assert(out@.map_values(|s: String| s@) + split_spec(chars@, max as nat) =~= split_spec(
            chars@,
            max as nat,
        ));
    }
    while start < n
        invariant
            n == chars@.len(),
            chars@ == text@,
            start <= n,
            1 <= max <= usize::MAX - 4,
            splittable(text@, max as nat),
            split_spec(text@, max as nat) == out@.map_values(|s: String| s@) + split_spec(
                chars@.skip(start as int),
                max as nat,
            ),
        decreases n - start,
    {
        let ghost rest = chars@.skip(start as int);
        let k = fit_prefix(chars.as_slice(), start, max);
        let piece = copy_chars(chars.as_slice(), start, start + k);
        proof {
            assert(piece@ =~= rest.take(k as int));
            assert(rest.skip(k as int) =~= chars@.skip(start + k));
        }
        let ghost before = out@;
        out.push(string_from_chars(piece.as_slice()));
        proof {
            assert(out@.map_values(|s: String| s@) =~= before.map_values(|s: String| s@).push(
                piece@,
            ));
            assert(before.map_values(|s: String| s@) + (seq![rest.take(k as int)] + split_spec(
                rest.skip(k as int),
                max as nat,
            )) =~= out@.map_values(|s: String| s@) + split_spec(
                chars@.skip(start + k),
                max as nat,
            ));
        }
        start = start + k;
    }
    proof {
        assert(chars@.skip(n as int) =~= Seq::<char>::empty());
        assert(out@.map_values(|s: String| s@) + Seq::<Seq<char>>::empty() =~= out@.map_values(
            |s: String| s@,
        ));
    }
    out
}

} // verus!
