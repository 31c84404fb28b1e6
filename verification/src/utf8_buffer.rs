use crate::text_wrappers::{string_from_utf8, string_from_utf8_lossy, utf8_lossy};
use vstd::prelude::*;
use vstd::utf8::*;

verus! {

/// Bytes left undecoded beyond which an undecodable buffer is flushed lossily.
pub const UTF8_PENDING_LIMIT: usize = 8192;

/// The length of the longest prefix of `b` that is valid UTF-8.
pub open spec fn valid_prefix_len(b: Seq<u8>) -> int {
    choose|k: int|
        0 <= k <= b.len() && valid_utf8(b.subrange(0, k)) && forall|j: int|
            k < j <= b.len() ==> !#[trigger] valid_utf8(b.subrange(0, j))
}

/// The bytes with every NUL removed.
pub open spec fn without_nul(bytes: Seq<u8>) -> Seq<u8> {
    bytes.filter(|x: u8| x != 0u8)
}

/// What a push leaves pending and what it hands out, given what was
/// pending before and the new bytes.
pub open spec fn push_spec(pending: Seq<u8>, bytes: Seq<u8>) -> (Seq<u8>, Seq<char>) {
    let b = pending + without_nul(bytes);
    if valid_utf8(b) {
        (Seq::empty(), decode_utf8(b))
    } else {
        let k = valid_prefix_len(b);
        if k == 0 {
            if b.len() > UTF8_PENDING_LIMIT {
                (Seq::empty(), utf8_lossy(b))
            } else {
                (b, Seq::empty())
            }
        } else {
            (b.subrange(k, b.len() as int), decode_utf8(b.subrange(0, k)))
        }
    }
}

/// Turns a stream of byte chunks into text, holding back an incomplete
/// UTF-8 sequence at the end of a chunk until the bytes that complete it
/// arrive.
pub struct Utf8EmitBuffer {
    buf: Vec<u8>,
}

impl View for Utf8EmitBuffer {
    type V = Seq<u8>;

    closed spec fn view(&self) -> Seq<u8> {
        self.buf@
    }
}

proof fn lemma_valid_prefix_starts_with_scalar(c: Seq<u8>, j: int)
    requires
        0 < j <= c.len(),
        valid_utf8(c.subrange(0, j)),
    ensures
        valid_first_scalar(c),
        length_of_first_scalar(c) <= j,
        valid_utf8(c.subrange(length_of_first_scalar(c), j)),
{
    let t = c.subrange(0, j);
    assert(valid_first_scalar(t));
    assert(t[0] == c[0]);
    if t.len() >= 2 {
        assert(t[1] == c[1]);
    }
    if t.len() >= 3 {
        assert(t[2] == c[2]);
    }
    if t.len() >= 4 {
        assert(t[3] == c[3]);
    }
    assert(valid_first_scalar(c));
    assert(pop_first_scalar(t) =~= c.subrange(length_of_first_scalar(c), j));
}

fn first_scalar_len(b: &[u8], pos: usize) -> (r: Option<usize>)
    requires
        pos <= b@.len(),
    ensures
        match r {
            Some(l) => valid_first_scalar(b@.subrange(pos as int, b@.len() as int)) && l
                == length_of_first_scalar(b@.subrange(pos as int, b@.len() as int)) && 1 <= l
                && pos + l <= b@.len(),
            None => !valid_first_scalar(b@.subrange(pos as int, b@.len() as int)),
        },
{
    let ghost s = b@.subrange(pos as int, b@.len() as int);
    let n = b.len() - pos;
    if n == 0 {
        return None;
    }
    let b0 = b[pos];
    assert(s[0] == b0);
    if b0 <= 0x7f {
        return Some(1);
    }
    if 0xc0 <= b0 && b0 <= 0xdf {
        if n < 2 {
            return None;
        }
        let b1 = b[pos + 1];
        assert(s[1] == b1);
        if !(0x80 <= b1 && b1 <= 0xbf) {
            return None;
        }
        let cp: u32 = (((b0 & 0x1F) as u32) << 6u32) | ((b1 & 0x3f) as u32);
        if cp < 0x80 || (0xD800 <= cp && cp <= 0xDFFF) {
            return None;
        }
        return Some(2);
    }
    if 0xe0 <= b0 && b0 <= 0xef {
        if n < 3 {
            return None;
        }
        let b1 = b[pos + 1];
        let b2 = b[pos + 2];
        assert(s[1] == b1 && s[2] == b2);
        if !(0x80 <= b1 && b1 <= 0xbf && 0x80 <= b2 && b2 <= 0xbf) {
            return None;
        }
        let cp: u32 = (((b0 & 0x0F) as u32) << 12u32) | (((b1 & 0x3f) as u32) << 6u32) | ((b2
            & 0x3f) as u32);
        if cp < 0x800 || (0xD800 <= cp && cp <= 0xDFFF) {
            return None;
        }
        return Some(3);
    }
    if 0xf0 <= b0 && b0 <= 0xf7 {
        if n < 4 {
            return None;
        }
        let b1 = b[pos + 1];
        let b2 = b[pos + 2];
        let b3 = b[pos + 3];
        assert(s[1] == b1 && s[2] == b2 && s[3] == b3);
        if !(0x80 <= b1 && b1 <= 0xbf && 0x80 <= b2 && b2 <= 0xbf && 0x80 <= b3 && b3 <= 0xbf) {
            return None;
        }
        let cp: u32 = (((b0 & 0x07) as u32) << 18u32) | (((b1 & 0x3f) as u32) << 12u32) | (((b2
            & 0x3f) as u32) << 6u32) | ((b3 & 0x3f) as u32);
        if cp < 0x10000 || cp > 0x10ffff || (0xD800 <= cp && cp <= 0xDFFF) {
            return None;
        }
        return Some(4);
    }
    None
}

/// The length of the longest prefix of `b` that is valid UTF-8.
pub fn utf8_valid_up_to(b: &[u8]) -> (k: usize)
    ensures
        k == valid_prefix_len(b@),
        k <= b@.len(),
        valid_utf8(b@.subrange(0, k as int)),
{
    let mut pos: usize = 0;
    let blen = b.len();
    assert(b@.subrange(0, 0) =~= Seq::<u8>::empty());
    loop
        invariant
            blen == b@.len(),
            pos <= b@.len(),
            valid_utf8(b@.subrange(0, pos as int)),
            forall|j: int|
                pos < j <= b@.len() && #[trigger] valid_utf8(b@.subrange(0, j)) ==> valid_utf8(
                    b@.subrange(pos as int, j),
                ),
        ensures
            pos <= b@.len(),
            valid_utf8(b@.subrange(0, pos as int)),
            forall|j: int| pos < j <= b@.len() ==> !#[trigger] valid_utf8(b@.subrange(0, j)),
        decreases b@.len() - pos,
    {
        let ghost c = b@.subrange(pos as int, b@.len() as int);
        let step = first_scalar_len(b, pos);
        match step {
            Some(l) => {
                assert(pos + l <= b@.len());
                proof {
                    assert(partial_valid_utf8(b@, pos as int));
                    partial_valid_utf8_extend(b@, pos as int);
                    assert forall|j: int|
                        pos + l < j <= b@.len() && #[trigger] valid_utf8(b@.subrange(0, j))
                        implies valid_utf8(b@.subrange(pos + l, j)) by {
                        assert(valid_utf8(b@.subrange(pos as int, j)));
                        assert(c.subrange(0, j - pos) =~= b@.subrange(pos as int, j));
                        lemma_valid_prefix_starts_with_scalar(c, j - pos);
                        assert(c.subrange(l as int, j - pos) =~= b@.subrange(pos + l, j));
                    }
                }
                pos = pos + l;
            },
            None => {
                proof {
                    assert forall|j: int| pos < j <= b@.len() implies !#[trigger] valid_utf8(
                        b@.subrange(0, j),
                    ) by {
                        if valid_utf8(b@.subrange(0, j)) {
                            assert(valid_utf8(b@.subrange(pos as int, j)));
                            assert(c.subrange(0, j - pos) =~= b@.subrange(pos as int, j));
                            lemma_valid_prefix_starts_with_scalar(c, j - pos);
                        }
                    }
                }
                break;
            },
        }
    }
    proof {
        let w = valid_prefix_len(b@);
        assert(valid_utf8(b@.subrange(0, w)));
        if w > pos {
        } else if w < pos {
        }
    }
    pos
}

fn append_without_nul(buf: &mut Vec<u8>, bytes: &[u8])
    ensures
        final(buf)@ == old(buf)@ + without_nul(bytes@),
{
    let mut i: usize = 0;
    let ghost start = buf@;
    while i < bytes.len()
        invariant
            0 <= i <= bytes@.len(),
            buf@ == start + bytes@.subrange(0, i as int).filter(|x: u8| x != 0u8),
        decreases bytes@.len() - i,
    {
        let x = bytes[i];
        proof {
            bytes@.subrange(0, i as int).lemma_filter_push(x, |x: u8| x != 0u8);
            assert(bytes@.subrange(0, i + 1) =~= bytes@.subrange(0, i as int).push(x));
        }
        if x != 0 {
            buf.push(x);
        }
        i = i + 1;
    }
    assert(bytes@.subrange(0, bytes@.len() as int) =~= bytes@);
}

fn split_bytes(v: Vec<u8>, k: usize) -> (r: (Vec<u8>, Vec<u8>))
    requires
        k <= v@.len(),
    ensures
        r.0@ == v@.subrange(0, k as int),
        r.1@ == v@.subrange(k as int, v@.len() as int),
{
    let head = crate::bytes::copy_range(v.as_slice(), 0, k);
    let rest = crate::bytes::copy_range(v.as_slice(), k, v.len());
    (head, rest)
}

impl Utf8EmitBuffer {
    /// An empty buffer.
    pub fn new() -> (r: Self)
        ensures
            r@ == Seq::<u8>::empty(),
    {
        Utf8EmitBuffer { buf: Vec::new() }
    }

    /// Adds `bytes` (without their NULs) and hands out the text decoded so
    /// far: all of it when the pending bytes are valid UTF-8, else the
    /// longest valid prefix, keeping the rest pending. When no prefix is
    /// valid, nothing is handed out unless more than the limit is pending,
    /// in which case everything is decoded lossily.
    pub fn push_and_take_valid(&mut self, bytes: &[u8]) -> (r: String)
        ensures
            (final(self)@, r@) == push_spec(old(self)@, bytes@),
    {
        append_without_nul(&mut self.buf, bytes);
        let ghost b = self.buf@;
        let k = utf8_valid_up_to(self.buf.as_slice());
        if k == self.buf.len() {
            assert(b.subrange(0, k as int) =~= b);
            let mut taken: Vec<u8> = Vec::new();
            std::mem::swap(&mut taken, &mut self.buf);
            match string_from_utf8(taken) {
                Some(s) => s,
                None => String::new(),
            }
        } else {
            proof {
                assert(b.subrange(0, b.len() as int) =~= b);
                assert(!valid_utf8(b));
            }
            if k == 0 {
                if self.buf.len() > UTF8_PENDING_LIMIT {
                    let s = string_from_utf8_lossy(self.buf.as_slice());
                    self.buf.clear();
                    return s;
                }
                return String::new();
            }
            let mut taken: Vec<u8> = Vec::new();
            std::mem::swap(&mut taken, &mut self.buf);
            let (head, rest) = split_bytes(taken, k);
            self.buf = rest;
            match string_from_utf8(head) {
                Some(s) => s,
                None => String::new(),
            }
        }
    }

    /// Hands out whatever is pending, decoded lossily, and empties the buffer.
    pub fn flush_lossy(&mut self) -> (r: String)
        ensures
            final(self)@ == Seq::<u8>::empty(),
            old(self)@.len() == 0 ==> r@ == Seq::<char>::empty(),
            old(self)@.len() > 0 ==> r@ == utf8_lossy(old(self)@),
            valid_utf8(old(self)@) ==> r@ == decode_utf8(old(self)@),
    {
        if self.buf.len() == 0 {
            return String::new();
        }
        let s = string_from_utf8_lossy(self.buf.as_slice());
        self.buf.clear();
        s
    }
}

proof fn max_valid_at_most(b: Seq<u8>, n: int) -> (k: int)
    requires
        0 <= n <= b.len(),
    ensures
        0 <= k <= n,
        valid_utf8(b.subrange(0, k)),
        forall|j: int| k < j <= n ==> !#[trigger] valid_utf8(b.subrange(0, j)),
    decreases n,
{
    if valid_utf8(b.subrange(0, n)) {
        n
    } else {
        assert(n > 0) by {
            assert(b.subrange(0, 0) =~= Seq::<u8>::empty());
        }
        max_valid_at_most(b, n - 1)
    }
}

proof fn lemma_valid_prefix_exists(b: Seq<u8>)
    ensures
        0 <= valid_prefix_len(b) <= b.len(),
        valid_utf8(b.subrange(0, valid_prefix_len(b))),
        forall|j: int|
            valid_prefix_len(b) < j <= b.len() ==> !#[trigger] valid_utf8(b.subrange(0, j)),
{
    let k = max_valid_at_most(b, b.len() as int);
}

/// Nothing is lost or reordered outside the lossy case: the UTF-8 encoding
/// of what a push hands out, followed by what stays pending, is exactly
/// what was pending plus the new bytes without their NULs.
pub proof fn lemma_push_preserves_bytes(pending: Seq<u8>, bytes: Seq<u8>)
    requires
        !(valid_prefix_len(pending + without_nul(bytes)) == 0 && !valid_utf8(
            pending + without_nul(bytes),
        ) && (pending + without_nul(bytes)).len() > UTF8_PENDING_LIMIT),
    ensures
        encode_utf8(push_spec(pending, bytes).1) + push_spec(pending, bytes).0 == pending
            + without_nul(bytes),
{
    let b = pending + without_nul(bytes);
    if valid_utf8(b) {
        decode_utf8_encode_utf8(b);
        assert(b + Seq::<u8>::empty() =~= b);
    } else {
        lemma_valid_prefix_exists(b);
        let k = valid_prefix_len(b);
        if k == 0 {
            assert(encode_utf8(Seq::<char>::empty()) =~= Seq::<u8>::empty()) by {
                reveal_with_fuel(encode_utf8, 1);
            }
            assert(Seq::<u8>::empty() + b =~= b);
        } else {
            decode_utf8_encode_utf8(b.subrange(0, k));
            assert(b.subrange(0, k) + b.subrange(k, b.len() as int) =~= b);
        }
    }
}

/// The bytes of a stream of chunks, without their NULs, one after another.
pub open spec fn stream_bytes(chunks: Seq<Seq<u8>>) -> Seq<u8>
    decreases chunks.len(),
{
    if chunks.len() == 0 {
        Seq::empty()
    } else {
        stream_bytes(chunks.drop_last()) + without_nul(chunks.last())
    }
}

/// What a fresh buffer holds pending, and all the text it has handed out,
/// after a push of each chunk in turn.
pub open spec fn run_pushes(chunks: Seq<Seq<u8>>) -> (Seq<u8>, Seq<char>)
    decreases chunks.len(),
{
    if chunks.len() == 0 {
        (Seq::empty(), Seq::empty())
    } else {
        let (pending, out) = run_pushes(chunks.drop_last());
        let (next, text) = push_spec(pending, chunks.last());
        (next, out + text)
    }
}

proof fn lemma_encode_concat(a: Seq<char>, b: Seq<char>)
    ensures
        encode_utf8(a + b) == encode_utf8(a) + encode_utf8(b),
    decreases a.len(),
{
    if a.len() == 0 {
        assert(a + b =~= b);
        assert(Seq::<u8>::empty() + encode_utf8(b) =~= encode_utf8(b));
    } else {
        assert((a + b).drop_first() =~= a.drop_first() + b);
        assert((a + b)[0] == a[0]);
        lemma_encode_concat(a.drop_first(), b);
        assert(encode_utf8(a + b) =~= encode_utf8(a) + encode_utf8(b));
    }
}

/// The rest of a valid text after a valid prefix is valid.
proof fn lemma_valid_rest(w: Seq<u8>, i: int)
    requires
        0 <= i <= w.len(),
        valid_utf8(w),
        valid_utf8(w.subrange(0, i)),
    ensures
        valid_utf8(w.subrange(i, w.len() as int)),
{
    if !valid_utf8(w.subrange(i, w.len() as int)) {
        partial_valid_partial_invalid_utf8(w, i);
    }
}

/// A nonempty prefix `b` of a valid text `c` has a nonempty valid prefix.
proof fn lemma_prefix_of_valid_not_stuck(c: Seq<u8>, b: Seq<u8>)
    requires
        valid_utf8(c),
        b.len() >= 4,
        b.len() <= c.len(),
        c.subrange(0, b.len() as int) == b,
    ensures
        valid_prefix_len(b) > 0,
{
    reveal_with_fuel(valid_utf8, 1);
    let l = length_of_first_scalar(c);
    assert(valid_first_scalar(c));
    assert(1 <= l <= 4);
    assert(is_char_boundary(c, l)) by {
        reveal_with_fuel(is_char_boundary, 2);
    }
    valid_utf8_split(c, l);
    assert(b.subrange(0, l) =~= c.subrange(0, l));
    lemma_valid_prefix_exists(b);
}

/// While the stream so far is the start of some valid text `w`, nothing is
/// lost or repeated: the encoding of everything handed out, followed by
/// what is pending, is exactly the bytes pushed.
proof fn lemma_run_pushes_preserves(chunks: Seq<Seq<u8>>, w: Seq<u8>)
    requires
        valid_utf8(w),
        stream_bytes(chunks).len() <= w.len(),
        w.subrange(0, stream_bytes(chunks).len() as int) == stream_bytes(chunks),
    ensures
        encode_utf8(run_pushes(chunks).1) + run_pushes(chunks).0 == stream_bytes(chunks),
    decreases chunks.len(),
{
    if chunks.len() == 0 {
        assert(encode_utf8(Seq::<char>::empty()) =~= Seq::<u8>::empty());
        assert(Seq::<u8>::empty() + Seq::<u8>::empty() =~= Seq::<u8>::empty());
    } else {
        let prev = chunks.drop_last();
        let c = chunks.last();
        let all = stream_bytes(chunks);
        let before = stream_bytes(prev);
        assert(all == before + without_nul(c));
        assert(w.subrange(0, before.len() as int) =~= before) by {
            assert(all.subrange(0, before.len() as int) =~= before);
            assert(w.subrange(0, before.len() as int) =~= all.subrange(0, before.len() as int));
        }
        lemma_run_pushes_preserves(prev, w);
        let (pending, out) = run_pushes(prev);
        let e = encode_utf8(out);
        let bb = pending + without_nul(c);
        assert(all =~= e + bb);
        encode_utf8_valid_utf8(out);
        assert(w.subrange(0, e.len() as int) =~= e) by {
            assert(w.subrange(0, e.len() as int) =~= all.subrange(0, e.len() as int));
        }
        lemma_valid_rest(w, e.len() as int);
        let cw = w.subrange(e.len() as int, w.len() as int);
        if bb.len() > UTF8_PENDING_LIMIT && !valid_utf8(bb) {
            assert(cw.subrange(0, bb.len() as int) =~= bb) by {
                assert(forall|j: int| 0 <= j < bb.len() ==> #[trigger] cw[j] == w[e.len() + j]);
                assert(forall|j: int| 0 <= j < bb.len() ==> #[trigger] bb[j] == all[e.len() + j]);
            }
            lemma_prefix_of_valid_not_stuck(cw, bb);
        }
        lemma_push_preserves_bytes(pending, c);
        let (next, text) = push_spec(pending, c);
        lemma_encode_concat(out, text);
        assert(encode_utf8(out + text) + next =~= e + (encode_utf8(text) + next));
    }
}

/// However a valid UTF-8 stream (NULs aside) is cut into chunks, pushing
/// the chunks in turn and then flushing hands out exactly its text: no
/// character is lost, split or repeated. What is left pending at the end
/// is valid, so the flush decodes it exactly.
pub proof fn lemma_utf8_stream_any_split(chunks: Seq<Seq<u8>>)
    requires
        valid_utf8(stream_bytes(chunks)),
    ensures
        valid_utf8(run_pushes(chunks).0),
        run_pushes(chunks).1 + decode_utf8(run_pushes(chunks).0) == decode_utf8(stream_bytes(chunks)),
{
    let all = stream_bytes(chunks);
    assert(all.subrange(0, all.len() as int) =~= all);
    lemma_run_pushes_preserves(chunks, all);
    let (pending, out) = run_pushes(chunks);
    let e = encode_utf8(out);
    encode_utf8_valid_utf8(out);
    assert(all.subrange(0, e.len() as int) =~= e);
    lemma_valid_rest(all, e.len() as int);
    assert(all.subrange(e.len() as int, all.len() as int) =~= pending);
    decode_utf8_encode_utf8(pending);
    lemma_encode_concat(out, decode_utf8(pending));
    encode_utf8_decode_utf8(out + decode_utf8(pending));
}

} // verus!
