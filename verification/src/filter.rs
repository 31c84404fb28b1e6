use crate::bytes::copy_chars;
use crate::text;
use crate::text::contains_chars;
use crate::text_wrappers::{str_chars, string_from_chars};
use vstd::prelude::*;

verus! {

/// Bytes in the UTF-8 encoding of `c`.
pub open spec fn char_utf8_len(c: char) -> nat {
    if (c as u32) < 0x80 {
        1
    } else if (c as u32) < 0x800 {
        2
    } else if (c as u32) < 0x10000 {
        3
    } else {
        4
    }
}

/// Bytes in the UTF-8 encoding of a text.
pub open spec fn utf8_len(s: Seq<char>) -> nat
    decreases s.len(),
{
    if s.len() == 0 {
        0
    } else {
        utf8_len(s.drop_last()) + char_utf8_len(s.last())
    }
}

/// Texts that make the whole chunk internal reasoning.
pub open spec fn reasoning_marker(t: Seq<char>) -> bool {
    text::contains_seq(t, "analysis"@) || text::contains_seq(t, "The user is speaking"@)
        || text::contains_seq(t, "Means \""@) || text::contains_seq(t, "The assistant should"@)
        || text::contains_seq(t, "We need to"@) || text::contains_seq(t, "Thus produce"@)
        || text::contains_seq(t, "Ok produce answer"@) || text::contains_seq(t, "<assistant"@)
        || text::contains_seq(t, "<|channel|>"@) || text::contains_seq(t, "<|start|>"@)
}

/// Whether a buffered tag is one of the known control tokens.
pub open spec fn known_control(b: Seq<char>) -> bool {
    text::contains_seq(b, "<|channel|>"@) || text::contains_seq(b, "<|start|>"@)
        || text::contains_seq(b, "<|end|>"@) || text::contains_seq(b, "<|message|>"@)
}

/// Where a tag that opens at the start of `s` stops, looking from `k`: at
/// its first `>`, or at the first character that takes the tag past 50
/// bytes, or at the end of the text when neither comes.
pub open spec fn tag_stop(s: Seq<char>, k: int) -> int
    decreases s.len() - k,
{
    if k < 0 || k >= s.len() {
        s.len() as int
    } else if s[k] == '>' || utf8_len(s.take(k + 1)) > 50 {
        k
    } else {
        tag_stop(s, k + 1)
    }
}

/// A stop looked for from `k` lies between `k` and the end of the text.
pub proof fn lemma_tag_stop_range(s: Seq<char>, k: int)
    requires
        0 <= k <= s.len(),
    ensures
        k <= tag_stop(s, k) <= s.len(),
    decreases s.len() - k,
{
    if k < s.len() && !(s[k] == '>' || utf8_len(s.take(k + 1)) > 50) {
        lemma_tag_stop_range(s, k + 1);
    }
}

/// Whether `s` opens with the tag opener `<|`.
pub open spec fn opens_tag(s: Seq<char>) -> bool {
    s.len() >= 2 && s[0] == '<' && s[1] == '|'
}

/// `s` with its `<|...>` tags handled: a known control token is dropped, an
/// unknown tag is kept, a tag that runs past 50 bytes without closing is
/// dropped up to that point, and an unclosed tag at the end is kept. Text
/// outside tags is kept as it is.
pub open spec fn strip_tags(s: Seq<char>) -> Seq<char>
    decreases s.len(),
{
    if s.len() == 0 {
        s
    } else if opens_tag(s) {
        let k = tag_stop(s, 2);
        proof {
            lemma_tag_stop_range(s, 2);
        }
        if k >= s.len() {
            s
        } else if s[k] == '>' && known_control(s.take(k + 1)) {
            strip_tags(s.skip(k + 1))
        } else if s[k] == '>' {
            s.take(k + 1) + strip_tags(s.skip(k + 1))
        } else {
            strip_tags(s.skip(k + 1))
        }
    } else {
        seq![s[0]] + strip_tags(s.drop_first())
    }
}

/// `s` with every occurrence of `pat` removed, scanning left to right.
pub open spec fn remove_all(s: Seq<char>, pat: Seq<char>) -> Seq<char>
    decreases s.len(),
{
    if s.len() == 0 {
        s
    } else if pat.len() > 0 && s.len() >= pat.len() && s.subrange(0, pat.len() as int) == pat {
        remove_all(s.subrange(pat.len() as int, s.len() as int), pat)
    } else {
        seq![s[0]] + remove_all(s.drop_first(), pat)
    }
}

/// What the control-token filter makes of a chunk of streamed text.
pub open spec fn filter_spec(t: Seq<char>) -> Seq<char> {
    if reasoning_marker(t) {
        Seq::empty()
    } else {
        remove_all(
            remove_all(remove_all(remove_all(strip_tags(t), "<|end|>"@), "<|start|>"@), "<|channel|>"@),
            "<|message|>"@,
        )
    }
}

fn char_utf8_len_exec(c: char) -> (n: usize)
    ensures
        n == char_utf8_len(c),
{
    let u = c as u32;
    if u < 0x80 {
        1
    } else if u < 0x800 {
        2
    } else if u < 0x10000 {
        3
    } else {
        4
    }
}

fn append_chars(v: &mut Vec<char>, s: &[char])
    ensures
        final(v)@ == old(v)@ + s@,
{
    let mut i: usize = 0;
    let ghost start = v@;
    while i < s.len()
        invariant
            0 <= i <= s@.len(),
            v@ == start + s@.subrange(0, i as int),
        decreases s@.len() - i,
    {
        v.push(s[i]);
        i = i + 1;
        assert(v@ =~= start + s@.subrange(0, i as int));
    }
    assert(s@.subrange(0, s@.len() as int) =~= s@);
}

fn remove_all_exec(s: &[char], pat: &[char]) -> (r: Vec<char>)
    requires
        pat@.len() > 0,
    ensures
        r@ == remove_all(s@, pat@),
{
    let mut out: Vec<char> = Vec::new();
    let mut i: usize = 0;
    let slen = s.len();
    assert(s@.subrange(0, s@.len() as int) =~= s@);
    while i < s.len()
        invariant
            slen == s@.len(),
            0 <= i <= s@.len(),
            pat@.len() > 0,
            out@ + remove_all(s@.subrange(i as int, s@.len() as int), pat@) == remove_all(s@, pat@),
        decreases s@.len() - i,
    {
        let ghost rest = s@.subrange(i as int, s@.len() as int);
        let mut matched = false;
        if s.len() - i >= pat.len() {
            let mut k: usize = 0;
            let mut same = true;
            while k < pat.len()
                invariant
                    slen == s@.len(),
                    i + pat@.len() <= s@.len(),
                    0 <= k <= pat@.len(),
                    same == (forall|m: int| 0 <= m < k ==> s@[i + m] == pat@[m]),
                decreases pat@.len() - k,
            {
                if s[i + k] != pat[k] {
                    same = false;
                }
                k = k + 1;
            }
            if same {
                assert(rest.subrange(0, pat@.len() as int) =~= pat@);
                assert(rest.subrange(pat@.len() as int, rest.len() as int) =~= s@.subrange(
                    i + pat@.len(),
                    s@.len() as int,
                ));
                matched = true;
                i = i + pat.len();
            } else {
                assert(rest.subrange(0, pat@.len() as int) != pat@) by {
                    let m = choose|m: int| 0 <= m < pat@.len() && s@[i + m] != pat@[m];
                    assert(rest.subrange(0, pat@.len() as int)[m] == s@[i + m]);
                }
            }
        }
        if !matched {
            let ghost before = out@;
            out.push(s[i]);
            assert(rest.drop_first() =~= s@.subrange(i + 1, s@.len() as int));
            assert(out@ + remove_all(rest.drop_first(), pat@) =~= before + (seq![rest[0]]
                + remove_all(rest.drop_first(), pat@)));
            i = i + 1;
        }
    }
    assert(s@.subrange(i as int, s@.len() as int) =~= Seq::<char>::empty());
    assert(out@ + Seq::<char>::empty() =~= out@);
    out
}

fn reasoning_marker_exec(t: &[char]) -> (r: bool)
    ensures
        r == reasoning_marker(t@),
{
    contains_chars(t, str_chars("analysis").as_slice()) || contains_chars(
        t,
        str_chars("The user is speaking").as_slice(),
    ) || contains_chars(t, str_chars("Means \"").as_slice()) || contains_chars(
        t,
        str_chars("The assistant should").as_slice(),
    ) || contains_chars(t, str_chars("We need to").as_slice()) || contains_chars(
        t,
        str_chars("Thus produce").as_slice(),
    ) || contains_chars(t, str_chars("Ok produce answer").as_slice()) || contains_chars(
        t,
        str_chars("<assistant").as_slice(),
    ) || contains_chars(t, str_chars("<|channel|>").as_slice()) || contains_chars(
        t,
        str_chars("<|start|>").as_slice(),
    )
}

fn known_control_exec(b: &[char]) -> (r: bool)
    ensures
        r == known_control(b@),
{
    contains_chars(b, str_chars("<|channel|>").as_slice()) || contains_chars(
        b,
        str_chars("<|start|>").as_slice(),
    ) || contains_chars(b, str_chars("<|end|>").as_slice()) || contains_chars(
        b,
        str_chars("<|message|>").as_slice(),
    )
}

/// Where the tag opening at `i` stops (see `tag_stop`), scanning forward.
fn tag_stop_exec(input: &[char], i: usize) -> (k: usize)
    requires
        i + 2 <= input@.len(),
        opens_tag(input@.skip(i as int)),
    ensures
        i + 2 <= k <= input@.len(),
        k - i == tag_stop(input@.skip(i as int), 2),
{
    let ghost s = input@.skip(i as int);
    let n = input.len();
    let mut k: usize = i + 2;
    let mut bytes: usize = 2;
    proof {
        assert(s.take(2).drop_last() =~= seq![s[0]]);
        assert(seq![s[0]].drop_last() =~= Seq::<char>::empty());
        assert(s[0] == '<' && s[1] == '|');
        assert(char_utf8_len(s[0]) == 1 && char_utf8_len(s[1]) == 1);
        assert(utf8_len(Seq::<char>::empty()) == 0);
        assert(utf8_len(seq![s[0]]) == utf8_len(Seq::<char>::empty()) + char_utf8_len(s[0]));
        assert(utf8_len(s.take(2)) == utf8_len(seq![s[0]]) + char_utf8_len(s[1]));
    }
    while k < n
        invariant
            n == input@.len(),
            s == input@.skip(i as int),
            i + 2 <= k <= n,
            bytes <= 50,
            bytes == utf8_len(s.take(k - i)),
            tag_stop(s, 2) == tag_stop(s, k - i),
        decreases n - k,
    {
        let c = input[k];
        let w = char_utf8_len_exec(c);
        proof {
            assert(s[k - i] == c);
            assert(s.take(k - i + 1).drop_last() =~= s.take(k - i));
        }
        if c == '>' || bytes + w > 50 {
            return k;
        }
        bytes = bytes + w;
        k = k + 1;
    }
    k
}

/// Strips the model's internal control tokens from a chunk of streamed
/// text: a chunk that reads as internal reasoning gives nothing; otherwise
/// the known control tokens are removed and all other text is kept.
pub fn filter_control_tokens(text: &str) -> (r: String)
    ensures
        r@ == filter_spec(text@),
{
    let input = str_chars(text);
    if reasoning_marker_exec(input.as_slice()) {
        return String::new();
    }
    let n = input.len();
    let mut result: Vec<char> = Vec::new();
    let mut i: usize = 0;
    proof {
        assert(input@.skip(0) =~= input@);
    }
    while i < n
        invariant
            n == input@.len(),
            input@ == text@,
            i <= n,
            result@ + strip_tags(input@.skip(i as int)) == strip_tags(input@),
        decreases n - i,
    {
        let ghost s = input@.skip(i as int);
        let ghost r0 = result@;
        if i + 1 < n && input[i] == '<' && input[i + 1] == '|' {
            assert(opens_tag(s));
            let k = tag_stop_exec(input.as_slice(), i);
            if k >= n {
                append_chars(&mut result, copy_chars(input.as_slice(), i, n).as_slice());
                assert(input@.subrange(i as int, n as int) =~= s);
                assert(input@.skip(n as int) =~= Seq::<char>::empty());
                i = n;
            } else {
                let tag = copy_chars(input.as_slice(), i, k + 1);
                assert(tag@ =~= s.take(k - i + 1));
                assert(s.skip(k - i + 1) =~= input@.skip(k + 1));
                assert(s[k - i] == input@[k as int]);
                if input[k] == '>' {
                    if !known_control_exec(tag.as_slice()) {
                        append_chars(&mut result, tag.as_slice());
                    }
                }
                i = k + 1;
            }
        } else {
            assert(s.drop_first() =~= input@.skip(i + 1));
            result.push(input[i]);
            i = i + 1;
        }
        assert(result@ + strip_tags(input@.skip(i as int)) =~= r0 + strip_tags(s));
    }
    proof {
        assert(input@.skip(n as int) =~= Seq::<char>::empty());
        assert(result@ + Seq::<char>::empty() =~= result@);
        reveal_strlit("<|end|>");
        reveal_strlit("<|start|>");
        reveal_strlit("<|channel|>");
        reveal_strlit("<|message|>");
    }
    let a = remove_all_exec(result.as_slice(), str_chars("<|end|>").as_slice());
    let a = remove_all_exec(a.as_slice(), str_chars("<|start|>").as_slice());
    let a = remove_all_exec(a.as_slice(), str_chars("<|channel|>").as_slice());
    let a = remove_all_exec(a.as_slice(), str_chars("<|message|>").as_slice());
    string_from_chars(a.as_slice())
}

proof fn lemma_strip_tags_plain(s: Seq<char>)
    requires
        !text::contains_seq(s, "<|"@),
    ensures
        strip_tags(s) == s,
    decreases s.len(),
{
    reveal_strlit("<|");
    if s.len() > 0 {
        if opens_tag(s) {
            assert(s.subrange(0, 0 + "<|"@.len() as int) =~= "<|"@);
        }
        assert forall|i: int|
            0 <= i && i + "<|"@.len() <= s.drop_first().len() implies #[trigger] s.drop_first().subrange(
            i,
            i + "<|"@.len(),
        ) != "<|"@ by {
            assert(s.drop_first().subrange(i, i + 2) =~= s.subrange(i + 1, i + 1 + "<|"@.len()));
        }
        lemma_strip_tags_plain(s.drop_first());
        assert(seq![s[0]] + s.drop_first() =~= s);
    }
}

proof fn lemma_remove_all_absent(s: Seq<char>, pat: Seq<char>)
    requires
        pat.len() > 0,
        !text::contains_seq(s, pat),
    ensures
        remove_all(s, pat) == s,
    decreases s.len(),
{
    if s.len() > 0 {
        if s.len() >= pat.len() && s.subrange(0, pat.len() as int) == pat {
            assert(s.subrange(0, 0 + pat.len() as int) == pat);
        }
        assert forall|i: int|
            0 <= i && i + pat.len() <= s.drop_first().len() implies #[trigger] s.drop_first().subrange(
            i,
            i + pat.len(),
        ) != pat by {
            assert(s.drop_first().subrange(i, i + pat.len()) =~= s.subrange(
                i + 1,
                (i + 1) + pat.len(),
            ));
        }
        lemma_remove_all_absent(s.drop_first(), pat);
        assert(seq![s[0]] + s.drop_first() =~= s);
    }
}

proof fn lemma_no_opener_no_token(s: Seq<char>, pat: Seq<char>)
    requires
        pat.len() >= 2,
        pat[0] == '<',
        pat[1] == '|',
        !text::contains_seq(s, "<|"@),
    ensures
        !text::contains_seq(s, pat),
{
    reveal_strlit("<|");
    if text::contains_seq(s, pat) {
        let i = choose|i: int| 0 <= i && i + pat.len() <= s.len() && #[trigger] s.subrange(i, i + pat.len()) == pat;
        assert(s.subrange(i, i + "<|"@.len()) =~= "<|"@);
    }
}

/// Ordinary text passes the filter unchanged: a chunk with no `<|` tag
/// opener and no reasoning marker comes out as it went in.
pub proof fn lemma_filter_passes_plain_text(t: Seq<char>)
    requires
        !text::contains_seq(t, "<|"@),
        !reasoning_marker(t),
    ensures
        filter_spec(t) == t,
{
    reveal_strlit("<|end|>");
    reveal_strlit("<|start|>");
    reveal_strlit("<|channel|>");
    reveal_strlit("<|message|>");
    lemma_strip_tags_plain(t);
    lemma_no_opener_no_token(t, "<|end|>"@);
    lemma_no_opener_no_token(t, "<|start|>"@);
    lemma_no_opener_no_token(t, "<|channel|>"@);
    lemma_no_opener_no_token(t, "<|message|>"@);
    lemma_remove_all_absent(t, "<|end|>"@);
    lemma_remove_all_absent(t, "<|start|>"@);
    lemma_remove_all_absent(t, "<|channel|>"@);
    lemma_remove_all_absent(t, "<|message|>"@);
}

/// A chunk that reads as the model's internal reasoning is dropped whole:
/// any text holding one of the markers `analysis`, `The user is speaking`,
/// `Means "`, `The assistant should`, `We need to`, `Thus produce`,
/// `Ok produce answer`, `<assistant`, `<|channel|>` or `<|start|>` filters
/// to nothing.
pub proof fn lemma_reasoning_dropped(t: Seq<char>)
    ensures
        text::contains_seq(t, "analysis"@) ==> filter_spec(t) == Seq::<char>::empty(),
        text::contains_seq(t, "The user is speaking"@) ==> filter_spec(t) == Seq::<char>::empty(),
        text::contains_seq(t, "Means \""@) ==> filter_spec(t) == Seq::<char>::empty(),
        text::contains_seq(t, "The assistant should"@) ==> filter_spec(t) == Seq::<char>::empty(),
        text::contains_seq(t, "We need to"@) ==> filter_spec(t) == Seq::<char>::empty(),
        text::contains_seq(t, "Thus produce"@) ==> filter_spec(t) == Seq::<char>::empty(),
        text::contains_seq(t, "Ok produce answer"@) ==> filter_spec(t) == Seq::<char>::empty(),
        text::contains_seq(t, "<assistant"@) ==> filter_spec(t) == Seq::<char>::empty(),
        text::contains_seq(t, "<|channel|>"@) ==> filter_spec(t) == Seq::<char>::empty(),
        text::contains_seq(t, "<|start|>"@) ==> filter_spec(t) == Seq::<char>::empty(),
{
}

proof fn lemma_utf8_len_take_mono(s: Seq<char>, i: int, j: int)
    requires
        0 <= i <= j <= s.len(),
    ensures
        utf8_len(s.take(i)) <= utf8_len(s.take(j)),
    decreases j - i,
{
    if i < j {
        assert(s.take(j).drop_last() =~= s.take(j - 1));
        lemma_utf8_len_take_mono(s, i, j - 1);
    }
}

proof fn lemma_tag_stop_walk(s: Seq<char>, k: int, e: int)
    requires
        2 <= k <= e < s.len(),
        s[e] == '>',
        forall|m: int| k <= m < e ==> s[m] != '>',
        utf8_len(s.take(e + 1)) <= 50,
    ensures
        tag_stop(s, k) == e,
    decreases e - k,
{
    if k < e {
        lemma_utf8_len_take_mono(s, k + 1, e + 1);
        lemma_tag_stop_walk(s, k + 1, e);
    }
}

proof fn lemma_strip_plain_prefix(a: Seq<char>, s: Seq<char>)
    requires
        !text::contains_seq(a, "<|"@),
        s.len() == 0 || s[0] != '|',
    ensures
        strip_tags(a + s) == a + strip_tags(s),
    decreases a.len(),
{
    reveal_strlit("<|");
    if a.len() == 0 {
        assert(a + s =~= s);
        assert(a + strip_tags(s) =~= strip_tags(s));
    } else {
        let t = a + s;
        if opens_tag(t) {
            if a.len() >= 2 {
                assert(a.subrange(0, 0 + "<|"@.len() as int) =~= "<|"@);
            } else {
                assert(t[1] == s[0]);
            }
        }
        assert forall|i: int|
            0 <= i && i + "<|"@.len() <= a.drop_first().len() implies #[trigger] a.drop_first().subrange(
            i,
            i + "<|"@.len(),
        ) != "<|"@ by {
            assert(a.drop_first().subrange(i, i + 2) =~= a.subrange(i + 1, i + 1 + "<|"@.len()));
        }
        lemma_strip_plain_prefix(a.drop_first(), s);
        assert(t.drop_first() =~= a.drop_first() + s);
        assert(seq![a[0]] + (a.drop_first() + strip_tags(s)) =~= a + strip_tags(s));
    }
}

/// How a `<|…>` tag is handled: after text without a tag opener, a tag
/// `<|u>` (with no `>` inside, of at most 50 bytes) is dropped when it holds
/// one of the control tokens `<|channel|>`, `<|start|>`, `<|end|>` or
/// `<|message|>`, and kept as it is otherwise; the text before it is kept
/// and the text after it is handled on its own.
pub proof fn lemma_tag_handling(a: Seq<char>, u: Seq<char>, b: Seq<char>)
    requires
        !text::contains_seq(a, "<|"@),
        forall|i: int| 0 <= i < u.len() ==> u[i] != '>',
        utf8_len("<|"@ + u + ">"@) <= 50,
    ensures
        ({
            let tag = "<|"@ + u + ">"@;
            let control = text::contains_seq(tag, "<|channel|>"@) || text::contains_seq(
                tag,
                "<|start|>"@,
            ) || text::contains_seq(tag, "<|end|>"@) || text::contains_seq(tag, "<|message|>"@);
            strip_tags(a + tag + b) == a + (if control {
                Seq::<char>::empty()
            } else {
                tag
            }) + strip_tags(b)
        }),
{
    reveal_strlit("<|");
    reveal_strlit(">");
    let tag = "<|"@ + u + ">"@;
    let s = tag + b;
    let e = tag.len() - 1;
    assert(s[0] == '<' && s[1] == '|');
    assert(s.take(e + 1) =~= tag);
    assert forall|m: int| 2 <= m < e implies s[m] != '>' by {
        assert(s[m] == u[m - 2]);
    }
    assert(s[e] == '>');
    lemma_tag_stop_walk(s, 2, e);
    assert(s.skip(e + 1) =~= b);
    lemma_strip_plain_prefix(a, s);
    assert(a + tag + b =~= a + s);
    assert(a + tag + strip_tags(b) =~= a + (tag + strip_tags(b)));
    assert(a + Seq::<char>::empty() + strip_tags(b) =~= a + strip_tags(b));
}

} // verus!
