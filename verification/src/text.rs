use crate::text_wrappers::{str_chars, string_append, string_from_chars, string_push};
use vstd::prelude::*;

verus! {

/// Whether `n` occurs in `h` as a contiguous run.
pub open spec fn contains_seq(h: Seq<char>, n: Seq<char>) -> bool {
    exists|i: int| 0 <= i && i + n.len() <= h.len() && #[trigger] h.subrange(i, i + n.len()) == n
}

/// Whether `n` occurs in `h` as a contiguous run.
pub fn contains_chars(h: &[char], n: &[char]) -> (r: bool)
    ensures
        r == contains_seq(h@, n@),
{
    if n.len() > h.len() {
        return false;
    }
    if n.len() == 0 {
        assert(h@.subrange(0, 0int + n@.len()) =~= n@);
        return true;
    }
    let hl = h.len();
    let last = h.len() - n.len();
    let mut i: usize = 0;
    while i <= last
        invariant
            n@.len() >= 1,
            hl == h@.len(),
            n@.len() <= h@.len(),
            last == h@.len() - n@.len(),
            0 <= i <= last + 1,
            forall|j: int| 0 <= j < i ==> #[trigger] h@.subrange(j, j + n@.len()) != n@,
        decreases last + 1 - i,
    {
        let mut k: usize = 0;
        let mut same = true;
        while k < n.len()
            invariant
                i <= last,
                hl == h@.len(),
                n@.len() <= h@.len(),
                last == h@.len() - n@.len(),
                0 <= k <= n@.len(),
                same == (forall|m: int| 0 <= m < k ==> h@[i + m] == n@[m]),
            decreases n@.len() - k,
        {
            if h[i + k] != n[k] {
                same = false;
            }
            k = k + 1;
        }
        if same {
            assert(h@.subrange(i as int, i + n@.len()) =~= n@);
            return true;
        }
        assert(h@.subrange(i as int, i + n@.len()) != n@) by {
            let m = choose|m: int| 0 <= m < n@.len() && h@[i + m] != n@[m];
            assert(h@.subrange(i as int, i + n@.len())[m] == h@[i + m]);
        }
        i = i + 1;
    }
    false
}

/// Whether the text of `s` contains the text of `n`.
pub fn str_contains(s: &str, n: &str) -> (r: bool)
    ensures
        r == contains_seq(s@, n@),
{
    let h = str_chars(s);
    let m = str_chars(n);
    contains_chars(h.as_slice(), m.as_slice())
}

/// Whether a streamed token carries control markup or reasoning text that
/// must not reach the user.
pub open spec fn suppress_spec(t: Seq<char>) -> bool {
    contains_seq(t, "<|"@) || contains_seq(t, "<assistant"@) || contains_seq(t, "assistantfinal"@)
        || contains_seq(t, "analysis"@) || contains_seq(t, "The user is speaking"@)
        || contains_seq(t, "The assistant should"@) || contains_seq(t, "We need to"@)
        || contains_seq(t, "Thus produce"@) || contains_seq(t, "Ok produce answer"@)
}

/// Whether a streamed token is to be held back from the user.
pub fn token_should_be_suppressed(token: &str) -> (r: bool)
    ensures
        r == suppress_spec(token@),
{
    str_contains(token, "<|") || str_contains(token, "<assistant") || str_contains(
        token,
        "assistantfinal",
    ) || str_contains(token, "analysis") || str_contains(token, "The user is speaking")
        || str_contains(token, "The assistant should") || str_contains(token, "We need to")
        || str_contains(token, "Thus produce") || str_contains(token, "Ok produce answer")
}

/// ASCII lower case of one character.
pub open spec fn ascii_lower(c: char) -> char {
    if 'A' <= c && c <= 'Z' {
        ((c as u32) + 32) as char
    } else {
        c
    }
}

/// ASCII lower case of a text.
pub open spec fn ascii_lower_seq(s: Seq<char>) -> Seq<char> {
    s.map_values(|c: char| ascii_lower(c))
}

pub(crate) fn to_ascii_lower_chars(s: &[char]) -> (r: Vec<char>)
    ensures
        r@ == ascii_lower_seq(s@),
{
    let mut r: Vec<char> = Vec::new();
    let mut i: usize = 0;
    while i < s.len()
        invariant
            0 <= i <= s@.len(),
            r@ == ascii_lower_seq(s@.subrange(0, i as int)),
        decreases s@.len() - i,
    {
        let c = s[i];
        let l = if c >= 'A' && c <= 'Z' {
            ((c as u8) + 32) as char
        } else {
            c
        };
        r.push(l);
        i = i + 1;
        assert(r@ =~= ascii_lower_seq(s@.subrange(0, i as int)));
    }
    assert(s@.subrange(0, s@.len() as int) =~= s@);
    r
}

/// The position of the last '/' before `n`, or -1.
pub open spec fn last_slash_before(p: Seq<char>, n: int) -> int
    decreases n,
{
    if n <= 0 {
        -1
    } else if p[n - 1] == '/' {
        n - 1
    } else {
        last_slash_before(p, n - 1)
    }
}

/// Where the final component of the path `p[..n]` lies, if it has a
/// normal one: trailing separators and `.` components are skipped, and a
/// final `..` (or nothing at all) gives none.
pub open spec fn file_name_range(p: Seq<char>, n: int) -> Option<(int, int)>
    decreases n,
{
    if n <= 0 {
        None
    } else if p[n - 1] == '/' {
        file_name_range(p, n - 1)
    } else {
        let s = last_slash_before(p, n) + 1;
        if n - s == 1 && p[s] == '.' {
            if s == 0 {
                None
            } else {
                file_name_range(p, s)
            }
        } else if n - s == 2 && p[s] == '.' && p[s + 1] == '.' {
            None
        } else {
            Some((s, n))
        }
    }
}

/// `s` with every trailing copy of `suffix` removed.
pub open spec fn trim_suffix_all(s: Seq<char>, suffix: Seq<char>) -> Seq<char>
    decreases s.len(),
{
    if suffix.len() > 0 && s.len() >= suffix.len() && s.subrange(
        s.len() - suffix.len(),
        s.len() as int,
    ) == suffix {
        trim_suffix_all(s.subrange(0, s.len() - suffix.len()), suffix)
    } else {
        s
    }
}

/// The model id of a model file path.
pub open spec fn model_id_spec(p: Seq<char>) -> Seq<char> {
    let lower = ascii_lower_seq(p);
    if contains_seq(lower, "llama-3"@) || contains_seq(lower, "llama3"@) {
        "llama3"@
    } else {
        let f = match file_name_range(p, p.len() as int) {
            Some((s, e)) => p.subrange(s, e),
            None => p,
        };
        trim_suffix_all(trim_suffix_all(f, ".gguf"@), ".bin"@)
    }
}

fn last_slash_exec(p: &[char], n: usize) -> (r: Option<usize>)
    requires
        n <= p@.len(),
    ensures
        match r {
            Some(i) => i < n && i == last_slash_before(p@, n as int),
            None => last_slash_before(p@, n as int) == -1,
        },
    decreases n,
{
    if n == 0 {
        None
    } else if p[n - 1] == '/' {
        Some(n - 1)
    } else {
        last_slash_exec(p, n - 1)
    }
}

fn file_name_exec(p: &[char], n: usize) -> (r: Option<(usize, usize)>)
    requires
        n <= p@.len(),
    ensures
        match r {
            Some((s, e)) => s <= e <= p@.len() && file_name_range(p@, n as int) == Some(
                (s as int, e as int),
            ),
            None => file_name_range(p@, n as int) is None,
        },
    decreases n,
{
    if n == 0 {
        return None;
    }
    if p[n - 1] == '/' {
        return file_name_exec(p, n - 1);
    }
    let s = match last_slash_exec(p, n) {
        Some(i) => i + 1,
        None => 0,
    };
    if n - s == 1 && p[s] == '.' {
        if s == 0 {
            return None;
        }
        return file_name_exec(p, s);
    }
    if n - s == 2 && p[s] == '.' && p[s + 1] == '.' {
        return None;
    }
    Some((s, n))
}

fn trim_suffix_all_exec(s: &[char], suffix: &[char]) -> (r: Vec<char>)
    ensures
        r@ == trim_suffix_all(s@, suffix@),
{
    let mut end = s.len();
    let mut done = false;
    assert(s@.subrange(0, s@.len() as int) =~= s@);
    while !done
        invariant
            end <= s@.len(),
            trim_suffix_all(s@.subrange(0, end as int), suffix@) == trim_suffix_all(s@, suffix@),
            done ==> trim_suffix_all(s@.subrange(0, end as int), suffix@) == s@.subrange(
                0,
                end as int,
            ),
        decreases end + (if done { 0int } else { 1int }),
    {
        let ghost cur = s@.subrange(0, end as int);
        if suffix.len() == 0 || end < suffix.len() {
            done = true;
        } else {
            let start = end - suffix.len();
            let mut k: usize = 0;
            let mut same = true;
            while k < suffix.len()
                invariant
                    start + suffix@.len() == end,
                    end <= s@.len(),
                    0 <= k <= suffix@.len(),
                    same == (forall|m: int| 0 <= m < k ==> s@[start + m] == suffix@[m]),
                decreases suffix@.len() - k,
            {
                if s[start + k] != suffix[k] {
                    same = false;
                }
                k = k + 1;
            }
            if !same {
                assert(cur.subrange(cur.len() - suffix@.len(), cur.len() as int) != suffix@) by {
                    let m = choose|m: int| 0 <= m < suffix@.len() && s@[start + m] != suffix@[m];
                    assert(cur.subrange(cur.len() - suffix@.len(), cur.len() as int)[m] == s@[start
                        + m]);
                }
                done = true;
            } else {
                assert(cur.subrange(cur.len() - suffix@.len(), cur.len() as int) =~= suffix@);
                assert(cur.subrange(0, cur.len() - suffix@.len()) =~= s@.subrange(0, start as int));
                end = start;
            }
        }
    }
    crate::bytes::copy_chars(s, 0, end)
}

/// The model id of a model file path: "llama3" for Llama 3 models,
/// otherwise the file name without its ".gguf" and ".bin" suffixes.
pub fn derive_model_id_from_path(model_path: &str) -> (r: String)
    ensures
        r@ == model_id_spec(model_path@),
{
    let p = str_chars(model_path);
    let lower = to_ascii_lower_chars(p.as_slice());
    let l3a = str_chars("llama-3");
    let l3b = str_chars("llama3");
    if contains_chars(lower.as_slice(), l3a.as_slice()) || contains_chars(
        lower.as_slice(),
        l3b.as_slice(),
    ) {
        return "llama3".to_owned();
    }
    let f = match file_name_exec(p.as_slice(), p.len()) {
        Some((s, e)) => crate::bytes::copy_chars(p.as_slice(), s, e),
        None => crate::bytes::copy_chars(p.as_slice(), 0, p.len()),
    };
    assert(p@.subrange(0, p@.len() as int) =~= p@);
    let gguf = str_chars(".gguf");
    let bin = str_chars(".bin");
    let t1 = trim_suffix_all_exec(f.as_slice(), gguf.as_slice());
    let t2 = trim_suffix_all_exec(t1.as_slice(), bin.as_slice());
    string_from_chars(t2.as_slice())
}

/// A streamed token is held back when it carries markup (`<|`,
/// `<assistant`) or one of the reasoning phrases `assistantfinal`,
/// `analysis`, `The user is speaking`, `The assistant should`,
/// `We need to`, `Thus produce`, `Ok produce answer`; a token with none of
/// them is passed on.
pub proof fn lemma_suppressed_tokens(t: Seq<char>)
    ensures
        contains_seq(t, "<|"@) ==> suppress_spec(t),
        contains_seq(t, "<assistant"@) ==> suppress_spec(t),
        contains_seq(t, "assistantfinal"@) ==> suppress_spec(t),
        contains_seq(t, "analysis"@) ==> suppress_spec(t),
        contains_seq(t, "The user is speaking"@) ==> suppress_spec(t),
        contains_seq(t, "The assistant should"@) ==> suppress_spec(t),
        contains_seq(t, "We need to"@) ==> suppress_spec(t),
        contains_seq(t, "Thus produce"@) ==> suppress_spec(t),
        contains_seq(t, "Ok produce answer"@) ==> suppress_spec(t),
        !(contains_seq(t, "<|"@) || contains_seq(t, "<assistant"@) || contains_seq(t, "assistantfinal"@) || contains_seq(t, "analysis"@) || contains_seq(t, "The user is speaking"@) || contains_seq(t, "The assistant should"@) || contains_seq(t, "We need to"@) || contains_seq(t, "Thus produce"@) || contains_seq(t, "Ok produce answer"@)) ==> !suppress_spec(t),
{
}

/// A path that names Llama 3 (`llama-3` or `llama3`, in any ASCII case)
/// gets the id `llama3`, whatever else it holds.
pub proof fn lemma_llama3_id(p: Seq<char>)
    ensures
        (contains_seq(ascii_lower_seq(p), "llama-3"@) || contains_seq(ascii_lower_seq(p), "llama3"@))
            ==> model_id_spec(p) == "llama3"@,
{
}

} // verus!
