use crate::text_wrappers::str_chars;
use vstd::prelude::*;

verus! {

/// The token that the character tokenizer gives a character.
pub open spec fn char_token(c: char) -> i32 {
    let u = c as u32;
    if c == ' ' || c == '\n' {
        29871
    } else if 'a' <= c <= 'z' {
        (30400 + (u - ('a' as u32))) as i32
    } else if 'A' <= c <= 'Z' {
        (30426 + (u - ('A' as u32))) as i32
    } else if '0' <= c <= '9' {
        (29900 + (u - ('0' as u32))) as i32
    } else if c == '.' {
        29889
    } else if c == ',' {
        29892
    } else if c == '!' {
        29906
    } else if c == '?' {
        29905
    } else {
        29896
    }
}

/// The tokens of a text under the character tokenizer: the beginning-of-
/// sequence token 1 first when asked for and there is room, then one token
/// a character, as many as fit in `max_tokens`.
pub open spec fn simple_tokens(text: Seq<char>, max_tokens: i32, add_bos: bool) -> Seq<i32> {
    let bos: Seq<i32> = if add_bos && 0 < max_tokens {
        seq![1i32]
    } else {
        Seq::empty()
    };
    let room: int = if max_tokens <= 0 {
        0
    } else {
        max_tokens - bos.len()
    };
    let n: int = if text.len() < room {
        text.len() as int
    } else {
        room
    };
    bos + text.take(n).map_values(|c: char| char_token(c))
}

fn char_token_exec(c: char) -> (t: i32)
    ensures
        t == char_token(c),
{
    if c == ' ' || c == '\n' {
        29871
    } else if 'a' <= c && c <= 'z' {
        (30400 + ((c as u32) - ('a' as u32))) as i32
    } else if 'A' <= c && c <= 'Z' {
        (30426 + ((c as u32) - ('A' as u32))) as i32
    } else if '0' <= c && c <= '9' {
        (29900 + ((c as u32) - ('0' as u32))) as i32
    } else if c == '.' {
        29889
    } else if c == ',' {
        29892
    } else if c == '!' {
        29906
    } else if c == '?' {
        29905
    } else {
        29896
    }
}

/// A stand-in tokenizer for short texts that maps characters to fixed
/// token ids, for when the model's own tokenizer is not at hand.
pub fn simple_char_tokenize(text: &str, max_tokens: i32, add_bos: bool) -> (r: Vec<i32>)
    ensures
        r@ == simple_tokens(text@, max_tokens, add_bos),
{
    let chars = str_chars(text);
    let mut out: Vec<i32> = Vec::new();
    let mut count: i32 = 0;
    if add_bos && count < max_tokens {
        out.push(1);
        count = count + 1;
    }
    let ghost bos = out@;
    let mut i: usize = 0;
    while i < chars.len()
        invariant
            chars@ == text@,
            i <= chars@.len(),
            bos == (if add_bos && 0 < max_tokens {
                seq![1i32]
            } else {
                Seq::<i32>::empty()
            }),
            count == out@.len(),
            count <= (if max_tokens < 0 { 0 } else { max_tokens as int }),
            out@ == bos + chars@.take(i as int).map_values(|c: char| char_token(c)),
        ensures
            out@ == bos + chars@.take(i as int).map_values(|c: char| char_token(c)),
            i == chars@.len() || count >= max_tokens,
            count == out@.len(),
            i <= chars@.len(),
        decreases chars@.len() - i,
    {
        if count >= max_tokens {
            break;
        }
        let t = char_token_exec(chars[i]);
        out.push(t);
        count = count + 1;
        proof {
            assert(chars@.take(i + 1).map_values(|c: char| char_token(c)) =~= chars@.take(
                i as int,
            ).map_values(|c: char| char_token(c)).push(char_token(chars@[i as int])));
        }
        i = i + 1;
    }
    out
}

/// The token that the compatibility layer's stand-in tokenizer gives a
/// character.
pub open spec fn compat_token(c: char) -> i32 {
    let u = c as u32;
    if 'A' <= c <= 'Z' {
        (u - 65 + 1) as i32
    } else if 'a' <= c <= 'z' {
        (u - 97 + 27) as i32
    } else if '0' <= c <= '9' {
        (u - 48 + 53) as i32
    } else if c == ' ' {
        999
    } else {
        (u + 1000) as i32
    }
}

/// The compatibility layer's stand-in for the engine's tokenizer: one
/// token a character, as many as fit in `n_max_tokens`, and the number of
/// characters; `None` (the C function's -1) when no token fits.
pub fn llama_tokenize(text: &str, n_max_tokens: i32) -> (r: Option<(Vec<i32>, i32)>)
    requires
        text@.len() <= i32::MAX,
    ensures
        n_max_tokens <= 0 ==> r is None,
        n_max_tokens > 0 ==> (r matches Some((toks, count)) && count == text@.len() && toks@
            == text@.take(
            if text@.len() < n_max_tokens {
                text@.len() as int
            } else {
                n_max_tokens as int
            },
        ).map_values(|c: char| compat_token(c))),
{
    if n_max_tokens <= 0 {
        return None;
    }
    let chars = str_chars(text);
    let n = chars.len();
    let m: usize = if n < n_max_tokens as usize {
        n
    } else {
        n_max_tokens as usize
    };
    let mut out: Vec<i32> = Vec::new();
    let mut i: usize = 0;
    while i < m
        invariant
            m <= n == chars@.len(),
            chars@ == text@,
            i <= m,
            out@ == chars@.take(i as int).map_values(|c: char| compat_token(c)),
        decreases m - i,
    {
        let c = chars[i];
        let u = c as u32;
        proof {
            vstd::utf8::char_is_scalar(c);
        }
        let t: i32 = if 'A' <= c && c <= 'Z' {
            (u - 65 + 1) as i32
        } else if 'a' <= c && c <= 'z' {
            (u - 97 + 27) as i32
        } else if '0' <= c && c <= '9' {
            (u - 48 + 53) as i32
        } else if c == ' ' {
            999
        } else {
            (u + 1000) as i32
        };
        out.push(t);
        proof {
            assert(chars@.take(i + 1).map_values(|c: char| compat_token(c)) =~= chars@.take(
                i as int,
            ).map_values(|c: char| compat_token(c)).push(compat_token(chars@[i as int])));
        }
        i = i + 1;
    }
    Some((out, n as i32))
}

/// The character tokenizer's vocabulary: space and newline 29871, `a`–`z`
/// from 30400 and `A`–`Z` from 30426 in alphabet order, `0`–`9` from 29900,
/// `.` 29889, `,` 29892, `!` 29906, `?` 29905, anything else 29896; the
/// stand-in tokenizer numbers `A`–`Z` from 1, `a`–`z` from 27, `0`–`9` from
/// 53, space 999 and any other character its code plus 1000.
pub proof fn lemma_token_vocabulary(c: char, k: u32)
    ensures
        char_token(' ') == 29871 && char_token('\n') == 29871,
        char_token('.') == 29889 && char_token(',') == 29892 && char_token('!') == 29906
            && char_token('?') == 29905,
        k < 26 && ('a' as u32) + k == c as u32 ==> char_token(c) == 30400 + k,
        k < 26 && ('A' as u32) + k == c as u32 ==> char_token(c) == 30426 + k,
        k < 10 && ('0' as u32) + k == c as u32 ==> char_token(c) == 29900 + k,
        !('a' <= c <= 'z') && !('A' <= c <= 'Z') && !('0' <= c <= '9') && c != ' ' && c != '\n'
            && c != '.' && c != ',' && c != '!' && c != '?' ==> char_token(c) == 29896,
        k < 26 && ('A' as u32) + k == c as u32 ==> compat_token(c) == 1 + k,
        k < 26 && ('a' as u32) + k == c as u32 ==> compat_token(c) == 27 + k,
        k < 10 && ('0' as u32) + k == c as u32 ==> compat_token(c) == 53 + k,
        compat_token(' ') == 999,
        !('a' <= c <= 'z') && !('A' <= c <= 'Z') && !('0' <= c <= '9') && c != ' ' ==> compat_token(c)
            == (c as u32) + 1000,
{
}

} // verus!
