use crate::endpoints::chars_equal;
use crate::text;
use crate::text::to_ascii_lower_chars;
use crate::text_wrappers::{str_chars, string_append};
use vstd::prelude::*;

verus! {

/// One turn of a conversation.
#[derive(Debug, Clone)]
pub struct ChatMessage {
    pub role: String,
    pub content: String,
}

/// The label in front of a turn in the plain prompt format.
pub open spec fn plain_label(role: Seq<char>) -> Seq<char> {
    if role == "system"@ {
        "System: "@
    } else if role == "user"@ {
        "User: "@
    } else if role == "assistant"@ {
        "Assistant: "@
    } else {
        role + ": "@
    }
}

/// The turns in the plain format, one line each.
pub open spec fn plain_turns(msgs: Seq<ChatMessage>) -> Seq<char>
    decreases msgs.len(),
{
    if msgs.len() == 0 {
        Seq::empty()
    } else {
        plain_turns(msgs.drop_last()) + plain_label(msgs.last().role@) + msgs.last().content@
            + "\n"@
    }
}

/// The plain prompt: every turn, then the assistant's cue.
pub open spec fn plain_prompt(msgs: Seq<ChatMessage>) -> Seq<char> {
    plain_turns(msgs) + "Assistant: "@
}

/// Writes a conversation as a plain prompt: `System: `, `User: ` or
/// `Assistant: ` (or the role itself) before each turn, one turn a line,
/// and `Assistant: ` at the end.
pub fn build_chat_prompt(messages: &[ChatMessage]) -> (r: String)
    ensures
        r@ == plain_prompt(messages@),
{
    let mut out = String::new();
    let mut i: usize = 0;
    while i < messages.len()
        invariant
            i <= messages@.len(),
            out@ == plain_turns(messages@.take(i as int)),
        decreases messages@.len() - i,
    {
        let m = &messages[i];
        let role = str_chars(m.role.as_str());
        if chars_equal(role.as_slice(), str_chars("system").as_slice()) {
            string_append(&mut out, "System: ");
        } else if chars_equal(role.as_slice(), str_chars("user").as_slice()) {
            string_append(&mut out, "User: ");
        } else if chars_equal(role.as_slice(), str_chars("assistant").as_slice()) {
            string_append(&mut out, "Assistant: ");
        } else {
            string_append(&mut out, m.role.as_str());
            string_append(&mut out, ": ");
        }
        string_append(&mut out, m.content.as_str());
        string_append(&mut out, "\n");
        proof {
            assert(messages@.take(i + 1).drop_last() =~= messages@.take(i as int));
        }
        i = i + 1;
    }
    assert(messages@.take(messages@.len() as int) =~= messages@);
    string_append(&mut out, "Assistant: ");
    out
}

/// The name a role goes by in the default fallback format.
pub open spec fn fallback_label(role: Seq<char>) -> Seq<char> {
    if role == "user"@ {
        "Human"@
    } else if role == "assistant"@ {
        "Assistant"@
    } else {
        "System"@
    }
}

/// The turns in one of the fallback formats: `chatml`, `llama3`, or the
/// default one.
pub open spec fn fallback_turns(template: Seq<char>, msgs: Seq<ChatMessage>) -> Seq<char>
    decreases msgs.len(),
{
    if msgs.len() == 0 {
        Seq::empty()
    } else {
        let m = msgs.last();
        fallback_turns(template, msgs.drop_last()) + if template == "chatml"@ {
            m.role@ + "\n"@ + m.content@ + "\n"@
        } else if template == "llama3"@ {
            "<|start_header_id|>"@ + m.role@ + "\n\n"@ + m.content@ + "\n<|eot_id|>"@
        } else {
            fallback_label(m.role@) + ": "@ + m.content@ + "\n\n"@
        }
    }
}

/// The prompt that the fallback formatter writes for a template name,
/// matched without regard to ASCII case.
pub open spec fn fallback_prompt(template: Seq<char>, msgs: Seq<ChatMessage>) -> Seq<char> {
    let t = text::ascii_lower_seq(template);
    if t == "chatml"@ {
        fallback_turns(t, msgs) + "\nassistant\n"@
    } else if t == "llama3"@ {
        "<|begin_of_text|>"@ + fallback_turns(t, msgs) + "<|start_header_id|>assistant\n\n"@
    } else {
        fallback_turns(t, msgs) + "Assistant: "@
    }
}

/// Writes a conversation in the format that `template` names (`chatml`,
/// `llama3`, anything else giving the plain `Human:`/`Assistant:` form),
/// for models whose own chat template is not at hand.
pub fn build_chat_prompt_fallback(template: &str, messages: &[ChatMessage]) -> (r: String)
    ensures
        r@ == fallback_prompt(template@, messages@),
{
    let t = to_ascii_lower_chars(str_chars(template).as_slice());
    let chatml = chars_equal(t.as_slice(), str_chars("chatml").as_slice());
    let llama3 = chars_equal(t.as_slice(), str_chars("llama3").as_slice());
    let mut out = String::new();
    if !chatml && llama3 {
        string_append(&mut out, "<|begin_of_text|>");
    }
    let ghost head = out@;
    let mut i: usize = 0;
    while i < messages.len()
        invariant
            i <= messages@.len(),
            chatml == (t@ == "chatml"@),
            llama3 == (t@ == "llama3"@),
            out@ == head + fallback_turns(t@, messages@.take(i as int)),
        decreases messages@.len() - i,
    {
        let m = &messages[i];
        if chatml {
            string_append(&mut out, m.role.as_str());
            string_append(&mut out, "\n");
            string_append(&mut out, m.content.as_str());
            string_append(&mut out, "\n");
        } else if llama3 {
            string_append(&mut out, "<|start_header_id|>");
            string_append(&mut out, m.role.as_str());
            string_append(&mut out, "\n\n");
            string_append(&mut out, m.content.as_str());
            string_append(&mut out, "\n<|eot_id|>");
        } else {
            let role = str_chars(m.role.as_str());
            if chars_equal(role.as_slice(), str_chars("user").as_slice()) {
                string_append(&mut out, "Human");
            } else if chars_equal(role.as_slice(), str_chars("assistant").as_slice()) {
                string_append(&mut out, "Assistant");
            } else {
                string_append(&mut out, "System");
            }
            string_append(&mut out, ": ");
            string_append(&mut out, m.content.as_str());
            string_append(&mut out, "\n\n");
        }
        proof {
            assert(messages@.take(i + 1).drop_last() =~= messages@.take(i as int));
        }
        i = i + 1;
    }
    assert(messages@.take(messages@.len() as int) =~= messages@);
    if chatml {
        string_append(&mut out, "\nassistant\n");
    } else if llama3 {
        string_append(&mut out, "<|start_header_id|>assistant\n\n");
    } else {
        string_append(&mut out, "Assistant: ");
    }
    out
}

/// Appending a turn to the conversation extends the plain prompt by one
/// line: `System: `, `User: ` or `Assistant: ` for those roles, the role
/// itself and `: ` for any other, then the content and a newline, with the
/// closing `Assistant: ` cue after it.
pub proof fn lemma_plain_prompt_turn(msgs: Seq<ChatMessage>, m: ChatMessage)
    ensures
        m.role@ == "system"@ ==> plain_prompt(msgs.push(m)) == plain_turns(msgs) + "System: "@
            + m.content@ + "\n"@ + "Assistant: "@,
        m.role@ == "user"@ ==> plain_prompt(msgs.push(m)) == plain_turns(msgs) + "User: "@
            + m.content@ + "\n"@ + "Assistant: "@,
        m.role@ == "assistant"@ ==> plain_prompt(msgs.push(m)) == plain_turns(msgs)
            + "Assistant: "@ + m.content@ + "\n"@ + "Assistant: "@,
        m.role@ != "system"@ && m.role@ != "user"@ && m.role@ != "assistant"@ ==> plain_prompt(
            msgs.push(m),
        ) == plain_turns(msgs) + m.role@ + ": "@ + m.content@ + "\n"@ + "Assistant: "@,
        plain_prompt(Seq::empty()) == "Assistant: "@,
{
    reveal_strlit("system");
    reveal_strlit("user");
    reveal_strlit("assistant");
    assert(msgs.push(m).drop_last() =~= msgs);
    assert(msgs.push(m).last() == m);
    assert(plain_turns(Seq::<ChatMessage>::empty()) == Seq::<char>::empty());
    assert(Seq::<char>::empty() + "Assistant: "@ =~= "Assistant: "@);
    assert("assistant"@[0] != "user"@[0]);
    assert("assistant"@[0] != "system"@[0]);
    assert("user"@[0] != "system"@[0]);
    let lab = plain_label(m.role@);
    assert(plain_prompt(msgs.push(m)) =~= plain_turns(msgs) + lab + m.content@ + "\n"@
        + "Assistant: "@);
    if m.role@ == "user"@ {
        assert("user"@ != "system"@) by {
            assert("user"@[0] != "system"@[0]);
        }
        assert(lab == "User: "@);
    } else if m.role@ == "assistant"@ {
        assert("assistant"@ != "system"@) by {
            assert("assistant"@[0] != "system"@[0]);
        }
        assert("assistant"@ != "user"@) by {
            assert("assistant"@[0] != "user"@[0]);
        }
        assert(lab == "Assistant: "@);
    }
}

/// Appending a turn extends the fallback prompt by that turn. In the
/// default format (any template name but `chatml` and `llama3`, in any
/// ASCII case) the turn is `Human: `, `Assistant: ` or, for any other role,
/// `System: `, then the content and a blank line, and the prompt ends with
/// `Assistant: `; in `chatml` it is the role, a newline, the content and a
/// newline, ending with `\nassistant\n`; in `llama3` it is a header with the
/// role, the content and `<|eot_id|>`, ending with the assistant's header.
pub proof fn lemma_fallback_prompt_turn(template: Seq<char>, msgs: Seq<ChatMessage>, m: ChatMessage)
    ensures
        ({
            let t = text::ascii_lower_seq(template);
            t != "chatml"@ && t != "llama3"@ ==> {
                &&& m.role@ == "user"@ ==> fallback_prompt(template, msgs.push(m)) == fallback_turns(
                    t,
                    msgs,
                ) + "Human: "@ + m.content@ + "\n\n"@ + "Assistant: "@
                &&& m.role@ == "assistant"@ ==> fallback_prompt(template, msgs.push(m))
                    == fallback_turns(t, msgs) + "Assistant: "@ + m.content@ + "\n\n"@
                    + "Assistant: "@
                &&& m.role@ != "user"@ && m.role@ != "assistant"@ ==> fallback_prompt(
                    template,
                    msgs.push(m),
                ) == fallback_turns(t, msgs) + "System: "@ + m.content@ + "\n\n"@ + "Assistant: "@
            }
        }),
        text::ascii_lower_seq(template) == "chatml"@ ==> fallback_prompt(template, msgs.push(m))
            == fallback_turns("chatml"@, msgs) + m.role@ + "\n"@ + m.content@ + "\n"@
            + "\nassistant\n"@,
        text::ascii_lower_seq(template) == "llama3"@ ==> fallback_prompt(template, msgs.push(m))
            == "<|begin_of_text|>"@ + fallback_turns("llama3"@, msgs) + "<|start_header_id|>"@
            + m.role@ + "\n\n"@ + m.content@ + "\n<|eot_id|>"@
            + "<|start_header_id|>assistant\n\n"@,
{
    reveal_strlit("user");
    reveal_strlit("assistant");
    reveal_strlit("Human");
    reveal_strlit("Human: ");
    reveal_strlit("Assistant");
    reveal_strlit("Assistant: ");
    reveal_strlit("System");
    reveal_strlit("System: ");
    reveal_strlit(": ");
    reveal_strlit("chatml");
    reveal_strlit("llama3");
    assert(msgs.push(m).drop_last() =~= msgs);
    assert(msgs.push(m).last() == m);
    let t = text::ascii_lower_seq(template);
    let turns = fallback_turns(t, msgs.push(m));
    assert("llama3"@ != "chatml"@) by {
            assert("llama3"@[0] != "chatml"@[0]);
        }
    if t != "chatml"@ && t != "llama3"@ {
        let lab = fallback_label(m.role@);
        assert(fallback_prompt(template, msgs.push(m)) =~= fallback_turns(t, msgs) + (lab + ": "@)
            + m.content@ + "\n\n"@ + "Assistant: "@);
        if m.role@ == "user"@ {
            assert(lab + ": "@ =~= "Human: "@);
        } else if m.role@ == "assistant"@ {
            assert("assistant"@ != "user"@) by {
            assert("assistant"@[0] != "user"@[0]);
        }
            assert(lab + ": "@ =~= "Assistant: "@);
        } else {
            assert(lab + ": "@ =~= "System: "@);
        }
    } else if t == "chatml"@ {
        assert(fallback_prompt(template, msgs.push(m)) =~= fallback_turns("chatml"@, msgs) + m.role@
            + "\n"@ + m.content@ + "\n"@ + "\nassistant\n"@);
    } else {
        assert(fallback_prompt(template, msgs.push(m)) =~= "<|begin_of_text|>"@ + fallback_turns(
            "llama3"@,
            msgs,
        ) + "<|start_header_id|>"@ + m.role@ + "\n\n"@ + m.content@ + "\n<|eot_id|>"@
            + "<|start_header_id|>assistant\n\n"@);
    }
}

} // verus!
