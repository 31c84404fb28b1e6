use gpuf_c::filter::filter_control_tokens;
use gpuf_c::multimodal::{detect_model_type_from_path, ProjectorType};
use gpuf_c::prompt::{build_chat_prompt, build_chat_prompt_fallback, ChatMessage};
use gpuf_c::streaming::{split_at_char_boundaries, InferenceStream};
use gpuf_c::text::{derive_model_id_from_path, token_should_be_suppressed};
use gpuf_c::tokenize::{llama_tokenize, simple_char_tokenize};
use gpuf_c::utf8_buffer::Utf8EmitBuffer;

fn msg(role: &str, content: &str) -> ChatMessage {
    ChatMessage { role: role.to_string(), content: content.to_string() }
}

#[test]
fn filter_keeps_plain_text() {
    assert_eq!(filter_control_tokens("Hello world"), "Hello world");
    assert_eq!(filter_control_tokens("The answer is 42."), "The answer is 42.");
    assert_eq!(filter_control_tokens(""), "");
}

#[test]
fn filter_drops_reasoning_chunks() {
    assert_eq!(filter_control_tokens("We need to think"), "");
    assert_eq!(filter_control_tokens("some analysis here"), "");
    assert_eq!(filter_control_tokens("x<|channel|>y"), "");
}

#[test]
fn filter_drops_only_the_control_tokens() {
    assert_eq!(filter_control_tokens("<|message|>Hi"), "Hi");
    assert_eq!(filter_control_tokens("Hi<|end|>there"), "Hithere");
    assert_eq!(filter_control_tokens("Hello<|end|> world"), "Hello world");
    assert_eq!(filter_control_tokens("x> y<|end|>z"), "x> yz");
    assert_eq!(filter_control_tokens("a<|message|>b<|end|>"), "ab");
}

#[test]
fn filter_drops_an_overlong_unclosed_tag_but_keeps_text_before_it() {
    let long = format!("ok <|{}", "x".repeat(60));
    assert_eq!(filter_control_tokens(&long), format!("ok {}", "x".repeat(11)));
}

#[test]
fn filter_keeps_unknown_tags_and_unfinished_ones() {
    assert_eq!(filter_control_tokens("a<|foo|>b"), "a<|foo|>b");
    assert_eq!(filter_control_tokens("abc<|x"), "abc<|x");
    assert_eq!(
        filter_control_tokens("0123456789012345678901234<b>"),
        "0123456789012345678901234<b>"
    );
}

#[test]
fn suppressed_tokens() {
    assert!(token_should_be_suppressed("<|end|>"));
    assert!(token_should_be_suppressed("assistantfinal"));
    assert!(token_should_be_suppressed("Thus produce it"));
    assert!(!token_should_be_suppressed("Hello"));
    assert!(!token_should_be_suppressed(""));
}

#[test]
fn model_id_from_path() {
    assert_eq!(derive_model_id_from_path("/models/Llama-3-8B.gguf"), "llama3");
    assert_eq!(derive_model_id_from_path("/m/LLAMA3.bin"), "llama3");
    assert_eq!(
        derive_model_id_from_path("/data/qwen2.5-7b-instruct.gguf"),
        "qwen2.5-7b-instruct"
    );
    assert_eq!(derive_model_id_from_path("model.bin.gguf"), "model");
    assert_eq!(derive_model_id_from_path("a.gguf.gguf"), "a");
    assert_eq!(derive_model_id_from_path("dir/"), "dir");
}

#[test]
fn model_type_from_path() {
    assert_eq!(detect_model_type_from_path("/m/Qwen2-VL-2B.gguf"), ProjectorType::Qwen2VL);
    assert_eq!(detect_model_type_from_path("qwen25vl-3b"), ProjectorType::Qwen25VL);
    assert_eq!(detect_model_type_from_path("Qwen3-VL"), ProjectorType::Qwen3VL);
    assert_eq!(detect_model_type_from_path("llava-v1.5"), ProjectorType::LLaVA);
    assert_eq!(detect_model_type_from_path("Pixtral-12B"), ProjectorType::Pixtral);
    assert_eq!(detect_model_type_from_path("SmolVLM"), ProjectorType::Unknown);
}

#[test]
fn vision_tokens_per_family() {
    let q = ProjectorType::Qwen25VL.get_vision_tokens();
    assert_eq!(q.start, "<|vision_start|>");
    assert_eq!(q.end, "<|vision_end|>");
    assert_eq!(q.media, "<__media__>");
    let l = ProjectorType::LLaVA.get_vision_tokens();
    assert_eq!(l.start, "");
    assert_eq!(l.end, "");
    assert_eq!(l.media, "<__media__>");
}

#[test]
fn plain_chat_prompt() {
    let msgs = vec![msg("system", "Be brief."), msg("user", "Hi"), msg("tool", "x")];
    assert_eq!(
        build_chat_prompt(&msgs),
        "System: Be brief.\nUser: Hi\ntool: x\nAssistant: "
    );
    assert_eq!(build_chat_prompt(&[]), "Assistant: ");
}

#[test]
fn fallback_chat_prompts() {
    let msgs = vec![msg("user", "Hi"), msg("assistant", "Hello")];
    assert_eq!(
        build_chat_prompt_fallback("ChatML", &msgs),
        "user\nHi\nassistant\nHello\n\nassistant\n"
    );
    assert_eq!(
        build_chat_prompt_fallback("llama3", &msgs),
        "<|begin_of_text|><|start_header_id|>user\n\nHi\n<|eot_id|><|start_header_id|>assistant\n\nHello\n<|eot_id|><|start_header_id|>assistant\n\n"
    );
    assert_eq!(
        build_chat_prompt_fallback("simple", &[msg("user", "Hi"), msg("system", "S")]),
        "Human: Hi\n\nSystem: S\n\nAssistant: "
    );
}

#[test]
fn char_tokenizer() {
    assert_eq!(simple_char_tokenize("aZ0 .", 10, true), vec![1, 30400, 30451, 29900, 29871, 29889]);
    assert_eq!(simple_char_tokenize("abc", 2, true), vec![1, 30400]);
    assert_eq!(simple_char_tokenize("abc", 2, false), vec![30400, 30401]);
    assert_eq!(simple_char_tokenize("x#", 0, true), Vec::<i32>::new());
    assert_eq!(simple_char_tokenize("?!,\n#", 9, false), vec![29905, 29906, 29892, 29871, 29896]);
}

#[test]
fn split_keeps_every_character() {
    let text = "héllo wörld";
    let pieces = split_at_char_boundaries(text, 4);
    assert_eq!(pieces.concat(), text);
    assert_eq!(pieces, vec!["hél", "lo w", "örl", "d"]);
    for p in &pieces {
        assert!(!p.is_empty() && p.len() <= 4);
    }
    assert_eq!(split_at_char_boundaries("", 4), Vec::<String>::new());
    assert_eq!(split_at_char_boundaries("abc", 0), vec!["a", "b", "c"]);
    assert_eq!(split_at_char_boundaries("€ab", 1), vec!["€", "a", "b"]);
}

#[test]
fn stream_gathers_text_into_chunks() {
    let mut s = InferenceStream::new(5, 3);
    assert!(s.on_piece("ab").is_none());
    let c = s.on_piece("cde").unwrap();
    assert_eq!(c.seq, 0);
    assert_eq!(c.delta, "abcde");
    assert!(!c.done);
    assert_eq!(c.prompt_tokens, 3);
    assert_eq!(c.completion_tokens, 2);
    assert!(s.on_piece("<|end|>").is_none());
    assert!(s.on_piece("f").is_none());
    let tail = s.finish();
    assert_eq!(tail.len(), 2);
    assert_eq!(tail[0].seq, 1);
    assert_eq!(tail[0].delta, "f");
    assert_eq!(tail[0].completion_tokens, 4);
    assert_eq!(tail[1].seq, 2);
    assert_eq!(tail[1].delta, "");
    assert!(tail[1].done);
}

#[test]
fn stream_end_without_held_text() {
    let s = InferenceStream::new(0, 0);
    let tail = s.finish();
    assert_eq!(tail.len(), 1);
    assert_eq!(tail[0].seq, 0);
    assert!(tail[0].done);
    assert_eq!(tail[0].completion_tokens, 0);
}

#[test]
fn utf8_buffer_holds_back_split_characters() {
    let mut b = Utf8EmitBuffer::new();
    let euro = "€".as_bytes();
    assert_eq!(b.push_and_take_valid(&[b'a', euro[0]]), "a");
    assert_eq!(b.push_and_take_valid(&euro[1..]), "€");
    assert_eq!(b.push_and_take_valid(&[0xe2, 0x82]), "");
    assert_eq!(b.flush_lossy(), "\u{fffd}");
    assert_eq!(b.flush_lossy(), "");
}

#[test]
fn compat_tokenizer() {
    assert_eq!(llama_tokenize("Az0 é", 10), Some((vec![1, 52, 53, 999, 1233], 5)));
    assert_eq!(llama_tokenize("abc", 2), Some((vec![27, 28], 3)));
    assert_eq!(llama_tokenize("abc", 0), None);
}

#[test]
fn utf8_buffer_any_split_gives_the_whole_text() {
    let text = "héllo wörld 😀 ✓ done";
    let bytes = text.as_bytes();
    for cut in 0..=bytes.len() {
        let mut b = Utf8EmitBuffer::new();
        let mut out = String::new();
        out.push_str(&b.push_and_take_valid(&bytes[..cut]));
        out.push_str(&b.push_and_take_valid(&bytes[cut..]));
        out.push_str(&b.flush_lossy());
        assert_eq!(out, text);
    }
    let mut b = Utf8EmitBuffer::new();
    let mut out = String::new();
    for byte in bytes {
        out.push_str(&b.push_and_take_valid(&[*byte]));
    }
    out.push_str(&b.flush_lossy());
    assert_eq!(out, text);
}
