use crate::text;
use crate::text::str_contains;
use vstd::prelude::*;

verus! {

/// The vision projector family of a multimodal model.
#[derive(Debug, Clone, Copy, PartialEq, Eq, Structural)]
pub enum ProjectorType {
    Unknown,
    LLaVA,
    Qwen2VL,
    Qwen25VL,
    Qwen3VL,
    Pixtral,
}

/// The markers that surround and stand for an image in a prompt.
pub struct VisionTokens {
    pub start: &'static str,
    pub end: &'static str,
    pub media: &'static str,
}

/// Whether the family wraps images in its own vision tokens.
pub open spec fn uses_vision_tokens(p: ProjectorType) -> bool {
    p is Qwen2VL || p is Qwen25VL || p is Qwen3VL
}

impl ProjectorType {
    /// The prompt markers for this family: the Qwen families put
    /// `<|vision_start|>` and `<|vision_end|>` round the media marker, the
    /// others use the bare `<__media__>` marker.
    pub fn get_vision_tokens(self) -> (r: VisionTokens)
        ensures
            r.media@ == "<__media__>"@,
            uses_vision_tokens(self) ==> r.start@ == "<|vision_start|>"@ && r.end@
                == "<|vision_end|>"@,
            !uses_vision_tokens(self) ==> r.start@ == ""@ && r.end@ == ""@,
    {
        match self {
            ProjectorType::Qwen2VL | ProjectorType::Qwen25VL | ProjectorType::Qwen3VL => {
                VisionTokens { start: "<|vision_start|>", end: "<|vision_end|>", media: "<__media__>" }
            },
            _ => VisionTokens { start: "", end: "", media: "<__media__>" },
        }
    }
}

/// The family that a model's file name names, checked in a fixed order.
pub open spec fn model_type_spec(path: Seq<char>) -> ProjectorType {
    if text::contains_seq(path, "Qwen2-VL"@) || text::contains_seq(path, "qwen2vl"@) {
        ProjectorType::Qwen2VL
    } else if text::contains_seq(path, "Qwen2.5-VL"@) || text::contains_seq(path, "qwen25vl"@) {
        ProjectorType::Qwen25VL
    } else if text::contains_seq(path, "Qwen3-VL"@) || text::contains_seq(path, "qwen3vl"@) {
        ProjectorType::Qwen3VL
    } else if text::contains_seq(path, "LLaVA"@) || text::contains_seq(path, "llava"@) {
        ProjectorType::LLaVA
    } else if text::contains_seq(path, "pixtral"@) || text::contains_seq(path, "Pixtral"@) {
        ProjectorType::Pixtral
    } else {
        ProjectorType::Unknown
    }
}

/// Guesses the projector family from the model's path.
pub fn detect_model_type_from_path(model_path: &str) -> (r: ProjectorType)
    ensures
        r == model_type_spec(model_path@),
{
    if str_contains(model_path, "Qwen2-VL") || str_contains(model_path, "qwen2vl") {
        ProjectorType::Qwen2VL
    } else if str_contains(model_path, "Qwen2.5-VL") || str_contains(model_path, "qwen25vl") {
        ProjectorType::Qwen25VL
    } else if str_contains(model_path, "Qwen3-VL") || str_contains(model_path, "qwen3vl") {
        ProjectorType::Qwen3VL
    } else if str_contains(model_path, "LLaVA") || str_contains(model_path, "llava") {
        ProjectorType::LLaVA
    } else if str_contains(model_path, "pixtral") || str_contains(model_path, "Pixtral") {
        ProjectorType::Pixtral
    } else {
        ProjectorType::Unknown
    }
}

/// Each family is recognised by its names in the path, the Qwen families
/// taking precedence in the order Qwen2-VL, Qwen2.5-VL, Qwen3-VL, then
/// LLaVA, then Pixtral; a path that names none of them is `Unknown`.
pub proof fn lemma_model_type_names(path: Seq<char>)
    ensures
        (text::contains_seq(path, "Qwen2-VL"@) || text::contains_seq(path, "qwen2vl"@))
            ==> model_type_spec(path) == ProjectorType::Qwen2VL,
        !(text::contains_seq(path, "Qwen2-VL"@) || text::contains_seq(path, "qwen2vl"@)) && (
        text::contains_seq(path, "Qwen2.5-VL"@) || text::contains_seq(path, "qwen25vl"@))
            ==> model_type_spec(path) == ProjectorType::Qwen25VL,
        !(text::contains_seq(path, "Qwen2-VL"@) || text::contains_seq(path, "qwen2vl"@)
            || text::contains_seq(path, "Qwen2.5-VL"@) || text::contains_seq(path, "qwen25vl"@)) && (
        text::contains_seq(path, "Qwen3-VL"@) || text::contains_seq(path, "qwen3vl"@))
            ==> model_type_spec(path) == ProjectorType::Qwen3VL,
        !(text::contains_seq(path, "Qwen2-VL"@) || text::contains_seq(path, "qwen2vl"@)
            || text::contains_seq(path, "Qwen2.5-VL"@) || text::contains_seq(path, "qwen25vl"@)
            || text::contains_seq(path, "Qwen3-VL"@) || text::contains_seq(path, "qwen3vl"@)) && (
        text::contains_seq(path, "LLaVA"@) || text::contains_seq(path, "llava"@))
            ==> model_type_spec(path) == ProjectorType::LLaVA,
        !(text::contains_seq(path, "Qwen2-VL"@) || text::contains_seq(path, "qwen2vl"@)
            || text::contains_seq(path, "Qwen2.5-VL"@) || text::contains_seq(path, "qwen25vl"@)
            || text::contains_seq(path, "Qwen3-VL"@) || text::contains_seq(path, "qwen3vl"@)
            || text::contains_seq(path, "LLaVA"@) || text::contains_seq(path, "llava"@)) && (
        text::contains_seq(path, "pixtral"@) || text::contains_seq(path, "Pixtral"@))
            ==> model_type_spec(path) == ProjectorType::Pixtral,
        (model_type_spec(path) == ProjectorType::Unknown) <==> !(text::contains_seq(
            path,
            "Qwen2-VL"@,
        ) || text::contains_seq(path, "qwen2vl"@) || text::contains_seq(path, "Qwen2.5-VL"@)
            || text::contains_seq(path, "qwen25vl"@) || text::contains_seq(path, "Qwen3-VL"@)
            || text::contains_seq(path, "qwen3vl"@) || text::contains_seq(path, "LLaVA"@)
            || text::contains_seq(path, "llava"@) || text::contains_seq(path, "pixtral"@)
            || text::contains_seq(path, "Pixtral"@)),
{
}

/// The three Qwen vision families, and only they, wrap media in their own
/// vision tokens.
pub proof fn lemma_vision_token_families(p: ProjectorType)
    ensures
        uses_vision_tokens(p) <==> (p == ProjectorType::Qwen2VL || p == ProjectorType::Qwen25VL || p
            == ProjectorType::Qwen3VL),
{
}

} // verus!
