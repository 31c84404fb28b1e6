use vstd::prelude::*;

verus! {

/// The engine's vocabulary, only ever seen behind a handle.
#[allow(non_camel_case_types)]
pub struct llama_vocab {
    _private: [u8; 0],
}

/// A loaded model, only ever seen behind a handle.
#[allow(non_camel_case_types)]
pub struct llama_model {
    _private: [u8; 0],
}

/// An inference context, only ever seen behind a handle.
#[allow(non_camel_case_types)]
pub struct llama_context {
    _private: [u8; 0],
}

/// A multimodal projector context, only ever seen behind a handle.
pub struct MtmdContext {
    _private: [u8; 0],
}

/// A decoded image, only ever seen behind a handle.
pub struct MtmdBitmap {
    _private: [u8; 0],
}

/// Tokenized multimodal input, only ever seen behind a handle.
pub struct MtmdInputChunks {
    _private: [u8; 0],
}

/// A token sampler, only ever seen behind a handle.
#[allow(non_camel_case_types)]
pub struct llama_sampler {
    _private: [u8; 0],
}

/// Settings for a chain of samplers.
#[allow(non_camel_case_types)]
pub struct llama_sampler_chain_params {
    pub no_perf_fac: bool,
}

} // verus!
