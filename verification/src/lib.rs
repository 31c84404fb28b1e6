//! Verified core of the GPUFabric client: wire formats, replay and
//! reassembly state, text handling and model bookkeeping.

pub mod bytes;
pub mod client;
pub mod command_frame;
pub mod crypto;
pub mod engine_types;
pub mod endpoints;
pub mod envelope;
pub mod filter;
pub mod generation;
pub mod gguf;
pub mod memory_pool;
pub mod model_status;
pub mod multimodal;
pub mod p2p_udp;
pub mod prompt;
pub mod reassembly;
pub mod reliable_send;
pub mod replay;
pub mod streaming;
pub mod stun;
pub mod system_usage;
pub mod text;
pub mod text_wrappers;
pub mod tokenize;
pub mod turn;
pub mod utf8_buffer;
pub mod worker;
pub mod worker_loop;
