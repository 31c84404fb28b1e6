# gpuf_c

The client side of GPUFabric: a worker that logs in to the fabric, serves
inference requests with a local model, and talks to peers over an
authenticated UDP data plane (directly or through STUN/TURN).

`src/` is the verified library. Each public function states what it
returns in `requires`/`ensures` over mathematical models (`Seq`, `Map`,
`int`), and Verus proves the code against it. It holds:

- wire formats: the authenticated P2P UDP header and fragments
  (`p2p_udp`), signed data-plane envelopes (`envelope`), STUN and TURN
  messages (`stun`, `turn`), the length-prefixed command frame
  (`command_frame`) and GGUF file headers (`gguf`);
- protocol state: the replay window (`replay`), fragment reassembly with
  per-source limits and bans (`reassembly`), the retransmission
  schedule of a reliable send (`reliable_send`), and the worker's command
  loop (`worker_loop`);
- text handling: UTF-8 stream buffering (`utf8_buffer`), control-token
  filtering (`filter`), chunked streaming of results (`streaming`), chat
  prompts (`prompt`), the character tokenizer (`tokenize`);
- bookkeeping: the memory pool, model status, generation control and the
  token generation loop (`memory_pool`, `model_status`, `generation`),
  worker decisions (`worker`), endpoint parsing (`endpoints`), and the
  usage figures read from `/proc` text (`system_usage`).

Calls into hashing, UUID, URL and hex crates go through the small trusted
wrappers in `crypto`, `text_wrappers`, `endpoints`, `client` and `stun`;
each states in its doc comment what is assumed of the outside function.

`app/` is ordinary Rust around the library: sockets, clocks, files, the
loops that drive the library's state machines,
`/proc` readers, the command-line GGUF validator and the serde copies of
the library's data types. `tests/` runs the library on concrete values.
