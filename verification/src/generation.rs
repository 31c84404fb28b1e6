use vstd::prelude::*;

verus! {

/// Tokens that the engine's context holds.
pub const CONTEXT_WINDOW: i32 = 4096;

/// The end-of-sequence token of the built-in vocabulary.
pub const EOS_TOKEN: i32 = 2;

/// Slots in the fixed position and logits arrays of a decode batch.
pub const BATCH_SLOTS: i32 = 512;

/// The batch size used when the context reports none.
pub const DEFAULT_BATCH: i32 = 128;

/// One decode batch of the prompt: tokens `start..end`, their positions,
/// and which of them ask for logits.
pub struct PrefillChunk {
    pub start: i32,
    pub end: i32,
    pub positions: Vec<i32>,
    pub logits: Vec<i8>,
}

/// The batch size the context reports, or the default when it reports none.
pub open spec fn effective_batch(n_batch: i32) -> i32 {
    if n_batch > 0 {
        n_batch
    } else {
        DEFAULT_BATCH
    }
}

/// The `k`-th prompt batch starts here.
pub open spec fn chunk_start(k: int, batch: int) -> int {
    k * batch
}

/// The number of prompt batches.
pub open spec fn chunk_count(token_count: int, batch: int) -> int {
    if token_count <= 0 {
        0
    } else {
        (token_count + batch - 1) / batch
    }
}

/// The batch sizes that the fixed arrays can hold.
pub open spec fn prefill_fits(token_count: i32, n_batch: i32) -> bool {
    token_count <= BATCH_SLOTS || effective_batch(n_batch) <= BATCH_SLOTS
}

/// Splits the prompt's tokens into decode batches of the context's batch
/// size: each batch holds the next tokens at their positions, and only the
/// last token of the last batch asks for logits.
pub fn prefill_plan(token_count: i32, n_batch: i32) -> (r: Vec<PrefillChunk>)
    requires
        prefill_fits(token_count, n_batch),
    ensures
        ({
            let b = effective_batch(n_batch) as int;
            &&& r@.len() == chunk_count(token_count as int, b)
            &&& forall|k: int|
                #![trigger r@[k]]
                0 <= k < r@.len() ==> {
                    let c = r@[k];
                    let end = if chunk_start(k, b) + b < token_count {
                        chunk_start(k, b) + b
                    } else {
                        token_count as int
                    };
                    &&& c.start == chunk_start(k, b)
                    &&& c.end == end
                    &&& c.positions@.len() == c.end - c.start
                    &&& c.logits@.len() == c.end - c.start
                    &&& forall|i: int|
                        0 <= i < c.positions@.len() ==> c.positions@[i] == c.start + i
                    &&& forall|i: int|
                        0 <= i < c.logits@.len() ==> c.logits@[i] == (if c.end == token_count && i
                            == c.logits@.len() - 1 {
                            1i8
                        } else {
                            0i8
                        })
                }
        }),
{
    let b: i32 = if n_batch > 0 {
        n_batch
    } else {
        DEFAULT_BATCH
    };
    let mut out: Vec<PrefillChunk> = Vec::new();
    if token_count <= 0 {
        return out;
    }
    let mut start: i32 = 0;
    let ghost mut k: int = 0;
    assert((token_count + b - 1) / (b as int) >= 1) by (nonlinear_arith)
        requires
            token_count >= 1,
            b >= 1,
    ;
    while start < token_count
        invariant
            b == effective_batch(n_batch),
            b >= 1,
            token_count > 0,
            prefill_fits(token_count, n_batch),
            0 <= k,
            start <= token_count,
            start < token_count ==> start == k * b && k < chunk_count(token_count as int, b as int),
            start >= token_count ==> k == chunk_count(token_count as int, b as int),
            out@.len() == k,
            forall|j: int|
                #![trigger out@[j]]
                0 <= j < out@.len() ==> {
                    let c = out@[j];
                    let end = if chunk_start(j, b as int) + b < token_count {
                        chunk_start(j, b as int) + b
                    } else {
                        token_count as int
                    };
                    &&& c.start == chunk_start(j, b as int)
                    &&& c.end == end
                    &&& c.positions@.len() == c.end - c.start
                    &&& c.logits@.len() == c.end - c.start
                    &&& forall|i: int|
                        0 <= i < c.positions@.len() ==> c.positions@[i] == c.start + i
                    &&& forall|i: int|
                        0 <= i < c.logits@.len() ==> c.logits@[i] == (if c.end == token_count
                            && i == c.logits@.len() - 1 {
                            1i8
                        } else {
                            0i8
                        })
                },
        decreases token_count - start,
    {
        let end: i32 = if token_count - start > b {
            start + b
        } else {
            token_count
        };
        let n = end - start;
        let mut positions: Vec<i32> = Vec::new();
        let mut logits: Vec<i8> = Vec::new();
        let mut i: i32 = 0;
        while i < n
            invariant
                0 <= i <= n,
                n == end - start,
                0 <= start < end <= token_count,
                positions@.len() == i,
                logits@.len() == i,
                forall|m: int| 0 <= m < i ==> positions@[m] == start + m,
                forall|m: int|
                    0 <= m < i ==> logits@[m] == (if end == token_count && m == n - 1 {
                        1i8
                    } else {
                        0i8
                    }),
            decreases n - i,
        {
            positions.push(start + i);
            logits.push(if end == token_count && i == n - 1 { 1 } else { 0 });
            i = i + 1;
        }
        proof {
            let t = token_count as int;
            let bb = b as int;
            let kk = k;
            if end == token_count {
                assert((t + bb - 1) / bb == kk + 1) by (nonlinear_arith)
                    requires
                        start == kk * bb,
                        start < t,
                        t - start <= bb,
                        bb >= 1,
                ;
            } else {
                assert((t + bb - 1) / bb > kk + 1) by (nonlinear_arith)
                    requires
                        start == kk * bb,
                        t - start > bb,
                        bb >= 1,
                ;
                assert(end == (kk + 1) * bb) by (nonlinear_arith)
                    requires
                        end == start + bb,
                        start == kk * bb,
                ;
            }
        }
        out.push(PrefillChunk { start, end, positions, logits });
        start = end;
        proof {
            k = k + 1;
        }
    }
    out
}

/// How many tokens may be generated: what was asked for, but no more than
/// the context has room for after `used` tokens.
pub open spec fn limit_spec(max_tokens: i32, context_size: i32, used: i32) -> int {
    if max_tokens < context_size - used {
        max_tokens as int
    } else {
        context_size - used
    }
}

/// How many tokens may be generated after `used` tokens of a context of
/// `context_size`.
pub fn generation_limit(max_tokens: i32, context_size: i32, used: i32) -> (r: i32)
    requires
        0 <= used,
        0 <= context_size,
    ensures
        r == limit_spec(max_tokens, context_size, used),
{
    let room = context_size - used;
    if max_tokens < room {
        max_tokens
    } else {
        room
    }
}

/// The samplers of the completion's chain, in the order they are added.
#[derive(Debug, Clone, Copy, PartialEq, Eq, Structural)]
pub enum SamplerKind {
    RepeatPenalty,
    TopK,
    TopP,
    Temperature,
    Distribution,
}

/// The sampler chain: a repeat penalty when the penalty is not 1, top-k
/// when `top_k` is positive, top-p when it is below 1, temperature when it
/// is positive, and always the final random draw.
pub fn sampler_chain(
    penalize_repeats: bool,
    top_k: i32,
    top_p_below_one: bool,
    temperature_positive: bool,
) -> (r: Vec<SamplerKind>)
    ensures
        r@ == (if penalize_repeats {
            seq![SamplerKind::RepeatPenalty]
        } else {
            Seq::empty()
        }) + (if top_k > 0 {
            seq![SamplerKind::TopK]
        } else {
            Seq::empty()
        }) + (if top_p_below_one {
            seq![SamplerKind::TopP]
        } else {
            Seq::empty()
        }) + (if temperature_positive {
            seq![SamplerKind::Temperature]
        } else {
            Seq::empty()
        }) + seq![SamplerKind::Distribution],
{
    let mut v: Vec<SamplerKind> = Vec::new();
    if penalize_repeats {
        v.push(SamplerKind::RepeatPenalty);
    }
    if top_k > 0 {
        v.push(SamplerKind::TopK);
    }
    if top_p_below_one {
        v.push(SamplerKind::TopP);
    }
    if temperature_positive {
        v.push(SamplerKind::Temperature);
    }
    v.push(SamplerKind::Distribution);
    assert(v@ =~= (if penalize_repeats {
        seq![SamplerKind::RepeatPenalty]
    } else {
        Seq::empty()
    }) + (if top_k > 0 {
        seq![SamplerKind::TopK]
    } else {
        Seq::empty()
    }) + (if top_p_below_one {
        seq![SamplerKind::TopP]
    } else {
        Seq::empty()
    }) + (if temperature_positive {
        seq![SamplerKind::Temperature]
    } else {
        Seq::empty()
    }) + seq![SamplerKind::Distribution]);
    v
}

/// What the generation loop does next.
#[derive(Debug, Clone, Copy, PartialEq, Eq, Structural)]
pub enum LoopAction {
    /// Sample a token from the logits at this index of the last batch.
    Sample(i32),
    /// Stop generating.
    Finish,
}

/// The decisions of the token-by-token completion loop: which logits to
/// sample from, when to stop, and where each new token goes.
pub struct GenerationLoop {
    step: i32,
    limit: i32,
    generated: i32,
    next_pos: i32,
    max_tokens: i32,
    prompt_tokens: i32,
    n_ctx: i32,
    done: bool,
}

impl GenerationLoop {
    /// Loop rounds that finished.
    pub closed spec fn step(&self) -> int {
        self.step as int
    }

    /// Rounds allowed.
    pub closed spec fn limit(&self) -> int {
        self.limit as int
    }

    /// Tokens generated so far.
    pub closed spec fn generated(&self) -> int {
        self.generated as int
    }

    /// The position that the next token takes.
    pub closed spec fn next_pos(&self) -> int {
        self.next_pos as int
    }

    /// Tokens asked for.
    pub closed spec fn max_tokens(&self) -> int {
        self.max_tokens as int
    }

    /// Tokens in the prompt batch.
    pub closed spec fn prompt_tokens(&self) -> int {
        self.prompt_tokens as int
    }

    /// Tokens the context holds.
    pub closed spec fn n_ctx(&self) -> int {
        self.n_ctx as int
    }

    /// The loop has stopped.
    pub closed spec fn done(&self) -> bool {
        self.done
    }

    /// Positions stay inside the context and the counters agree.
    pub closed spec fn wf(&self) -> bool {
        &&& 1 <= self.prompt_tokens <= self.n_ctx
        &&& self.limit == limit_spec(self.max_tokens, self.n_ctx, self.prompt_tokens)
        &&& 0 <= self.generated <= self.step + 1
        &&& self.step >= 0
        &&& (self.step < self.limit || self.done)
        &&& self.generated <= self.step || self.generated == self.step + 1
        &&& self.next_pos == self.prompt_tokens + self.generated
        &&& (self.generated == 0 || self.generated <= self.limit)
    }

    /// A loop after a prompt of `prompt_tokens` tokens, placed from
    /// position 0 of a context of `n_ctx` tokens, that generates at most
    /// `max_tokens` tokens and never past the end of the context.
    pub fn with_context(max_tokens: i32, prompt_tokens: i32, n_ctx: i32) -> (r: Self)
        requires
            1 <= prompt_tokens <= n_ctx,
        ensures
            r.wf(),
            r.step() == 0,
            r.generated() == 0,
            r.next_pos() == prompt_tokens,
            r.limit() == limit_spec(max_tokens, n_ctx, prompt_tokens),
            r.max_tokens() == max_tokens,
            r.prompt_tokens() == prompt_tokens,
            r.n_ctx() == n_ctx,
            r.done() == (r.limit() <= 0),
    {
        let limit = generation_limit(max_tokens, n_ctx, prompt_tokens);
        GenerationLoop {
            step: 0,
            limit,
            generated: 0,
            next_pos: prompt_tokens,
            max_tokens,
            prompt_tokens,
            n_ctx,
            done: limit <= 0,
        }
    }

    /// A loop for the completion's fixed context of `CONTEXT_WINDOW` tokens.
    pub fn new(max_tokens: i32, prompt_tokens: i32) -> (r: Self)
        requires
            1 <= prompt_tokens <= CONTEXT_WINDOW,
        ensures
            r.wf(),
            r.step() == 0,
            r.generated() == 0,
            r.next_pos() == prompt_tokens,
            r.limit() == limit_spec(max_tokens, CONTEXT_WINDOW, prompt_tokens),
            r.max_tokens() == max_tokens,
            r.prompt_tokens() == prompt_tokens,
            r.n_ctx() == CONTEXT_WINDOW,
            r.done() == (r.limit() <= 0),
    {
        Self::with_context(max_tokens, prompt_tokens, CONTEXT_WINDOW)
    }

    /// The next thing to do: sample (from the prompt's last token in the
    /// first round, from the single new token after that), or stop.
    pub fn next_action(&self) -> (r: LoopAction)
        requires
            self.wf(),
        ensures
            self.done() ==> r == LoopAction::Finish,
            !self.done() ==> r == LoopAction::Sample(
                if self.step() == 0 {
                    (self.prompt_tokens() - 1) as i32
                } else {
                    0
                },
            ),
    {
        if self.done {
            LoopAction::Finish
        } else if self.step == 0 {
            LoopAction::Sample(self.prompt_tokens - 1)
        } else {
            LoopAction::Sample(0)
        }
    }

    /// Takes a sampled token. The end-of-sequence token stops the loop;
    /// any other is counted and gets the next position, which is returned
    /// for the batch that decodes it.
    pub fn on_token(&mut self, token: i32) -> (r: Option<i32>)
        requires
            old(self).wf(),
            !old(self).done(),
            old(self).generated() == old(self).step(),
        ensures
            final(self).wf(),
            final(self).step() == old(self).step(),
            final(self).limit() == old(self).limit(),
            final(self).max_tokens() == old(self).max_tokens(),
            final(self).prompt_tokens() == old(self).prompt_tokens(),
            final(self).n_ctx() == old(self).n_ctx(),
            token == EOS_TOKEN ==> r is None && final(self).done() && final(self).generated()
                == old(self).generated(),
            token != EOS_TOKEN ==> r == Some(old(self).next_pos() as i32) && !final(self).done()
                && final(self).generated() == old(self).generated() + 1 && final(self).next_pos()
                == old(self).next_pos() + 1,
    {
        if token == EOS_TOKEN {
            self.done = true;
            return None;
        }
        let pos = self.next_pos;
        self.generated = self.generated + 1;
        self.next_pos = self.next_pos + 1;
        Some(pos)
    }

    /// Ends the loop at once: the caller asked for a stop, or the engine
    /// reported an end-of-generation token.
    pub fn stop(&mut self)
        requires
            old(self).wf(),
        ensures
            final(self).wf(),
            final(self).done(),
            final(self).step() == old(self).step(),
            final(self).generated() == old(self).generated(),
            final(self).next_pos() == old(self).next_pos(),
            final(self).limit() == old(self).limit(),
            final(self).max_tokens() == old(self).max_tokens(),
            final(self).prompt_tokens() == old(self).prompt_tokens(),
            final(self).n_ctx() == old(self).n_ctx(),
    {
        self.done = true;
    }

    /// Takes the outcome of decoding the new token. A failure stops the
    /// loop; otherwise the round ends, and the loop stops once enough tokens
    /// were generated or the rounds run out.
    pub fn on_decoded(&mut self, ok: bool)
        requires
            old(self).wf(),
            !old(self).done(),
            old(self).generated() == old(self).step() + 1,
        ensures
            final(self).wf(),
            final(self).generated() == old(self).generated(),
            final(self).next_pos() == old(self).next_pos(),
            final(self).limit() == old(self).limit(),
            final(self).max_tokens() == old(self).max_tokens(),
            final(self).prompt_tokens() == old(self).prompt_tokens(),
            final(self).n_ctx() == old(self).n_ctx(),
            !ok ==> final(self).done() && final(self).step() == old(self).step(),
            ok ==> final(self).step() == old(self).step() + 1 && final(self).done() == (
            final(self).generated() >= final(self).max_tokens() || final(self).step()
                >= final(self).limit()),
    {
        if !ok {
            self.done = true;
            return;
        }
        self.step = self.step + 1;
        if self.generated >= self.max_tokens || self.step >= self.limit {
            self.done = true;
        }
    }
}

/// However the loop is driven, it never generates more tokens than were
/// asked for, and every token it places lies inside the context window.
pub proof fn lemma_generation_bounded(g: GenerationLoop)
    requires
        g.wf(),
    ensures
        g.generated() <= (if g.max_tokens() > 0 { g.max_tokens() } else { 0 }),
        g.next_pos() <= g.n_ctx(),
{
}

/// The text a caller's C buffer of `output_len` bytes receives: as many
/// bytes as fit before the closing NUL, then the NUL.
pub fn c_output_bytes(text: &[u8], output_len: i32) -> (r: Vec<u8>)
    requires
        output_len >= 1,
    ensures
        ({
            let n = if text@.len() < output_len - 1 {
                text@.len() as int
            } else {
                output_len - 1
            };
            r@ == text@.take(n).push(0u8)
        }),
{
    let cap = (output_len - 1) as usize;
    let n = if text.len() < cap {
        text.len()
    } else {
        cap
    };
    let mut out: Vec<u8> = Vec::new();
    let mut i: usize = 0;
    while i < n
        invariant
            i <= n <= text@.len(),
            out@ == text@.take(i as int),
        decreases n - i,
    {
        out.push(text[i]);
        i = i + 1;
        assert(out@ =~= text@.take(i as int));
    }
    out.push(0u8);
    out
}

/// A call on the generation control.
pub enum ControlCall {
    Init,
    SetStop(bool),
    Cleanup,
}

/// The flag after one call.
pub open spec fn apply_control(flag: Option<bool>, c: ControlCall) -> Option<bool> {
    match c {
        ControlCall::Init => Some(false),
        ControlCall::SetStop(b) => if flag is Some {
            Some(b)
        } else {
            None
        },
        ControlCall::Cleanup => None,
    }
}

/// The flag after a sequence of calls, starting from control that is not
/// set up.
pub open spec fn run_controls(calls: Seq<ControlCall>) -> Option<bool>
    decreases calls.len(),
{
    if calls.len() == 0 {
        None
    } else {
        apply_control(run_controls(calls.drop_last()), calls.last())
    }
}

/// The index of the last `Init` or `Cleanup` among `calls`, or -1.
pub open spec fn last_reset(calls: Seq<ControlCall>) -> int
    decreases calls.len(),
{
    if calls.len() == 0 {
        -1
    } else if calls.last() is SetStop {
        last_reset(calls.drop_last())
    } else {
        calls.len() - 1
    }
}

/// The index of the last `SetStop` among `calls`, or -1.
pub open spec fn last_set(calls: Seq<ControlCall>) -> int
    decreases calls.len(),
{
    if calls.len() == 0 {
        -1
    } else if calls.last() is SetStop {
        calls.len() - 1
    } else {
        last_set(calls.drop_last())
    }
}

proof fn lemma_last_indices(calls: Seq<ControlCall>)
    ensures
        -1 <= last_reset(calls) < calls.len(),
        -1 <= last_set(calls) < calls.len(),
        last_reset(calls) >= 0 ==> !(calls[last_reset(calls)] is SetStop),
        last_set(calls) >= 0 ==> calls[last_set(calls)] is SetStop,
    decreases calls.len(),
{
    if calls.len() > 0 {
        lemma_last_indices(calls.drop_last());
    }
}

/// Over any sequence of calls on the generation control, starting from
/// control that is not set up, a stop is reported exactly when the most
/// recent `Init` or `Cleanup` was an `Init` and the last `SetStop`, which
/// came after it, asked for a stop. Without an `Init`, after a `Cleanup`,
/// or with no stop asked since the `Init`, no stop is reported.
pub proof fn lemma_stop_flag_over_calls(calls: Seq<ControlCall>)
    ensures
        (run_controls(calls) == Some(true)) <==> ({
            let r = last_reset(calls);
            let s = last_set(calls);
            &&& r >= 0
            &&& calls[r] is Init
            &&& s > r
            &&& calls[s] == ControlCall::SetStop(true)
        }),
        run_controls(calls) is Some <==> (last_reset(calls) >= 0 && calls[last_reset(calls)] is Init),
    decreases calls.len(),
{
    lemma_last_indices(calls);
    if calls.len() > 0 {
        let p = calls.drop_last();
        lemma_stop_flag_over_calls(p);
        lemma_last_indices(p);
        if calls.last() is SetStop {
            assert(last_reset(p) >= 0 ==> calls[last_reset(p)] == p[last_reset(p)]);
            assert(last_set(p) >= 0 ==> calls[last_set(p)] == p[last_set(p)]);
        }
    }
}

/// The flag that asks a running generation to stop. Until it is set up, a
/// stop request is ignored and no stop is reported.
pub struct GenerationControl {
    pub flag: Option<bool>,
}

impl GenerationControl {
    /// Control that is not set up.
    pub fn new() -> (r: Self)
        ensures
            r.flag is None,
            r.flag == run_controls(Seq::empty()),
    {
        GenerationControl { flag: None }
    }

    /// Whether a stop was asked for.
    pub fn should_stop_generation(&self) -> (r: bool)
        ensures
            r == (self.flag == Some(true)),
    {
        match self.flag {
            Some(b) => b,
            None => false,
        }
    }

    /// Asks for a stop, or withdraws the request, when control is set up.
    pub fn set_generation_stop(&mut self, stop: bool)
        ensures
            old(self).flag is Some ==> final(self).flag == Some(stop),
            old(self).flag is None ==> final(self).flag is None,
            final(self).flag == apply_control(old(self).flag, ControlCall::SetStop(stop)),
    {
        if self.flag.is_some() {
            self.flag = Some(stop);
        }
    }

    /// Sets up a fresh flag that asks for no stop.
    pub fn init_generation_control(&mut self)
        ensures
            final(self).flag == Some(false),
            final(self).flag == apply_control(old(self).flag, ControlCall::Init),
    {
        self.flag = Some(false);
    }

    /// Takes the flag down again.
    pub fn cleanup_generation_control(&mut self)
        ensures
            final(self).flag is None,
            final(self).flag == apply_control(old(self).flag, ControlCall::Cleanup),
    {
        self.flag = None;
    }
}

} // verus!
