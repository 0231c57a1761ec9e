//! The HIP executor's decisions: which row of a step runs and at which
//! position, and the sizes that a load settles.
use vstd::prelude::*;

use crate::hip::config::DeepSeekV4Config;
use crate::math::{div_ceil, max_usize, mul_saturating};
#[allow(unused_imports)]
use crate::math::{ceil_div, max_nat, saturated_usize};

verus! {

/// Tokens per page of the host bookkeeping.
pub const DEFAULT_PAGE_SIZE: usize = 64;

/// A prompt chunk to run.
#[derive(Debug)]
pub struct PrefillRow {
    pub slot: usize,
    pub tokens: Vec<u32>,
    pub start_pos: usize,
}

/// One token to run behind `kv_seq_len` others.
#[derive(Debug)]
pub struct DecodeRow {
    pub slot: usize,
    pub last_token: u32,
    pub kv_seq_len: usize,
}

/// What a step has to run: `tokens` one after the other from `start_pos` on,
/// then a sample at `position`.
#[derive(Debug)]
pub struct ForwardRow {
    pub slot: usize,
    pub tokens: Vec<u32>,
    pub start_pos: usize,
    pub position: u64,
}

#[derive(Debug, Clone, Copy, PartialEq, Eq, Structural)]
pub enum SubmitError {
    /// Exactly one row is supported.
    RowCount { rows: usize },
    /// A prompt chunk without tokens.
    EmptyPrefill,
    /// No model is loaded.
    NoModel,
}

/// HIP executor. The empty executor refuses every step that is not idle.
pub struct HipDsv4Executor {
    loaded: bool,
    stop_tokens: Vec<u32>,
}

/// What a step of the given rows comes to, for a loaded executor.
pub open spec fn step_row_ok(
    prefill: Seq<PrefillRow>,
    decode: Seq<DecodeRow>,
    row: ForwardRow,
) -> bool {
    if prefill.len() > 0 {
        &&& row.slot == prefill[0].slot
        &&& row.tokens@ == prefill[0].tokens@
        &&& row.start_pos == prefill[0].start_pos
        &&& row.position == prefill[0].start_pos + prefill[0].tokens@.len()
    } else {
        &&& row.slot == decode[0].slot
        &&& row.tokens@ == seq![decode[0].last_token]
        &&& row.start_pos == decode[0].kv_seq_len
        &&& row.position == decode[0].kv_seq_len + 1
    }
}

impl HipDsv4Executor {
    pub closed spec fn is_loaded(&self) -> bool {
        self.loaded
    }

    pub closed spec fn stops(&self) -> Seq<u32> {
        self.stop_tokens@
    }

    /// An executor without a model.
    #[must_use]
    pub fn unloaded() -> (r: Self)
        ensures
            !r.is_loaded(),
            r.stops() == Seq::<u32>::empty(),
    {
        HipDsv4Executor { loaded: false, stop_tokens: Vec::new() }
    }

    /// An executor with a model, stopping at the model's end token.
    pub fn loaded(config: &DeepSeekV4Config) -> (r: Self)
        ensures
            r.is_loaded(),
            r.stops() == match config.eos_token_id {
                Some(id) => seq![id],
                None => Seq::<u32>::empty(),
            },
    {
        let mut stop_tokens: Vec<u32> = Vec::new();
        if let Some(id) = config.eos_token_id {
            stop_tokens.push(id);
        }
        assert(stop_tokens@ =~= match config.eos_token_id {
            Some(id) => seq![id],
            None => Seq::<u32>::empty(),
        });
        HipDsv4Executor { loaded: true, stop_tokens }
    }

    pub fn model_stop_token_ids(&self) -> (ids: Vec<u32>)
        ensures
            ids@ == self.stops(),
    {
        let mut ids: Vec<u32> = Vec::new();
        let mut i: usize = 0;
        while i < self.stop_tokens.len()
            invariant
                i <= self.stop_tokens@.len(),
                ids@ == self.stop_tokens@.take(i as int),
            decreases self.stop_tokens@.len() - i,
        {
            ids.push(self.stop_tokens[i]);
            i = i + 1;
            assert(self.stop_tokens@.take(i as int) =~= self.stop_tokens@.take(i - 1).push(
                self.stop_tokens@[i - 1],
            ));
        }
        assert(self.stop_tokens@.take(self.stop_tokens@.len() as int) =~= self.stop_tokens@);
        ids
    }

    /// The row that a step runs: nothing when idle, otherwise its only row.
    pub fn submit(&self, idle: bool, prefill: &[PrefillRow], decode: &[DecodeRow]) -> (r: Result<
        Option<ForwardRow>,
        SubmitError,
    >)
        requires
            !idle ==> prefill@.len() + decode@.len() <= usize::MAX,
            !idle && prefill@.len() + decode@.len() == 1 ==> {
                &&& prefill@.len() > 0 ==> prefill@[0].start_pos + prefill@[0].tokens@.len()
                    <= u64::MAX
                &&& decode@.len() > 0 ==> decode@[0].kv_seq_len < u64::MAX
            },
        ensures
            if idle {
                r is Ok && r->Ok_0 is None
            } else if prefill@.len() + decode@.len() != 1 {
                r == Err::<Option<ForwardRow>, SubmitError>(
                    SubmitError::RowCount { rows: (prefill@.len() + decode@.len()) as usize },
                )
            } else if prefill@.len() > 0 && prefill@[0].tokens@.len() == 0 {
                r == Err::<Option<ForwardRow>, SubmitError>(SubmitError::EmptyPrefill)
            } else if !self.is_loaded() {
                r == Err::<Option<ForwardRow>, SubmitError>(SubmitError::NoModel)
            } else {
                r is Ok && r->Ok_0 is Some && step_row_ok(prefill@, decode@, r->Ok_0->0)
            },
    {
        if idle {
            return Ok(None);
        }
        let rows: usize = prefill.len() + decode.len();
        if rows != 1 {
            return Err(SubmitError::RowCount { rows });
        }
        if prefill.len() > 0 {
            let row = &prefill[0];
            if row.tokens.len() == 0 {
                return Err(SubmitError::EmptyPrefill);
            }
            if !self.loaded {
                return Err(SubmitError::NoModel);
            }
            let mut tokens: Vec<u32> = Vec::new();
            let mut i: usize = 0;
            while i < row.tokens.len()
                invariant
                    i <= row.tokens@.len(),
                    tokens@ == row.tokens@.take(i as int),
                decreases row.tokens@.len() - i,
            {
                tokens.push(row.tokens[i]);
                i = i + 1;
                assert(row.tokens@.take(i as int) =~= row.tokens@.take(i - 1).push(
                    row.tokens@[i - 1],
                ));
            }
            assert(row.tokens@.take(row.tokens@.len() as int) =~= row.tokens@);
            let position: u64 = row.start_pos as u64 + row.tokens.len() as u64;
            return Ok(
                Some(
                    ForwardRow { slot: row.slot, tokens, start_pos: row.start_pos, position },
                ),
            );
        }
        let row = &decode[0];
        if !self.loaded {
            return Err(SubmitError::NoModel);
        }
        let position: u64 = row.kv_seq_len as u64 + 1;
        let tokens: Vec<u32> = vec![row.last_token];
        assert(tokens@ =~= seq![row.last_token]);
        Ok(Some(ForwardRow { slot: row.slot, tokens, start_pos: row.kv_seq_len, position }))
    }
}

#[derive(Debug, Clone, Copy, PartialEq, Eq, Structural)]
pub enum LoadArgError {
    NoSlots,
    NoSequence,
}

/// Latent bytes per token over all layers: a bf16 row of `head_dim` each,
/// saturating.
pub fn kv_cell_bytes(config: &DeepSeekV4Config) -> (bytes: usize)
    ensures
        bytes == saturated_usize(
            saturated_usize(config.head_dim as nat * config.num_hidden_layers as nat) * 2,
        ),
{
    mul_saturating(mul_saturating(config.head_dim, config.num_hidden_layers), 2)
}

/// Pages of the pool: what the memory probe allows in tokens, and at least
/// what one sequence of the requested length takes. Without a probe, that
/// floor alone.
pub fn load_dsv4_gguf(
    num_slots: usize,
    max_seq_len: usize,
    profiled_tokens: Option<usize>,
) -> (r: Result<usize, LoadArgError>)
    ensures
        ({
            let floor = max_nat(ceil_div(max_seq_len as nat, DEFAULT_PAGE_SIZE as nat), 1);
            if num_slots == 0 {
                r == Err::<usize, LoadArgError>(LoadArgError::NoSlots)
            } else if max_seq_len == 0 {
                r == Err::<usize, LoadArgError>(LoadArgError::NoSequence)
            } else {
                r is Ok && r->Ok_0 == match profiled_tokens {
                    Some(tokens) => max_nat(tokens as nat / DEFAULT_PAGE_SIZE as nat, floor),
                    None => floor,
                }
            }
        }),
{
    if num_slots == 0 {
        return Err(LoadArgError::NoSlots);
    }
    if max_seq_len == 0 {
        return Err(LoadArgError::NoSequence);
    }
    let floor: usize = max_usize(div_ceil(max_seq_len, DEFAULT_PAGE_SIZE), 1);
    match profiled_tokens {
        Some(tokens) => Ok(max_usize(tokens / DEFAULT_PAGE_SIZE, floor)),
        None => Ok(floor),
    }
}

/// A row ends right behind the last of its tokens, and starts where its slot's
/// tokens end: a prompt chunk at its own position, a decoded token at the
/// slot's length.
pub proof fn rows_end_behind_their_tokens(
    prefill: Seq<PrefillRow>,
    decode: Seq<DecodeRow>,
    row: ForwardRow,
)
    requires
        step_row_ok(prefill, decode, row),
        prefill.len() + decode.len() == 1,
    ensures
        row.position == row.start_pos + row.tokens@.len(),
        decode.len() == 1 ==> row.tokens@.len() == 1 && row.tokens@[0] == decode[0].last_token
            && row.start_pos == decode[0].kv_seq_len && row.slot == decode[0].slot,
        prefill.len() == 1 ==> row.tokens@ == prefill[0].tokens@ && row.start_pos
            == prefill[0].start_pos && row.slot == prefill[0].slot,
{
}

} // verus!
