//! The executor as the scheduler sees it: a loaded model, or a placeholder
//! that answers every row without a device; and how speculative decode is set
//! up for a model.
use vstd::prelude::*;
use vstd::string::*;

use crate::metal::executor::{
    placeholder_forward, ForwardPlan, RealMetalExecutor, RowRoute, SlotToken, SubmitError,
};
#[allow(unused_imports)]
use crate::metal::executor::{placeholder_out, route};
use crate::metal::kv_ssd::{MetalPageStore, PrefixBlock, TierError, TierRemoval};
use crate::text::{contains_text, parse_number, to_chars, trimmed};
#[allow(unused_imports)]
use crate::text::{occurs, parsed_number, trim_of};

verus! {

// ---- speculative decode ----

/// Whether a model is of the family whose draft head is on by default.
pub fn is_qwen36_27b_model(path: &str) -> (r: bool)
    ensures
        r == occurs(path@, "Qwen3.6-27B"@),
{
    contains_text(path, "Qwen3.6-27B")
}

/// Draft tokens per step where the draft head is on by default.
pub const METAL_DEFAULT_SPECULATIVE_TOKENS: usize = 2;

/// Rows per speculative step where none are asked for.
pub const DEFAULT_DFLASH_ROWS: usize = 4;

/// What is asked for on the command line and in the environment.
#[derive(Debug)]
pub struct SpeculativeFlags {
    pub speculative: bool,
    pub draft_model: Option<String>,
    pub speculative_tokens: Option<usize>,
    pub accept_topk: i32,
    pub max_rows: Option<String>,
}

#[derive(Debug)]
pub struct MetalDflashOptions {
    pub draft_model: String,
    pub speculative_tokens: Option<usize>,
    pub max_rows: usize,
    pub accept_topk: i32,
}

#[verifier::ext_equal]
pub struct OptionsView {
    pub draft_model: Seq<char>,
    pub speculative_tokens: Option<usize>,
    pub max_rows: usize,
    pub accept_topk: i32,
}

impl View for MetalDflashOptions {
    type V = OptionsView;

    open spec fn view(&self) -> OptionsView {
        OptionsView {
            draft_model: self.draft_model@,
            speculative_tokens: self.speculative_tokens,
            max_rows: self.max_rows,
            accept_topk: self.accept_topk,
        }
    }
}

/// A row count that is no number.
#[derive(Debug, Clone, Copy, PartialEq, Eq, Structural)]
pub struct InvalidRows;

pub open spec fn named_draft(f: SpeculativeFlags) -> Option<Seq<char>> {
    match f.draft_model {
        Some(d) => if trim_of(d@).len() > 0 {
            Some(trim_of(d@))
        } else {
            None
        },
        None => None,
    }
}

pub open spec fn rows_asked(f: SpeculativeFlags) -> Result<usize, InvalidRows> {
    match f.max_rows {
        Some(text) => if trim_of(text@).len() == 0 {
            Ok(DEFAULT_DFLASH_ROWS)
        } else {
            match parsed_number(trim_of(text@), usize::MAX as nat) {
                Some(n) => Ok(n as usize),
                None => Err(InvalidRows),
            }
        },
        None => Ok(DEFAULT_DFLASH_ROWS),
    }
}

/// Speculative decode is off where it is switched off. A draft model that is
/// named is used; otherwise the default one, for the family that has one.
pub open spec fn dflash_choice(f: SpeculativeFlags, path: Seq<char>) -> Result<
    Option<OptionsView>,
    InvalidRows,
> {
    let named = named_draft(f);
    if !f.speculative || (named is None && !occurs(path, "Qwen3.6-27B"@)) {
        Ok(None)
    } else {
        match rows_asked(f) {
            Err(e) => Err(e),
            Ok(max_rows) => Ok(
                Some(
                    OptionsView {
                        draft_model: match named {
                            Some(d) => d,
                            None => "mlx-community/Qwen3.6-27B-MTP-4bit"@,
                        },
                        speculative_tokens: if f.speculative_tokens is None && named is None {
                            Some(METAL_DEFAULT_SPECULATIVE_TOKENS)
                        } else {
                            f.speculative_tokens
                        },
                        max_rows,
                        accept_topk: if f.accept_topk < 1 {
                            1
                        } else {
                            f.accept_topk
                        },
                    },
                ),
            ),
        }
    }
}

fn draft_named(f: &SpeculativeFlags) -> (r: Option<String>)
    ensures
        match (r, named_draft(*f)) {
            (Some(a), Some(b)) => a@ == b,
            (None, None) => true,
            _ => false,
        },
{
    match &f.draft_model {
        Some(d) => {
            let t: String = trimmed(d.as_str());
            if to_chars(t.as_str()).len() > 0 {
                Some(t)
            } else {
                None
            }
        },
        None => None,
    }
}

fn read_rows(f: &SpeculativeFlags) -> (r: Result<usize, InvalidRows>)
    ensures
        r == rows_asked(*f),
{
    match &f.max_rows {
        Some(text) => {
            let t: String = trimmed(text.as_str());
            let chars: Vec<char> = to_chars(t.as_str());
            if chars.len() == 0 {
                return Ok(DEFAULT_DFLASH_ROWS);
            }
            match parse_number(chars.as_slice(), usize::MAX as u64) {
                Some(n) => Ok(n as usize),
                None => Err(InvalidRows),
            }
        },
        None => Ok(DEFAULT_DFLASH_ROWS),
    }
}

/// Decides whether and how a model is decoded speculatively. `path` is where
/// the model was found.
pub fn resolve_dflash(f: &SpeculativeFlags, path: &str) -> (r: Result<
    Option<MetalDflashOptions>,
    InvalidRows,
>)
    ensures
        match (r, dflash_choice(*f, path@)) {
            (Ok(Some(a)), Ok(Some(b))) => a@ == b,
            (Ok(None), Ok(None)) => true,
            (Err(a), Err(b)) => a == b,
            _ => false,
        },
{
    if !f.speculative {
        return Ok(None);
    }
    let named: Option<String> = draft_named(f);
    let auto: bool = named.is_none();
    if auto && !is_qwen36_27b_model(path) {
        return Ok(None);
    }
    let max_rows: usize = match read_rows(f) {
        Err(e) => {
            return Err(e);
        },
        Ok(n) => n,
    };
    let draft_model: String = match named {
        Some(d) => d,
        None => String::from_str("mlx-community/Qwen3.6-27B-MTP-4bit"),
    };
    let speculative_tokens: Option<usize> = match f.speculative_tokens {
        Some(n) => Some(n),
        None => if auto {
            Some(METAL_DEFAULT_SPECULATIVE_TOKENS)
        } else {
            None
        },
    };
    let accept_topk: i32 = if f.accept_topk < 1 {
        1
    } else {
        f.accept_topk
    };
    Ok(Some(MetalDflashOptions { draft_model, speculative_tokens, max_rows, accept_topk }))
}

/// Switched off, speculative decode stays off whatever else is asked for.
pub proof fn switched_off_stays_off(f: SpeculativeFlags, path: Seq<char>)
    requires
        !f.speculative,
    ensures
        dflash_choice(f, path) == Ok::<Option<OptionsView>, InvalidRows>(None),
{
}

// ---- the executor ----

/// A step that was submitted.
#[derive(Debug)]
pub enum MetalInflight {
    /// Its tokens are there.
    Ready(Vec<SlotToken>),
    /// The device holds the token of one slot.
    Sampled { slot: usize },
}

/// The tokens of a submitted step. `sampled` is what the device holds.
pub fn poll(inflight: MetalInflight, sampled: i32) -> (tokens: Vec<SlotToken>)
    ensures
        tokens@ == match inflight {
            MetalInflight::Ready(t) => t@,
            MetalInflight::Sampled { slot } => seq![SlotToken { slot, token: sampled as u32 }],
        },
{
    match inflight {
        MetalInflight::Ready(t) => t,
        MetalInflight::Sampled { slot } => {
            let token: u32 = #[verifier::truncate]
            (sampled as u32);
            let mut t: Vec<SlotToken> = Vec::new();
            t.push(SlotToken { slot, token });
            assert(t@ =~= seq![SlotToken { slot, token: sampled as u32 }]);
            t
        },
    }
}

/// Rows that one step may carry, and requests that may live at once.
#[derive(Debug, Clone, Copy, PartialEq, Eq, Structural)]
pub struct StepLimits {
    pub max_rows_per_step: usize,
    pub max_live_requests: usize,
}

/// What a plan leads to.
#[derive(Debug)]
pub enum Submission {
    /// The placeholder's answer.
    Ready(MetalInflight),
    /// The way that the rows go through the model.
    Rows(RowRoute),
}

/// A model that is loaded, with its pages.
pub struct LoadedModel<A> {
    pub runner: RealMetalExecutor,
    pub store: MetalPageStore<A>,
    pub stop_token_ids: Vec<u32>,
}

pub struct MetalExecutor<A> {
    pub real: Option<LoadedModel<A>>,
}

impl<A> MetalExecutor<A> {
    pub open spec fn wf(self) -> bool {
        self.real is Some ==> self.real->0.store.wf()
    }

    /// The placeholder.
    pub fn new() -> (e: Self)
        ensures
            e.real is None,
            e.wf(),
    {
        MetalExecutor { real: None }
    }

    /// Switches recall on or off. The placeholder has none.
    pub fn set_kv_recall(&mut self, enabled: bool)
        requires
            old(self).wf(),
        ensures
            final(self).wf(),
            match (old(self).real, final(self).real) {
                (Some(a), Some(b)) => b.store == a.store && b.stop_token_ids == a.stop_token_ids
                    && b.runner@ == (crate::metal::executor::ExecView {
                    flags: crate::metal::executor::ExecutorFlags {
                        kv_recall: enabled,
                        ..a.runner@.flags
                    },
                    ..a.runner@
                }),
                (None, None) => true,
                _ => false,
            },
    {
        let mut taken: Option<LoadedModel<A>> = None;
        std::mem::swap(&mut taken, &mut self.real);
        match taken {
            Some(mut m) => {
                m.runner.set_kv_recall(enabled);
                self.real = Some(m);
            },
            None => {},
        }
    }

    /// What a plan leads to: the placeholder answers it at once.
    pub fn submit(&self, plan: &ForwardPlan) -> (r: Result<Submission, SubmitError>)
        ensures
            match self.real {
                None => match r {
                    Ok(Submission::Ready(MetalInflight::Ready(t))) => t@ == placeholder_out(*plan),
                    _ => false,
                },
                Some(m) => match (
                    r,
                    route(
                        plan.prefill_rows@.len(),
                        plan.decode_rows@.len(),
                        m.runner@.dflash is Some,
                    ),
                ) {
                    (Ok(Submission::Rows(a)), Ok(b)) => a == b,
                    (Err(a), Err(b)) => a == b,
                    _ => false,
                },
            },
    {
        match &self.real {
            None => Ok(Submission::Ready(MetalInflight::Ready(placeholder_forward(plan)))),
            Some(m) => match m.runner.submit(plan) {
                Ok(route) => Ok(Submission::Rows(route)),
                Err(e) => Err(e),
            },
        }
    }

    pub fn model_stop_token_ids(&self) -> (ids: Vec<u32>)
        ensures
            ids@ == match self.real {
                Some(m) => m.stop_token_ids@,
                None => Seq::empty(),
            },
    {
        let mut ids: Vec<u32> = Vec::new();
        match &self.real {
            Some(m) => {
                let mut i: usize = 0;
                while i < m.stop_token_ids.len()
                    invariant
                        i <= m.stop_token_ids@.len(),
                        ids@ == m.stop_token_ids@.take(i as int),
                    decreases m.stop_token_ids@.len() - i,
                {
                    ids.push(m.stop_token_ids[i]);
                    i = i + 1;
                    assert(ids@ =~= m.stop_token_ids@.take(i as int));
                }
                assert(m.stop_token_ids@.take(i as int) =~= m.stop_token_ids@);
            },
            None => {},
        }
        ids
    }

    /// The placeholder takes one row and one request at a time.
    pub fn step_limits(&self) -> (l: StepLimits)
        ensures
            ({
                let rows = match self.real {
                    Some(m) => m.runner@.max_rows(),
                    None => 1,
                };
                l.max_rows_per_step == rows && l.max_live_requests == rows
            }),
    {
        let rows: usize = match &self.real {
            Some(m) => m.runner.max_rows_per_step(),
            None => 1,
        };
        StepLimits { max_rows_per_step: rows, max_live_requests: rows }
    }

    /// Leading blocks that need no prefill. The placeholder can reuse all of
    /// them; a model that drafts none, since no snapshot holds its draft.
    pub fn reusable_prefix_blocks(&self, blocks: &[PrefixBlock]) -> (n: usize)
        requires
            self.wf(),
        ensures
            match self.real {
                None => n == blocks@.len(),
                Some(m) => if m.runner@.dflash is Some {
                    n == 0
                } else {
                    &&& n <= blocks@.len()
                    &&& n > 0 ==> m.store@.reuses(blocks@, n as int)
                    &&& forall|k: int|
                        n < k <= blocks@.len() ==> !m.store@.reuses(blocks@, k)
                },
            },
    {
        match &self.real {
            None => blocks.len(),
            Some(m) => if m.runner.drafts() {
                0
            } else {
                m.store.reusable_prefix_blocks(blocks)
            },
        }
    }

    /// The same count: no prefix is matched by its tokens.
    pub fn reusable_prefix_blocks_for_prompt(&self, blocks: &[PrefixBlock], _tokens: &[u32]) -> (n:
        usize)
        requires
            self.wf(),
        ensures
            match self.real {
                None => n == blocks@.len(),
                Some(m) => if m.runner@.dflash is Some {
                    n == 0
                } else {
                    &&& n <= blocks@.len()
                    &&& n > 0 ==> m.store@.reuses(blocks@, n as int)
                    &&& forall|k: int|
                        n < k <= blocks@.len() ==> !m.store@.reuses(blocks@, k)
                },
            },
    {
        self.reusable_prefix_blocks(blocks)
    }

    /// Forgets pages. What the tier then has to remove is handed back; the
    /// placeholder has no pages.
    pub fn release_prefix_pages(&mut self, pages: &[u32]) -> (removals: Vec<TierRemoval>)
        requires
            old(self).wf(),
        ensures
            final(self).wf(),
            match (old(self).real, final(self).real) {
                (Some(a), Some(b)) => b.runner == a.runner && b.stop_token_ids == a.stop_token_ids
                    && b.store@ == a.store@.without_pages(pages@).reclaim(a.store@.ids_of(pages@))
                    && forall|r: TierRemoval| #[trigger]
                    removals@.contains(r) <==> a.store@.without_pages(pages@).removes(
                        a.store@.ids_of(pages@),
                        r,
                    ),
                (None, None) => removals@.len() == 0,
                _ => false,
            },
    {
        let mut taken: Option<LoadedModel<A>> = None;
        std::mem::swap(&mut taken, &mut self.real);
        match taken {
            Some(mut m) => {
                let removals: Vec<TierRemoval> = m.store.release_pages(pages);
                self.real = Some(m);
                removals
            },
            None => Vec::new(),
        }
    }

    pub fn kv_tier_disk_pages(&self) -> (n: usize)
        requires
            self.wf(),
        ensures
            n == match self.real {
                Some(m) => m.store@.bound.dom().len(),
                None => 0,
            },
    {
        match &self.real {
            Some(m) => m.store.kv_tier_disk_pages(),
            None => 0,
        }
    }

    pub fn kv_tier_location(&self, key: u64) -> (r: Option<u64>)
        requires
            self.wf(),
        ensures
            r == match self.real {
                Some(m) => if m.store@.tier && m.store@.bound.contains_key(key) {
                    Some(m.store@.bound[key])
                } else {
                    None
                },
                None => None,
            },
    {
        match &self.real {
            Some(m) => m.store.kv_tier_location(key),
            None => None,
        }
    }

    /// The page to read back for a demoted key. The placeholder has no tier.
    pub fn tier_page_id(&self, key: u64) -> (r: Result<u64, TierError>)
        requires
            self.wf(),
        ensures
            r == match self.real {
                Some(m) => m.store@.tier_page(key),
                None => Err::<u64, TierError>(TierError::NotConfigured),
            },
    {
        match &self.real {
            Some(m) => m.store.tier_page_id(key),
            None => Err(TierError::NotConfigured),
        }
    }
}

/// How many tokens a session may look back on before recall narrows them.
#[derive(Debug, Clone, Copy, PartialEq, Eq, Structural)]
pub struct RecallConfig {
    pub n_init: usize,
    pub n_local: usize,
    pub l_bs: usize,
    pub top_k: usize,
}

/// First tokens, last tokens, and so many blocks of so many tokens between
/// them.
pub fn default_recall_config() -> (c: RecallConfig)
    ensures
        c == (RecallConfig { n_init: 32, n_local: 256, l_bs: 32, top_k: 8 }),
{
    RecallConfig { n_init: 32, n_local: 256, l_bs: 32, top_k: 8 }
}

} // verus!
