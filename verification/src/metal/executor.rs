//! What the Metal executor decides: which rows a step may carry, when slots
//! are built, reset, grown and published, and how a decode run overlaps.
//!
//! The runtime's calls stay outside. A submit is a walk through phases: each
//! answer names the one call to make next, and the walk goes on with whether
//! that call succeeded.
use vstd::prelude::*;

use std::collections::HashMap;

use crate::math::max_usize;
#[allow(unused_imports)]
use crate::math::max_nat;
use crate::metal::slot::{ensure_kv_capacity, MAX_ROUNDED_TOKENS};
#[allow(unused_imports)]
use crate::metal::slot::{growth, sat_plus};

verus! {

broadcast use vstd::std_specs::hash::group_hash_axioms;

/// One prompt chunk to prefill.
#[derive(Debug)]
pub struct PrefillRow {
    pub slot: usize,
    pub tokens: Vec<u32>,
    pub start_pos: usize,
    pub total_tokens: usize,
    pub greedy: bool,
}

/// One token to decode.
#[derive(Debug, Clone, Copy)]
pub struct DecodeRow {
    pub slot: usize,
    pub last_token: u32,
    pub kv_seq_len: usize,
    pub greedy: bool,
    pub raw_argmax: bool,
}

#[derive(Debug, Clone, Copy, PartialEq, Eq, Structural)]
pub struct SlotToken {
    pub slot: usize,
    pub token: u32,
}

/// The rows of one scheduler step.
#[derive(Debug)]
pub struct ForwardPlan {
    pub prefill_rows: Vec<PrefillRow>,
    pub decode_rows: Vec<DecodeRow>,
}

/// The token after `t`, around the end of the range.
pub open spec fn bump(t: u32) -> u32 {
    if t == u32::MAX {
        0
    } else {
        (t + 1) as u32
    }
}

pub open spec fn placeholder_token(row: PrefillRow) -> u32 {
    if row.tokens@.len() == 0 {
        bump(0)
    } else {
        bump(row.tokens@.last())
    }
}

/// The placeholder's answer: one token per row, decode rows first, each the
/// successor of the row's last token.
pub open spec fn placeholder_out(plan: ForwardPlan) -> Seq<SlotToken> {
    Seq::new(
        plan.decode_rows@.len(),
        |i: int|
            SlotToken {
                slot: plan.decode_rows@[i].slot,
                token: bump(plan.decode_rows@[i].last_token),
            },
    ) + Seq::new(
        plan.prefill_rows@.len(),
        |i: int|
            SlotToken {
                slot: plan.prefill_rows@[i].slot,
                token: placeholder_token(plan.prefill_rows@[i]),
            },
    )
}

fn bumped(t: u32) -> (r: u32)
    ensures
        r == bump(t),
{
    if t == u32::MAX {
        0
    } else {
        t + 1
    }
}

/// One deterministic token per scheduled row, without any device.
pub fn placeholder_forward(plan: &ForwardPlan) -> (tokens: Vec<SlotToken>)
    ensures
        tokens@ == placeholder_out(*plan),
{
    let mut tokens: Vec<SlotToken> = Vec::new();
    let mut i: usize = 0;
    let ghost all = placeholder_out(*plan);
    let ghost nd = plan.decode_rows@.len();
    while i < plan.decode_rows.len()
        invariant
            i <= nd == plan.decode_rows@.len(),
            all == placeholder_out(*plan),
            tokens@ == all.take(i as int),
        decreases nd - i,
    {
        let row: DecodeRow = plan.decode_rows[i];
        tokens.push(SlotToken { slot: row.slot, token: bumped(row.last_token) });
        i = i + 1;
        assert(tokens@ =~= all.take(i as int));
    }
    let mut j: usize = 0;
    while j < plan.prefill_rows.len()
        invariant
            j <= plan.prefill_rows@.len(),
            nd == plan.decode_rows@.len(),
            all == placeholder_out(*plan),
            tokens@ == all.take((nd + j) as int),
        decreases plan.prefill_rows@.len() - j,
    {
        let row: &PrefillRow = &plan.prefill_rows[j];
        let n: usize = row.tokens.len();
        let last: u32 = if n == 0 {
            0
        } else {
            row.tokens[n - 1]
        };
        tokens.push(SlotToken { slot: row.slot, token: bumped(last) });
        j = j + 1;
        assert(tokens@ =~= all.take((nd + j) as int));
    }
    assert(all.take(all.len() as int) =~= all);
    tokens
}

/// Why a step or a row is refused.
#[derive(Debug, Clone, Copy, PartialEq, Eq, Structural)]
pub enum SubmitError {
    Idle,
    MixedPlan,
    PrefillRows { got: usize },
    DecodeRows { got: usize },
    TooManyRows { got: usize, limit: usize },
    NoRuntime,
    ActiveSession,
    DuplicateSlot { slot: usize },
    EmptyRow { slot: usize },
    NotGreedy { slot: usize },
    OtherSession { active: usize },
    StartMismatch { slot: usize, plan: usize, state: usize },
    BeforePrefill { slot: usize },
    NotResident { slot: usize },
    LengthMismatch { slot: usize, plan: usize, committed: usize, state: usize },
    NoHidden { slot: usize },
    NoDraft { slot: usize },
    PositionTooLarge { slot: usize, position: usize },
    /// A call into the runtime failed.
    Outside,
}

/// Where the rows of a plan go.
#[derive(Debug, Clone, Copy, PartialEq, Eq, Structural)]
pub enum RowRoute {
    DflashMixed,
    DflashPrefill,
    Prefill,
    DflashDecode,
    Decode,
}

/// Rows beside each other need the speculative runtime; without it a step
/// carries exactly one row.
pub open spec fn route(prefill: nat, decode: nat, dflash: bool) -> Result<RowRoute, SubmitError> {
    if prefill + decode == 0 {
        Err(SubmitError::Idle)
    } else if prefill > 0 && decode > 0 {
        if dflash {
            Ok(RowRoute::DflashMixed)
        } else {
            Err(SubmitError::MixedPlan)
        }
    } else if prefill > 0 {
        if prefill == 1 {
            Ok(RowRoute::Prefill)
        } else if dflash {
            Ok(RowRoute::DflashPrefill)
        } else {
            Err(SubmitError::PrefillRows { got: prefill as usize })
        }
    } else if dflash {
        Ok(RowRoute::DflashDecode)
    } else if decode == 1 {
        Ok(RowRoute::Decode)
    } else {
        Err(SubmitError::DecodeRows { got: decode as usize })
    }
}

pub fn route_rows(prefill: usize, decode: usize, dflash: bool) -> (r: Result<RowRoute, SubmitError>)
    ensures
        r == route(prefill as nat, decode as nat, dflash),
{
    if prefill == 0 && decode == 0 {
        return Err(SubmitError::Idle);
    }
    if prefill > 0 && decode > 0 {
        if dflash {
            return Ok(RowRoute::DflashMixed);
        }
        return Err(SubmitError::MixedPlan);
    }
    if prefill > 0 {
        if prefill == 1 {
            return Ok(RowRoute::Prefill);
        }
        if dflash {
            return Ok(RowRoute::DflashPrefill);
        }
        return Err(SubmitError::PrefillRows { got: prefill });
    }
    if dflash {
        return Ok(RowRoute::DflashDecode);
    }
    if decode == 1 {
        Ok(RowRoute::Decode)
    } else {
        Err(SubmitError::DecodeRows { got: decode })
    }
}

/// How a step's logits become a token.
#[derive(Debug, Clone, Copy, PartialEq, Eq, Structural)]
pub enum SampleRoute {
    /// Argmax on the device; `downgraded` where sampling was asked for and
    /// host sampling is off.
    Device { downgraded: bool },
    /// The host sampler, with the token history where there is one.
    Host { penalized: bool },
}

/// Argmax where it was asked for or sampling is not to be had, else the host.
pub open spec fn sampled_by(
    greedy: bool,
    raw_argmax: bool,
    host_sampling: bool,
    history: bool,
) -> SampleRoute {
    if raw_argmax || (!greedy && !host_sampling) {
        SampleRoute::Device { downgraded: !greedy && !host_sampling }
    } else {
        SampleRoute::Host { penalized: history }
    }
}

pub fn sample_route(greedy: bool, raw_argmax: bool, host_sampling: bool, history: bool) -> (r:
    SampleRoute)
    ensures
        r == sampled_by(greedy, raw_argmax, host_sampling, history),
{
    let downgrade: bool = !greedy && !host_sampling;
    if raw_argmax || downgrade {
        SampleRoute::Device { downgraded: downgrade }
    } else {
        SampleRoute::Host { penalized: history }
    }
}

/// Limits of the speculative runtime.
#[derive(Debug, Clone, Copy, PartialEq, Eq, Structural)]
pub struct DflashLimits {
    pub max_rows: usize,
    pub block_size: usize,
}

/// Switches that hold for the whole run.
#[derive(Debug, Clone, Copy, PartialEq, Eq, Structural)]
pub struct ExecutorFlags {
    pub pipeline: bool,
    pub paged_kv_read: bool,
    pub int8: bool,
    pub kv_recall: bool,
}

/// What the executor knows of a live slot.
#[derive(Debug, Clone, Copy, PartialEq, Eq, Structural)]
pub struct SlotState {
    pub slot_epoch: u64,
    /// Tokens whose step was issued; one ahead of `committed_len` while a
    /// step is queued ahead.
    pub cache_len: usize,
    /// Tokens that the engine has committed.
    pub committed_len: usize,
    /// Tokens that the cache arrays hold room for; 0 without arrays.
    pub capacity: usize,
    pub session_active: bool,
    pub last_sampled: bool,
    pub has_hidden: bool,
    pub has_draft: bool,
}

pub open spec fn fresh_slot(slot_epoch: u64, cache_len: usize, capacity: usize) -> SlotState {
    SlotState {
        slot_epoch,
        cache_len,
        committed_len: cache_len,
        capacity,
        session_active: false,
        last_sampled: false,
        has_hidden: false,
        has_draft: false,
    }
}

/// What the host pool says of a row's slot.
#[derive(Debug, Clone, Copy, PartialEq, Eq, Structural)]
pub struct SlotHost {
    pub seq_len: usize,
    pub epoch: u64,
}

/// Counters that tell which path each step took.
#[derive(Debug, Clone, Copy, PartialEq, Eq, Structural)]
pub struct HitCounters {
    pub fast_path: u64,
    pub paged_hits: u64,
    pub paged_fallbacks: u64,
}

pub fn pipeline_fast_path_hits(c: &HitCounters) -> (n: u64)
    ensures
        n == c.fast_path,
{
    c.fast_path
}

pub fn paged_kv_read_hits(c: &HitCounters) -> (n: u64)
    ensures
        n == c.paged_hits,
{
    c.paged_hits
}

pub fn paged_kv_read_fallbacks(c: &HitCounters) -> (n: u64)
    ensures
        n == c.paged_fallbacks,
{
    c.paged_fallbacks
}

pub open spec fn tick(n: u64) -> u64 {
    if n == u64::MAX {
        0
    } else {
        (n + 1) as u64
    }
}

fn ticked(n: u64) -> (r: u64)
    ensures
        r == tick(n),
{
    if n == u64::MAX {
        0
    } else {
        n + 1
    }
}

pub struct RealMetalExecutor {
    slots: HashMap<usize, SlotState>,
    active_session_slot: Option<usize>,
    pending: Option<usize>,
    dflash: Option<DflashLimits>,
    flags: ExecutorFlags,
    hits: HitCounters,
}

#[verifier::ext_equal]
pub struct ExecView {
    pub slots: Map<usize, SlotState>,
    /// The slot whose session the runtime has open.
    pub active: Option<usize>,
    /// The slot whose next token was issued ahead.
    pub pending: Option<usize>,
    pub dflash: Option<DflashLimits>,
    pub flags: ExecutorFlags,
    pub hits: HitCounters,
}

impl View for RealMetalExecutor {
    type V = ExecView;

    closed spec fn view(&self) -> ExecView {
        ExecView {
            slots: self.slots@,
            active: self.active_session_slot,
            pending: self.pending,
            dflash: self.dflash,
            flags: self.flags,
            hits: self.hits,
        }
    }
}

impl ExecView {
    pub open spec fn max_rows(self) -> nat {
        match self.dflash {
            Some(d) => max_nat(d.max_rows as nat, 1),
            None => 1,
        }
    }

    /// A slot whose host epoch moved on.
    pub open spec fn stale(self, slot: usize, epoch: u64) -> bool {
        self.slots.contains_key(slot) && self.slots[slot].slot_epoch != epoch
    }

    /// The stale slot is gone, its session not yet closed.
    pub open spec fn dropped(self, slot: usize) -> ExecView {
        ExecView { slots: self.slots.remove(slot), ..self }
    }

    /// Nothing refers to the slot any more.
    pub open spec fn forgotten(self, slot: usize) -> ExecView {
        ExecView {
            slots: self.slots.remove(slot),
            active: if self.active == Some(slot) {
                None
            } else {
                self.active
            },
            pending: if self.pending == Some(slot) {
                None
            } else {
                self.pending
            },
            ..self
        }
    }

    pub open spec fn with(self, slot: usize, s: SlotState) -> ExecView {
        ExecView { slots: self.slots.insert(slot, s), ..self }
    }

    /// The queued step belongs to the live slot of this row: same epoch, its
    /// session still open one step ahead, and the engine's length agrees.
    pub open spec fn pending_matches(self, row: DecodeRow, epoch: u64) -> bool {
        self.pending == Some(row.slot) && self.slots.contains_key(row.slot) && {
            let s = self.slots[row.slot];
            s.session_active && s.slot_epoch == epoch && row.kv_seq_len == s.committed_len
                && s.cache_len == s.committed_len + 1
        }
    }

    /// At most one session is open: that of the active slot.
    pub open spec fn one_session(self) -> bool {
        forall|k: usize| #[trigger]
            self.slots.contains_key(k) && self.slots[k].session_active ==> self.active == Some(k)
    }
}

/// What to do about a slot's former occupant.
#[derive(Debug, Clone, Copy, PartialEq, Eq, Structural)]
pub enum ResetStep {
    /// The slot is current, or was dropped without an open session.
    Done,
    /// The dropped slot's session is open: close it.
    Drain,
}

impl RealMetalExecutor {
    pub fn new(dflash: Option<DflashLimits>, flags: ExecutorFlags) -> (e: Self)
        ensures
            e@ == (ExecView {
                slots: Map::empty(),
                active: None,
                pending: None,
                dflash,
                flags,
                hits: HitCounters { fast_path: 0, paged_hits: 0, paged_fallbacks: 0 },
            }),
            e@.one_session(),
    {
        RealMetalExecutor {
            slots: HashMap::new(),
            active_session_slot: None,
            pending: None,
            dflash,
            flags,
            hits: HitCounters { fast_path: 0, paged_hits: 0, paged_fallbacks: 0 },
        }
    }

    pub fn set_kv_recall(&mut self, enabled: bool)
        ensures
            final(self)@ == (ExecView {
                flags: ExecutorFlags { kv_recall: enabled, ..old(self)@.flags },
                ..old(self)@
            }),
    {
        self.flags.kv_recall = enabled;
    }

    pub fn hit_counters(&self) -> (c: HitCounters)
        ensures
            c == self@.hits,
    {
        self.hits
    }

    pub fn slot_state(&self, slot: usize) -> (s: Option<SlotState>)
        ensures
            s == if self@.slots.contains_key(slot) {
                Some(self@.slots[slot])
            } else {
                None
            },
    {
        match self.slots.get(&slot) {
            Some(s) => Some(*s),
            None => None,
        }
    }

    pub fn active_session(&self) -> (a: Option<usize>)
        ensures
            a == self@.active,
    {
        self.active_session_slot
    }

    pub fn pending_slot(&self) -> (p: Option<usize>)
        ensures
            p == self@.pending,
    {
        self.pending
    }

    /// Rows that one step may carry, and requests that may live at once.
    pub fn max_rows_per_step(&self) -> (n: usize)
        ensures
            n == self@.max_rows(),
    {
        match self.dflash {
            Some(d) => max_usize(d.max_rows, 1),
            None => 1,
        }
    }

    /// Whether rows are decoded speculatively.
    pub fn drafts(&self) -> (r: bool)
        ensures
            r == (self@.dflash is Some),
    {
        self.dflash.is_some()
    }

    pub fn submit(&self, plan: &ForwardPlan) -> (r: Result<RowRoute, SubmitError>)
        ensures
            r == route(
                plan.prefill_rows@.len(),
                plan.decode_rows@.len(),
                self@.dflash is Some,
            ),
    {
        route_rows(plan.prefill_rows.len(), plan.decode_rows.len(), self.dflash.is_some())
    }

    fn ensure_no_other_active_session(&self, slot: usize) -> (r: Option<SubmitError>)
        ensures
            r == match self@.active {
                Some(a) => if a == slot {
                    None
                } else {
                    Some(SubmitError::OtherSession { active: a })
                },
                None => None,
            },
    {
        match self.active_session_slot {
            Some(a) => if a == slot {
                None
            } else {
                Some(SubmitError::OtherSession { active: a })
            },
            None => None,
        }
    }

    /// Drops a slot whose host epoch moved on. Where its session is open, that
    /// is closed first and [`Self::finish_reset`] completes the reset.
    pub fn reset_slot_if_epoch_changed(&mut self, slot: usize, epoch: u64) -> (r: ResetStep)
        ensures
            !old(self)@.stale(slot, epoch) ==> r == ResetStep::Done && final(self)@ == old(self)@,
            old(self)@.stale(slot, epoch) && old(self)@.slots[slot].session_active ==> r
                == ResetStep::Drain && final(self)@ == old(self)@.dropped(slot),
            old(self)@.stale(slot, epoch) && !old(self)@.slots[slot].session_active ==> r
                == ResetStep::Done && final(self)@ == old(self)@.forgotten(slot),
    {
        let held: Option<SlotState> = self.slot_state(slot);
        match held {
            None => ResetStep::Done,
            Some(s) => {
                if s.slot_epoch == epoch {
                    return ResetStep::Done;
                }
                let ghost v = self@;
                self.slots.remove(&slot);
                assert(self@ =~= v.dropped(slot));
                if s.session_active {
                    return ResetStep::Drain;
                }
                self.finish_reset(slot);
                ResetStep::Done
            },
        }
    }

    /// The dropped slot's session is closed: nothing refers to the slot.
    pub fn finish_reset(&mut self, slot: usize)
        requires
            !old(self)@.slots.contains_key(slot),
        ensures
            final(self)@ == old(self)@.forgotten(slot),
    {
        let ghost v = self@;
        if self.active_session_slot == Some(slot) {
            self.active_session_slot = None;
        }
        if self.pending == Some(slot) {
            self.pending = None;
        }
        assert(v.slots.remove(slot) =~= v.slots);
        assert(self@ =~= v.forgotten(slot));
    }

    /// Whether the queued step may be returned for this row.
    pub fn pending_matches_live_slot(&self, row: &DecodeRow, epoch: u64) -> (r: bool)
        ensures
            r == self@.pending_matches(*row, epoch),
    {
        match self.pending {
            None => false,
            Some(p) => {
                if p != row.slot {
                    return false;
                }
                match self.slots.get(&row.slot) {
                    None => false,
                    Some(s) => s.session_active && s.slot_epoch == epoch && row.kv_seq_len
                        == s.committed_len && s.cache_len > s.committed_len && s.cache_len
                        - s.committed_len == 1,
                }
            },
        }
    }
}

/// An unfinished slot table keeps at most one session open: a reset never
/// opens one.
pub proof fn reset_keeps_one_session(v: ExecView, slot: usize)
    requires
        v.one_session(),
    ensures
        v.forgotten(slot).one_session(),
        v.dropped(slot).one_session(),
{
    assert forall|k: usize| #[trigger]
        v.forgotten(slot).slots.contains_key(k) && v.forgotten(slot).slots[k].session_active implies v.forgotten(
        slot,
    ).active == Some(k) by {
        assert(v.slots.contains_key(k));
    }
    assert forall|k: usize| #[trigger]
        v.dropped(slot).slots.contains_key(k) && v.dropped(slot).slots[k].session_active implies v.dropped(
        slot,
    ).active == Some(k) by {
        assert(v.slots.contains_key(k));
    }
}

/// A recycled slot never gets its predecessor's token: once the epoch moved
/// on, the queued step no longer matches.
pub proof fn recycled_slot_never_matches(v: ExecView, row: DecodeRow, epoch: u64)
    requires
        v.stale(row.slot, epoch),
    ensures
        !v.pending_matches(row, epoch),
{
}

// ---- the prefill walk ----

/// The one call to make next.
#[derive(Debug, Clone, Copy, PartialEq, Eq, Structural)]
pub enum Call {
    /// Close the session of the slot that was just dropped.
    DrainStale,
    /// Build an empty slot with room for this many tokens.
    NewSlot { reservation: usize },
    /// Build the slot from a cached prefix.
    Materialize { prefix_tokens: usize, reservation: usize },
    /// Close the slot's session, taking its arrays back.
    DrainSession,
    /// Extend the cache arrays to this many tokens.
    Grow { to: usize },
    BeginSession,
    SetCapture,
    /// Run the prompt chunk from this position.
    Forward { tokens: usize, start_pos: usize },
    DrainHidden,
    /// Clear the capture and build the target-hidden rows.
    BuildHidden { rows: usize },
    /// Keep the hidden rows as said, then close the slot's session.
    CommitAndDrain { hidden: HiddenUpdate },
    Publish,
    /// Run one token.
    Step { read: StepRead, position: usize, emit_query: bool },
    /// Score the block representatives for the next step.
    RecomputeRecall,
}

/// What becomes of the rows captured in a prefill.
#[derive(Debug, Clone, Copy, PartialEq, Eq, Structural)]
pub enum HiddenUpdate {
    Unused,
    /// The first chunk: start over, with a draft state for this many tokens.
    Replace { draft_capacity: usize },
    /// A later chunk: behind what is there, or alone.
    Append,
}

/// Where a step reads the prefix from.
#[derive(Debug, Clone, Copy, PartialEq, Eq, Structural)]
pub enum StepRead {
    PagedBf16,
    PagedInt8,
    Session,
}

/// The call that was made last.
#[derive(Debug, Clone, Copy, PartialEq, Eq, Structural)]
pub enum PrefillPhase {
    Stale,
    Place,
    GrowDrain,
    Grow,
    Begin,
    Capture,
    Forward,
    Hidden,
    BuildHidden,
    Drain,
    Publish,
}

#[derive(Debug, Clone, Copy, PartialEq, Eq, Structural)]
pub enum PrefillNext {
    Make { phase: PrefillPhase, call: Call },
    /// The chunk is in; sample at this position.
    Done { position: u64 },
    /// The row failed; `clear_capture` where captured layers must be cleared.
    Fail { error: SubmitError, clear_capture: bool },
}

/// What of a prefill row the walk depends on.
#[derive(Debug, Clone, Copy, PartialEq, Eq, Structural)]
pub struct PrefillShape {
    pub slot: usize,
    pub len: usize,
    pub start_pos: usize,
    pub total_tokens: usize,
}

impl PrefillRow {
    pub open spec fn shape_of(self) -> PrefillShape {
        PrefillShape {
            slot: self.slot,
            len: self.tokens@.len() as usize,
            start_pos: self.start_pos,
            total_tokens: self.total_tokens,
        }
    }

    pub fn shape(&self) -> (s: PrefillShape)
        ensures
            s == self.shape_of(),
    {
        PrefillShape {
            slot: self.slot,
            len: self.tokens.len(),
            start_pos: self.start_pos,
            total_tokens: self.total_tokens,
        }
    }
}

/// Whether a cache of this capacity can be brought to hold the tokens.
pub open spec fn room_ok(capacity: usize, required: int) -> bool {
    capacity == 0 || required <= capacity || (required <= MAX_ROUNDED_TOKENS && capacity * 2
        <= MAX_ROUNDED_TOKENS)
}

/// Tokens to reserve for a new slot: its host length, the whole prompt and
/// 512 more, or the chunk and one more, whichever is most.
pub open spec fn prefill_reservation(row: PrefillShape, seq_len: usize) -> nat {
    max_nat(
        max_nat(seq_len as nat, sat_plus(row.total_tokens as nat, 512)),
        sat_plus(row.len as nat, 1),
    )
}

fn plus_saturating(a: usize, b: usize) -> (r: usize)
    ensures
        r == sat_plus(a as nat, b as nat),
{
    match a.checked_add(b) {
        Some(p) => p,
        None => usize::MAX,
    }
}

pub open spec fn prefill_fail(error: SubmitError) -> PrefillNext {
    PrefillNext::Fail { error, clear_capture: false }
}

impl ExecView {
    pub open spec fn other_session(self, slot: usize) -> Option<SubmitError> {
        match self.active {
            Some(a) => if a == slot {
                None
            } else {
                Some(SubmitError::OtherSession { active: a })
            },
            None => None,
        }
    }

    pub open spec fn prefill_start(self, row: PrefillShape, host: SlotHost) -> (
        ExecView,
        PrefillNext,
    ) {
        if row.len == 0 {
            (self, prefill_fail(SubmitError::EmptyRow { slot: row.slot }))
        } else if self.other_session(row.slot) is Some {
            (self, prefill_fail(self.other_session(row.slot)->0))
        } else if self.stale(row.slot, host.epoch) {
            if self.slots[row.slot].session_active {
                (
                    self.dropped(row.slot),
                    PrefillNext::Make { phase: PrefillPhase::Stale, call: Call::DrainStale },
                )
            } else {
                self.forgotten(row.slot).prefill_place(row, host)
            }
        } else if !self.slots.contains_key(row.slot) {
            self.prefill_place(row, host)
        } else {
            self.prefill_open(row)
        }
    }

    pub open spec fn prefill_place(self, row: PrefillShape, host: SlotHost) -> (
        ExecView,
        PrefillNext,
    ) {
        let reservation = prefill_reservation(row, host.seq_len) as usize;
        (
            self,
            PrefillNext::Make {
                phase: PrefillPhase::Place,
                call: if row.start_pos == 0 {
                    Call::NewSlot { reservation }
                } else {
                    Call::Materialize { prefix_tokens: row.start_pos, reservation }
                },
            },
        )
    }

    pub open spec fn prefill_open(self, row: PrefillShape) -> (ExecView, PrefillNext) {
        let s = self.slots[row.slot];
        if row.start_pos != s.cache_len {
            (
                self,
                prefill_fail(
                    SubmitError::StartMismatch {
                        slot: row.slot,
                        plan: row.start_pos,
                        state: s.cache_len,
                    },
                ),
            )
        } else {
            match growth(s.capacity as nat, s.cache_len as nat, row.len as nat) {
                None => self.prefill_begin(row),
                Some(to) => if s.session_active {
                    (
                        self,
                        PrefillNext::Make {
                            phase: PrefillPhase::GrowDrain,
                            call: Call::DrainSession,
                        },
                    )
                } else {
                    (
                        self,
                        PrefillNext::Make {
                            phase: PrefillPhase::Grow,
                            call: Call::Grow { to: to as usize },
                        },
                    )
                },
            }
        }
    }

    pub open spec fn prefill_begin(self, row: PrefillShape) -> (ExecView, PrefillNext) {
        if self.slots[row.slot].session_active {
            self.prefill_run(row)
        } else {
            (
                self,
                PrefillNext::Make { phase: PrefillPhase::Begin, call: Call::BeginSession },
            )
        }
    }

    pub open spec fn prefill_run(self, row: PrefillShape) -> (ExecView, PrefillNext) {
        (
            ExecView { active: Some(row.slot), ..self },
            if self.dflash is Some {
                PrefillNext::Make { phase: PrefillPhase::Capture, call: Call::SetCapture }
            } else {
                PrefillNext::Make {
                    phase: PrefillPhase::Forward,
                    call: Call::Forward { tokens: row.len, start_pos: row.start_pos },
                }
            },
        )
    }

    /// The chunk is in the cache.
    pub open spec fn prefill_commit(self, row: PrefillShape) -> (ExecView, PrefillNext) {
        let s = self.slots[row.slot];
        let len = (row.start_pos + row.len) as usize;
        let hidden = match self.dflash {
            None => HiddenUpdate::Unused,
            Some(d) => if row.start_pos == 0 {
                HiddenUpdate::Replace {
                    draft_capacity: (row.total_tokens + d.block_size + 512) as usize,
                }
            } else {
                HiddenUpdate::Append
            },
        };
        (
            self.with(
                row.slot,
                SlotState {
                    cache_len: len,
                    committed_len: len,
                    last_sampled: false,
                    has_hidden: s.has_hidden || self.dflash is Some,
                    has_draft: s.has_draft || (self.dflash is Some && row.start_pos == 0),
                    ..s
                },
            ),
            PrefillNext::Make {
                phase: PrefillPhase::Drain,
                call: Call::CommitAndDrain { hidden },
            },
        )
    }

    /// The walk goes on after a call. `capacity` is the room of a slot that
    /// was just built.
    pub open spec fn prefill_next(
        self,
        row: PrefillShape,
        host: SlotHost,
        phase: PrefillPhase,
        ok: bool,
        capacity: usize,
    ) -> (ExecView, PrefillNext) {
        if !ok {
            (
                self,
                PrefillNext::Fail {
                    error: SubmitError::Outside,
                    clear_capture: (phase == PrefillPhase::Forward && self.dflash is Some) || phase
                        == PrefillPhase::Hidden,
                },
            )
        } else {
            let s = self.slots[row.slot];
            match phase {
                PrefillPhase::Stale => self.forgotten(row.slot).prefill_place(row, host),
                PrefillPhase::Place => self.with(
                    row.slot,
                    fresh_slot(host.epoch, row.start_pos, capacity),
                ).prefill_open(row),
                PrefillPhase::GrowDrain => (
                    self.with(row.slot, SlotState { session_active: false, ..s }),
                    PrefillNext::Make {
                        phase: PrefillPhase::Grow,
                        call: Call::Grow {
                            to: growth(
                                s.capacity as nat,
                                s.cache_len as nat,
                                row.len as nat,
                            )->0 as usize,
                        },
                    },
                ),
                PrefillPhase::Grow => self.with(
                    row.slot,
                    SlotState {
                        capacity: growth(
                            s.capacity as nat,
                            s.cache_len as nat,
                            row.len as nat,
                        )->0 as usize,
                        ..s
                    },
                ).prefill_begin(row),
                PrefillPhase::Begin => self.with(
                    row.slot,
                    SlotState { session_active: true, ..s },
                ).prefill_run(row),
                PrefillPhase::Capture => (
                    self,
                    PrefillNext::Make {
                        phase: PrefillPhase::Forward,
                        call: Call::Forward { tokens: row.len, start_pos: row.start_pos },
                    },
                ),
                PrefillPhase::Forward => if self.dflash is Some {
                    (
                        self,
                        PrefillNext::Make {
                            phase: PrefillPhase::Hidden,
                            call: Call::DrainHidden,
                        },
                    )
                } else {
                    self.prefill_commit(row)
                },
                PrefillPhase::Hidden => (
                    self,
                    PrefillNext::Make {
                        phase: PrefillPhase::BuildHidden,
                        call: Call::BuildHidden { rows: row.len },
                    },
                ),
                PrefillPhase::BuildHidden => self.prefill_commit(row),
                PrefillPhase::Drain => (
                    ExecView {
                        active: None,
                        ..self.with(row.slot, SlotState { session_active: false, ..s })
                    },
                    PrefillNext::Make { phase: PrefillPhase::Publish, call: Call::Publish },
                ),
                PrefillPhase::Publish => (
                    ExecView { pending: None, ..self },
                    PrefillNext::Done { position: s.cache_len as u64 },
                ),
            }
        }
    }

    /// A phase can be gone on from: past placing, the slot is there, and a
    /// growing slot needs to grow.
    pub open spec fn prefill_can_go_on(
        self,
        row: PrefillShape,
        phase: PrefillPhase,
        ok: bool,
        capacity: usize,
    ) -> bool {
        ok ==> match phase {
            PrefillPhase::Stale => !self.slots.contains_key(row.slot),
            PrefillPhase::Place => room_ok(capacity, row.start_pos + row.len),
            PrefillPhase::GrowDrain | PrefillPhase::Grow => self.slots.contains_key(row.slot) && {
                let s = self.slots[row.slot];
                growth(s.capacity as nat, s.cache_len as nat, row.len as nat) is Some && room_ok(
                    s.capacity,
                    s.cache_len + row.len,
                )
            },
            _ => self.slots.contains_key(row.slot),
        }
    }

    /// A row's lengths are what a machine can hold.
    pub open spec fn prefill_fits(self, row: PrefillShape) -> bool {
        &&& row.start_pos + row.len <= usize::MAX
        &&& row.start_pos == 0 ==> (self.dflash matches Some(d) ==> row.total_tokens + d.block_size
            + 512 <= usize::MAX)
    }

    /// A slot's cache can be brought to hold a chunk that starts where the
    /// slot ends.
    pub open spec fn chunk_fits(self, row: PrefillShape) -> bool {
        self.slots.contains_key(row.slot) && self.slots[row.slot].cache_len == row.start_pos
            ==> room_ok(self.slots[row.slot].capacity, row.start_pos + row.len)
    }

    /// The call after which a chunk is committed.
    pub open spec fn commits_after(self, phase: PrefillPhase) -> bool {
        phase == PrefillPhase::BuildHidden || (phase == PrefillPhase::Forward && self.dflash is None)
    }

    /// Nothing bars a row from going through with its own slot: it is not
    /// empty, no other session is open and the slot is not stale.
    pub open spec fn prefill_opens(self, row: PrefillShape, host: SlotHost) -> bool {
        row.len > 0 && self.other_session(row.slot) is None && !self.stale(row.slot, host.epoch)
    }
}

impl RealMetalExecutor {
    fn put(&mut self, slot: usize, s: SlotState)
        ensures
            final(self)@ == old(self)@.with(slot, s),
    {
        let ghost v = self@;
        self.slots.insert(slot, s);
        assert(self@ =~= v.with(slot, s));
    }

    fn place_prefill(&self, row: &PrefillShape, host: &SlotHost) -> (r: PrefillNext)
        ensures
            (self@, r) == self@.prefill_place(*row, *host),
    {
        let reservation: usize = max_usize(
            max_usize(host.seq_len, plus_saturating(row.total_tokens, 512)),
            plus_saturating(row.len, 1),
        );
        PrefillNext::Make {
            phase: PrefillPhase::Place,
            call: if row.start_pos == 0 {
                Call::NewSlot { reservation }
            } else {
                Call::Materialize { prefix_tokens: row.start_pos, reservation }
            },
        }
    }

    fn run_prefill(&mut self, row: &PrefillShape) -> (r: PrefillNext)
        ensures
            (final(self)@, r) == old(self)@.prefill_run(*row),
    {
        self.active_session_slot = Some(row.slot);
        if self.dflash.is_some() {
            PrefillNext::Make { phase: PrefillPhase::Capture, call: Call::SetCapture }
        } else {
            PrefillNext::Make {
                phase: PrefillPhase::Forward,
                call: Call::Forward { tokens: row.len, start_pos: row.start_pos },
            }
        }
    }

    fn begin_prefill(&mut self, row: &PrefillShape, s: SlotState) -> (r: PrefillNext)
        requires
            old(self)@.slots.contains_key(row.slot),
            old(self)@.slots[row.slot] == s,
        ensures
            (final(self)@, r) == old(self)@.prefill_begin(*row),
    {
        if s.session_active {
            self.run_prefill(row)
        } else {
            PrefillNext::Make { phase: PrefillPhase::Begin, call: Call::BeginSession }
        }
    }

    fn open_prefill(&mut self, row: &PrefillShape, s: SlotState) -> (r: PrefillNext)
        requires
            old(self)@.slots.contains_key(row.slot),
            old(self)@.slots[row.slot] == s,
            old(self)@.chunk_fits(*row),
        ensures
            (final(self)@, r) == old(self)@.prefill_open(*row),
    {
        if row.start_pos != s.cache_len {
            return PrefillNext::Fail {
                error: SubmitError::StartMismatch {
                    slot: row.slot,
                    plan: row.start_pos,
                    state: s.cache_len,
                },
                clear_capture: false,
            };
        }
        match ensure_kv_capacity(s.capacity, s.cache_len, row.len) {
            None => self.begin_prefill(row, s),
            Some(to) => if s.session_active {
                PrefillNext::Make { phase: PrefillPhase::GrowDrain, call: Call::DrainSession }
            } else {
                PrefillNext::Make { phase: PrefillPhase::Grow, call: Call::Grow { to } }
            },
        }
    }

    /// Starts to prefill a row.
    pub fn submit_prefill(&mut self, row: &PrefillRow, host: &SlotHost) -> (r: PrefillNext)
        requires
            old(self)@.prefill_opens(row.shape_of(), *host) ==> old(self)@.chunk_fits(
                row.shape_of(),
            ),
        ensures
            (final(self)@, r) == old(self)@.prefill_start(row.shape_of(), *host),
    {
        let shape: PrefillShape = row.shape();
        if shape.len == 0 {
            return PrefillNext::Fail {
                error: SubmitError::EmptyRow { slot: shape.slot },
                clear_capture: false,
            };
        }
        match self.ensure_no_other_active_session(shape.slot) {
            Some(error) => {
                return PrefillNext::Fail { error, clear_capture: false };
            },
            None => {},
        }
        match self.reset_slot_if_epoch_changed(shape.slot, host.epoch) {
            ResetStep::Drain => {
                return PrefillNext::Make { phase: PrefillPhase::Stale, call: Call::DrainStale };
            },
            ResetStep::Done => {},
        }
        match self.slot_state(shape.slot) {
            None => self.place_prefill(&shape, host),
            Some(s) => self.open_prefill(&shape, s),
        }
    }

    fn commit_prefill(&mut self, row: &PrefillShape, s: SlotState) -> (r: PrefillNext)
        requires
            old(self)@.prefill_fits(*row),
            old(self)@.slots.contains_key(row.slot),
            old(self)@.slots[row.slot] == s,
        ensures
            (final(self)@, r) == old(self)@.prefill_commit(*row),
    {
        let len: usize = row.start_pos + row.len;
        let hidden: HiddenUpdate = match self.dflash {
            None => HiddenUpdate::Unused,
            Some(d) => if row.start_pos == 0 {
                HiddenUpdate::Replace { draft_capacity: row.total_tokens + d.block_size + 512 }
            } else {
                HiddenUpdate::Append
            },
        };
        let speculative: bool = self.dflash.is_some();
        self.put(
            row.slot,
            SlotState {
                slot_epoch: s.slot_epoch,
                cache_len: len,
                committed_len: len,
                capacity: s.capacity,
                session_active: s.session_active,
                last_sampled: false,
                has_hidden: s.has_hidden || speculative,
                has_draft: s.has_draft || (speculative && row.start_pos == 0),
            },
        );
        PrefillNext::Make { phase: PrefillPhase::Drain, call: Call::CommitAndDrain { hidden } }
    }

    /// Goes on with a prefill after a call.
    pub fn continue_prefill(
        &mut self,
        row: &PrefillRow,
        host: &SlotHost,
        phase: PrefillPhase,
        ok: bool,
        capacity: usize,
    ) -> (r: PrefillNext)
        requires
            old(self)@.prefill_can_go_on(row.shape_of(), phase, ok, capacity),
            ok && old(self)@.commits_after(phase) ==> old(self)@.prefill_fits(row.shape_of()),
        ensures
            (final(self)@, r) == old(self)@.prefill_next(
                row.shape_of(),
                *host,
                phase,
                ok,
                capacity,
            ),
    {
        let shape: PrefillShape = row.shape();
        if !ok {
            return PrefillNext::Fail {
                error: SubmitError::Outside,
                clear_capture: (phase == PrefillPhase::Forward && self.dflash.is_some()) || phase
                    == PrefillPhase::Hidden,
            };
        }
        if phase == PrefillPhase::Stale {
            self.finish_reset(shape.slot);
            return self.place_prefill(&shape, host);
        }
        if phase == PrefillPhase::Place {
            let s = SlotState {
                slot_epoch: host.epoch,
                cache_len: shape.start_pos,
                committed_len: shape.start_pos,
                capacity,
                session_active: false,
                last_sampled: false,
                has_hidden: false,
                has_draft: false,
            };
            self.put(shape.slot, s);
            return self.open_prefill(&shape, s);
        }
        let s: SlotState = match self.slot_state(shape.slot) {
            Some(s) => s,
            None => {
                assert(false);
                return PrefillNext::Fail { error: SubmitError::Outside, clear_capture: false };
            },
        };
        match phase {
            PrefillPhase::Stale | PrefillPhase::Place => {
                assert(false);
                PrefillNext::Fail { error: SubmitError::Outside, clear_capture: false }
            },
            PrefillPhase::GrowDrain => {
                let to: usize = match ensure_kv_capacity(s.capacity, s.cache_len, shape.len) {
                    Some(to) => to,
                    None => 0,
                };
                let mut next: SlotState = s;
                next.session_active = false;
                self.put(shape.slot, next);
                PrefillNext::Make { phase: PrefillPhase::Grow, call: Call::Grow { to } }
            },
            PrefillPhase::Grow => {
                let to: usize = match ensure_kv_capacity(s.capacity, s.cache_len, shape.len) {
                    Some(to) => to,
                    None => 0,
                };
                let mut next: SlotState = s;
                next.capacity = to;
                self.put(shape.slot, next);
                self.begin_prefill(&shape, next)
            },
            PrefillPhase::Begin => {
                let mut next: SlotState = s;
                next.session_active = true;
                self.put(shape.slot, next);
                self.run_prefill(&shape)
            },
            PrefillPhase::Capture => PrefillNext::Make {
                phase: PrefillPhase::Forward,
                call: Call::Forward { tokens: shape.len, start_pos: shape.start_pos },
            },
            PrefillPhase::Forward => {
                if self.dflash.is_some() {
                    PrefillNext::Make { phase: PrefillPhase::Hidden, call: Call::DrainHidden }
                } else {
                    self.commit_prefill(&shape, s)
                }
            },
            PrefillPhase::Hidden => PrefillNext::Make {
                phase: PrefillPhase::BuildHidden,
                call: Call::BuildHidden { rows: shape.len },
            },
            PrefillPhase::BuildHidden => self.commit_prefill(&shape, s),
            PrefillPhase::Drain => {
                let mut next: SlotState = s;
                next.session_active = false;
                self.put(shape.slot, next);
                self.active_session_slot = None;
                PrefillNext::Make { phase: PrefillPhase::Publish, call: Call::Publish }
            },
            PrefillPhase::Publish => {
                self.pending = None;
                PrefillNext::Done { position: s.cache_len as u64 }
            },
        }
    }
}

/// Token ids as the runtime takes them.
pub fn token_values(tokens: &[u32]) -> (out: Vec<i32>)
    ensures
        out@ == Seq::new(tokens@.len(), |i: int| tokens@[i] as i32),
{
    let mut out: Vec<i32> = Vec::new();
    let mut i: usize = 0;
    while i < tokens.len()
        invariant
            i <= tokens@.len(),
            out@ == Seq::new(i as nat, |j: int| tokens@[j] as i32),
        decreases tokens@.len() - i,
    {
        out.push(
            #[verifier::truncate]
            (tokens[i] as i32),
        );
        i = i + 1;
        assert(out@ =~= Seq::new(i as nat, |j: int| tokens@[j] as i32));
    }
    out
}

/// Where a prefill walk stands: before its session runs no other slot holds
/// one, and from then on its own slot does.
pub open spec fn prefill_holds(v: ExecView, row: PrefillShape, next: PrefillNext) -> bool {
    v.one_session() && match next {
        PrefillNext::Make { phase, .. } => match phase {
            PrefillPhase::Stale
            | PrefillPhase::Place
            | PrefillPhase::GrowDrain
            | PrefillPhase::Grow
            | PrefillPhase::Begin => v.other_session(row.slot) is None,
            PrefillPhase::Capture
            | PrefillPhase::Forward
            | PrefillPhase::Hidden
            | PrefillPhase::BuildHidden
            | PrefillPhase::Drain => v.active == Some(row.slot),
            PrefillPhase::Publish => true,
        },
        _ => true,
    }
}

proof fn lemma_with_keeps(v: ExecView, slot: usize, s: SlotState)
    requires
        v.one_session(),
        s.session_active ==> v.active == Some(slot),
    ensures
        v.with(slot, s).one_session(),
{
    let w = v.with(slot, s);
    assert forall|k: usize| #[trigger]
        w.slots.contains_key(k) && w.slots[k].session_active implies w.active == Some(k) by {
        if k != slot {
            assert(v.slots.contains_key(k));
        }
    }
}

proof fn lemma_prefill_open(v: ExecView, row: PrefillShape)
    requires
        v.one_session(),
        v.other_session(row.slot) is None,
        v.slots.contains_key(row.slot),
    ensures
        prefill_holds(v.prefill_open(row).0, row, v.prefill_open(row).1),
        prefill_holds(v.prefill_begin(row).0, row, v.prefill_begin(row).1),
{
    let w = ExecView { active: Some(row.slot), ..v };
    if v.slots[row.slot].session_active {
        assert(v.active == Some(row.slot));
        assert(w =~= v);
    }
}

/// A prefill starts only where no other session is open, and keeps at most
/// one open.
pub proof fn prefill_start_holds_one_session(v: ExecView, row: PrefillShape, host: SlotHost)
    requires
        v.one_session(),
    ensures
        prefill_holds(v.prefill_start(row, host).0, row, v.prefill_start(row, host).1),
{
    if row.len != 0 && v.other_session(row.slot) is None {
        reset_keeps_one_session(v, row.slot);
        if !v.stale(row.slot, host.epoch) && v.slots.contains_key(row.slot) {
            lemma_prefill_open(v, row);
        }
    }
}

/// Every step of a prefill, whatever its call answered, keeps at most one
/// session open.
pub proof fn prefill_step_holds_one_session(
    v: ExecView,
    row: PrefillShape,
    host: SlotHost,
    phase: PrefillPhase,
    call: Call,
    ok: bool,
    capacity: usize,
)
    requires
        prefill_holds(v, row, PrefillNext::Make { phase, call }),
        v.prefill_can_go_on(row, phase, ok, capacity),
    ensures
        prefill_holds(
            v.prefill_next(row, host, phase, ok, capacity).0,
            row,
            v.prefill_next(row, host, phase, ok, capacity).1,
        ),
{
    if ok {
        let s = v.slots[row.slot];
        match phase {
            PrefillPhase::Stale => {
                reset_keeps_one_session(v, row.slot);
            },
            PrefillPhase::Place => {
                let f = fresh_slot(host.epoch, row.start_pos, capacity);
                lemma_with_keeps(v, row.slot, f);
                lemma_prefill_open(v.with(row.slot, f), row);
            },
            PrefillPhase::GrowDrain => {
                lemma_with_keeps(v, row.slot, SlotState { session_active: false, ..s });
            },
            PrefillPhase::Grow => {
                let n = SlotState {
                    capacity: growth(
                        s.capacity as nat,
                        s.cache_len as nat,
                        row.len as nat,
                    )->0 as usize,
                    ..s
                };
                lemma_with_keeps(v, row.slot, n);
                lemma_prefill_open(v.with(row.slot, n), row);
            },
            PrefillPhase::Begin => {
                let n = SlotState { session_active: true, ..s };
                let w = ExecView { active: Some(row.slot), ..v };
                assert forall|k: usize| #[trigger]
                    w.slots.contains_key(k) && w.slots[k].session_active implies w.active == Some(
                    k,
                ) by {
                    assert(v.slots.contains_key(k));
                }
                lemma_with_keeps(w, row.slot, n);
                assert(v.with(row.slot, n).prefill_run(row).0 =~= w.with(row.slot, n));
            },
            PrefillPhase::Drain => {
                let n = SlotState { session_active: false, ..s };
                let w = ExecView { active: None, ..v.with(row.slot, n) };
                assert forall|k: usize| #[trigger]
                    w.slots.contains_key(k) && w.slots[k].session_active implies w.active == Some(
                    k,
                ) by {
                    if k != row.slot {
                        assert(v.slots.contains_key(k));
                    }
                }
            },
            PrefillPhase::Forward | PrefillPhase::BuildHidden => {
                if phase == PrefillPhase::BuildHidden || v.dflash is None {
                    let c = v.prefill_commit(row).0;
                    lemma_with_keeps(v, row.slot, c.slots[row.slot]);
                    assert(c =~= v.with(row.slot, c.slots[row.slot]));
                }
            },
            _ => {},
        }
    }
}

/// A prefill that goes through commits exactly its chunk: the slot holds the
/// tokens up to the end of the chunk, its session is closed, and no step is
/// left queued.
pub proof fn prefill_commits_its_chunk(v: ExecView, row: PrefillShape, host: SlotHost)
    requires
        v.slots.contains_key(row.slot),
        v.prefill_fits(row),
    ensures
        ({
            let (v1, _) = v.prefill_commit(row);
            let (v2, _) = v1.prefill_next(row, host, PrefillPhase::Drain, true, 0);
            let (v3, done) = v2.prefill_next(row, host, PrefillPhase::Publish, true, 0);
            let s = v3.slots[row.slot];
            &&& s.cache_len == row.start_pos + row.len
            &&& s.committed_len == s.cache_len
            &&& !s.session_active
            &&& !s.last_sampled
            &&& v3.active is None
            &&& v3.pending is None
            &&& done == (PrefillNext::Done { position: (row.start_pos + row.len) as u64 })
        }),
{
}

// ---- the decode walk ----

/// The call that was made last in a decode; `fast` where the token to return
/// was queued ahead.
#[derive(Debug, Clone, Copy, PartialEq, Eq, Structural)]
pub enum DecodePhase {
    FastDrain,
    Stale,
    Place,
    GrowDrain,
    Grow,
    Begin,
    Step,
    Drain,
    Recall { fast: bool },
    AheadBegin { fast: bool },
    AheadStep { fast: bool },
}

#[derive(Debug, Clone, Copy, PartialEq, Eq, Structural)]
pub enum DecodeNext {
    Make { phase: DecodePhase, call: Call },
    /// Return the token that was queued ahead.
    Queued,
    /// Return the token of the step just run, sampled at this position.
    Stepped { position: u64 },
    Fail { error: SubmitError },
}

/// Tokens to reserve for a slot that decode builds.
pub open spec fn decode_reservation(row: DecodeRow, seq_len: usize) -> nat {
    max_nat(seq_len as nat, sat_plus(row.kv_seq_len as nat, 512))
}

impl ExecView {
    pub open spec fn decode_start(self, row: DecodeRow, host: SlotHost) -> (ExecView, DecodeNext) {
        if self.flags.pipeline && row.raw_argmax && self.pending_matches(row, host.epoch) {
            let s = self.slots[row.slot];
            (
                ExecView {
                    pending: None,
                    hits: HitCounters { fast_path: tick(self.hits.fast_path), ..self.hits },
                    ..self.with(row.slot, SlotState { committed_len: s.cache_len, ..s })
                },
                DecodeNext::Make { phase: DecodePhase::FastDrain, call: Call::DrainSession },
            )
        } else {
            let w = ExecView {
                pending: if self.pending == Some(row.slot) {
                    None
                } else {
                    self.pending
                },
                ..self
            };
            if w.other_session(row.slot) is Some {
                (w, DecodeNext::Fail { error: w.other_session(row.slot)->0 })
            } else if w.stale(row.slot, host.epoch) {
                if w.slots[row.slot].session_active {
                    (
                        w.dropped(row.slot),
                        DecodeNext::Make { phase: DecodePhase::Stale, call: Call::DrainStale },
                    )
                } else {
                    w.forgotten(row.slot).decode_place(row, host)
                }
            } else if !w.slots.contains_key(row.slot) {
                w.decode_place(row, host)
            } else {
                w.decode_open(row)
            }
        }
    }

    pub open spec fn decode_place(self, row: DecodeRow, host: SlotHost) -> (ExecView, DecodeNext) {
        (
            self,
            if row.kv_seq_len == 0 {
                DecodeNext::Fail { error: SubmitError::BeforePrefill { slot: row.slot } }
            } else {
                DecodeNext::Make {
                    phase: DecodePhase::Place,
                    call: Call::Materialize {
                        prefix_tokens: row.kv_seq_len,
                        reservation: decode_reservation(row, host.seq_len) as usize,
                    },
                }
            },
        )
    }

    pub open spec fn decode_open(self, row: DecodeRow) -> (ExecView, DecodeNext) {
        let s = self.slots[row.slot];
        if row.kv_seq_len != s.committed_len || s.committed_len != s.cache_len {
            (
                self,
                DecodeNext::Fail {
                    error: SubmitError::LengthMismatch {
                        slot: row.slot,
                        plan: row.kv_seq_len,
                        committed: s.committed_len,
                        state: s.cache_len,
                    },
                },
            )
        } else {
            match growth(s.capacity as nat, s.cache_len as nat, 1) {
                None => self.decode_begin(row.slot),
                Some(to) => if s.session_active {
                    (
                        self,
                        DecodeNext::Make {
                            phase: DecodePhase::GrowDrain,
                            call: Call::DrainSession,
                        },
                    )
                } else {
                    (
                        self,
                        DecodeNext::Make {
                            phase: DecodePhase::Grow,
                            call: Call::Grow { to: to as usize },
                        },
                    )
                },
            }
        }
    }

    pub open spec fn decode_begin(self, slot: usize) -> (ExecView, DecodeNext) {
        if self.slots[slot].session_active {
            self.decode_step(slot, DecodePhase::Step)
        } else {
            (self, DecodeNext::Make { phase: DecodePhase::Begin, call: Call::BeginSession })
        }
    }

    /// Where a step of this slot reads the prefix from.
    pub open spec fn step_read(self, slot: usize) -> StepRead {
        if !self.flags.paged_kv_read || self.slots[slot].cache_len == 0 {
            StepRead::Session
        } else if self.flags.int8 {
            StepRead::PagedInt8
        } else {
            StepRead::PagedBf16
        }
    }

    /// Issues one step of the slot's session.
    pub open spec fn decode_step(self, slot: usize, phase: DecodePhase) -> (ExecView, DecodeNext) {
        let s = self.slots[slot];
        let w = ExecView { active: Some(slot), ..self };
        if s.cache_len > i32::MAX {
            (
                w,
                DecodeNext::Fail {
                    error: SubmitError::PositionTooLarge { slot, position: s.cache_len },
                },
            )
        } else {
            (
                if self.flags.paged_kv_read && s.cache_len == 0 {
                    ExecView {
                        hits: HitCounters {
                            paged_fallbacks: tick(self.hits.paged_fallbacks),
                            ..self.hits
                        },
                        ..w
                    }
                } else {
                    w
                },
                DecodeNext::Make {
                    phase,
                    call: Call::Step {
                        read: self.step_read(slot),
                        position: s.cache_len,
                        emit_query: self.flags.kv_recall && !self.flags.int8,
                    },
                },
            )
        }
    }

    /// The counters after a step that went through.
    pub open spec fn stepped(self, slot: usize) -> ExecView {
        if self.step_read(slot) == StepRead::Session {
            self
        } else {
            ExecView {
                hits: HitCounters { paged_hits: tick(self.hits.paged_hits), ..self.hits },
                ..self
            }
        }
    }

    pub open spec fn longer(n: usize) -> usize {
        if n == usize::MAX {
            n
        } else {
            (n + 1) as usize
        }
    }

    /// After a committed step: score the recall plan where it is on.
    pub open spec fn decode_recall(self, row: DecodeRow, fast: bool) -> (ExecView, DecodeNext) {
        if self.flags.kv_recall && !self.flags.int8 {
            (
                self,
                DecodeNext::Make {
                    phase: DecodePhase::Recall { fast },
                    call: Call::RecomputeRecall,
                },
            )
        } else {
            self.decode_ahead(row, fast)
        }
    }

    /// Queues the next step of a greedy run, where there is room for it.
    pub open spec fn decode_ahead(self, row: DecodeRow, fast: bool) -> (ExecView, DecodeNext) {
        let s = self.slots[row.slot];
        if !fast && !(self.flags.pipeline && row.raw_argmax) {
            (self, self.decode_done(row, fast))
        } else {
            let w = if fast {
                self
            } else {
                self.with(row.slot, SlotState { last_sampled: true, ..s })
            };
            let t = w.slots[row.slot];
            if !t.last_sampled || (t.capacity != 0 && t.cache_len >= t.capacity) {
                (w, w.decode_done(row, fast))
            } else if t.session_active {
                w.decode_step(row.slot, DecodePhase::AheadStep { fast })
            } else {
                (
                    w,
                    DecodeNext::Make {
                        phase: DecodePhase::AheadBegin { fast },
                        call: Call::BeginSession,
                    },
                )
            }
        }
    }

    pub open spec fn decode_done(self, row: DecodeRow, fast: bool) -> DecodeNext {
        if fast {
            DecodeNext::Queued
        } else {
            DecodeNext::Stepped { position: self.slots[row.slot].committed_len as u64 }
        }
    }

    pub open spec fn decode_next(
        self,
        row: DecodeRow,
        host: SlotHost,
        phase: DecodePhase,
        ok: bool,
        capacity: usize,
    ) -> (ExecView, DecodeNext) {
        if !ok {
            (self, DecodeNext::Fail { error: SubmitError::Outside })
        } else {
            let s = self.slots[row.slot];
            match phase {
                DecodePhase::FastDrain => ExecView {
                    active: None,
                    ..self.with(row.slot, SlotState { session_active: false, ..s })
                }.decode_recall(row, true),
                DecodePhase::Stale => self.forgotten(row.slot).decode_place(row, host),
                DecodePhase::Place => self.with(
                    row.slot,
                    fresh_slot(host.epoch, row.kv_seq_len, capacity),
                ).decode_open(row),
                DecodePhase::GrowDrain => (
                    self.with(row.slot, SlotState { session_active: false, ..s }),
                    DecodeNext::Make {
                        phase: DecodePhase::Grow,
                        call: Call::Grow {
                            to: growth(s.capacity as nat, s.cache_len as nat, 1)->0 as usize,
                        },
                    },
                ),
                DecodePhase::Grow => self.with(
                    row.slot,
                    SlotState {
                        capacity: growth(s.capacity as nat, s.cache_len as nat, 1)->0 as usize,
                        ..s
                    },
                ).decode_begin(row.slot),
                DecodePhase::Begin => self.with(
                    row.slot,
                    SlotState { session_active: true, ..s },
                ).decode_step(row.slot, DecodePhase::Step),
                DecodePhase::Step => {
                    let len = ExecView::longer(s.cache_len);
                    (
                        self.stepped(row.slot).with(
                            row.slot,
                            SlotState { cache_len: len, committed_len: len, ..s },
                        ),
                        DecodeNext::Make { phase: DecodePhase::Drain, call: Call::DrainSession },
                    )
                },
                DecodePhase::Drain => ExecView {
                    active: None,
                    ..self.with(row.slot, SlotState { session_active: false, ..s })
                }.decode_recall(row, false),
                DecodePhase::Recall { fast } => self.decode_ahead(row, fast),
                DecodePhase::AheadBegin { fast } => self.with(
                    row.slot,
                    SlotState { session_active: true, ..s },
                ).decode_step(row.slot, DecodePhase::AheadStep { fast }),
                DecodePhase::AheadStep { fast } => {
                    let w = ExecView {
                        pending: Some(row.slot),
                        ..self.stepped(row.slot).with(
                            row.slot,
                            SlotState {
                                cache_len: ExecView::longer(s.cache_len),
                                last_sampled: true,
                                ..s
                            },
                        )
                    };
                    (w, w.decode_done(row, fast))
                },
            }
        }
    }

    /// A row goes through with its own slot: no other session is open, and the
    /// slot is current and ends where the row starts.
    pub open spec fn step_opens(self, row: DecodeRow, host: SlotHost) -> bool {
        self.other_session(row.slot) is None && self.slots.contains_key(row.slot) && !self.stale(
            row.slot,
            host.epoch,
        ) && self.slots[row.slot].cache_len == row.kv_seq_len
    }

    pub open spec fn decode_can_go_on(
        self,
        row: DecodeRow,
        phase: DecodePhase,
        ok: bool,
        capacity: usize,
    ) -> bool {
        ok ==> match phase {
            DecodePhase::Stale => !self.slots.contains_key(row.slot),
            DecodePhase::Place => room_ok(capacity, row.kv_seq_len + 1),
            DecodePhase::GrowDrain | DecodePhase::Grow => self.slots.contains_key(row.slot) && {
                let s = self.slots[row.slot];
                growth(s.capacity as nat, s.cache_len as nat, 1) is Some && room_ok(
                    s.capacity,
                    s.cache_len + 1,
                )
            },
            _ => self.slots.contains_key(row.slot),
        }
    }
}

impl RealMetalExecutor {
    fn place_decode(&self, row: &DecodeRow, host: &SlotHost) -> (r: DecodeNext)
        ensures
            (self@, r) == self@.decode_place(*row, *host),
    {
        if row.kv_seq_len == 0 {
            return DecodeNext::Fail { error: SubmitError::BeforePrefill { slot: row.slot } };
        }
        DecodeNext::Make {
            phase: DecodePhase::Place,
            call: Call::Materialize {
                prefix_tokens: row.kv_seq_len,
                reservation: max_usize(host.seq_len, plus_saturating(row.kv_seq_len, 512)),
            },
        }
    }

    fn step_decode(&mut self, slot: usize, s: SlotState, phase: DecodePhase) -> (r: DecodeNext)
        requires
            old(self)@.slots.contains_key(slot),
            old(self)@.slots[slot] == s,
        ensures
            (final(self)@, r) == old(self)@.decode_step(slot, phase),
    {
        self.active_session_slot = Some(slot);
        if s.cache_len as u64 > 0x7fff_ffffu64 {
            return DecodeNext::Fail {
                error: SubmitError::PositionTooLarge { slot, position: s.cache_len },
            };
        }
        let read: StepRead = if !self.flags.paged_kv_read || s.cache_len == 0 {
            StepRead::Session
        } else if self.flags.int8 {
            StepRead::PagedInt8
        } else {
            StepRead::PagedBf16
        };
        if self.flags.paged_kv_read && s.cache_len == 0 {
            self.hits.paged_fallbacks = ticked(self.hits.paged_fallbacks);
        }
        DecodeNext::Make {
            phase,
            call: Call::Step {
                read,
                position: s.cache_len,
                emit_query: self.flags.kv_recall && !self.flags.int8,
            },
        }
    }

    fn begin_decode(&mut self, slot: usize, s: SlotState) -> (r: DecodeNext)
        requires
            old(self)@.slots.contains_key(slot),
            old(self)@.slots[slot] == s,
        ensures
            (final(self)@, r) == old(self)@.decode_begin(slot),
    {
        if s.session_active {
            self.step_decode(slot, s, DecodePhase::Step)
        } else {
            DecodeNext::Make { phase: DecodePhase::Begin, call: Call::BeginSession }
        }
    }

    fn open_decode(&mut self, row: &DecodeRow, s: SlotState) -> (r: DecodeNext)
        requires
            old(self)@.slots.contains_key(row.slot),
            old(self)@.slots[row.slot] == s,
            s.cache_len == row.kv_seq_len ==> room_ok(s.capacity, row.kv_seq_len + 1),
        ensures
            (final(self)@, r) == old(self)@.decode_open(*row),
    {
        if row.kv_seq_len != s.committed_len || s.committed_len != s.cache_len {
            return DecodeNext::Fail {
                error: SubmitError::LengthMismatch {
                    slot: row.slot,
                    plan: row.kv_seq_len,
                    committed: s.committed_len,
                    state: s.cache_len,
                },
            };
        }
        match ensure_kv_capacity(s.capacity, s.cache_len, 1) {
            None => self.begin_decode(row.slot, s),
            Some(to) => if s.session_active {
                DecodeNext::Make { phase: DecodePhase::GrowDrain, call: Call::DrainSession }
            } else {
                DecodeNext::Make { phase: DecodePhase::Grow, call: Call::Grow { to } }
            },
        }
    }

    /// Starts to decode a row: the fast path where the row's step was queued
    /// ahead, a step of its own otherwise.
    pub fn submit_decode(&mut self, row: &DecodeRow, host: &SlotHost) -> (r: DecodeNext)
        requires
            old(self)@.step_opens(*row, *host) ==> room_ok(
                old(self)@.slots[row.slot].capacity,
                row.kv_seq_len + 1,
            ),
        ensures
            (final(self)@, r) == old(self)@.decode_start(*row, *host),
    {
        if self.flags.pipeline && row.raw_argmax && self.pending_matches_live_slot(
            row,
            host.epoch,
        ) {
            match self.slot_state(row.slot) {
                Some(s) => {
                    let ghost v = self@;
                    let mut next: SlotState = s;
                    next.committed_len = s.cache_len;
                    self.put(row.slot, next);
                    self.hits.fast_path = ticked(self.hits.fast_path);
                    self.pending = None;
                },
                None => {},
            }
            return DecodeNext::Make {
                phase: DecodePhase::FastDrain,
                call: Call::DrainSession,
            };
        }
        if self.pending == Some(row.slot) {
            self.pending = None;
        }
        match self.ensure_no_other_active_session(row.slot) {
            Some(error) => {
                return DecodeNext::Fail { error };
            },
            None => {},
        }
        match self.reset_slot_if_epoch_changed(row.slot, host.epoch) {
            ResetStep::Drain => {
                return DecodeNext::Make { phase: DecodePhase::Stale, call: Call::DrainStale };
            },
            ResetStep::Done => {},
        }
        match self.slot_state(row.slot) {
            None => self.place_decode(row, host),
            Some(s) => self.open_decode(row, s),
        }
    }

    fn done_decode(&self, row: &DecodeRow, s: SlotState, fast: bool) -> (r: DecodeNext)
        requires
            self@.slots.contains_key(row.slot),
            self@.slots[row.slot] == s,
        ensures
            r == self@.decode_done(*row, fast),
    {
        if fast {
            DecodeNext::Queued
        } else {
            DecodeNext::Stepped { position: s.committed_len as u64 }
        }
    }

    /// Queues the next step of a greedy run where the cache has room.
    fn prequeue_decode(&mut self, row: &DecodeRow, s: SlotState, fast: bool) -> (r: DecodeNext)
        requires
            old(self)@.slots.contains_key(row.slot),
            old(self)@.slots[row.slot] == s,
        ensures
            (final(self)@, r) == old(self)@.decode_ahead(*row, fast),
    {
        if !fast && !(self.flags.pipeline && row.raw_argmax) {
            return self.done_decode(row, s, fast);
        }
        let mut t: SlotState = s;
        if !fast {
            t.last_sampled = true;
            self.put(row.slot, t);
        }
        if !t.last_sampled || (t.capacity != 0 && t.cache_len >= t.capacity) {
            return self.done_decode(row, t, fast);
        }
        if t.session_active {
            self.step_decode(row.slot, t, DecodePhase::AheadStep { fast })
        } else {
            DecodeNext::Make {
                phase: DecodePhase::AheadBegin { fast },
                call: Call::BeginSession,
            }
        }
    }

    fn recall_decode(&mut self, row: &DecodeRow, s: SlotState, fast: bool) -> (r: DecodeNext)
        requires
            old(self)@.slots.contains_key(row.slot),
            old(self)@.slots[row.slot] == s,
        ensures
            (final(self)@, r) == old(self)@.decode_recall(*row, fast),
    {
        if self.flags.kv_recall && !self.flags.int8 {
            DecodeNext::Make {
                phase: DecodePhase::Recall { fast },
                call: Call::RecomputeRecall,
            }
        } else {
            self.prequeue_decode(row, s, fast)
        }
    }

    fn count_step(&mut self, s: SlotState, slot: usize)
        requires
            old(self)@.slots.contains_key(slot),
            old(self)@.slots[slot] == s,
        ensures
            final(self)@ == old(self)@.stepped(slot),
    {
        if self.flags.paged_kv_read && s.cache_len != 0 {
            self.hits.paged_hits = ticked(self.hits.paged_hits);
        }
    }

    /// Goes on with a decode after a call.
    #[verifier::rlimit(60)]
    pub fn continue_decode(
        &mut self,
        row: &DecodeRow,
        host: &SlotHost,
        phase: DecodePhase,
        ok: bool,
        capacity: usize,
    ) -> (r: DecodeNext)
        requires
            old(self)@.decode_can_go_on(*row, phase, ok, capacity),
        ensures
            (final(self)@, r) == old(self)@.decode_next(*row, *host, phase, ok, capacity),
    {
        if !ok {
            return DecodeNext::Fail { error: SubmitError::Outside };
        }
        if phase == DecodePhase::Stale {
            self.finish_reset(row.slot);
            return self.place_decode(row, host);
        }
        if phase == DecodePhase::Place {
            let s = SlotState {
                slot_epoch: host.epoch,
                cache_len: row.kv_seq_len,
                committed_len: row.kv_seq_len,
                capacity,
                session_active: false,
                last_sampled: false,
                has_hidden: false,
                has_draft: false,
            };
            self.put(row.slot, s);
            return self.open_decode(row, s);
        }
        let s: SlotState = match self.slot_state(row.slot) {
            Some(s) => s,
            None => {
                assert(false);
                return DecodeNext::Fail { error: SubmitError::Outside };
            },
        };
        match phase {
            DecodePhase::Stale | DecodePhase::Place => {
                assert(false);
                DecodeNext::Fail { error: SubmitError::Outside }
            },
            DecodePhase::FastDrain => {
                let mut next: SlotState = s;
                next.session_active = false;
                self.put(row.slot, next);
                self.active_session_slot = None;
                self.recall_decode(row, next, true)
            },
            DecodePhase::GrowDrain => {
                let to: usize = match ensure_kv_capacity(s.capacity, s.cache_len, 1) {
                    Some(to) => to,
                    None => 0,
                };
                let mut next: SlotState = s;
                next.session_active = false;
                self.put(row.slot, next);
                DecodeNext::Make { phase: DecodePhase::Grow, call: Call::Grow { to } }
            },
            DecodePhase::Grow => {
                let to: usize = match ensure_kv_capacity(s.capacity, s.cache_len, 1) {
                    Some(to) => to,
                    None => 0,
                };
                let mut next: SlotState = s;
                next.capacity = to;
                self.put(row.slot, next);
                self.begin_decode(row.slot, next)
            },
            DecodePhase::Begin => {
                let mut next: SlotState = s;
                next.session_active = true;
                self.put(row.slot, next);
                self.step_decode(row.slot, next, DecodePhase::Step)
            },
            DecodePhase::Step => {
                self.count_step(s, row.slot);
                let mut next: SlotState = s;
                next.cache_len = plus_saturating(s.cache_len, 1);
                next.committed_len = next.cache_len;
                self.put(row.slot, next);
                DecodeNext::Make { phase: DecodePhase::Drain, call: Call::DrainSession }
            },
            DecodePhase::Drain => {
                let mut next: SlotState = s;
                next.session_active = false;
                self.put(row.slot, next);
                self.active_session_slot = None;
                self.recall_decode(row, next, false)
            },
            DecodePhase::Recall { fast } => self.prequeue_decode(row, s, fast),
            DecodePhase::AheadBegin { fast } => {
                let mut next: SlotState = s;
                next.session_active = true;
                self.put(row.slot, next);
                self.step_decode(row.slot, next, DecodePhase::AheadStep { fast })
            },
            DecodePhase::AheadStep { fast } => {
                self.count_step(s, row.slot);
                let mut next: SlotState = s;
                next.cache_len = plus_saturating(s.cache_len, 1);
                next.last_sampled = true;
                self.put(row.slot, next);
                self.pending = Some(row.slot);
                self.done_decode(row, next, fast)
            },
        }
    }
}

/// Where a decode walk stands, as for a prefill.
pub open spec fn decode_holds(v: ExecView, slot: usize, next: DecodeNext) -> bool {
    v.one_session() && match next {
        DecodeNext::Make { phase, .. } => match phase {
            DecodePhase::Stale
            | DecodePhase::Place
            | DecodePhase::GrowDrain
            | DecodePhase::Grow
            | DecodePhase::Begin
            | DecodePhase::Recall { .. }
            | DecodePhase::AheadBegin { .. } => v.other_session(slot) is None,
            DecodePhase::FastDrain
            | DecodePhase::Step
            | DecodePhase::Drain
            | DecodePhase::AheadStep { .. } => v.active == Some(slot),
        },
        _ => true,
    }
}

proof fn lemma_activate(v: ExecView, slot: usize)
    requires
        v.one_session(),
        v.other_session(slot) is None,
    ensures
        (ExecView { active: Some(slot), ..v }).one_session(),
{
    let w = ExecView { active: Some(slot), ..v };
    assert forall|k: usize| #[trigger]
        w.slots.contains_key(k) && w.slots[k].session_active implies w.active == Some(k) by {
        assert(v.slots.contains_key(k));
    }
}

proof fn lemma_step_holds(v: ExecView, slot: usize, phase: DecodePhase)
    requires
        (ExecView { active: Some(slot), ..v }).one_session(),
        phase == DecodePhase::Step || phase is AheadStep,
    ensures
        decode_holds(v.decode_step(slot, phase).0, slot, v.decode_step(slot, phase).1),
{
    let w = ExecView { active: Some(slot), ..v };
    let r = v.decode_step(slot, phase).0;
    assert(r.slots == w.slots && r.active == w.active);
    assert forall|k: usize| #[trigger]
        r.slots.contains_key(k) && r.slots[k].session_active implies r.active == Some(k) by {
        assert(w.slots.contains_key(k));
    }
}

proof fn lemma_begin_holds(v: ExecView, slot: usize)
    requires
        v.one_session(),
        v.other_session(slot) is None,
        v.slots.contains_key(slot),
    ensures
        decode_holds(v.decode_begin(slot).0, slot, v.decode_begin(slot).1),
{
    lemma_activate(v, slot);
    lemma_step_holds(v, slot, DecodePhase::Step);
}

proof fn lemma_open_holds(v: ExecView, row: DecodeRow)
    requires
        v.one_session(),
        v.other_session(row.slot) is None,
        v.slots.contains_key(row.slot),
    ensures
        decode_holds(v.decode_open(row).0, row.slot, v.decode_open(row).1),
{
    lemma_begin_holds(v, row.slot);
}

proof fn lemma_ahead_holds(v: ExecView, row: DecodeRow, fast: bool)
    requires
        v.one_session(),
        v.other_session(row.slot) is None,
        v.slots.contains_key(row.slot),
    ensures
        decode_holds(v.decode_ahead(row, fast).0, row.slot, v.decode_ahead(row, fast).1),
        decode_holds(v.decode_recall(row, fast).0, row.slot, v.decode_recall(row, fast).1),
{
    let s = v.slots[row.slot];
    let w = if fast {
        v
    } else {
        v.with(row.slot, SlotState { last_sampled: true, ..s })
    };
    if !fast {
        if s.session_active {
            assert(v.active == Some(row.slot));
        }
        lemma_with_keeps(v, row.slot, SlotState { last_sampled: true, ..s });
    }
    lemma_activate(w, row.slot);
    lemma_step_holds(w, row.slot, DecodePhase::AheadStep { fast });
}

/// The slot's session is closed and no session is left open.
proof fn lemma_drained(v: ExecView, slot: usize)
    requires
        v.one_session(),
        v.active == Some(slot),
    ensures
        (ExecView {
            active: None,
            ..v.with(slot, SlotState { session_active: false, ..v.slots[slot] })
        }).one_session(),
{
    let w = ExecView {
        active: None,
        ..v.with(slot, SlotState { session_active: false, ..v.slots[slot] })
    };
    assert forall|k: usize| #[trigger]
        w.slots.contains_key(k) && w.slots[k].session_active implies w.active == Some(k) by {
        if k != slot {
            assert(v.slots.contains_key(k));
        }
    }
}

/// A decode starts only where no other session is open, and keeps at most one
/// open.
pub proof fn decode_start_holds_one_session(v: ExecView, row: DecodeRow, host: SlotHost)
    requires
        v.one_session(),
    ensures
        decode_holds(v.decode_start(row, host).0, row.slot, v.decode_start(row, host).1),
{
    if v.flags.pipeline && row.raw_argmax && v.pending_matches(row, host.epoch) {
        let s = v.slots[row.slot];
        assert(v.slots.contains_key(row.slot) && s.session_active);
        lemma_with_keeps(v, row.slot, SlotState { committed_len: s.cache_len, ..s });
        let w = v.with(row.slot, SlotState { committed_len: s.cache_len, ..s });
        let r = v.decode_start(row, host).0;
        assert(r.slots == w.slots && r.active == w.active);
        assert forall|k: usize| #[trigger]
            r.slots.contains_key(k) && r.slots[k].session_active implies r.active == Some(k) by {
            assert(w.slots.contains_key(k));
        }
    } else {
        let w = ExecView {
            pending: if v.pending == Some(row.slot) {
                None
            } else {
                v.pending
            },
            ..v
        };
        assert forall|k: usize| #[trigger]
            w.slots.contains_key(k) && w.slots[k].session_active implies w.active == Some(k) by {
            assert(v.slots.contains_key(k));
        }
        reset_keeps_one_session(w, row.slot);
        if w.other_session(row.slot) is None && !w.stale(row.slot, host.epoch)
            && w.slots.contains_key(row.slot) {
            lemma_open_holds(w, row);
        }
    }
}

/// Every step of a decode, whatever its call answered, keeps at most one
/// session open.
pub proof fn decode_step_holds_one_session(
    v: ExecView,
    row: DecodeRow,
    host: SlotHost,
    phase: DecodePhase,
    call: Call,
    ok: bool,
    capacity: usize,
)
    requires
        decode_holds(v, row.slot, DecodeNext::Make { phase, call }),
        v.decode_can_go_on(row, phase, ok, capacity),
    ensures
        decode_holds(
            v.decode_next(row, host, phase, ok, capacity).0,
            row.slot,
            v.decode_next(row, host, phase, ok, capacity).1,
        ),
{
    let slot = row.slot;
    let s = v.slots[slot];
    if ok {
        match phase {
            DecodePhase::FastDrain => {
                lemma_drained(v, slot);
                let w = ExecView {
                    active: None,
                    ..v.with(slot, SlotState { session_active: false, ..s })
                };
                lemma_ahead_holds(w, row, true);
            },
            DecodePhase::Stale => {
                reset_keeps_one_session(v, slot);
            },
            DecodePhase::Place => {
                let f = fresh_slot(host.epoch, row.kv_seq_len, capacity);
                lemma_with_keeps(v, slot, f);
                lemma_open_holds(v.with(slot, f), row);
            },
            DecodePhase::GrowDrain => {
                lemma_with_keeps(v, slot, SlotState { session_active: false, ..s });
            },
            DecodePhase::Grow => {
                let n = SlotState {
                    capacity: growth(s.capacity as nat, s.cache_len as nat, 1)->0 as usize,
                    ..s
                };
                if s.session_active {
                    assert(v.slots.contains_key(slot));
                }
                lemma_with_keeps(v, slot, n);
                lemma_begin_holds(v.with(slot, n), slot);
            },
            DecodePhase::Begin => {
                let n = SlotState { session_active: true, ..s };
                lemma_activate(v, slot);
                let w = ExecView { active: Some(slot), ..v };
                lemma_with_keeps(w, slot, n);
                assert(w.with(slot, n) =~= (ExecView { active: Some(slot), ..v.with(slot, n) }));
                lemma_step_holds(v.with(slot, n), slot, DecodePhase::Step);
            },
            DecodePhase::AheadBegin { fast } => {
                let n = SlotState { session_active: true, ..s };
                lemma_activate(v, slot);
                let w = ExecView { active: Some(slot), ..v };
                lemma_with_keeps(w, slot, n);
                assert(w.with(slot, n) =~= (ExecView { active: Some(slot), ..v.with(slot, n) }));
                lemma_step_holds(v.with(slot, n), slot, DecodePhase::AheadStep { fast });
            },
            DecodePhase::Step | DecodePhase::AheadStep { .. } => {
                let r = v.decode_next(row, host, phase, ok, capacity).0;
                lemma_with_keeps(v, slot, r.slots[slot]);
                let w = v.with(slot, r.slots[slot]);
                assert(r.slots =~= w.slots && r.active == w.active);
                assert forall|k: usize| #[trigger]
                    r.slots.contains_key(k) && r.slots[k].session_active implies r.active == Some(
                    k,
                ) by {
                    assert(w.slots.contains_key(k));
                }
            },
            DecodePhase::Drain => {
                lemma_drained(v, slot);
                let w = ExecView {
                    active: None,
                    ..v.with(slot, SlotState { session_active: false, ..s })
                };
                lemma_ahead_holds(w, row, false);
            },
            DecodePhase::Recall { fast } => {
                lemma_ahead_holds(v, row, fast);
            },
        }
    }
}

/// A step queued ahead is found again: once it is issued, the slot matches a
/// row for the committed length under the same epoch.
pub proof fn queued_step_is_found_again(
    v: ExecView,
    row: DecodeRow,
    host: SlotHost,
    fast: bool,
    next: DecodeRow,
)
    requires
        v.slots.contains_key(row.slot),
        v.slots[row.slot].session_active,
        v.slots[row.slot].cache_len == v.slots[row.slot].committed_len,
        v.slots[row.slot].cache_len < usize::MAX,
        next.slot == row.slot,
        next.kv_seq_len == v.slots[row.slot].committed_len,
    ensures
        v.decode_next(row, host, DecodePhase::AheadStep { fast }, true, 0).0.pending_matches(
            next,
            v.slots[row.slot].slot_epoch,
        ),
{
}

/// Whether a call has to do with recall.
pub open spec fn asks_recall(next: DecodeNext) -> bool {
    match next {
        DecodeNext::Make { call: Call::RecomputeRecall, .. } => true,
        DecodeNext::Make { call: Call::Step { emit_query, .. }, .. } => emit_query,
        _ => false,
    }
}

/// Whether a call belongs to a step that is queued ahead.
pub open spec fn runs_ahead(next: DecodeNext) -> bool {
    match next {
        DecodeNext::Make { phase: DecodePhase::FastDrain, .. } => true,
        DecodeNext::Make { phase: DecodePhase::Recall { fast }, .. } => fast,
        DecodeNext::Make { phase: DecodePhase::AheadBegin { .. }, .. } => true,
        DecodeNext::Make { phase: DecodePhase::AheadStep { .. }, .. } => true,
        DecodeNext::Queued => true,
        _ => false,
    }
}

/// What is switched off leaves no trace: without recall, or with packed keys
/// and values, no call asks for it, and without pipelining no step is queued
/// ahead.
pub proof fn switched_off_paths_stay_off(
    v: ExecView,
    row: DecodeRow,
    host: SlotHost,
    phase: DecodePhase,
    call: Call,
    ok: bool,
    capacity: usize,
)
    ensures
        !v.flags.kv_recall || v.flags.int8 ==> !asks_recall(v.decode_start(row, host).1)
            && !asks_recall(v.decode_next(row, host, phase, ok, capacity).1),
        !v.flags.pipeline ==> !runs_ahead(v.decode_start(row, host).1) && (!runs_ahead(
            DecodeNext::Make { phase, call },
        ) ==> !runs_ahead(v.decode_next(row, host, phase, ok, capacity).1)),
        !v.flags.pipeline && !runs_ahead(DecodeNext::Make { phase, call }) ==> (v.decode_next(
            row,
            host,
            phase,
            ok,
            capacity,
        ).0.pending matches Some(p) ==> v.pending == Some(p)),
{
}

/// With a speculative runtime every decode goes through it: no step falls
/// back on the target alone.
pub proof fn drafting_never_falls_back(prefill: nat, decode: nat)
    requires
        decode > 0,
    ensures
        route(prefill, decode, true) == Ok::<RowRoute, SubmitError>(RowRoute::DflashDecode)
            || route(prefill, decode, true) == Ok::<RowRoute, SubmitError>(RowRoute::DflashMixed),
{
}

// ---- rows beside each other ----

pub open spec fn prefill_row_fault(rows: Seq<PrefillRow>, i: int) -> Option<SubmitError> {
    let slot = rows[i].slot;
    if exists|j: int| 0 <= j < i && (#[trigger] rows[j]).slot == slot {
        Some(SubmitError::DuplicateSlot { slot })
    } else if rows[i].tokens@.len() == 0 {
        Some(SubmitError::EmptyRow { slot })
    } else if !rows[i].greedy {
        Some(SubmitError::NotGreedy { slot })
    } else {
        None
    }
}

/// The fault of the first faulty row.
pub open spec fn prefill_rows_fault(rows: Seq<PrefillRow>, n: nat) -> Option<SubmitError>
    decreases n,
{
    if n == 0 {
        None
    } else {
        match prefill_rows_fault(rows, (n - 1) as nat) {
            Some(e) => Some(e),
            None => prefill_row_fault(rows, n - 1),
        }
    }
}

proof fn lemma_rows_stop(rows: Seq<PrefillRow>, k: nat, n: nat)
    requires
        k <= n,
        prefill_rows_fault(rows, k) is Some,
    ensures
        prefill_rows_fault(rows, n) == prefill_rows_fault(rows, k),
    decreases n,
{
    if k < n {
        lemma_rows_stop(rows, k, (n - 1) as nat);
    }
}

pub open spec fn decode_row_fault(rows: Seq<DecodeRow>, i: int) -> Option<SubmitError> {
    let slot = rows[i].slot;
    if exists|j: int| 0 <= j < i && (#[trigger] rows[j]).slot == slot {
        Some(SubmitError::DuplicateSlot { slot })
    } else if !rows[i].greedy {
        Some(SubmitError::NotGreedy { slot })
    } else {
        None
    }
}

impl ExecView {
    /// What a live slot lacks for a speculative decode of this row.
    pub open spec fn residency_fault(self, row: DecodeRow) -> Option<SubmitError> {
        let slot = row.slot;
        if !self.slots.contains_key(slot) {
            Some(SubmitError::NotResident { slot })
        } else {
            let s = self.slots[slot];
            if row.kv_seq_len != s.committed_len || s.committed_len != s.cache_len {
                Some(
                    SubmitError::LengthMismatch {
                        slot,
                        plan: row.kv_seq_len,
                        committed: s.committed_len,
                        state: s.cache_len,
                    },
                )
            } else if !s.has_hidden {
                Some(SubmitError::NoHidden { slot })
            } else if !s.has_draft {
                Some(SubmitError::NoDraft { slot })
            } else {
                None
            }
        }
    }

    pub open spec fn residencies_fault(self, rows: Seq<DecodeRow>, n: nat) -> Option<SubmitError>
        decreases n,
    {
        if n == 0 {
            None
        } else {
            match self.residencies_fault(rows, (n - 1) as nat) {
                Some(e) => Some(e),
                None => self.residency_fault(rows[n - 1]),
            }
        }
    }

    /// What bars prompt chunks from being prefilled side by side.
    pub open spec fn prefill_rows_gate(self, rows: Seq<PrefillRow>) -> Option<SubmitError> {
        match self.dflash {
            None => Some(SubmitError::NoRuntime),
            Some(d) => if rows.len() > d.max_rows {
                Some(SubmitError::TooManyRows { got: rows.len() as usize, limit: d.max_rows })
            } else if self.active is Some {
                Some(SubmitError::ActiveSession)
            } else {
                prefill_rows_fault(rows, rows.len())
            },
        }
    }

    /// What bars prompt chunks and decode rows of so many from one step.
    pub open spec fn mixed_gate(self, prefill: nat, decode: nat) -> Option<SubmitError> {
        match self.dflash {
            None => Some(SubmitError::NoRuntime),
            Some(d) => if prefill + decode > d.max_rows {
                Some(
                    SubmitError::TooManyRows {
                        got: (prefill + decode) as usize,
                        limit: d.max_rows,
                    },
                )
            } else {
                None
            },
        }
    }

    /// What bars a speculative decode of so many rows before any is looked at.
    pub open spec fn decode_rows_gate(self, rows: nat) -> Option<SubmitError> {
        match self.dflash {
            None => Some(SubmitError::NoRuntime),
            Some(d) => if rows == 0 {
                Some(SubmitError::Idle)
            } else if rows > d.max_rows {
                Some(SubmitError::TooManyRows { got: rows as usize, limit: d.max_rows })
            } else if self.active is Some {
                Some(SubmitError::ActiveSession)
            } else {
                None
            },
        }
    }
}

proof fn lemma_residencies_stop(v: ExecView, rows: Seq<DecodeRow>, k: nat, n: nat)
    requires
        k <= n,
        v.residencies_fault(rows, k) is Some,
    ensures
        v.residencies_fault(rows, n) == v.residencies_fault(rows, k),
    decreases n,
{
    if k < n {
        lemma_residencies_stop(v, rows, k, (n - 1) as nat);
    }
}

impl RealMetalExecutor {
    /// Whether prompt chunks may be prefilled side by side.
    pub fn preflight_dflash_prefill_rows(&self, rows: &[PrefillRow]) -> (r: Result<(), SubmitError>)
        ensures
            r == match self@.prefill_rows_gate(rows@) {
                Some(e) => Err::<(), SubmitError>(e),
                None => Ok(()),
            },
    {
        let limits: DflashLimits = match self.dflash {
            None => {
                return Err(SubmitError::NoRuntime);
            },
            Some(d) => d,
        };
        if rows.len() > limits.max_rows {
            return Err(SubmitError::TooManyRows { got: rows.len(), limit: limits.max_rows });
        }
        if self.active_session_slot.is_some() {
            return Err(SubmitError::ActiveSession);
        }
        let mut i: usize = 0;
        while i < rows.len()
            invariant
                i <= rows@.len(),
                self@.dflash == Some(limits),
                rows@.len() <= limits.max_rows,
                self@.active is None,
                prefill_rows_fault(rows@, i as nat) is None,
            decreases rows@.len() - i,
        {
            let slot: usize = rows[i].slot;
            let mut j: usize = 0;
            while j < i
                invariant
                    j <= i < rows@.len(),
                    slot == rows@[i as int].slot,
                    self@.dflash == Some(limits),
                    rows@.len() <= limits.max_rows,
                    self@.active is None,
                    prefill_rows_fault(rows@, i as nat) is None,
                    forall|k: int| 0 <= k < j ==> (#[trigger] rows@[k]).slot != slot,
                decreases i - j,
            {
                if rows[j].slot == slot {
                    assert(rows@[j as int].slot == slot);
                    proof {
                        lemma_rows_stop(rows@, (i + 1) as nat, rows@.len());
                    }
                    return Err(SubmitError::DuplicateSlot { slot });
                }
                j = j + 1;
            }
            if rows[i].tokens.len() == 0 {
                proof {
                    lemma_rows_stop(rows@, (i + 1) as nat, rows@.len());
                }
                return Err(SubmitError::EmptyRow { slot });
            }
            if !rows[i].greedy {
                proof {
                    lemma_rows_stop(rows@, (i + 1) as nat, rows@.len());
                }
                return Err(SubmitError::NotGreedy { slot });
            }
            i = i + 1;
        }
        Ok(())
    }

    /// Whether a mixed step of so many rows may run at all.
    pub fn preflight_mixed(&self, prefill: usize, decode: usize) -> (r: Result<(), SubmitError>)
        requires
            prefill + decode <= usize::MAX,
        ensures
            r == match self@.mixed_gate(prefill as nat, decode as nat) {
                Some(e) => Err::<(), SubmitError>(e),
                None => Ok(()),
            },
    {
        match self.dflash {
            None => Err(SubmitError::NoRuntime),
            Some(d) => {
                let rows: usize = prefill + decode;
                if rows > d.max_rows {
                    Err(SubmitError::TooManyRows { got: rows, limit: d.max_rows })
                } else {
                    Ok(())
                }
            },
        }
    }

    /// What bars a speculative decode before any row is looked at.
    pub fn preflight_dflash_decode_rows(&self, rows: &[DecodeRow]) -> (r: Result<(), SubmitError>)
        ensures
            r == match self@.decode_rows_gate(rows@.len()) {
                Some(e) => Err::<(), SubmitError>(e),
                None => Ok(()),
            },
    {
        let limits: DflashLimits = match self.dflash {
            None => {
                return Err(SubmitError::NoRuntime);
            },
            Some(d) => d,
        };
        if rows.len() == 0 {
            return Err(SubmitError::Idle);
        }
        if rows.len() > limits.max_rows {
            return Err(SubmitError::TooManyRows { got: rows.len(), limit: limits.max_rows });
        }
        if self.active_session_slot.is_some() {
            return Err(SubmitError::ActiveSession);
        }
        Ok(())
    }

    /// Admits one row of a speculative decode: its slot is new among the rows
    /// and greedy, and a former occupant of the slot is dropped.
    pub fn admit_decode_row(&mut self, rows: &[DecodeRow], i: usize, epoch: u64) -> (r: Result<
        ResetStep,
        SubmitError,
    >)
        requires
            i < rows@.len(),
        ensures
            match decode_row_fault(rows@, i as int) {
                Some(e) => r == Err::<ResetStep, SubmitError>(e) && final(self)@ == old(self)@,
                None => {
                    let v = old(self)@;
                    let slot = rows@[i as int].slot;
                    if !v.stale(slot, epoch) {
                        r == Ok::<ResetStep, SubmitError>(ResetStep::Done) && final(self)@ == v
                    } else if v.slots[slot].session_active {
                        r == Ok::<ResetStep, SubmitError>(ResetStep::Drain) && final(self)@
                            == v.dropped(slot)
                    } else {
                        r == Ok::<ResetStep, SubmitError>(ResetStep::Done) && final(self)@
                            == v.forgotten(slot)
                    }
                },
            },
    {
        let slot: usize = rows[i].slot;
        let mut j: usize = 0;
        while j < i
            invariant
                j <= i < rows@.len(),
                slot == rows@[i as int].slot,
                self == old(self),
                forall|k: int| 0 <= k < j ==> (#[trigger] rows@[k]).slot != slot,
            decreases i - j,
        {
            if rows[j].slot == slot {
                assert(rows@[j as int].slot == slot);
                return Err(SubmitError::DuplicateSlot { slot });
            }
            j = j + 1;
        }
        if !rows[i].greedy {
            return Err(SubmitError::NotGreedy { slot });
        }
        Ok(self.reset_slot_if_epoch_changed(slot, epoch))
    }

    /// Whether every row's slot is resident with what a speculative decode
    /// needs.
    pub fn check_decode_residency(&self, rows: &[DecodeRow]) -> (r: Result<(), SubmitError>)
        ensures
            r == match self@.residencies_fault(rows@, rows@.len()) {
                Some(e) => Err::<(), SubmitError>(e),
                None => Ok(()),
            },
    {
        let mut i: usize = 0;
        while i < rows.len()
            invariant
                i <= rows@.len(),
                self@.residencies_fault(rows@, i as nat) is None,
            decreases rows@.len() - i,
        {
            let row: DecodeRow = rows[i];
            let slot: usize = row.slot;
            let fault: Option<SubmitError> = match self.slot_state(slot) {
                None => Some(SubmitError::NotResident { slot }),
                Some(s) => if row.kv_seq_len != s.committed_len || s.committed_len != s.cache_len {
                    Some(
                        SubmitError::LengthMismatch {
                            slot,
                            plan: row.kv_seq_len,
                            committed: s.committed_len,
                            state: s.cache_len,
                        },
                    )
                } else if !s.has_hidden {
                    Some(SubmitError::NoHidden { slot })
                } else if !s.has_draft {
                    Some(SubmitError::NoDraft { slot })
                } else {
                    None
                },
            };
            assert(fault == self@.residency_fault(rows@[i as int]));
            match fault {
                Some(e) => {
                    proof {
                        lemma_residencies_stop(self@, rows@, (i + 1) as nat, rows@.len());
                    }
                    return Err(e);
                },
                None => {},
            }
            i = i + 1;
        }
        Ok(())
    }

    /// A speculative block of a row is verified: the slot's lengths agree on
    /// the new end.
    pub fn finish_dflash_row(&mut self, slot: usize, cache_len: usize) -> (r: Result<
        (),
        SubmitError,
    >)
        ensures
            old(self)@.slots.contains_key(slot) ==> r is Ok && final(self)@
                == old(self)@.block_done(slot, cache_len),
            !old(self)@.slots.contains_key(slot) ==> r == Err::<(), SubmitError>(
                SubmitError::NotResident { slot },
            ) && final(self)@ == old(self)@,
    {
        match self.slot_state(slot) {
            None => Err(SubmitError::NotResident { slot }),
            Some(s) => {
                let mut next: SlotState = s;
                next.cache_len = cache_len;
                next.committed_len = cache_len;
                next.last_sampled = false;
                next.has_hidden = true;
                self.put(slot, next);
                self.active_session_slot = None;
                Ok(())
            },
        }
    }

    /// A speculative decode forgets a step queued ahead.
    pub fn drop_pending(&mut self)
        ensures
            final(self)@ == (ExecView { pending: None, ..old(self)@ }),
    {
        self.pending = None;
    }
}

// ---- the order of a drafted step ----

/// One piece of a step that goes through the speculative runtime; `row`
/// counts among the rows of its kind.
#[derive(Debug, Clone, Copy, PartialEq, Eq, Structural)]
pub enum DflashWork {
    /// Admit a decode row, dropping a former occupant of its slot.
    Admit { row: usize },
    /// Look whether every decode row's slot is resident.
    Residency,
    /// Make room for a block and close the slot's session.
    Ready { row: usize },
    /// Draft and verify a block.
    Block { row: usize },
    /// Prefill a prompt chunk.
    Prefill { row: usize },
}

/// The work of a step: all decode rows are admitted, found resident and
/// readied before the first block, and prompts wait for the blocks.
pub open spec fn dflash_work(prefill: nat, decode: nat) -> Seq<DflashWork> {
    let prompts = Seq::new(prefill, |i: int| DflashWork::Prefill { row: i as usize });
    if decode == 0 {
        prompts
    } else {
        Seq::new(decode, |i: int| DflashWork::Admit { row: i as usize }) + seq![
            DflashWork::Residency,
        ] + Seq::new(decode, |i: int| DflashWork::Ready { row: i as usize }) + Seq::new(
            decode,
            |i: int| DflashWork::Block { row: i as usize },
        ) + prompts
    }
}

/// When a kind of work is due in a step.
pub open spec fn work_rank(w: DflashWork) -> nat {
    match w {
        DflashWork::Admit { .. } => 0,
        DflashWork::Residency => 1,
        DflashWork::Ready { .. } => 2,
        DflashWork::Block { .. } => 3,
        DflashWork::Prefill { .. } => 4,
    }
}

/// No block runs before every row was admitted and readied, and no prompt
/// delays a block.
pub proof fn drafted_work_is_in_order(prefill: nat, decode: nat, i: int, j: int)
    requires
        0 <= i <= j < dflash_work(prefill, decode).len(),
    ensures
        work_rank(dflash_work(prefill, decode)[i]) <= work_rank(dflash_work(prefill, decode)[j]),
{
}

/// Every decode row gets its block, and every prompt chunk its prefill,
/// exactly once.
pub proof fn every_row_is_served_once(prefill: nat, decode: nat, i: int, j: int)
    requires
        prefill <= usize::MAX,
        decode <= usize::MAX,
        0 <= i < dflash_work(prefill, decode).len(),
        0 <= j < dflash_work(prefill, decode).len(),
    ensures
        dflash_work(prefill, decode)[i] == dflash_work(prefill, decode)[j] ==> i == j,
        forall|k: usize|
            k < decode ==> #[trigger] dflash_work(prefill, decode).contains(
                (DflashWork::Block { row: k }),
            ),
        forall|k: usize|
            k < prefill ==> #[trigger] dflash_work(prefill, decode).contains(
                (DflashWork::Prefill { row: k }),
            ),
{
    let w = dflash_work(prefill, decode);
    assert forall|k: usize| k < decode implies #[trigger] w.contains(
        (DflashWork::Block { row: k }),
    ) by {
        assert(w[2 * decode + 1 + k] == DflashWork::Block { row: k });
    }
    assert forall|k: usize| k < prefill implies #[trigger] w.contains(
        (DflashWork::Prefill { row: k }),
    ) by {
        let at = if decode == 0 {
            k as int
        } else {
            3 * decode + 1 + k
        };
        assert(w[at] == DflashWork::Prefill { row: k });
    }
}

fn list_work(prefill: usize, decode: usize) -> (work: Vec<DflashWork>)
    ensures
        work@ == dflash_work(prefill as nat, decode as nat),
{
    let mut work: Vec<DflashWork> = Vec::new();
    let ghost admits = Seq::new(decode as nat, |i: int| DflashWork::Admit { row: i as usize });
    let ghost readies = Seq::new(decode as nat, |i: int| DflashWork::Ready { row: i as usize });
    let ghost blocks = Seq::new(decode as nat, |i: int| DflashWork::Block { row: i as usize });
    let ghost prompts = Seq::new(prefill as nat, |i: int| DflashWork::Prefill { row: i as usize });
    if decode > 0 {
        let mut i: usize = 0;
        while i < decode
            invariant
                i <= decode,
                admits == Seq::new(decode as nat, |i: int| DflashWork::Admit { row: i as usize }),
                work@ == admits.take(i as int),
            decreases decode - i,
        {
            work.push(DflashWork::Admit { row: i });
            i = i + 1;
            assert(work@ =~= admits.take(i as int));
        }
        work.push(DflashWork::Residency);
        let ghost front = admits + seq![DflashWork::Residency];
        assert(work@ =~= front);
        i = 0;
        while i < decode
            invariant
                i <= decode,
                readies == Seq::new(decode as nat, |i: int| DflashWork::Ready { row: i as usize }),
                work@ == front + readies.take(i as int),
            decreases decode - i,
        {
            work.push(DflashWork::Ready { row: i });
            i = i + 1;
            assert(work@ =~= front + readies.take(i as int));
        }
        assert(work@ =~= front + readies);
        i = 0;
        while i < decode
            invariant
                i <= decode,
                blocks == Seq::new(decode as nat, |i: int| DflashWork::Block { row: i as usize }),
                work@ == front + readies + blocks.take(i as int),
            decreases decode - i,
        {
            work.push(DflashWork::Block { row: i });
            i = i + 1;
            assert(work@ =~= front + readies + blocks.take(i as int));
        }
        assert(work@ =~= front + readies + blocks);
    }
    let ghost before = work@;
    let mut k: usize = 0;
    while k < prefill
        invariant
            k <= prefill,
            prompts == Seq::new(prefill as nat, |i: int| DflashWork::Prefill { row: i as usize }),
            work@ == before + prompts.take(k as int),
        decreases prefill - k,
    {
        work.push(DflashWork::Prefill { row: k });
        k = k + 1;
        assert(work@ =~= before + prompts.take(k as int));
    }
    assert(work@ =~= before + prompts);
    assert(work@ =~= dflash_work(prefill as nat, decode as nat));
    work
}

/// The outcome of a step's preflight: its fault, or its work in order.
pub open spec fn work_or_fault(
    r: Result<Vec<DflashWork>, SubmitError>,
    fault: Option<SubmitError>,
    work: Seq<DflashWork>,
) -> bool {
    match r {
        Ok(w) => fault is None && w@ == work,
        Err(e) => fault == Some(e),
    }
}

impl RealMetalExecutor {
    /// The work of a step of prompt chunks.
    pub fn submit_dflash_prefill_rows(&self, rows: &[PrefillRow]) -> (r: Result<
        Vec<DflashWork>,
        SubmitError,
    >)
        ensures
            work_or_fault(r, self@.prefill_rows_gate(rows@), dflash_work(rows@.len(), 0)),
    {
        match self.preflight_dflash_prefill_rows(rows) {
            Err(e) => Err(e),
            Ok(_) => Ok(list_work(rows.len(), 0)),
        }
    }

    /// The work of a step of decode rows; a step queued ahead is forgotten,
    /// also where the rows are refused.
    pub fn submit_dflash_decode_rows(&mut self, rows: &[DecodeRow]) -> (r: Result<
        Vec<DflashWork>,
        SubmitError,
    >)
        ensures
            final(self)@ == (ExecView { pending: None, ..old(self)@ }),
            work_or_fault(r, old(self)@.decode_rows_gate(rows@.len()), dflash_work(0, rows@.len())),
    {
        self.drop_pending();
        match self.preflight_dflash_decode_rows(rows) {
            Err(e) => Err(e),
            Ok(_) => Ok(list_work(0, rows.len())),
        }
    }

    /// The work of a step of both kinds.
    pub fn submit_dflash_mixed_rows(&self, prefill: &[PrefillRow], decode: &[DecodeRow]) -> (r:
        Result<Vec<DflashWork>, SubmitError>)
        requires
            prefill@.len() + decode@.len() <= usize::MAX,
        ensures
            work_or_fault(
                r,
                match self@.mixed_gate(prefill@.len(), decode@.len()) {
                    Some(e) => Some(e),
                    None => match self@.prefill_rows_gate(prefill@) {
                        Some(e) => Some(e),
                        None => self@.decode_rows_gate(decode@.len()),
                    },
                },
                dflash_work(prefill@.len(), decode@.len()),
            ),
    {
        match self.preflight_mixed(prefill.len(), decode.len()) {
            Err(e) => {
                return Err(e);
            },
            Ok(_) => {},
        }
        match self.preflight_dflash_prefill_rows(prefill) {
            Err(e) => {
                return Err(e);
            },
            Ok(_) => {},
        }
        match self.preflight_dflash_decode_rows(decode) {
            Err(e) => Err(e),
            Ok(_) => Ok(list_work(prefill.len(), decode.len())),
        }
    }
}

// ---- readying a row for its block ----

/// The call that was made last for a row.
#[derive(Debug, Clone, Copy, PartialEq, Eq, Structural)]
pub enum ReadyPhase {
    GrowDrain,
    Grow,
    Drain,
}

#[derive(Debug, Clone, Copy, PartialEq, Eq, Structural)]
pub enum ReadyNext {
    Make { phase: ReadyPhase, call: Call },
    Done,
    Fail { error: SubmitError },
}

impl ExecView {
    /// The capacity that a slot must grow to before a block, if it must.
    pub open spec fn block_growth(self, slot: usize) -> Option<nat> {
        let s = self.slots[slot];
        growth(s.capacity as nat, s.cache_len as nat, self.dflash->0.block_size as nat)
    }

    /// A slot's cache can be brought to hold a block.
    pub open spec fn block_fits(self, slot: usize) -> bool {
        self.dflash matches Some(d) ==> self.slots.contains_key(slot) ==> room_ok(
            self.slots[slot].capacity,
            self.slots[slot].cache_len + d.block_size,
        )
    }

    pub open spec fn ready_close(self, slot: usize) -> ReadyNext {
        if self.slots[slot].session_active {
            ReadyNext::Make { phase: ReadyPhase::Drain, call: Call::DrainSession }
        } else {
            ReadyNext::Done
        }
    }

    pub open spec fn ready_start(self, slot: usize) -> ReadyNext {
        if self.dflash is None {
            ReadyNext::Fail { error: SubmitError::NoRuntime }
        } else if !self.slots.contains_key(slot) {
            ReadyNext::Fail { error: SubmitError::NotResident { slot } }
        } else {
            match self.block_growth(slot) {
                None => self.ready_close(slot),
                Some(to) => if self.slots[slot].session_active {
                    ReadyNext::Make { phase: ReadyPhase::GrowDrain, call: Call::DrainSession }
                } else {
                    ReadyNext::Make { phase: ReadyPhase::Grow, call: Call::Grow { to: to as usize } }
                },
            }
        }
    }

    pub open spec fn ready_next(self, slot: usize, phase: ReadyPhase, ok: bool) -> (
        ExecView,
        ReadyNext,
    ) {
        let s = self.slots[slot];
        if !ok {
            (self, ReadyNext::Fail { error: SubmitError::Outside })
        } else {
            match phase {
                ReadyPhase::GrowDrain => (
                    self.with(slot, SlotState { session_active: false, ..s }),
                    ReadyNext::Make {
                        phase: ReadyPhase::Grow,
                        call: Call::Grow { to: self.block_growth(slot)->0 as usize },
                    },
                ),
                ReadyPhase::Grow => {
                    let grown = self.with(
                        slot,
                        SlotState { capacity: self.block_growth(slot)->0 as usize, ..s },
                    );
                    (grown, grown.ready_close(slot))
                },
                ReadyPhase::Drain => (
                    self.with(slot, SlotState { session_active: false, ..s }),
                    ReadyNext::Done,
                ),
            }
        }
    }

    /// A walk that made this call can take its answer.
    pub open spec fn ready_can_go_on(self, slot: usize, phase: ReadyPhase, ok: bool) -> bool {
        ok ==> {
            &&& self.slots.contains_key(slot)
            &&& phase != ReadyPhase::Drain ==> self.dflash is Some && self.block_growth(
                slot,
            ) is Some && self.block_fits(slot)
        }
    }

    /// A row whose block was verified up to a new end.
    pub open spec fn block_done(self, slot: usize, cache_len: usize) -> ExecView {
        ExecView {
            active: None,
            ..self.with(
                slot,
                SlotState {
                    cache_len,
                    committed_len: cache_len,
                    last_sampled: false,
                    has_hidden: true,
                    ..self.slots[slot]
                },
            )
        }
    }

    /// The position that a row's block starts from, or what the row lacks.
    pub open spec fn block_start(self, slot: usize) -> Result<usize, SubmitError> {
        match self.block_fault(slot) {
            Some(e) => Err(e),
            None => Ok(self.slots[slot].cache_len),
        }
    }

    /// What a row lacks for its block.
    pub open spec fn block_fault(self, slot: usize) -> Option<SubmitError> {
        if self.dflash is None {
            Some(SubmitError::NoRuntime)
        } else if !self.slots.contains_key(slot) {
            Some(SubmitError::NotResident { slot })
        } else if !self.slots[slot].has_hidden {
            Some(SubmitError::NoHidden { slot })
        } else if !self.slots[slot].has_draft {
            Some(SubmitError::NoDraft { slot })
        } else {
            None
        }
    }
}

impl RealMetalExecutor {
    /// Starts to ready a row's slot: room for a block, and no open session.
    pub fn ready_dflash_row(&self, slot: usize) -> (r: ReadyNext)
        requires
            self@.block_fits(slot),
        ensures
            r == self@.ready_start(slot),
    {
        let block: usize = match self.dflash {
            None => {
                return ReadyNext::Fail { error: SubmitError::NoRuntime };
            },
            Some(d) => d.block_size,
        };
        match self.slot_state(slot) {
            None => ReadyNext::Fail { error: SubmitError::NotResident { slot } },
            Some(s) => match ensure_kv_capacity(s.capacity, s.cache_len, block) {
                None => if s.session_active {
                    ReadyNext::Make { phase: ReadyPhase::Drain, call: Call::DrainSession }
                } else {
                    ReadyNext::Done
                },
                Some(to) => if s.session_active {
                    ReadyNext::Make { phase: ReadyPhase::GrowDrain, call: Call::DrainSession }
                } else {
                    ReadyNext::Make { phase: ReadyPhase::Grow, call: Call::Grow { to } }
                },
            },
        }
    }

    /// Takes the answer of the call that was made.
    pub fn continue_ready_row(&mut self, slot: usize, phase: ReadyPhase, ok: bool) -> (r: ReadyNext)
        requires
            old(self)@.ready_can_go_on(slot, phase, ok),
        ensures
            (final(self)@, r) == old(self)@.ready_next(slot, phase, ok),
    {
        if !ok {
            return ReadyNext::Fail { error: SubmitError::Outside };
        }
        let mut s: SlotState = match self.slot_state(slot) {
            None => {
                return ReadyNext::Fail { error: SubmitError::NotResident { slot } };
            },
            Some(s) => s,
        };
        if phase == ReadyPhase::Drain {
            s.session_active = false;
            self.put(slot, s);
            return ReadyNext::Done;
        }
        let block: usize = match self.dflash {
            None => {
                return ReadyNext::Fail { error: SubmitError::NoRuntime };
            },
            Some(d) => d.block_size,
        };
        let to: usize = match ensure_kv_capacity(s.capacity, s.cache_len, block) {
            None => s.capacity,
            Some(to) => to,
        };
        if phase == ReadyPhase::GrowDrain {
            s.session_active = false;
            self.put(slot, s);
            ReadyNext::Make { phase: ReadyPhase::Grow, call: Call::Grow { to } }
        } else {
            s.capacity = to;
            self.put(slot, s);
            if s.session_active {
                ReadyNext::Make { phase: ReadyPhase::Drain, call: Call::DrainSession }
            } else {
                ReadyNext::Done
            }
        }
    }

    /// Opens a row's block: the position that it starts from.
    pub fn open_dflash_row(&self, slot: usize) -> (r: Result<usize, SubmitError>)
        ensures
            r == self@.block_start(slot),
    {
        if self.dflash.is_none() {
            return Err(SubmitError::NoRuntime);
        }
        match self.slot_state(slot) {
            None => Err(SubmitError::NotResident { slot }),
            Some(s) => if !s.has_hidden {
                Err(SubmitError::NoHidden { slot })
            } else if !s.has_draft {
                Err(SubmitError::NoDraft { slot })
            } else {
                Ok(s.cache_len)
            },
        }
    }
}

/// A slot that is ready has room for a whole block and no open session.
pub proof fn ready_slots_have_room(v: ExecView, slot: usize, phase: ReadyPhase)
    requires
        v.block_fits(slot),
    ensures
        v.ready_start(slot) == ReadyNext::Done ==> v.block_growth(slot) is None
            && !v.slots[slot].session_active,
        v.ready_can_go_on(slot, phase, true) && phase == ReadyPhase::Grow ==> v.ready_next(
            slot,
            phase,
            true,
        ).0.block_growth(slot) is None,
        v.ready_can_go_on(slot, phase, true) && v.ready_next(slot, phase, true).1
            == ReadyNext::Done ==> !v.ready_next(slot, phase, true).0.slots[slot].session_active,
{
    if v.ready_can_go_on(slot, phase, true) && phase == ReadyPhase::Grow {
        let s = v.slots[slot];
        crate::metal::slot::growth_makes_room(s.capacity as nat, s.cache_len as nat, v.dflash->0.block_size as nat);
    }
}

/// Readying one row keeps every row resident, and at most one session open.
pub proof fn readied_rows_stay_resident(
    v: ExecView,
    row: DecodeRow,
    slot: usize,
    phase: ReadyPhase,
    ok: bool,
)
    requires
        v.residency_fault(row) is None,
        v.one_session(),
        v.ready_can_go_on(slot, phase, ok),
    ensures
        v.ready_next(slot, phase, ok).0.residency_fault(row) is None,
        v.ready_next(slot, phase, ok).0.one_session(),
{
    if ok {
        let n = v.ready_next(slot, phase, ok).0.slots[slot];
        lemma_with_keeps(v, slot, n);
        assert(v.ready_next(slot, phase, ok).0 =~= v.with(slot, n));
    }
}

/// A resident row can have its block wherever there is a runtime, from the
/// length that the engine committed.
pub proof fn resident_rows_open(v: ExecView, row: DecodeRow)
    requires
        v.residency_fault(row) is None,
        v.dflash is Some,
    ensures
        v.block_fault(row.slot) is None,
        v.slots[row.slot].cache_len == row.kv_seq_len,
{
}

} // verus!
