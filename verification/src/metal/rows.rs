//! Rows beside each other, and what a drafted row leaves.
use vstd::prelude::*;

#[allow(unused_imports)]
use crate::metal::device::{can_be_made, device_after, has_room, others_kept, remembered, DeviceSlot};
#[allow(unused_imports)]
use crate::metal::executor::{
    decode_row_fault, placeholder_out, prefill_rows_fault, route, sampled_by, Call, DecodeNext,
    DecodePhase, DecodeRow, ExecView, ForwardPlan, PrefillRow, ReadyNext, ReadyPhase, RowRoute,
    SampleRoute, SlotHost, SubmitError,
};
#[allow(unused_imports)]
use crate::metal::slot::{growth, growth_makes_room};

verus! {

// ---- routes ----

/// A step is routed by what it holds: nothing is idle, one row of a kind goes
/// alone unless a draft model decodes, and rows beside each other need the
/// draft model; a route of a kind is taken only where there are rows of it.
pub proof fn steps_are_routed_by_their_rows(prefill: nat, decode: nat, drafts: bool)
    requires
        prefill + decode <= usize::MAX,
    ensures
        ({
            let r = route(prefill, decode, drafts);
            &&& r == Err::<RowRoute, SubmitError>(SubmitError::Idle) <==> prefill == 0 && decode
                == 0
            &&& r is Ok <==> prefill + decode == 1 || (drafts && prefill + decode > 0)
            &&& r == Ok::<RowRoute, SubmitError>(RowRoute::Prefill) <==> prefill == 1 && decode == 0
            &&& r == Ok::<RowRoute, SubmitError>(RowRoute::Decode) <==> prefill == 0 && decode == 1
                && !drafts
            &&& r == Ok::<RowRoute, SubmitError>(RowRoute::DflashPrefill) <==> prefill > 1 && decode
                == 0 && drafts
            &&& r == Ok::<RowRoute, SubmitError>(RowRoute::DflashDecode) <==> prefill == 0 && decode
                > 0 && drafts
            &&& r == Ok::<RowRoute, SubmitError>(RowRoute::DflashMixed) <==> prefill > 0 && decode
                > 0 && drafts
        }),
{
}

/// The device takes the largest logit where that was asked for, and where
/// sampling was asked for and the host may not sample, which it then says; in
/// every other case the host samples, with the history where there is one.
pub proof fn sampling_is_downgraded_only_without_a_sampler(
    greedy: bool,
    raw_argmax: bool,
    host_sampling: bool,
    history: bool,
)
    ensures
        match sampled_by(greedy, raw_argmax, host_sampling, history) {
            SampleRoute::Device { downgraded } => {
                &&& raw_argmax || downgraded
                &&& downgraded <==> !greedy && !host_sampling
            },
            SampleRoute::Host { penalized } => {
                &&& !raw_argmax && (greedy || host_sampling)
                &&& penalized == history
            },
        },
{
}

/// Without a device every row gets the successor of its last token, for its own
/// slot, decode rows first.
pub proof fn every_row_gets_a_successor(plan: ForwardPlan)
    ensures
        ({
            let out = placeholder_out(plan);
            let d = plan.decode_rows@.len();
            &&& out.len() == d + plan.prefill_rows@.len()
            &&& forall|i: int|
                0 <= i < d ==> (#[trigger] out[i]).slot == plan.decode_rows@[i].slot && out[i].token
                    == (plan.decode_rows@[i].last_token + 1) % 0x1_0000_0000
            &&& forall|i: int|
                d <= i < out.len() ==> (#[trigger] out[i]).slot == plan.prefill_rows@[i - d].slot
                    && (plan.prefill_rows@[i - d].tokens@.len() > 0 ==> out[i].token == (
                plan.prefill_rows@[i - d].tokens@.last() + 1) % 0x1_0000_0000)
        }),
{
}

/// Every step is counted by how it reads the prefix: one that reads pages when
/// it has gone through, one that was meant to and finds no prefix when it is
/// made, and a row that finds its step queued when it starts; nothing else is
/// counted.
pub proof fn steps_are_counted_by_how_they_read(
    v: ExecView,
    row: DecodeRow,
    host: SlotHost,
    fast: bool,
    capacity: usize,
)
    requires
        v.hits.fast_path < u64::MAX,
        v.hits.paged_hits < u64::MAX,
        v.hits.paged_fallbacks < u64::MAX,
    ensures
        ({
            let slot = row.slot;
            let s = v.slots[slot];
            let pages = v.flags.paged_kv_read && s.cache_len > 0;
            let stepped = v.decode_next(row, host, DecodePhase::Step, true, capacity).0;
            let ahead = v.decode_next(
                row,
                host,
                DecodePhase::AheadStep { fast },
                true,
                capacity,
            ).0;
            let made = v.decode_step(slot, DecodePhase::Step);
            let started = v.decode_start(row, host);
            let one = |b: bool|
                if b {
                    1int
                } else {
                    0
                };
            &&& stepped.hits.paged_hits == v.hits.paged_hits + one(pages)
            &&& ahead.hits.paged_hits == v.hits.paged_hits + one(pages)
            &&& stepped.hits.paged_fallbacks == v.hits.paged_fallbacks
            &&& stepped.hits.fast_path == v.hits.fast_path
            &&& made.0.hits.paged_fallbacks == v.hits.paged_fallbacks + one(
                v.flags.paged_kv_read && s.cache_len == 0,
            )
            &&& made.0.hits.paged_hits == v.hits.paged_hits
            &&& started.0.hits.fast_path == v.hits.fast_path + one(
                started.1 matches DecodeNext::Make { phase: DecodePhase::FastDrain, call },
            )
            &&& started.0.hits.paged_hits == v.hits.paged_hits
        }),
{
}

/// A step is queued ahead only for a row that takes the largest logit, while
/// that is switched on, and always where the slot then has room for it.
pub proof fn only_plain_runs_step_ahead(v: ExecView, row: DecodeRow)
    requires
        v.slots.contains_key(row.slot),
        v.slots[row.slot].cache_len <= i32::MAX,
    ensures
        ({
            let s = v.slots[row.slot];
            v.decode_ahead(row, false).1 is Make <==> v.flags.pipeline && row.raw_argmax && (
            s.capacity == 0 || s.cache_len < s.capacity)
        }),
        v.decode_ahead(row, false).1 is Make ==> v.decode_ahead(
            row,
            false,
        ).0.slots[row.slot].last_sampled,
{
}

// ---- which rows may stand beside each other ----

/// Prompt chunks may stand beside each other exactly where no two are for the
/// same slot, none is empty and all are greedy.
pub proof fn chunks_beside_each_other_are_apart(rows: Seq<PrefillRow>, n: nat)
    requires
        n <= rows.len(),
    ensures
        prefill_rows_fault(rows, n) is None <==> {
            &&& forall|i: int, j: int|
                0 <= i < j < n ==> (#[trigger] rows[i]).slot != (#[trigger] rows[j]).slot
            &&& forall|i: int|
                0 <= i < n ==> (#[trigger] rows[i]).tokens@.len() > 0 && rows[i].greedy
        },
    decreases n,
{
    if n > 0 {
        chunks_beside_each_other_are_apart(rows, (n - 1) as nat);
    }
}

/// Decode rows that are all admitted are for different slots, and greedy.
pub proof fn admitted_rows_are_apart(rows: Seq<DecodeRow>)
    ensures
        (forall|i: int| 0 <= i < rows.len() ==> #[trigger] decode_row_fault(rows, i) is None) <==> {
            &&& forall|i: int, j: int|
                0 <= i < j < rows.len() ==> (#[trigger] rows[i]).slot != (#[trigger] rows[j]).slot
            &&& forall|i: int| 0 <= i < rows.len() ==> (#[trigger] rows[i]).greedy
        },
{
    if forall|i: int| 0 <= i < rows.len() ==> #[trigger] decode_row_fault(rows, i) is None {
        assert forall|i: int, j: int| 0 <= i < j < rows.len() implies (#[trigger] rows[i]).slot != (
        #[trigger] rows[j]).slot by {
            assert(decode_row_fault(rows, j) is None);
        }
        assert forall|i: int| 0 <= i < rows.len() implies (#[trigger] rows[i]).greedy by {
            assert(decode_row_fault(rows, i) is None);
        }
    }
}

/// Rows are found resident exactly where every row's slot is live, holds as many
/// tokens as the row says, all of them committed, and has hidden rows and a
/// draft; the fault is that of the first row that does not.
pub proof fn resident_rows_agree(v: ExecView, rows: Seq<DecodeRow>, n: nat)
    requires
        n <= rows.len(),
    ensures
        v.residencies_fault(rows, n) is None <==> forall|i: int|
            0 <= i < n ==> {
                let row = #[trigger] rows[i];
                let s = v.slots[row.slot];
                &&& v.slots.contains_key(row.slot)
                &&& s.cache_len == row.kv_seq_len && s.committed_len == row.kv_seq_len
                &&& s.has_hidden && s.has_draft
            },
        v.residencies_fault(rows, n) is Some ==> exists|i: int|
            0 <= i < n && v.residency_fault(#[trigger] rows[i]) == v.residencies_fault(rows, n),
    decreases n,
{
    if n > 0 {
        resident_rows_agree(v, rows, (n - 1) as nat);
        if v.residencies_fault(rows, n) is Some {
            if v.residencies_fault(rows, (n - 1) as nat) is None {
                assert(v.residency_fault(rows[n - 1]) == v.residencies_fault(rows, n));
            }
        }
    }
}

/// A drafted step is let in only with a draft model, for no more rows than it
/// takes, and while no single row's session is open.
pub proof fn drafted_steps_are_let_in(v: ExecView, rows: Seq<PrefillRow>, prefill: nat, decode: nat)
    requires
        rows.len() <= usize::MAX,
    ensures
        v.prefill_rows_gate(rows) is None ==> v.dflash is Some && rows.len() <= v.dflash->0.max_rows
            && v.active is None && prefill_rows_fault(rows, rows.len()) is None,
        v.dflash is Some && rows.len() <= v.dflash->0.max_rows && v.active is None
            && prefill_rows_fault(rows, rows.len()) is None ==> v.prefill_rows_gate(rows) is None,
        v.decode_rows_gate(decode) is None <==> v.dflash is Some && 0 < decode
            <= v.dflash->0.max_rows && v.active is None,
        v.mixed_gate(prefill, decode) is None <==> v.dflash is Some && prefill + decode
            <= v.dflash->0.max_rows,
{
}

// ---- a drafted row ----

/// Where a row that is being readied stands: what is remembered is what the
/// runtime holds, and the call can be made; once it is done, a whole block fits
/// behind the tokens in the cache and no session is open.
pub open spec fn row_stands(v: ExecView, slot: usize, d: DeviceSlot, next: ReadyNext) -> bool {
    let block = v.dflash->0.block_size as nat;
    match next {
        ReadyNext::Make { phase, call } => {
            &&& remembered(v, slot, Some(d))
            &&& can_be_made(Some(d), call)
            &&& match phase {
                ReadyPhase::GrowDrain => call is DrainSession && !has_room(d, block),
                ReadyPhase::Grow => call is Grow && !has_room(d, block) && call->to >= d.rows
                    + block && call->to == growth(d.room, d.rows, block)->0,
                ReadyPhase::Drain => call is DrainSession && has_room(d, block),
            }
        },
        ReadyNext::Done => remembered(v, slot, Some(d)) && has_room(d, block) && !d.open,
        ReadyNext::Fail { .. } => remembered(v, slot, Some(d)),
    }
}

/// A live row is readied for its block by calls that the runtime can make.
pub proof fn a_row_starts_to_be_readied(v: ExecView, slot: usize, d: DeviceSlot)
    requires
        remembered(v, slot, Some(d)),
        v.dflash is Some,
        v.block_fits(slot),
        v.dflash->0.block_size > 0,
        d.rows + v.dflash->0.block_size <= usize::MAX,
    ensures
        row_stands(v, slot, d, v.ready_start(slot)),
        !(v.ready_start(slot) is Fail),
{
    let s = v.slots[slot];
    if d.room > 0 && d.rows + v.dflash->0.block_size > d.room {
        growth_makes_room(s.capacity as nat, s.cache_len as nat, v.dflash->0.block_size as nat);
    }
}

/// Readying goes on with calls that the runtime can make, keeps the other slots
/// and the row's own tokens, and ends with room for a block and no session.
pub proof fn a_row_goes_on_being_readied(
    v: ExecView,
    slot: usize,
    d: DeviceSlot,
    phase: ReadyPhase,
    call: Call,
)
    requires
        row_stands(v, slot, d, ReadyNext::Make { phase, call }),
        v.dflash is Some,
        v.block_fits(slot),
        v.dflash->0.block_size > 0,
        d.rows + v.dflash->0.block_size <= usize::MAX,
    ensures
        ({
            let after = device_after(Some(d), call, 0);
            let (w, next) = v.ready_next(slot, phase, true);
            &&& after is Some && after->0.rows == d.rows
            &&& row_stands(w, slot, after->0, next)
            &&& !(next is Fail)
            &&& others_kept(v, w, slot)
            &&& w.dflash == v.dflash && w.active == v.active && w.pending == v.pending
        }),
        v.ready_next(slot, phase, false).0 == v,
        v.ready_next(slot, phase, false).1 is Fail,
{
    let s = v.slots[slot];
    if d.room > 0 && d.rows + v.dflash->0.block_size > d.room {
        growth_makes_room(s.capacity as nat, s.cache_len as nat, v.dflash->0.block_size as nat);
    }
}

/// A block starts where the cache ends, and only on a live slot with hidden rows
/// and a draft; once it is verified up to a new end, the slot can have its next
/// block from there, as can no other length, and the other slots are as they
/// were.
pub proof fn blocks_of_a_row_follow_each_other(
    v: ExecView,
    slot: usize,
    end: usize,
    row: DecodeRow,
)
    requires
        v.slots.contains_key(slot),
        row.slot == slot,
    ensures
        v.block_start(slot) matches Ok(p) ==> p == v.slots[slot].cache_len
            && v.slots[slot].has_hidden && v.slots[slot].has_draft && v.dflash is Some,
        v.block_start(slot) is Ok ==> v.block_done(slot, end).block_start(slot) == Ok::<
            usize,
            SubmitError,
        >(end),
        v.slots[slot].has_draft ==> (v.block_done(slot, end).residency_fault(row) is None
            <==> row.kv_seq_len == end),
        others_kept(v, v.block_done(slot, end), slot),
        v.block_done(slot, end).active is None,
        v.block_done(slot, end).slots[slot].slot_epoch == v.slots[slot].slot_epoch,
        v.block_done(slot, end).slots[slot].capacity == v.slots[slot].capacity,
        v.block_done(slot, end).slots[slot].session_active == v.slots[slot].session_active,
{
}

} // verus!
