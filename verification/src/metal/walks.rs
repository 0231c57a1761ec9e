//! How the walk of a prompt chunk or a token starts, goes on and fails.
use vstd::prelude::*;

#[allow(unused_imports)]
use crate::metal::executor::{
    Call, DecodeNext, DecodePhase, DecodeRow, ExecView, PrefillNext, PrefillPhase, PrefillShape,
    SlotHost, SubmitError,
};
#[allow(unused_imports)]
use crate::metal::device::{chunk_stands, token_stands, DeviceSlot};

verus! {

/// Whether a slot of the host's epoch is there.
pub open spec fn resident(v: ExecView, slot: usize, epoch: u64) -> bool {
    v.slots.contains_key(slot) && v.slots[slot].slot_epoch == epoch
}

/// A prompt chunk is refused only where it is empty, where another slot's
/// session is open, or where it does not start at the end of a slot that is
/// there; and it is refused for the first of these.
pub proof fn a_chunk_is_refused_for_a_reason(v: ExecView, row: PrefillShape, host: SlotHost)
    ensures
        ({
            let (w, next) = v.prefill_start(row, host);
            let slot = row.slot;
            let empty = row.len == 0;
            let other = v.active is Some && v.active != Some(slot);
            let elsewhere = resident(v, slot, host.epoch) && v.slots[slot].cache_len
                != row.start_pos;
            &&& next is Fail <==> empty || other || elsewhere
            &&& next matches PrefillNext::Fail { error, clear_capture } ==> w == v
                && !clear_capture && match error {
                SubmitError::EmptyRow { slot: s } => empty && s == slot,
                SubmitError::OtherSession { active } => !empty && other && v.active == Some(active),
                SubmitError::StartMismatch { slot: s, plan, state } => !empty && !other && s == slot
                    && plan == row.start_pos && state == v.slots[slot].cache_len,
                _ => false,
            }
            &&& next is Make && !resident(v, slot, host.epoch) ==> next->phase is Stale
                || next->phase is Place
        }),
{
}

/// A token is refused only where another slot's session is open, where there is
/// neither a slot nor a prefix to build one from, where its length is not that
/// of the slot, or where it lies too far back; and it is refused for the first
/// of these. A token that was queued is taken up without any of them.
pub proof fn a_token_is_refused_for_a_reason(v: ExecView, row: DecodeRow, host: SlotHost)
    requires
        row.kv_seq_len < usize::MAX,
    ensures
        ({
            let (w, next) = v.decode_start(row, host);
            let slot = row.slot;
            let s = v.slots[slot];
            let here = resident(v, slot, host.epoch);
            let queued = here && v.pending == Some(slot) && s.session_active && s.committed_len
                == row.kv_seq_len && s.cache_len == row.kv_seq_len + 1;
            let taken = queued && v.flags.pipeline && row.raw_argmax;
            let other = v.active is Some && v.active != Some(slot);
            let closing = v.slots.contains_key(slot) && !here && s.session_active;
            let nothing = !here && !closing && row.kv_seq_len == 0;
            let elsewhere = here && (s.committed_len != row.kv_seq_len || s.cache_len
                != row.kv_seq_len);
            let far = here && s.session_active && s.cache_len > i32::MAX && (s.capacity == 0
                || s.cache_len < s.capacity);
            &&& (next is Make && next->phase is FastDrain) <==> taken
            &&& next is Fail <==> !taken && (other || nothing || elsewhere || far)
            &&& next matches DecodeNext::Fail { error } ==> match error {
                SubmitError::OtherSession { active } => other && v.active == Some(active),
                SubmitError::BeforePrefill { slot: n } => !other && nothing && n == slot,
                SubmitError::LengthMismatch { slot: n, plan, committed, state } => !other
                    && elsewhere && n == slot && plan == row.kv_seq_len && committed
                    == s.committed_len && state == s.cache_len,
                SubmitError::PositionTooLarge { slot: n, position } => !other && !elsewhere && far
                    && n == slot && position == s.cache_len,
                _ => false,
            }
            &&& !taken && v.pending == Some(slot) ==> w.pending is None
            &&& v.pending != Some(slot) ==> w.pending == v.pending
        }),
{
}

/// Once it has started, a chunk is never refused while its calls go through; a
/// token only where it lies too far back, or where its slot went and there is no
/// prefix to build another from.
pub proof fn walks_go_on_once_started(
    v: ExecView,
    chunk: PrefillShape,
    token: DecodeRow,
    host: SlotHost,
    d: Option<DeviceSlot>,
    phase: PrefillPhase,
    step: DecodePhase,
    call: Call,
    capacity: usize,
)
    ensures
        chunk_stands(v, chunk, d, PrefillNext::Make { phase, call }) ==> !(v.prefill_next(
            chunk,
            host,
            phase,
            true,
            capacity,
        ).1 is Fail),
        token_stands(v, token, d, DecodeNext::Make { phase: step, call }) && v.decode_next(
            token,
            host,
            step,
            true,
            capacity,
        ).1 is Fail ==> token.kv_seq_len + 1 > i32::MAX || (step is Stale && token.kv_seq_len == 0),
{
}

/// Whether hidden rows are being captured behind a call.
pub open spec fn capturing(on: bool, call: Call) -> bool {
    match call {
        Call::SetCapture => true,
        Call::DrainHidden => false,
        _ => on,
    }
}

/// Where a chunk names a call with capturing on or off: on exactly while the
/// chunk of a model with a draft is run and until its rows are taken, and the
/// rows are built of what was taken before the chunk is committed.
pub open spec fn captured_right(v: ExecView, next: PrefillNext, on: bool) -> bool {
    match next {
        PrefillNext::Make { phase, call } => {
            &&& call is Forward ==> on == v.dflash is Some
            &&& call is DrainHidden ==> on
            &&& on ==> call is Forward || call is DrainHidden
            &&& phase is Forward <==> call is Forward
            &&& phase is Hidden <==> call is DrainHidden
            &&& phase is Capture <==> call is SetCapture
            &&& call is SetCapture ==> v.dflash is Some
        },
        PrefillNext::Done { .. } => !on,
        PrefillNext::Fail { clear_capture, .. } => clear_capture == on,
    }
}

/// A chunk starts with nothing captured. Whatever its call brings, capturing is
/// on while the tokens are run exactly where there is a draft, and a call that
/// fails stops it exactly where it is on.
pub proof fn captures_surround_the_chunk(
    v: ExecView,
    row: PrefillShape,
    host: SlotHost,
    phase: PrefillPhase,
    call: Call,
    capacity: usize,
    on: bool,
)
    requires
        captured_right(v, PrefillNext::Make { phase, call }, on),
        phase == PrefillPhase::Place ==> !on,
    ensures
        captured_right(v.prefill_start(row, host).0, v.prefill_start(row, host).1, false),
        ({
            let (w, next) = v.prefill_next(row, host, phase, true, capacity);
            captured_right(w, next, capturing(on, call))
        }),
        ({
            let (w, next) = v.prefill_next(row, host, phase, false, capacity);
            w == v && next is Fail && next->error is Outside && captured_right(w, next, on)
        }),
        ({
            let next = v.prefill_next(row, host, phase, true, capacity).1;
            &&& next is Make && next->phase is Drain && v.dflash is Some ==> phase is BuildHidden
            &&& next is Make && next->phase is BuildHidden ==> phase is Hidden
            &&& next is Done ==> phase is Publish
        }),
{
}

/// After a token that counts, recall is scored exactly where it is on and the
/// cache is not packed, and a call that fails leaves the slots as they are.
pub proof fn recall_is_scored_where_it_is_on(
    v: ExecView,
    row: DecodeRow,
    host: SlotHost,
    phase: DecodePhase,
    capacity: usize,
)
    ensures
        (v.decode_next(row, host, phase, true, capacity).1 is Make && v.decode_next(
            row,
            host,
            phase,
            true,
            capacity,
        ).1->call is RecomputeRecall) <==> (phase is Drain || phase is FastDrain) && v.flags.kv_recall && !v.flags.int8,
        v.decode_next(row, host, phase, false, capacity) == (
            v,
            DecodeNext::Fail { error: SubmitError::Outside },
        ),
{
}

} // verus!
