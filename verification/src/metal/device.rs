//! What the runtime holds for a slot while a prompt chunk or a token is run.
//!
//! Every call of a walk changes what the runtime holds. The laws here follow a
//! walk call by call: what the executor remembers of its slot is what the
//! runtime holds, and each call it names is one that the runtime can make.
use vstd::prelude::*;

#[allow(unused_imports)]
use crate::metal::executor::{
    decode_reservation, fresh_slot, prefill_reservation, room_ok, Call, DecodeNext, DecodePhase,
    DecodeRow, ExecView, HiddenUpdate, PrefillNext, PrefillPhase, PrefillShape, SlotHost,
    SlotState,
};
#[allow(unused_imports)]
use crate::metal::slot::{growth, growth_makes_room};

verus! {

/// A slot in the runtime: the tokens in its cache, the tokens that its arrays
/// have room for, zero where it has none, and whether its session is open.
#[verifier::ext_equal]
pub struct DeviceSlot {
    pub rows: nat,
    pub room: nat,
    pub open: bool,
}

/// The slot behind a call that went through. `capacity` is the room of a slot
/// that was just built.
pub open spec fn device_after(d: Option<DeviceSlot>, call: Call, capacity: usize) -> Option<
    DeviceSlot,
> {
    let s = d->0;
    match call {
        Call::DrainStale => None,
        Call::NewSlot { .. } => Some(DeviceSlot { rows: 0, room: capacity as nat, open: false }),
        Call::Materialize { prefix_tokens, .. } => Some(
            DeviceSlot { rows: prefix_tokens as nat, room: capacity as nat, open: false },
        ),
        Call::DrainSession | Call::CommitAndDrain { .. } => Some(DeviceSlot { open: false, ..s }),
        Call::Grow { to } => Some(DeviceSlot { room: to as nat, ..s }),
        Call::BeginSession => Some(DeviceSlot { open: true, ..s }),
        Call::Forward { tokens, start_pos } => Some(
            DeviceSlot { rows: (start_pos + tokens) as nat, ..s },
        ),
        Call::Step { position, .. } => Some(DeviceSlot { rows: (position + 1) as nat, ..s }),
        Call::SetCapture
        | Call::DrainHidden
        | Call::BuildHidden { .. }
        | Call::Publish
        | Call::RecomputeRecall => d,
    }
}

/// Whether `n` more tokens fit behind those in the cache.
pub open spec fn has_room(d: DeviceSlot, n: nat) -> bool {
    d.room == 0 || d.rows + n <= d.room
}

/// Whether the runtime can make a call on a slot: nothing is built where
/// something is, arrays are grown and read only while no session holds them,
/// and tokens are run in an open session, right behind those in the cache, and
/// only where there is room for them.
pub open spec fn can_be_made(d: Option<DeviceSlot>, call: Call) -> bool {
    let s = d->0;
    match call {
        Call::NewSlot { .. } | Call::Materialize { .. } => d is None,
        Call::DrainStale | Call::DrainSession | Call::CommitAndDrain { .. } => d is Some && s.open,
        Call::Grow { to } => d is Some && !s.open && to > s.room > 0 && to > s.rows,
        Call::BeginSession => d is Some && !s.open,
        Call::SetCapture | Call::DrainHidden | Call::BuildHidden { .. } => d is Some && s.open,
        Call::Forward { tokens, start_pos } => d is Some && s.open && start_pos == s.rows && tokens
            > 0 && has_room(s, tokens as nat),
        Call::Step { position, .. } => d is Some && s.open && position == s.rows && has_room(s, 1),
        Call::Publish | Call::RecomputeRecall => d is Some && !s.open,
    }
}

/// What the executor remembers of a slot is what the runtime holds.
pub open spec fn remembered(v: ExecView, slot: usize, d: Option<DeviceSlot>) -> bool {
    &&& v.slots.contains_key(slot) <==> d is Some
    &&& d is Some ==> {
        let s = v.slots[slot];
        s.cache_len == d->0.rows && s.capacity == d->0.room && s.session_active == d->0.open
    }
}

/// What is left of a slot once its host epoch was seen: an outdated one goes,
/// but for one whose session has to be closed first.
pub open spec fn left_of(v: ExecView, slot: usize, epoch: u64, d: Option<DeviceSlot>) -> Option<
    DeviceSlot,
> {
    if d is Some && v.slots[slot].slot_epoch != epoch && !d->0.open {
        None
    } else {
        d
    }
}

/// The other slots are as they were.
pub open spec fn others_kept(v: ExecView, w: ExecView, slot: usize) -> bool {
    forall|k: usize|
        k != slot ==> #[trigger] v.slots.contains_key(k) == w.slots.contains_key(k) && (
        v.slots.contains_key(k) ==> v.slots[k] == w.slots[k])
}

// ---- a prompt chunk ----

/// The chunk counts: the slot's tokens up to its end are committed, none was
/// sampled behind it, and with a draft model its hidden rows are there, from
/// the first chunk on with a draft state.
pub open spec fn chunk_committed(v: ExecView, row: PrefillShape) -> bool {
    let s = v.slots[row.slot];
    &&& s.committed_len == row.start_pos + row.len
    &&& !s.last_sampled
    &&& v.dflash is Some ==> s.has_hidden && (row.start_pos == 0 ==> s.has_draft)
}

/// A slot that is built is of the host's epoch, and keeps it.
pub open spec fn epoch_kept(v: ExecView, w: ExecView, slot: usize, built: bool, epoch: u64) -> bool {
    w.slots.contains_key(slot) ==> w.slots[slot].slot_epoch == if built {
        epoch
    } else {
        v.slots[slot].slot_epoch
    }
}

/// Where a prompt chunk stands: its call can be made, belongs to its phase,
/// and builds, runs and captures exactly the tokens of the chunk behind those
/// before it.
pub open spec fn chunk_stands(
    v: ExecView,
    row: PrefillShape,
    d: Option<DeviceSlot>,
    next: PrefillNext,
) -> bool {
    let slot = row.slot;
    let s = d->0;
    let before = row.start_pos as nat;
    let behind = (row.start_pos + row.len) as nat;
    match next {
        PrefillNext::Make { phase, call } => {
            &&& can_be_made(d, call)
            &&& match phase {
                PrefillPhase::Stale => call is DrainStale && !v.slots.contains_key(slot),
                PrefillPhase::Place => {
                    &&& remembered(v, slot, d)
                    &&& match call {
                        Call::NewSlot { reservation } => before == 0 && reservation >= row.len,
                        Call::Materialize { prefix_tokens, reservation } => prefix_tokens == before
                            && before > 0 && reservation >= row.len,
                        _ => false,
                    }
                },
                PrefillPhase::GrowDrain => {
                    &&& remembered(v, slot, d)
                    &&& call is DrainSession
                    &&& s.rows == before && !has_room(s, row.len as nat)
                },
                PrefillPhase::Grow => {
                    &&& remembered(v, slot, d)
                    &&& call is Grow && call->to >= behind
                    &&& call->to == growth(s.room, s.rows, row.len as nat)->0
                    &&& s.rows == before && !has_room(s, row.len as nat)
                },
                PrefillPhase::Begin => {
                    &&& remembered(v, slot, d)
                    &&& call is BeginSession
                    &&& s.rows == before && has_room(s, row.len as nat)
                },
                PrefillPhase::Capture => {
                    &&& remembered(v, slot, d)
                    &&& call is SetCapture && v.dflash is Some
                    &&& s.rows == before && has_room(s, row.len as nat)
                },
                PrefillPhase::Forward => {
                    &&& remembered(v, slot, d)
                    &&& call == (Call::Forward { tokens: row.len, start_pos: row.start_pos })
                    &&& s.rows == before
                },
                PrefillPhase::Hidden | PrefillPhase::BuildHidden => {
                    &&& v.slots.contains_key(slot) && d is Some
                    &&& v.slots[slot].cache_len == before && s.rows == behind
                    &&& v.slots[slot].capacity == s.room && v.slots[slot].session_active == s.open
                    &&& v.dflash is Some
                    &&& phase == PrefillPhase::Hidden ==> call is DrainHidden
                    &&& phase == PrefillPhase::BuildHidden ==> call == (Call::BuildHidden {
                        rows: row.len,
                    })
                },
                PrefillPhase::Drain => {
                    &&& remembered(v, slot, d)
                    &&& s.rows == behind && chunk_committed(v, row)
                    &&& match call {
                        Call::CommitAndDrain { hidden } => {
                            &&& hidden is Unused <==> v.dflash is None
                            &&& v.dflash is Some ==> (hidden is Replace <==> before == 0)
                            &&& hidden matches HiddenUpdate::Replace { draft_capacity }
                                ==> draft_capacity == row.total_tokens + v.dflash->0.block_size
                                + 512
                        },
                        _ => false,
                    }
                },
                PrefillPhase::Publish => {
                    &&& remembered(v, slot, d)
                    &&& s.rows == behind && chunk_committed(v, row)
                    &&& call is Publish && v.active is None
                },
            }
        },
        PrefillNext::Done { position } => {
            &&& remembered(v, slot, d)
            &&& d is Some && s.rows == behind && !s.open
            &&& position == behind
            &&& chunk_committed(v, row)
            &&& v.active is None && v.pending is None
        },
        PrefillNext::Fail { .. } => remembered(v, slot, d),
    }
}

proof fn lemma_chunk_opens(v: ExecView, row: PrefillShape, d: Option<DeviceSlot>)
    requires
        remembered(v, row.slot, d),
        d is Some,
        row.len > 0,
        v.prefill_fits(row),
        v.chunk_fits(row),
    ensures
        chunk_stands(v.prefill_open(row).0, row, d, v.prefill_open(row).1),
{
    let s = v.slots[row.slot];
    if s.capacity > 0 && row.start_pos == s.cache_len && s.cache_len + row.len > s.capacity {
        growth_makes_room(s.capacity as nat, s.cache_len as nat, row.len as nat);
    }
}

/// A prompt chunk starts on what the runtime holds: the call it names can be
/// made, and it stands behind exactly the tokens before the chunk or is
/// refused.
pub proof fn a_chunk_starts_where_the_cache_ends(
    v: ExecView,
    row: PrefillShape,
    host: SlotHost,
    d: Option<DeviceSlot>,
)
    requires
        remembered(v, row.slot, d),
        v.prefill_fits(row),
        v.prefill_opens(row, host) ==> v.chunk_fits(row),
    ensures
        ({
            let (w, next) = v.prefill_start(row, host);
            let left = if next is Fail {
                d
            } else {
                left_of(v, row.slot, host.epoch, d)
            };
            &&& chunk_stands(w, row, left, next)
            &&& others_kept(v, w, row.slot)
            &&& next is Make && next->phase is Forward ==> d is Some && d->0.rows == row.start_pos
        }),
{
    if row.len > 0 && v.other_session(row.slot) is None && d is Some && !v.stale(
        row.slot,
        host.epoch,
    ) {
        lemma_chunk_opens(v, row, d);
    }
}

/// A prompt chunk goes on from any call that went through: what the executor
/// remembers follows the runtime, and the next call can be made. Where it is
/// done, the cache ends behind the chunk.
pub proof fn a_chunk_goes_on_where_the_cache_ends(
    v: ExecView,
    row: PrefillShape,
    host: SlotHost,
    d: Option<DeviceSlot>,
    phase: PrefillPhase,
    call: Call,
    capacity: usize,
)
    requires
        row.len > 0,
        chunk_stands(v, row, d, PrefillNext::Make { phase, call }),
        v.prefill_fits(row),
        v.prefill_can_go_on(row, phase, true, capacity),
        row.start_pos + row.len <= u64::MAX,
    ensures
        ({
            let (w, next) = v.prefill_next(row, host, phase, true, capacity);
            &&& chunk_stands(w, row, device_after(d, call, capacity), next)
            &&& others_kept(v, w, row.slot)
            &&& epoch_kept(v, w, row.slot, phase == PrefillPhase::Place, host.epoch)
        }),
{
    let e = device_after(d, call, capacity);
    match phase {
        PrefillPhase::Place => {
            let w = v.with(row.slot, fresh_slot(host.epoch, row.start_pos, capacity));
            assert(w.prefill_fits(row));
            lemma_chunk_opens(w, row, e);
        },
        PrefillPhase::GrowDrain | PrefillPhase::Grow => {
            let s = v.slots[row.slot];
            growth_makes_room(s.capacity as nat, s.cache_len as nat, row.len as nat);
        },
        _ => {},
    }
}

/// A new slot gets room for its host length, for the whole prompt and 512
/// tokens more, and for the chunk and one token more, and for no more than the
/// largest of the three; a slot that decode builds likewise for its host length
/// and 512 tokens more than the row has.
pub proof fn reservations_cover_what_is_known(row: PrefillShape, token: DecodeRow, seq_len: usize)
    ensures
        ({
            let r = prefill_reservation(row, seq_len);
            let capped = |n: int|
                if n > usize::MAX {
                    usize::MAX as int
                } else {
                    n
                };
            &&& r >= seq_len && r >= capped(row.total_tokens + 512) && r >= capped(row.len + 1)
            &&& r == seq_len || r == capped(row.total_tokens + 512) || r == capped(row.len + 1)
            &&& decode_reservation(token, seq_len) >= seq_len
            &&& decode_reservation(token, seq_len) >= capped(token.kv_seq_len + 512)
            &&& decode_reservation(token, seq_len) == seq_len || decode_reservation(token, seq_len)
                == capped(token.kv_seq_len + 512)
        }),
{
}

// ---- a token ----

/// A token is run behind so many others: it reads the prefix from the pages
/// where that is on and there is one, packed where the cache is packed, and
/// asks for the query where recall scores it.
pub open spec fn step_is(v: ExecView, call: Call, rows: nat) -> bool {
    match call {
        Call::Step { read, position, emit_query } => {
            &&& position == rows
            &&& read is Session <==> !v.flags.paged_kv_read || rows == 0
            &&& read is PagedInt8 ==> v.flags.int8
            &&& read is PagedBf16 ==> !v.flags.int8
            &&& emit_query <==> v.flags.kv_recall && !v.flags.int8
        },
        _ => false,
    }
}

/// Where a decode stands. The row's token is run behind the row's length, a
/// token that is queued ahead behind that one.
pub open spec fn token_stands(
    v: ExecView,
    row: DecodeRow,
    d: Option<DeviceSlot>,
    next: DecodeNext,
) -> bool {
    let slot = row.slot;
    let s = d->0;
    let held = v.slots[slot];
    let before = row.kv_seq_len as nat;
    match next {
        DecodeNext::Make { phase, call } => {
            &&& can_be_made(d, call)
            &&& match phase {
                DecodePhase::Stale => call is DrainStale && !v.slots.contains_key(slot),
                DecodePhase::Place => {
                    &&& remembered(v, slot, d)
                    &&& call matches Call::Materialize { prefix_tokens, reservation } && {
                        prefix_tokens == before && before > 0 && reservation >= before
                    }
                },
                DecodePhase::GrowDrain => {
                    &&& remembered(v, slot, d)
                    &&& call is DrainSession
                    &&& s.rows == before && held.committed_len == before && !has_room(s, 1)
                },
                DecodePhase::Grow => {
                    &&& remembered(v, slot, d)
                    &&& call is Grow && call->to > before
                    &&& call->to == growth(s.room, s.rows, 1)->0
                    &&& s.rows == before && held.committed_len == before && !has_room(s, 1)
                },
                DecodePhase::Begin => {
                    &&& remembered(v, slot, d)
                    &&& call is BeginSession
                    &&& s.rows == before && held.committed_len == before && has_room(s, 1)
                },
                DecodePhase::Step => {
                    &&& remembered(v, slot, d)
                    &&& step_is(v, call, before)
                    &&& before <= i32::MAX
                    &&& held.committed_len == before
                    &&& v.active == Some(slot)
                },
                DecodePhase::Drain | DecodePhase::FastDrain => {
                    &&& remembered(v, slot, d)
                    &&& call is DrainSession
                    &&& s.rows == before + 1 && held.committed_len == before + 1
                },
                DecodePhase::Recall { .. } => {
                    &&& remembered(v, slot, d)
                    &&& call is RecomputeRecall
                    &&& s.rows == before + 1 && held.committed_len == before + 1
                },
                DecodePhase::AheadBegin { .. } => {
                    &&& remembered(v, slot, d)
                    &&& call is BeginSession
                    &&& s.rows == before + 1 && held.committed_len == before + 1 && has_room(s, 1)
                },
                DecodePhase::AheadStep { .. } => {
                    &&& remembered(v, slot, d)
                    &&& step_is(v, call, before + 1)
                    &&& before + 1 <= i32::MAX
                    &&& held.committed_len == before + 1
                    &&& v.active == Some(slot)
                },
            }
        },
        DecodeNext::Stepped { position } => {
            &&& token_in(v, row, d)
            &&& position == before + 1
        },
        DecodeNext::Queued => token_in(v, row, d),
        DecodeNext::Fail { .. } => remembered(v, slot, d),
    }
}

/// The row's token is in the cache, and at most one more, which is queued.
pub open spec fn token_in(v: ExecView, row: DecodeRow, d: Option<DeviceSlot>) -> bool {
    &&& remembered(v, row.slot, d)
    &&& d is Some && v.slots[row.slot].committed_len == row.kv_seq_len + 1
    &&& d->0.rows == row.kv_seq_len + 1 || (d->0.rows == row.kv_seq_len + 2 && v.pending == Some(
        row.slot,
    ))
}

proof fn lemma_token_opens(v: ExecView, row: DecodeRow, d: Option<DeviceSlot>)
    requires
        remembered(v, row.slot, d),
        d is Some,
        v.slots[row.slot].cache_len == row.kv_seq_len ==> room_ok(
            v.slots[row.slot].capacity,
            row.kv_seq_len + 1,
        ),
    ensures
        token_stands(v.decode_open(row).0, row, d, v.decode_open(row).1),
        others_kept(v, v.decode_open(row).0, row.slot),
{
    let s = v.slots[row.slot];
    if s.capacity > 0 && row.kv_seq_len == s.cache_len && s.cache_len + 1 > s.capacity {
        growth_makes_room(s.capacity as nat, s.cache_len as nat, 1);
    }
}

proof fn lemma_token_ahead(v: ExecView, row: DecodeRow, d: Option<DeviceSlot>, fast: bool)
    requires
        remembered(v, row.slot, d),
        d is Some,
        d->0.rows == row.kv_seq_len + 1,
        v.slots[row.slot].committed_len == row.kv_seq_len + 1,
        !d->0.open,
        row.kv_seq_len + 1 <= u64::MAX,
    ensures
        token_stands(v.decode_ahead(row, fast).0, row, d, v.decode_ahead(row, fast).1),
        token_stands(v.decode_recall(row, fast).0, row, d, v.decode_recall(row, fast).1),
        others_kept(v, v.decode_ahead(row, fast).0, row.slot),
        others_kept(v, v.decode_recall(row, fast).0, row.slot),
{
}

/// A decode starts on what the runtime holds: the call it names can be made,
/// and a row that opens on a resident slot is run at the end of its cache,
/// which is the row's length, or is refused.
pub proof fn a_token_starts_where_the_cache_ends(
    v: ExecView,
    row: DecodeRow,
    host: SlotHost,
    d: Option<DeviceSlot>,
)
    requires
        remembered(v, row.slot, d),
        v.step_opens(row, host) ==> room_ok(
            v.slots[row.slot].capacity,
            row.kv_seq_len + 1,
        ),
    ensures
        ({
            let (w, next) = v.decode_start(row, host);
            let left = if next is Fail && v.other_session(row.slot) is Some {
                d
            } else {
                left_of(v, row.slot, host.epoch, d)
            };
            &&& token_stands(w, row, left, next)
            &&& others_kept(v, w, row.slot)
            &&& next matches DecodeNext::Make { call: Call::Step { position, .. }, .. }
                ==> position == row.kv_seq_len && d is Some && position == d->0.rows
        }),
{
    if !(v.flags.pipeline && row.raw_argmax && v.pending_matches(row, host.epoch)) {
        let w = ExecView {
            pending: if v.pending == Some(row.slot) {
                None
            } else {
                v.pending
            },
            ..v
        };
        if w.other_session(row.slot) is None && d is Some && !w.stale(row.slot, host.epoch) {
            lemma_token_opens(w, row, d);
        }
    }
}

/// A decode goes on from any call that went through: what the executor
/// remembers follows the runtime, every step it names is run at the end of the
/// cache, and where it is done the row's token is in.
pub proof fn a_token_goes_on_where_the_cache_ends(
    v: ExecView,
    row: DecodeRow,
    host: SlotHost,
    d: Option<DeviceSlot>,
    phase: DecodePhase,
    call: Call,
    capacity: usize,
)
    requires
        token_stands(v, row, d, DecodeNext::Make { phase, call }),
        v.decode_can_go_on(row, phase, true, capacity),
        row.kv_seq_len < usize::MAX,
        row.kv_seq_len + 1 <= u64::MAX,
    ensures
        ({
            let (w, next) = v.decode_next(row, host, phase, true, capacity);
            let e = device_after(d, call, capacity);
            &&& token_stands(w, row, e, next)
            &&& others_kept(v, w, row.slot)
            &&& epoch_kept(v, w, row.slot, phase == DecodePhase::Place, host.epoch)
            &&& next matches DecodeNext::Make { call: Call::Step { position, .. }, .. }
                ==> position == e->0.rows && position == w.slots[row.slot].cache_len
        }),
{
    let e = device_after(d, call, capacity);
    let s = v.slots[row.slot];
    match phase {
        DecodePhase::Place => {
            let w = v.with(row.slot, fresh_slot(host.epoch, row.kv_seq_len, capacity));
            lemma_token_opens(w, row, e);
        },
        DecodePhase::GrowDrain | DecodePhase::Grow => {
            growth_makes_room(s.capacity as nat, s.cache_len as nat, 1);
        },
        DecodePhase::Drain => {
            let w = ExecView {
                active: None,
                ..v.with(row.slot, SlotState { session_active: false, ..s })
            };
            lemma_token_ahead(w, row, e, false);
        },
        DecodePhase::FastDrain => {
            let w = ExecView {
                active: None,
                ..v.with(row.slot, SlotState { session_active: false, ..s })
            };
            lemma_token_ahead(w, row, e, true);
        },
        DecodePhase::Recall { fast } => {
            lemma_token_ahead(v, row, e, fast);
        },
        _ => {},
    }
}

} // verus!
