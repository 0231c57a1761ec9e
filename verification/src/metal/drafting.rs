//! What drafting and cutting back keep.
use vstd::prelude::*;

#[allow(unused_imports)]
use crate::metal::dflash::{
    accepted_span, block_size_for, capture_ok, compat_fault, draft_capacity, first_bad_capture,
    first_bad_layer, first_fault, first_not_rank4, gdr_rollback, kv_width, layer_cache_ok, max_of,
    paired_tapes, q_width, trimmed, window_move, windowed, written_rows, DFlashDraftState, DflashCompatError, DraftError,
    DraftJob, DraftKind, ModelDims, RollbackSpan, TapeShapes, WindowMove,
};

verus! {

// ---- block sizes and fit ----

/// A block has at least two tokens and at most what the draft was made for; a
/// size between those that is asked for is had, and nothing asked for gives the
/// draft's own.
pub proof fn block_sizes_stay_in_range(own: nat, asked: Option<usize>)
    ensures
        2 <= block_size_for(own, asked),
        own >= 2 ==> block_size_for(own, asked) <= own,
        own < 2 ==> block_size_for(own, asked) == 2,
        asked matches Some(n) ==> (2 <= n <= own ==> block_size_for(own, asked) == n),
        asked matches Some(n) ==> (n > own && own >= 2 ==> block_size_for(own, asked) == own),
        asked is None && own >= 2 ==> block_size_for(own, asked) == own,
{
}

proof fn lemma_max_is_one_of(s: Seq<usize>)
    requires
        s.len() > 0,
    ensures
        s.contains(max_of(s)),
    decreases s.len(),
{
    if s.last() >= max_of(s.drop_last()) {
        assert(s[s.len() - 1] == max_of(s));
    } else {
        if s.len() > 1 {
            lemma_max_is_one_of(s.drop_last());
            let i = choose|i: int|
                0 <= i < s.drop_last().len() && s.drop_last()[i] == max_of(s.drop_last());
            assert(s[i] == max_of(s));
        }
    }
}

/// A draft is refused only for a reason that holds: it names no layers, one of
/// its layers is not in the target, its width is another, or, for a head that
/// shares the target's attention, its projections have other widths. A head of
/// the other kind may have projections of any width.
pub proof fn drafts_are_refused_for_a_reason(
    target: ModelDims,
    draft: ModelDims,
    kind: DraftKind,
    layer_ids: Seq<usize>,
)
    ensures
        match compat_fault(target, draft, kind, layer_ids) {
            None => {
                &&& layer_ids.len() > 0
                &&& draft.hidden_size == target.hidden_size
                &&& kind is DFlashEagle ==> q_width(draft) == q_width(target) && kv_width(draft)
                    == kv_width(target)
            },
            Some(DflashCompatError::NoTargetLayers) => layer_ids.len() == 0,
            Some(DflashCompatError::LayerOutOfRange { layers, max_layer }) => {
                &&& layers == target.num_hidden_layers
                &&& layer_ids.contains(max_layer) && max_layer >= layers
            },
            Some(DflashCompatError::HiddenSize { target: a, draft: b }) => a != b && a
                == target.hidden_size && b == draft.hidden_size,
            Some(DflashCompatError::QWidth { target: a, draft: b }) => kind is DFlashEagle && a
                != b,
            Some(DflashCompatError::KvWidth { target: a, draft: b }) => kind is DFlashEagle && a
                != b,
        },
{
    if layer_ids.len() > 0 {
        lemma_max_is_one_of(layer_ids);
    }
}

// ---- the draft cache ----

/// A cache cut to sink and window.
pub open spec fn cut<A>(cache: Seq<A>, w: Option<WindowMove>) -> Seq<A> {
    match w {
        None => cache,
        Some(m) => cache.take(m.to as int) + cache.subrange(m.from as int, m.from + m.len),
    }
}

/// Cutting a draft cache keeps its first sixty-four tokens and its last
/// thousand and twenty-four, in order, and leaves a shorter one alone; the
/// length that is kept count of is that of what is left.
pub proof fn the_window_keeps_both_ends<A>(cache: Seq<A>)
    requires
        cache.len() <= i32::MAX,
    ensures
        ({
            let left = cut(cache, window_move(cache.len() as int));
            &&& left.len() == windowed(cache.len() as int)
            &&& cache.len() <= 1088 ==> left == cache
            &&& cache.len() > 1088 ==> {
                &&& left.len() == 1088
                &&& forall|i: int| 0 <= i < 64 ==> #[trigger] left[i] == cache[i]
                &&& forall|i: int|
                    64 <= i < 1088 ==> #[trigger] left[i] == cache[cache.len() - 1088 + i]
            }
        }),
{
}

/// A block leaves the draft cache with its context and without its own tokens:
/// the position moves on by the context, the length by as much as the window
/// has room for, and two blocks leave what one with both contexts would. A head
/// that starts afresh for every block holds the block but for its last token.
pub proof fn a_block_leaves_its_context_in_the_draft(
    a: DraftJob,
    b: DraftJob,
    both: DraftJob,
    s: DFlashDraftState,
)
    requires
        !(a.path is Mtp) && !(b.path is Mtp) && !(both.path is Mtp),
        0 <= s.len <= 1088,
        0 <= s.rope_offset,
        0 <= a.context_rows,
        0 <= b.context_rows,
        both.context_rows == a.context_rows + b.context_rows,
        s.rope_offset + both.context_rows <= i32::MAX,
        s.len + both.context_rows <= i32::MAX,
    ensures
        a.state_after(s).rope_offset - s.rope_offset == a.context_rows,
        s.len + a.context_rows <= 1088 ==> a.state_after(s).len - s.len == a.context_rows,
        a.state_after(s).len <= 1088,
        s.len <= a.state_after(s).len,
        b.state_after(a.state_after(s)) == both.state_after(s),
        a.state_after(s) == (DFlashDraftState {
            len: a.state_after(s).len,
            rope_offset: a.state_after(s).rope_offset,
            ..s
        }),
{
}

/// A head that drafts one token after the other starts afresh: whatever was in
/// its cache, it ends with one row per forward that it made.
pub proof fn a_fresh_head_forgets(job: DraftJob, s: DFlashDraftState, t: DFlashDraftState, place: nat)
    requires
        job.path is Mtp,
        1 <= job.block_size <= i32::MAX,
        place < i32::MAX,
        s.layers == t.layers && s.capacity == t.capacity && s.n_kv_heads == t.n_kv_heads
            && s.head_dim == t.head_dim,
    ensures
        job.state_after(s) == job.state_after(t),
        job.state_after(s).len == job.emits(0),
        job.state_after(s).rope_offset == job.state_after(s).len,
        job.state_at_fault(s, place) == job.state_at_fault(t, place),
        job.state_at_fault(s, place).len == place + 1,
        job.state_at_fault(s, place).rope_offset == place + 1,
{
}

// ---- the block ----

/// The block to verify starts with the current token; behind it stand the
/// head's tokens, each in its place, and a place that the head left empty holds
/// the mask. A head with a bigram bias adds one token to the block.
pub proof fn a_block_is_the_current_token_and_the_heads(job: DraftJob, emitted: Seq<i32>)
    requires
        job.block_size >= 1,
    ensures
        ({
            let block = job.block(emitted);
            let n = job.emits(emitted.len());
            &&& block.len() == job.block_size + if job.path is Markov {
                1int
            } else {
                0
            }
            &&& block[0] == job.current
            &&& n < block.len()
            &&& forall|i: int| 0 <= i < n ==> #[trigger] block[i + 1] == emitted[i] as u32
            &&& forall|i: int| n < i < block.len() ==> #[trigger] block[i] == job.mask
            &&& job.path is Parallel ==> n <= emitted.len()
            &&& !(job.path is Parallel) || emitted.len() >= job.block_size - 1 ==> n + 1
                == block.len()
        }),
{
    let block = job.block(emitted);
    let n = job.emits(emitted.len());
    assert forall|i: int| 0 <= i < n implies #[trigger] block[i + 1] == emitted[i] as u32 by {}
}

/// The first token that cannot stand is found: those before it can, and it is
/// negative or the mask; where none is found, no token is either.
pub proof fn the_first_bad_token_is_found(emitted: Seq<i32>, n: nat, mask: Option<u32>)
    requires
        n <= emitted.len(),
    ensures
        match first_fault(emitted, n, mask) {
            Some((place, e)) => {
                &&& place < n
                &&& forall|i: int|
                    0 <= i < place ==> #[trigger] emitted[i] >= 0 && !(mask matches Some(m)
                        && emitted[i] == m)
                &&& match e {
                    DraftError::NegativeToken { token } => token < 0 && token
                        == emitted[place as int],
                    DraftError::MaskToken { mask: m } => mask == Some(m) && emitted[place as int]
                        == m,
                    _ => false,
                }
            },
            None => forall|i: int|
                0 <= i < n ==> #[trigger] emitted[i] >= 0 && !(mask matches Some(m)
                    && emitted[i] == m),
        },
    decreases n,
{
    if n > 0 {
        the_first_bad_token_is_found(emitted, (n - 1) as nat, mask);
    }
}

/// A block is refused beforehand only where the head has no context to start
/// from, or where the runtime cannot hold so long a block; the mask is looked
/// for in every block but that of a head that has none.
pub proof fn blocks_are_refused_for_a_reason(job: DraftJob)
    ensures
        job.fault() is None <==> if job.path is Mtp {
            job.context_rows >= 1 && job.hidden > 0
        } else {
            job.block_size <= i32::MAX
        },
        job.fault() matches Some(DraftError::NoContext { rows, hidden }) ==> rows
            == job.context_rows && hidden == job.hidden,
        job.fault() matches Some(DraftError::BlockTooLarge { block_size }) ==> block_size
            == job.block_size,
        job.path is Mtp ==> job.mask_check() is None,
        !(job.path is Mtp) ==> job.mask_check() == Some(job.mask),
{
}

// ---- cutting back ----

/// A cache array after cutting back: the snapshot with a span of the live array
/// over it.
pub open spec fn put_back<A>(live: Seq<A>, snapshot: Seq<A>, span: RollbackSpan) -> Seq<A> {
    Seq::new(
        snapshot.len(),
        |i: int|
            if span.start <= i < span.end {
                live[i]
            } else {
                snapshot[i]
            },
    )
}

/// Cutting back keeps what was there before the block and the accepted tokens
/// behind it, and nothing else of the block: everything further on is as it was
/// before.
pub proof fn cutting_back_keeps_the_accepted<A>(
    live: Seq<A>,
    snapshot: Seq<A>,
    prefix_len: int,
    accepted: int,
)
    requires
        0 <= prefix_len,
        0 <= accepted,
        prefix_len + accepted <= live.len(),
        live.len() == snapshot.len() <= i32::MAX,
        forall|i: int| 0 <= i < prefix_len ==> #[trigger] live[i] == snapshot[i],
    ensures
        ({
            let back = put_back(live, snapshot, accepted_span(prefix_len, accepted));
            &&& back.take(prefix_len + accepted) == live.take(prefix_len + accepted)
            &&& forall|i: int|
                prefix_len + accepted <= i < back.len() ==> #[trigger] back[i] == snapshot[i]
        }),
{
    let back = put_back(live, snapshot, accepted_span(prefix_len, accepted));
    assert(back.take(prefix_len + accepted) =~= live.take(prefix_len + accepted));
}

/// The rank that stops cutting back is the first that is not four.
pub proof fn the_first_other_rank_is_found(ranks: Seq<usize>, n: nat)
    requires
        n <= ranks.len() <= usize::MAX,
    ensures
        match first_not_rank4(ranks, n) {
            Some(i) => i < n && ranks[i as int] != 4 && forall|j: int|
                0 <= j < i ==> #[trigger] ranks[j] == 4,
            None => forall|j: int| 0 <= j < n ==> #[trigger] ranks[j] == 4,
        },
    decreases n,
{
    if n > 0 {
        the_first_other_rank_is_found(ranks, (n - 1) as nat);
    }
}

/// A slice that keeps the first rows of an array and all of its other axes.
pub open spec fn first_rows(shape: Seq<i32>, stop: Seq<i32>, rows: i32) -> bool {
    &&& stop.len() == shape.len()
    &&& stop[1] == rows
    &&& forall|i: int| 0 <= i < shape.len() && i != 1 ==> #[trigger] stop[i] == shape[i]
}

/// Of a recurrent state exactly the accepted rows are replayed, from all three
/// recorded arrays, and none where nothing was accepted; the convolution takes
/// exactly as many new frames and drops as many old ones.
pub proof fn the_accepted_rows_are_replayed(t: TapeShapes, accepted: i32)
    requires
        accepted >= 0,
        t.wf(accepted),
    ensures
        ({
            let back = gdr_rollback(t, accepted);
            &&& accepted == 0 <==> back.replay is None
            &&& back.replay matches Some((innovation, k, g)) ==> {
                &&& first_rows(t.innovation@, innovation, accepted)
                &&& first_rows(t.k@, k, accepted)
                &&& first_rows(t.g@, g, accepted)
            }
            &&& back.frames.len() == 3
            &&& back.frames[0] == 1 && back.frames[1] == accepted
            &&& t.qkv@.len() > 2 ==> back.frames[2] == t.qkv@[2]
            &&& back.keep_from == accepted
        }),
{
}

/// As many recurrent pairs are cut back as there are tapes with two arrays,
/// both live and in the snapshot: no fewer and no more.
pub proof fn every_tape_with_a_pair_is_cut_back(tapes: nat, live: usize, snapshot: usize)
    ensures
        ({
            let n = paired_tapes(tapes, live, snapshot);
            &&& n <= tapes && 2 * n <= live && 2 * n <= snapshot
            &&& n < tapes ==> 2 * (n + 1) > live || 2 * (n + 1) > snapshot
        }),
{
}

/// The captured layer that stops a block is the first that lacks accepted rows.
pub proof fn the_first_short_capture_is_found(shapes: Seq<Vec<i32>>, n: nat, rows: i32)
    requires
        n <= shapes.len() <= usize::MAX,
    ensures
        match first_bad_capture(shapes, n, rows) {
            Some(l) => {
                &&& l < n
                &&& !(shapes[l as int]@.len() == 3 && shapes[l as int]@[0] == 1
                    && shapes[l as int]@[1] >= rows)
                &&& forall|j: int| 0 <= j < l ==> capture_ok((#[trigger] shapes[j])@, rows)
            },
            None => forall|j: int|
                0 <= j < n ==> (#[trigger] shapes[j])@.len() == 3 && shapes[j]@[0] == 1
                    && shapes[j]@[1] >= rows,
        },
    decreases n,
{
    if n > 0 {
        the_first_short_capture_is_found(shapes, (n - 1) as nat, rows);
    }
}

/// The layer whose new arrays are refused is the first with other ones than the
/// draft has: keys and values of one batch, its heads, its width, and as many
/// of the one as of the other.
pub proof fn the_first_other_layer_is_found(
    shapes: Seq<Vec<i32>>,
    n: nat,
    n_kv_heads: i32,
    head_dim: i32,
)
    requires
        2 * n <= shapes.len() <= usize::MAX,
    ensures
        match first_bad_layer(shapes, n, n_kv_heads, head_dim) {
            Some(l) => {
                &&& l < n
                &&& !(shapes[2 * l as int]@.len() == 4 && shapes[2 * l + 1]@.len() == 4
                    && shapes[2 * l as int]@ == shapes[2 * l + 1]@ && shapes[2 * l as int]@[0] == 1
                    && shapes[2 * l as int]@[1] == n_kv_heads && shapes[2 * l as int]@[3]
                    == head_dim)
            },
            None => forall|j: int|
                0 <= j < n ==> {
                    let k = (#[trigger] shapes[2 * j])@;
                    let v = shapes[2 * j + 1]@;
                    &&& k.len() == 4 && v == k
                    &&& k[0] == 1 && k[1] == n_kv_heads && k[3] == head_dim
                },
        },
    decreases n,
{
    if n > 0 {
        the_first_other_layer_is_found(shapes, (n - 1) as nat, n_kv_heads, head_dim);
        let k = shapes[2 * (n - 1)]@;
        let v = shapes[2 * (n - 1) + 1]@;
        if layer_cache_ok(k, v, n_kv_heads, head_dim) {
            assert(k =~= v);
        }
        if first_bad_layer(shapes, n, n_kv_heads, head_dim) is None {
            assert forall|j: int| 0 <= j < n implies {
                let k = (#[trigger] shapes[2 * j])@;
                let v = shapes[2 * j + 1]@;
                &&& k.len() == 4 && v == k
                &&& k[0] == 1 && k[1] == n_kv_heads && k[3] == head_dim
            } by {
                if j == n - 1 {
                    assert(k =~= v);
                }
            }
        }
    }
}

// ---- rows of a draft cache ----

/// A new draft cache has whole chunks of 256 rows: room for its tokens and for
/// one chunk more, and for less than another.
pub proof fn draft_caches_have_a_chunk_to_spare(tokens: nat)
    ensures
        draft_capacity(tokens) % 256 == 0,
        tokens + 256 <= draft_capacity(tokens) < tokens + 512,
{
}

/// A draft that reads hidden rows writes them and the block's behind each
/// other; a head that runs token by token writes one row for each, whatever it
/// reads.
pub proof fn drafts_write_what_they_run(context: i32, block: i32, more: i32)
    requires
        i32::MIN <= block + more <= i32::MAX,
    ensures
        written_rows(DraftKind::DFlashEagle, context, block) - context == block,
        written_rows(DraftKind::Qwen35Mtp, context, block) == written_rows(
            DraftKind::Qwen35Mtp,
            0,
            block,
        ),
        written_rows(DraftKind::Qwen35Mtp, context, 1) == 1,
        forall|kind: DraftKind| #[trigger]
            written_rows(kind, context, (block + more) as i32) - written_rows(kind, context, block)
                == more,
{
}

/// A block that is refused is still in the draft cache: cutting its rows off
/// leaves what the block would have left, up to the window. A head that ran
/// token by token has a row for each token up to the refused one.
pub proof fn a_refused_block_is_still_to_be_cut(j: DraftJob, s: DFlashDraftState, place: nat)
    requires
        0 <= s.len,
        0 <= s.rope_offset,
        0 <= j.context_rows,
        1 <= j.block_size,
        s.len + j.context_rows + j.block_size <= i32::MAX,
        s.rope_offset + j.context_rows + j.block_size <= i32::MAX,
        place + 1 <= i32::MAX,
    ensures
        ({
            let f = j.state_at_fault(s, place);
            let a = j.state_after(s);
            &&& !(j.path is Mtp) ==> {
                &&& trimmed(f.len, j.block_size) == s.len + j.context_rows
                &&& trimmed(f.rope_offset, j.block_size) == a.rope_offset
                &&& s.len + j.context_rows <= 1088 ==> trimmed(f.len, j.block_size) == a.len
            }
            &&& j.path is Mtp ==> {
                &&& f.len == place + 1 && f.rope_offset == place + 1
                &&& place + 2 == j.block_size ==> f == a
            }
        }),
{
}

} // verus!
