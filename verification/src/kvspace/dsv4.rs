//! Prefix-page content codec and capture lifecycle. The codec is byte math
//! over byte strings and bf16 rows (held as their 16 raw bits); the
//! pending-page state machine tracks confirm/cancel/repair across the radix
//! dedup that happens between capture and publish.
use vstd::prelude::*;

use crate::bytes::{copy_range, push_all, push_le, read_le};
#[allow(unused_imports)]
use crate::bytes::{
    le, le_value, lemma_le_len, lemma_le_low, lemma_le_of_le_value, lemma_le_value_of_le, lemma_pow256,
};

verus! {

/// One layer's share of a per-page entry; an empty section is absent. The
/// boundary sections (`overlap_*`, `idx_overlap_*`, `ring`) only exist when
/// the forward ended exactly at the page end. bf16 rows are held as raw bits.
#[derive(Default, Debug, PartialEq)]
pub struct Dsv4LayerPageState {
    /// Main compressor bf16 staging rows.
    pub staging: Vec<u16>,
    pub dsa_data: Vec<u8>,
    pub dsa_scale: Vec<u8>,
    pub overlap_kv: Vec<u16>,
    pub overlap_score: Vec<u16>,
    pub idx_overlap_kv: Vec<u16>,
    pub idx_overlap_score: Vec<u16>,
    /// Full bf16 sliding-window ring.
    pub ring: Vec<u16>,
    /// Frontier-tail sections: the sub-page tail that the radix match cannot
    /// cover, present only when a finish landed off a page boundary.
    pub pending_kv: Vec<u16>,
    pub pending_score: Vec<u16>,
    pub idx_pending_kv: Vec<u16>,
    pub idx_pending_score: Vec<u16>,
    pub tail_staging: Vec<u16>,
    pub tail_dsa_data: Vec<u8>,
    pub tail_dsa_scale: Vec<u8>,
}

#[derive(Debug)]
pub struct Dsv4PrefixPageEntry {
    /// KV content is position-dependent, so a restore must see the same
    /// index.
    pub page_index: u32,
    /// Boundary sections present (forward ended exactly at this page's end).
    pub boundary: bool,
    pub layers: Vec<Dsv4LayerPageState>,
}

/// Why a byte string is not a prefix-page entry.
#[derive(Debug, Clone, Copy, PartialEq, Eq, Structural)]
pub enum Dsv4CodecError {
    /// Shorter than a header, or another magic.
    BadHeader,
    /// No room for a section's length prefix.
    TruncatedAtLen,
    /// The length prefix runs past the end.
    TruncatedAtSection,
    /// A bf16 section of an odd number of bytes.
    OddBf16Section { len: usize },
    /// Bytes left over after the last section.
    TrailingBytes,
}

/// Byte length of the header: magic, page index, boundary flag, layer count.
pub const HEADER_BYTES: usize = 13;

/// Sections per layer.
pub const LAYER_SECTIONS: usize = 15;

/// The magic doubles as the format version: `DSP2`.
pub open spec fn entry_magic() -> Seq<u8> {
    seq![0x44u8, 0x53u8, 0x50u8, 0x32u8]
}

/// The little-endian bytes of a run of bf16 values.
pub open spec fn bf16_bytes(v: Seq<u16>) -> Seq<u8> {
    Seq::new(2 * v.len(), |i: int| le(v[i / 2] as nat, 2)[i % 2])
}

/// Which of the sections hold bf16 values.
pub open spec fn section_is_bf16(i: int) -> bool {
    !(i == 1 || i == 2 || i == 13 || i == 14)
}

impl Dsv4LayerPageState {
    /// The layer's sections as raw bytes, in the order they are stored.
    pub open spec fn sections(&self) -> Seq<Seq<u8>> {
        seq![
            bf16_bytes(self.staging@),
            self.dsa_data@,
            self.dsa_scale@,
            bf16_bytes(self.overlap_kv@),
            bf16_bytes(self.overlap_score@),
            bf16_bytes(self.idx_overlap_kv@),
            bf16_bytes(self.idx_overlap_score@),
            bf16_bytes(self.ring@),
            bf16_bytes(self.pending_kv@),
            bf16_bytes(self.pending_score@),
            bf16_bytes(self.idx_pending_kv@),
            bf16_bytes(self.idx_pending_score@),
            bf16_bytes(self.tail_staging@),
            self.tail_dsa_data@,
            self.tail_dsa_scale@,
        ]
    }
}

/// An entry as its header fields and, per layer, the raw bytes of each
/// section.
#[verifier::ext_equal]
pub struct EntryView {
    pub page_index: u32,
    pub boundary: bool,
    pub layers: Seq<Seq<Seq<u8>>>,
}

impl View for Dsv4PrefixPageEntry {
    type V = EntryView;

    open spec fn view(&self) -> EntryView {
        EntryView {
            page_index: self.page_index,
            boundary: self.boundary,
            layers: Seq::new(self.layers@.len(), |i: int| self.layers@[i].sections()),
        }
    }
}

/// A section on the wire: its length in four bytes, then its bytes.
pub open spec fn encode_section(raw: Seq<u8>) -> Seq<u8> {
    le(raw.len(), 4) + raw
}

/// The first `n` sections on the wire.
pub open spec fn encode_sections(sections: Seq<Seq<u8>>, n: nat) -> Seq<u8>
    decreases n,
{
    if n == 0 {
        Seq::empty()
    } else {
        encode_sections(sections, (n - 1) as nat) + encode_section(sections[n - 1])
    }
}

/// The first `n` layers on the wire.
pub open spec fn encode_layers(layers: Seq<Seq<Seq<u8>>>, n: nat) -> Seq<u8>
    decreases n,
{
    if n == 0 {
        Seq::empty()
    } else {
        encode_layers(layers, (n - 1) as nat) + encode_sections(
            layers[n - 1],
            layers[n - 1].len(),
        )
    }
}

pub open spec fn encode_header(e: EntryView) -> Seq<u8> {
    entry_magic() + le(e.page_index as nat, 4) + seq![
        if e.boundary { 1u8 } else { 0u8 },
    ] + le(e.layers.len(), 4)
}

/// The entry on the wire.
pub open spec fn encode_entry(e: EntryView) -> Seq<u8> {
    encode_header(e) + encode_layers(e.layers, e.layers.len())
}

/// The section at `pos`, with the position behind it.
pub open spec fn parse_section(bytes: Seq<u8>, pos: nat, bf16: bool) -> Result<
    (Seq<u8>, nat),
    Dsv4CodecError,
> {
    if pos + 4 > bytes.len() {
        Err(Dsv4CodecError::TruncatedAtLen)
    } else {
        let len = le_value(bytes.subrange(pos as int, pos as int + 4));
        if pos + 4 + len > bytes.len() {
            Err(Dsv4CodecError::TruncatedAtSection)
        } else if bf16 && len % 2 != 0 {
            Err(Dsv4CodecError::OddBf16Section { len: len as usize })
        } else {
            Ok((bytes.subrange(pos as int + 4, pos as int + 4 + len), pos + 4 + len))
        }
    }
}

/// The first `n` sections of the layer that starts at `pos`.
pub open spec fn parse_sections(bytes: Seq<u8>, pos: nat, n: nat) -> Result<
    (Seq<Seq<u8>>, nat),
    Dsv4CodecError,
>
    decreases n,
{
    if n == 0 {
        Ok((Seq::empty(), pos))
    } else {
        match parse_sections(bytes, pos, (n - 1) as nat) {
            Err(e) => Err(e),
            Ok((done, at)) => match parse_section(bytes, at, section_is_bf16(n - 1)) {
                Err(e) => Err(e),
                Ok((raw, next)) => Ok((done.push(raw), next)),
            },
        }
    }
}

/// The first `n` layers, from `pos` on.
pub open spec fn parse_layers(bytes: Seq<u8>, pos: nat, n: nat) -> Result<
    (Seq<Seq<Seq<u8>>>, nat),
    Dsv4CodecError,
>
    decreases n,
{
    if n == 0 {
        Ok((Seq::empty(), pos))
    } else {
        match parse_layers(bytes, pos, (n - 1) as nat) {
            Err(e) => Err(e),
            Ok((done, at)) => match parse_sections(bytes, at, LAYER_SECTIONS as nat) {
                Err(e) => Err(e),
                Ok((layer, next)) => Ok((done.push(layer), next)),
            },
        }
    }
}

/// What a byte string says, or the first thing wrong with it.
pub open spec fn parse_entry(bytes: Seq<u8>) -> Result<EntryView, Dsv4CodecError> {
    if bytes.len() < HEADER_BYTES || bytes.subrange(0, 4) != entry_magic() {
        Err(Dsv4CodecError::BadHeader)
    } else {
        let n = le_value(bytes.subrange(9, 13));
        match parse_layers(bytes, HEADER_BYTES as nat, n) {
            Err(e) => Err(e),
            Ok((layers, pos)) => if pos != bytes.len() {
                Err(Dsv4CodecError::TrailingBytes)
            } else {
                Ok(
                    EntryView {
                        page_index: le_value(bytes.subrange(4, 8)) as u32,
                        boundary: bytes[8] != 0,
                        layers,
                    },
                )
            },
        }
    }
}

/// Payload bytes of the first `n` sections of a layer.
pub open spec fn sections_bytes(sections: Seq<Seq<u8>>, n: nat) -> nat
    decreases n,
{
    if n == 0 {
        0
    } else {
        sections_bytes(sections, (n - 1) as nat) + sections[n - 1].len()
    }
}

/// Payload bytes of the first `n` layers.
pub open spec fn layers_bytes(layers: Seq<Seq<Seq<u8>>>, n: nat) -> nat
    decreases n,
{
    if n == 0 {
        0
    } else {
        layers_bytes(layers, (n - 1) as nat) + sections_bytes(layers[n - 1], layers[n - 1].len())
    }
}

/// `half::bf16::to_le_bytes` on the value with the given bits: its two bytes,
/// low byte first.
#[verifier::external_body]
fn bf16_to_le_bytes(bits: u16) -> (b: (u8, u8))
    ensures
        b.0 as nat == bits as nat % 256,
        b.1 as nat == bits as nat / 256,
{
    let raw = half::bf16::from_bits(bits).to_le_bytes();
    (raw[0], raw[1])
}

/// `half::bf16::from_le_bytes`, as the bits of the value it gives: the first
/// byte is the low one.
#[verifier::external_body]
fn bf16_from_le_bytes(low: u8, high: u8) -> (bits: u16)
    ensures
        bits as nat == low as nat + 256 * high as nat,
{
    half::bf16::from_le_bytes([low, high]).to_bits()
}

proof fn lemma_le2(n: nat)
    ensures
        le(n, 2) == seq![(n % 256) as u8, (n / 256 % 256) as u8],
{
    reveal_with_fuel(le, 3);
    assert(le(n, 2) =~= seq![(n % 256) as u8, (n / 256 % 256) as u8]);
}

fn push_bytes(buf: &mut Vec<u8>, v: &[u8])
    ensures
        final(buf)@ == old(buf)@ + encode_section(v@),
{
    push_le(buf, v.len() as u64, 4);
    push_all(buf, v);
    assert(buf@ =~= old(buf)@ + encode_section(v@));
}

/// The low four bytes of twice `n` depend on `n` modulo 2^31 alone.
proof fn lemma_le4_of_double(n: nat)
    ensures
        le(2 * (n % 0x8000_0000), 4) == le(2 * n, 4),
{
    lemma_pow256();
    lemma_le_low(2 * (n % 0x8000_0000), n / 0x8000_0000, 4);
}

fn push_bf16(buf: &mut Vec<u8>, v: &[u16])
    ensures
        final(buf)@ == old(buf)@ + encode_section(bf16_bytes(v@)),
{
    let half_len: u64 = v.len() as u64 % 0x8000_0000;
    push_le(buf, 2 * half_len, 4);
    proof {
        lemma_le4_of_double(v@.len());
    }
    let ghost start = buf@;
    let mut i: usize = 0;
    while i < v.len()
        invariant
            i <= v@.len(),
            buf@.len() == start.len() + 2 * i,
            forall|j: int| 0 <= j < start.len() ==> buf@[j] == start[j],
            forall|j: int|
                #![trigger buf@[start.len() + j]]
                0 <= j < 2 * i ==> buf@[start.len() + j] == bf16_bytes(v@)[j],
        decreases v@.len() - i,
    {
        let b = bf16_to_le_bytes(v[i]);
        let ghost before = buf@;
        buf.push(b.0);
        buf.push(b.1);
        proof {
            lemma_le2(v@[i as int] as nat);
            assert forall|j: int|
                #![trigger buf@[start.len() + j]]
                0 <= j < 2 * (i + 1) implies buf@[start.len() + j] == bf16_bytes(v@)[j] by {
                if j < 2 * i {
                    assert(before[start.len() + j] == bf16_bytes(v@)[j]);
                } else {
                    assert(j / 2 == i);
                }
            }
        }
        i = i + 1;
    }
    proof {
        assert forall|k: int| 0 <= k < buf@.len() implies buf@[k] == (start + bf16_bytes(v@))[k] by {
            if k >= start.len() {
                let j = k - start.len();
                assert(buf@[start.len() + j] == bf16_bytes(v@)[j]);
            }
        }
        assert(buf@ =~= start + bf16_bytes(v@));
        assert(buf@ =~= old(buf)@ + encode_section(bf16_bytes(v@)));
    }
}

/// Reads the section at `*pos` and moves `*pos` behind it.
fn read_section(pos: &mut usize, bytes: &[u8], bf16: bool) -> (r: Result<Vec<u8>, Dsv4CodecError>)
    requires
        *old(pos) <= bytes@.len(),
    ensures
        match parse_section(bytes@, *old(pos) as nat, bf16) {
            Err(e) => r == Err::<Vec<u8>, Dsv4CodecError>(e),
            Ok((raw, next)) => r is Ok && r->Ok_0@ == raw && *final(pos) == next && next
                <= bytes@.len(),
        },
{
    let p: usize = *pos;
    let total: usize = bytes.len();
    if total - p < 4 {
        return Err(Dsv4CodecError::TruncatedAtLen);
    }
    let len: u64 = read_le(bytes, p, 4);
    proof {
        lemma_pow256();
    }
    let len: usize = len as usize;
    if total - p - 4 < len {
        return Err(Dsv4CodecError::TruncatedAtSection);
    }
    if bf16 && len % 2 != 0 {
        return Err(Dsv4CodecError::OddBf16Section { len });
    }
    let raw = copy_range(bytes, p + 4, p + 4 + len);
    *pos = p + 4 + len;
    Ok(raw)
}

/// The bf16 bits that a section of an even number of bytes holds.
fn bf16_of_bytes(raw: &[u8]) -> (v: Vec<u16>)
    requires
        raw@.len() % 2 == 0,
    ensures
        bf16_bytes(v@) == raw@,
{
    let mut v: Vec<u16> = Vec::new();
    let total: usize = raw.len();
    let mut i: usize = 0;
    while i < total / 2
        invariant
            i <= total / 2,
            total == raw@.len(),
            total % 2 == 0,
            v@.len() == i,
            forall|j: int| 0 <= j < i ==> #[trigger] v@[j] as nat == raw@[2 * j] as nat + 256
                * raw@[2 * j + 1] as nat,
        decreases total / 2 - i,
    {
        v.push(bf16_from_le_bytes(raw[2 * i], raw[2 * i + 1]));
        i = i + 1;
    }
    proof {
        assert forall|k: int| 0 <= k < raw@.len() implies bf16_bytes(v@)[k] == raw@[k] by {
            let j = k / 2;
            lemma_le2(v@[j] as nat);
            assert(k == 2 * j || k == 2 * j + 1);
        }
        assert(bf16_bytes(v@) =~= raw@);
    }
    v
}


proof fn lemma_append_section(start: Seq<u8>, secs: Seq<Seq<u8>>, n: nat, buf: Seq<u8>)
    requires
        buf == start + encode_sections(secs, n) + encode_section(secs[n as int]),
    ensures
        buf == start + encode_sections(secs, n + 1),
{
    assert(buf =~= start + encode_sections(secs, n + 1));
}

/// Appends one layer's sections.
fn push_layer(buf: &mut Vec<u8>, layer: &Dsv4LayerPageState)
    ensures
        final(buf)@ == old(buf)@ + encode_sections(
            layer.sections(),
            LAYER_SECTIONS as nat,
        ),
{
    let ghost start = buf@;
    let ghost secs = layer.sections();
    assert(buf@ =~= start + encode_sections(secs, 0));
    push_bf16(buf, layer.staging.as_slice());
    proof {
        lemma_append_section(start, secs, 0, buf@);
    }
    push_bytes(buf, layer.dsa_data.as_slice());
    proof {
        lemma_append_section(start, secs, 1, buf@);
    }
    push_bytes(buf, layer.dsa_scale.as_slice());
    proof {
        lemma_append_section(start, secs, 2, buf@);
    }
    push_bf16(buf, layer.overlap_kv.as_slice());
    proof {
        lemma_append_section(start, secs, 3, buf@);
    }
    push_bf16(buf, layer.overlap_score.as_slice());
    proof {
        lemma_append_section(start, secs, 4, buf@);
    }
    push_bf16(buf, layer.idx_overlap_kv.as_slice());
    proof {
        lemma_append_section(start, secs, 5, buf@);
    }
    push_bf16(buf, layer.idx_overlap_score.as_slice());
    proof {
        lemma_append_section(start, secs, 6, buf@);
    }
    push_bf16(buf, layer.ring.as_slice());
    proof {
        lemma_append_section(start, secs, 7, buf@);
    }
    push_bf16(buf, layer.pending_kv.as_slice());
    proof {
        lemma_append_section(start, secs, 8, buf@);
    }
    push_bf16(buf, layer.pending_score.as_slice());
    proof {
        lemma_append_section(start, secs, 9, buf@);
    }
    push_bf16(buf, layer.idx_pending_kv.as_slice());
    proof {
        lemma_append_section(start, secs, 10, buf@);
    }
    push_bf16(buf, layer.idx_pending_score.as_slice());
    proof {
        lemma_append_section(start, secs, 11, buf@);
    }
    push_bf16(buf, layer.tail_staging.as_slice());
    proof {
        lemma_append_section(start, secs, 12, buf@);
    }
    push_bytes(buf, layer.tail_dsa_data.as_slice());
    proof {
        lemma_append_section(start, secs, 13, buf@);
    }
    push_bytes(buf, layer.tail_dsa_scale.as_slice());
    proof {
        lemma_append_section(start, secs, 14, buf@);
    }
}

/// Reads one layer's sections at `*pos` and moves `*pos` behind them.
fn read_layer(pos: &mut usize, bytes: &[u8]) -> (r: Result<Dsv4LayerPageState, Dsv4CodecError>)
    requires
        *old(pos) <= bytes@.len(),
    ensures
        match parse_sections(bytes@, *old(pos) as nat, LAYER_SECTIONS as nat) {
            Err(e) => r == Err::<Dsv4LayerPageState, Dsv4CodecError>(e),
            Ok((secs, next)) => r is Ok && r->Ok_0.sections() == secs && *final(pos) == next && next
                <= bytes@.len(),
        },
{
    let ghost start = *pos as nat;
    let mut raw: Vec<Vec<u8>> = Vec::new();
    let mut i: usize = 0;
    while i < LAYER_SECTIONS
        invariant
            i <= LAYER_SECTIONS,
            start == *old(pos),
            raw@.len() == i,
            *pos <= bytes@.len(),
            parse_sections(bytes@, start, i as nat) is Ok,
            parse_sections(bytes@, start, i as nat)->Ok_0.0.len() == i,
            forall|j: int|
                0 <= j < i ==> #[trigger] raw@[j]@ == parse_sections(
                    bytes@,
                    start,
                    i as nat,
                )->Ok_0.0[j],
            forall|j: int|
                0 <= j < i && section_is_bf16(j) ==> #[trigger] raw@[j]@.len() % 2 == 0,
            parse_sections(bytes@, start, i as nat)->Ok_0.1 == *pos,
        decreases LAYER_SECTIONS - i,
    {
        let bf16: bool = !(i == 1 || i == 2 || i == 13 || i == 14);
        let ghost before = parse_sections(bytes@, start, i as nat);
        match read_section(pos, bytes, bf16) {
            Err(e) => {
                proof {
                    lemma_parse_sections_err(
                        bytes@,
                        start,
                        (i + 1) as nat,
                        LAYER_SECTIONS as nat,
                    );
                }
                return Err(e);
            },
            Ok(section) => {
                raw.push(section);
                i = i + 1;
            },
        }
    }
    let layer = Dsv4LayerPageState {
        staging: bf16_of_bytes(raw[0].as_slice()),
        dsa_data: copy_range(raw[1].as_slice(), 0, raw[1].len()),
        dsa_scale: copy_range(raw[2].as_slice(), 0, raw[2].len()),
        overlap_kv: bf16_of_bytes(raw[3].as_slice()),
        overlap_score: bf16_of_bytes(raw[4].as_slice()),
        idx_overlap_kv: bf16_of_bytes(raw[5].as_slice()),
        idx_overlap_score: bf16_of_bytes(raw[6].as_slice()),
        ring: bf16_of_bytes(raw[7].as_slice()),
        pending_kv: bf16_of_bytes(raw[8].as_slice()),
        pending_score: bf16_of_bytes(raw[9].as_slice()),
        idx_pending_kv: bf16_of_bytes(raw[10].as_slice()),
        idx_pending_score: bf16_of_bytes(raw[11].as_slice()),
        tail_staging: bf16_of_bytes(raw[12].as_slice()),
        tail_dsa_data: copy_range(raw[13].as_slice(), 0, raw[13].len()),
        tail_dsa_scale: copy_range(raw[14].as_slice(), 0, raw[14].len()),
    };
    proof {
        assert forall|j: int| 0 <= j < LAYER_SECTIONS implies #[trigger] layer.sections()[j]
            == raw@[j]@ by {
            assert(raw@[j]@.subrange(0, raw@[j]@.len() as int) =~= raw@[j]@);
        }
        assert(layer.sections() =~= parse_sections(
            bytes@,
            start,
            LAYER_SECTIONS as nat,
        )->Ok_0.0);
    }
    Ok(layer)
}

/// Once a section fails to parse, so does every longer run of them.
proof fn lemma_parse_sections_err(bytes: Seq<u8>, pos: nat, n: nat, m: nat)
    requires
        n <= m,
        parse_sections(bytes, pos, n) is Err,
    ensures
        parse_sections(bytes, pos, m) == parse_sections(bytes, pos, n),
    decreases m - n,
{
    if n < m {
        lemma_parse_sections_err(bytes, pos, n + 1, m);
    }
}

/// Once a layer fails to parse, so does every longer run of them.
proof fn lemma_parse_layers_err(bytes: Seq<u8>, pos: nat, n: nat, m: nat)
    requires
        n <= m,
        parse_layers(bytes, pos, n) is Err,
    ensures
        parse_layers(bytes, pos, m) == parse_layers(bytes, pos, n),
    decreases m - n,
{
    if n < m {
        lemma_parse_layers_err(bytes, pos, n + 1, m);
    }
}

impl Dsv4PrefixPageEntry {
    /// The entry as bytes: header, then every layer's sections.
    pub fn to_bytes(&self) -> (buf: Vec<u8>)
        ensures
            buf@ == encode_entry(self@),
    {
        let mut buf: Vec<u8> = Vec::new();
        buf.push(0x44);
        buf.push(0x53);
        buf.push(0x50);
        buf.push(0x32);
        push_le(&mut buf, self.page_index as u64, 4);
        buf.push(if self.boundary { 1 } else { 0 });
        push_le(&mut buf, self.layers.len() as u64, 4);
        assert(buf@ =~= encode_header(self@));
        let ghost layers = self@.layers;
        let mut i: usize = 0;
        assert(buf@ =~= encode_header(self@) + encode_layers(layers, 0));
        while i < self.layers.len()
            invariant
                i <= self.layers@.len(),
                layers == self@.layers,
                buf@ == encode_header(self@) + encode_layers(layers, i as nat),
            decreases self.layers@.len() - i,
        {
            push_layer(&mut buf, &self.layers[i]);
            i = i + 1;
            assert(layers[i - 1].len() == LAYER_SECTIONS);
            assert(buf@ =~= encode_header(self@) + encode_layers(layers, i as nat));
        }
        buf
    }

    /// The entry that `bytes` holds, or the first thing wrong with them.
    pub fn from_bytes(bytes: &[u8]) -> (r: Result<Self, Dsv4CodecError>)
        ensures
            match parse_entry(bytes@) {
                Err(e) => r == Err::<Self, Dsv4CodecError>(e),
                Ok(v) => r is Ok && r->Ok_0@ == v,
            },
    {
        let total: usize = bytes.len();
        if total < HEADER_BYTES || bytes[0] != 0x44 || bytes[1] != 0x53 || bytes[2] != 0x50
            || bytes[3] != 0x32 {
            proof {
                if total >= HEADER_BYTES {
                    let m = bytes@.subrange(0, 4);
                    assert(m[0] == bytes@[0] && m[1] == bytes@[1] && m[2] == bytes@[2] && m[3]
                        == bytes@[3]);
                }
            }
            return Err(Dsv4CodecError::BadHeader);
        }
        assert(bytes@.subrange(0, 4) =~= entry_magic());
        proof {
            lemma_pow256();
        }
        let page_index: u32 = read_le(bytes, 4, 4) as u32;
        let boundary: bool = bytes[8] != 0;
        let n_layers: u64 = read_le(bytes, 9, 4);
        let mut pos: usize = HEADER_BYTES;
        let mut layers: Vec<Dsv4LayerPageState> = Vec::new();
        let ghost start = HEADER_BYTES as nat;
        let mut i: u64 = 0;
        while i < n_layers
            invariant
                i <= n_layers,
                start == HEADER_BYTES <= total,
                total == bytes@.len(),
                bytes@.subrange(0, 4) == entry_magic(),
                n_layers == le_value(bytes@.subrange(9, 13)),
                layers@.len() == i,
                pos <= bytes@.len(),
                parse_layers(bytes@, start, i as nat) is Ok,
                parse_layers(bytes@, start, i as nat)->Ok_0.1 == pos,
                parse_layers(bytes@, start, i as nat)->Ok_0.0 == Seq::new(
                    layers@.len(),
                    |j: int| layers@[j].sections(),
                ),
            decreases n_layers - i,
        {
            let ghost done = parse_layers(bytes@, start, i as nat)->Ok_0.0;
            match read_layer(&mut pos, bytes) {
                Err(e) => {
                    proof {
                        lemma_parse_layers_err(bytes@, start, (i + 1) as nat, n_layers as nat);
                    }
                    return Err(e);
                },
                Ok(layer) => {
                    let ghost prev = layers@;
                    layers.push(layer);
                    i = i + 1;
                    assert(done.push(layer.sections()) =~= Seq::new(
                        layers@.len(),
                        |j: int| layers@[j].sections(),
                    )) by {
                        assert forall|j: int| 0 <= j < i implies done.push(layer.sections())[j]
                            == layers@[j].sections() by {
                            if j < i - 1 {
                                assert(done[j] == prev[j].sections());
                            }
                        }
                    }
                },
            }
        }
        if pos != total {
            return Err(Dsv4CodecError::TrailingBytes);
        }
        Ok(Dsv4PrefixPageEntry { page_index, boundary, layers })
    }

    /// Payload bytes of all layers, without headers and length prefixes.
    pub fn host_bytes(&self) -> (n: usize)
        requires
            layers_bytes(self@.layers, self@.layers.len()) <= usize::MAX,
        ensures
            n == layers_bytes(self@.layers, self@.layers.len()),
    {
        let mut total: usize = 0;
        let mut i: usize = 0;
        let ghost layers = self@.layers;
        while i < self.layers.len()
            invariant
                i <= self.layers@.len(),
                layers == self@.layers,
                total == layers_bytes(layers, i as nat),
                layers_bytes(layers, layers.len()) <= usize::MAX,
            decreases self.layers@.len() - i,
        {
            proof {
                lemma_layers_bytes_mono(layers, (i + 1) as nat, layers.len());
                assert(layers[i as int] == self.layers@[i as int].sections());
            }
            total = total + layer_host_bytes(&self.layers[i]);
            i = i + 1;
        }
        total
    }
}

#[verifier::spinoff_prover]
#[verifier::rlimit(50)]
fn layer_host_bytes(l: &Dsv4LayerPageState) -> (n: usize)
    requires
        sections_bytes(l.sections(), l.sections().len()) <= usize::MAX,
    ensures
        n == sections_bytes(l.sections(), l.sections().len()),
{
    proof {
        reveal_with_fuel(sections_bytes, 16);
    }
    l.dsa_data.len() + l.dsa_scale.len() + l.tail_dsa_data.len() + l.tail_dsa_scale.len() + (
    l.staging.len() + l.overlap_kv.len() + l.overlap_score.len() + l.idx_overlap_kv.len()
        + l.idx_overlap_score.len() + l.ring.len() + l.pending_kv.len() + l.pending_score.len()
        + l.idx_pending_kv.len() + l.idx_pending_score.len() + l.tail_staging.len()) * 2
}

proof fn lemma_layers_bytes_mono(layers: Seq<Seq<Seq<u8>>>, n: nat, m: nat)
    requires
        n <= m,
    ensures
        layers_bytes(layers, n) <= layers_bytes(layers, m),
    decreases m - n,
{
    if n < m {
        lemma_layers_bytes_mono(layers, n, (m - 1) as nat);
    }
}

/// What every entry of this library satisfies, and what the four-byte length
/// prefixes can say.
pub open spec fn encodable(e: EntryView) -> bool {
    &&& e.layers.len() < 0x1_0000_0000
    &&& forall|i: int| 0 <= i < e.layers.len() ==> layer_encodable(#[trigger] e.layers[i])
}

pub open spec fn layer_encodable(secs: Seq<Seq<u8>>) -> bool {
    &&& secs.len() == LAYER_SECTIONS
    &&& forall|j: int|
        0 <= j < LAYER_SECTIONS ==> (#[trigger] secs[j]).len() < 0x1_0000_0000 && (
        section_is_bf16(j) ==> secs[j].len() % 2 == 0)
}

proof fn lemma_encode_sections_len(secs: Seq<Seq<u8>>, n: nat)
    ensures
        encode_sections(secs, n).len() == 4 * n + sections_bytes(secs, n),
    decreases n,
{
    broadcast use lemma_le_len;

    if n > 0 {
        lemma_encode_sections_len(secs, (n - 1) as nat);
    }
}

proof fn lemma_encode_layers_len(layers: Seq<Seq<Seq<u8>>>, n: nat)
    requires
        n <= layers.len(),
        forall|i: int| 0 <= i < layers.len() ==> (#[trigger] layers[i]).len() == LAYER_SECTIONS,
    ensures
        encode_layers(layers, n).len() == n * LAYER_SECTIONS * 4 + layers_bytes(layers, n),
    decreases n,
{
    if n > 0 {
        lemma_encode_layers_len(layers, (n - 1) as nat);
        lemma_encode_sections_len(layers[n - 1], LAYER_SECTIONS as nat);
    }
}

/// The encoding is 13 header bytes, 15 four-byte length prefixes per layer,
/// and the payload.
pub proof fn encoded_len(entry: &Dsv4PrefixPageEntry)
    ensures
        encode_entry(entry@).len() == HEADER_BYTES + entry.layers@.len() * LAYER_SECTIONS * 4
            + layers_bytes(entry@.layers, entry@.layers.len()),
{
    broadcast use lemma_le_len;

    let e = entry@;
    assert forall|i: int| 0 <= i < e.layers.len() implies (#[trigger] e.layers[i]).len()
        == LAYER_SECTIONS by {
        assert(e.layers[i] == entry.layers@[i].sections());
    }
    lemma_encode_layers_len(e.layers, e.layers.len());
}

proof fn lemma_parse_encoded_sections(bytes: Seq<u8>, pos: nat, secs: Seq<Seq<u8>>, n: nat)
    requires
        layer_encodable(secs),
        n <= LAYER_SECTIONS,
        pos + encode_sections(secs, n).len() <= bytes.len(),
        bytes.subrange(pos as int, (pos + encode_sections(secs, n).len()) as int)
            == encode_sections(secs, n),
    ensures
        parse_sections(bytes, pos, n) == Ok::<(Seq<Seq<u8>>, nat), Dsv4CodecError>(
            (secs.take(n as int), pos + encode_sections(secs, n).len()),
        ),
    decreases n,
{
    broadcast use lemma_le_len;

    if n == 0 {
        assert(secs.take(0) =~= Seq::<Seq<u8>>::empty());
    } else {
        let m = (n - 1) as nat;
        let head = encode_sections(secs, m);
        let all = encode_sections(secs, n);
        let raw = secs[m as int];
        let whole = bytes.subrange(pos as int, (pos + all.len()) as int);
        assert(bytes.subrange(pos as int, (pos + head.len()) as int) =~= all.subrange(
            0,
            head.len() as int,
        )) by {
            assert(bytes.subrange(pos as int, (pos + head.len()) as int) =~= whole.subrange(
                0,
                head.len() as int,
            ));
        }
        assert(all.subrange(0, head.len() as int) =~= head);
        lemma_parse_encoded_sections(bytes, pos, secs, m);
        let at = pos + head.len();
        assert(bytes.subrange(at as int, at as int + 4) =~= le(raw.len(), 4)) by {
            assert(bytes.subrange(at as int, at as int + 4) =~= whole.subrange(
                head.len() as int,
                head.len() as int + 4,
            ));
            assert(all.subrange(head.len() as int, head.len() as int + 4) =~= le(raw.len(), 4));
        }
        lemma_pow256();
        lemma_le_value_of_le(raw.len(), 4);
        assert(bytes.subrange(at as int + 4, at as int + 4 + raw.len()) =~= raw) by {
            assert(bytes.subrange(at as int + 4, at as int + 4 + raw.len()) =~= whole.subrange(
                head.len() as int + 4,
                all.len() as int,
            ));
            assert(all.subrange(head.len() as int + 4, all.len() as int) =~= raw);
        }
        assert(secs.take(n as int) =~= secs.take(m as int).push(raw));
    }
}

proof fn lemma_parse_encoded_layers(bytes: Seq<u8>, pos: nat, layers: Seq<Seq<Seq<u8>>>, n: nat)
    requires
        n <= layers.len(),
        forall|i: int| 0 <= i < layers.len() ==> layer_encodable(#[trigger] layers[i]),
        pos + encode_layers(layers, n).len() <= bytes.len(),
        bytes.subrange(pos as int, (pos + encode_layers(layers, n).len()) as int)
            == encode_layers(layers, n),
    ensures
        parse_layers(bytes, pos, n) == Ok::<(Seq<Seq<Seq<u8>>>, nat), Dsv4CodecError>(
            (layers.take(n as int), pos + encode_layers(layers, n).len()),
        ),
    decreases n,
{
    if n == 0 {
        assert(layers.take(0) =~= Seq::<Seq<Seq<u8>>>::empty());
    } else {
        let m = (n - 1) as nat;
        let head = encode_layers(layers, m);
        let all = encode_layers(layers, n);
        let layer = layers[m as int];
        let body = encode_sections(layer, LAYER_SECTIONS as nat);
        let whole = bytes.subrange(pos as int, (pos + all.len()) as int);
        assert(layer_encodable(layer));
        assert(bytes.subrange(pos as int, (pos + head.len()) as int) =~= head) by {
            assert(bytes.subrange(pos as int, (pos + head.len()) as int) =~= whole.subrange(
                0,
                head.len() as int,
            ));
            assert(all.subrange(0, head.len() as int) =~= head);
        }
        lemma_parse_encoded_layers(bytes, pos, layers, m);
        let at = pos + head.len();
        assert(bytes.subrange(at as int, (at + body.len()) as int) =~= body) by {
            assert(bytes.subrange(at as int, (at + body.len()) as int) =~= whole.subrange(
                head.len() as int,
                all.len() as int,
            ));
            assert(all.subrange(head.len() as int, all.len() as int) =~= body);
        }
        lemma_parse_encoded_sections(bytes, at, layer, LAYER_SECTIONS as nat);
        assert(layer.take(LAYER_SECTIONS as int) =~= layer);
        assert(layers.take(n as int) =~= layers.take(m as int).push(layer));
    }
}

/// Decoding what was encoded gives the entry back, for every entry whose
/// lengths fit their four-byte prefixes.
pub proof fn decode_of_encode(e: EntryView)
    requires
        encodable(e),
    ensures
        parse_entry(encode_entry(e)) == Ok::<EntryView, Dsv4CodecError>(e),
{
    broadcast use lemma_le_len;

    let bytes = encode_entry(e);
    let body = encode_layers(e.layers, e.layers.len());
    lemma_pow256();
    lemma_le_value_of_le(e.page_index as nat, 4);
    lemma_le_value_of_le(e.layers.len(), 4);
    assert(bytes.subrange(0, 4) =~= entry_magic());
    assert(bytes.subrange(4, 8) =~= le(e.page_index as nat, 4));
    assert(bytes.subrange(9, 13) =~= le(e.layers.len(), 4));
    assert(bytes.subrange(13, (13 + body.len()) as int) =~= body);
    lemma_parse_encoded_layers(bytes, 13, e.layers, e.layers.len());
    assert(e.layers.take(e.layers.len() as int) =~= e.layers);
    assert(bytes[8] == if e.boundary { 1u8 } else { 0u8 });
}

proof fn lemma_section_stays(a: Seq<u8>, b: Seq<u8>, pos: nat, bf16: bool)
    requires
        a.is_prefix_of(b),
        parse_section(a, pos, bf16) is Ok,
    ensures
        parse_section(b, pos, bf16) == parse_section(a, pos, bf16),
{
    assert forall|i: int| 0 <= i < a.len() implies a[i] == b[i] by {
        assert(b.subrange(0, a.len() as int)[i] == b[i]);
    }
    assert(a.subrange(pos as int, pos as int + 4) =~= b.subrange(pos as int, pos as int + 4));
    let len = le_value(a.subrange(pos as int, pos as int + 4));
    assert(a.subrange(pos as int + 4, pos as int + 4 + len) =~= b.subrange(
        pos as int + 4,
        pos as int + 4 + len,
    ));
}

proof fn lemma_sections_stay(a: Seq<u8>, b: Seq<u8>, pos: nat, n: nat)
    requires
        a.is_prefix_of(b),
        parse_sections(a, pos, n) is Ok,
    ensures
        parse_sections(b, pos, n) == parse_sections(a, pos, n),
    decreases n,
{
    if n > 0 {
        let m = (n - 1) as nat;
        lemma_sections_stay(a, b, pos, m);
        lemma_section_stays(a, b, parse_sections(a, pos, m)->Ok_0.1, section_is_bf16(n - 1));
    }
}

proof fn lemma_layers_stay(a: Seq<u8>, b: Seq<u8>, pos: nat, n: nat)
    requires
        a.is_prefix_of(b),
        parse_layers(a, pos, n) is Ok,
    ensures
        parse_layers(b, pos, n) == parse_layers(a, pos, n),
    decreases n,
{
    if n > 0 {
        let m = (n - 1) as nat;
        lemma_layers_stay(a, b, pos, m);
        lemma_sections_stay(a, b, parse_layers(a, pos, m)->Ok_0.1, LAYER_SECTIONS as nat);
    }
}

/// Bytes behind an entry are refused as such.
pub proof fn a_longer_entry_is_refused(entry: Seq<u8>, longer: Seq<u8>)
    requires
        parse_entry(entry) is Ok,
        entry.is_prefix_of(longer),
        entry.len() < longer.len(),
    ensures
        parse_entry(longer) == Err::<EntryView, Dsv4CodecError>(Dsv4CodecError::TrailingBytes),
{
    assert(longer.subrange(0, entry.len() as int).subrange(0, 4) =~= longer.subrange(0, 4));
    assert(longer.subrange(0, entry.len() as int).subrange(9, 13) =~= longer.subrange(9, 13));
    let n = le_value(entry.subrange(9, 13));
    lemma_layers_stay(entry, longer, HEADER_BYTES as nat, n);
}

/// An entry that is cut off anywhere is refused.
pub proof fn a_cut_entry_is_refused(entry: Seq<u8>, cut: Seq<u8>)
    requires
        parse_entry(entry) is Ok,
        cut.is_prefix_of(entry),
        cut.len() < entry.len(),
    ensures
        parse_entry(cut) is Err,
{
    if parse_entry(cut) is Ok {
        a_longer_entry_is_refused(cut, entry);
    }
}

proof fn lemma_encode_sections_agree(a: Seq<Seq<u8>>, b: Seq<Seq<u8>>, n: nat)
    requires
        forall|i: int| 0 <= i < n ==> a[i] == b[i],
    ensures
        encode_sections(a, n) == encode_sections(b, n),
    decreases n,
{
    if n > 0 {
        lemma_encode_sections_agree(a, b, (n - 1) as nat);
        assert(a[n - 1] == b[n - 1]);
    }
}

proof fn lemma_encode_layers_agree(a: Seq<Seq<Seq<u8>>>, b: Seq<Seq<Seq<u8>>>, n: nat)
    requires
        forall|i: int| 0 <= i < n ==> a[i] == b[i],
    ensures
        encode_layers(a, n) == encode_layers(b, n),
    decreases n,
{
    if n > 0 {
        lemma_encode_layers_agree(a, b, (n - 1) as nat);
        assert(a[n - 1] == b[n - 1]);
    }
}

proof fn lemma_parsed_sections(bytes: Seq<u8>, pos: nat, n: nat)
    requires
        pos <= bytes.len(),
        parse_sections(bytes, pos, n) is Ok,
    ensures
        ({
            let (secs, next) = parse_sections(bytes, pos, n)->Ok_0;
            &&& secs.len() == n
            &&& pos <= next <= bytes.len()
            &&& bytes.subrange(pos as int, next as int) == encode_sections(secs, n)
        }),
    decreases n,
{
    if n == 0 {
        assert(bytes.subrange(pos as int, pos as int) =~= Seq::<u8>::empty());
    } else {
        let m = (n - 1) as nat;
        lemma_parsed_sections(bytes, pos, m);
        let (done, at) = parse_sections(bytes, pos, m)->Ok_0;
        let (raw, next) = parse_section(bytes, at, section_is_bf16(m as int))->Ok_0;
        let prefix = bytes.subrange(at as int, at as int + 4);
        lemma_le_of_le_value(prefix);
        assert(encode_section(raw) =~= bytes.subrange(at as int, next as int));
        lemma_encode_sections_agree(done, done.push(raw), m);
        assert(bytes.subrange(pos as int, next as int) =~= bytes.subrange(pos as int, at as int)
            + bytes.subrange(at as int, next as int));
    }
}

proof fn lemma_parsed_layers(bytes: Seq<u8>, pos: nat, n: nat)
    requires
        pos <= bytes.len(),
        parse_layers(bytes, pos, n) is Ok,
    ensures
        ({
            let (layers, next) = parse_layers(bytes, pos, n)->Ok_0;
            &&& layers.len() == n
            &&& pos <= next <= bytes.len()
            &&& bytes.subrange(pos as int, next as int) == encode_layers(layers, n)
        }),
    decreases n,
{
    if n == 0 {
        assert(bytes.subrange(pos as int, pos as int) =~= Seq::<u8>::empty());
    } else {
        let m = (n - 1) as nat;
        lemma_parsed_layers(bytes, pos, m);
        let (done, at) = parse_layers(bytes, pos, m)->Ok_0;
        lemma_parsed_sections(bytes, at, LAYER_SECTIONS as nat);
        let (layer, next) = parse_sections(bytes, at, LAYER_SECTIONS as nat)->Ok_0;
        lemma_encode_layers_agree(done, done.push(layer), m);
        assert(bytes.subrange(pos as int, next as int) =~= bytes.subrange(pos as int, at as int)
            + bytes.subrange(at as int, next as int));
    }
}

/// Bytes that decode, and whose boundary flag is 0 or 1, are the encoding of
/// what they decode to: no two entries share a byte string.
pub proof fn encode_of_decode(bytes: Seq<u8>)
    requires
        parse_entry(bytes) is Ok,
        bytes[8] <= 1,
    ensures
        encode_entry(parse_entry(bytes)->Ok_0) == bytes,
{
    let e = parse_entry(bytes)->Ok_0;
    let n = le_value(bytes.subrange(9, 13));
    lemma_pow256();
    lemma_le_of_le_value(bytes.subrange(4, 8));
    lemma_le_of_le_value(bytes.subrange(9, 13));
    lemma_parsed_layers(bytes, 13, n);
    let head = encode_header(e);
    assert(head =~= bytes.subrange(0, 13)) by {
        assert(head.len() == 13) by {
            broadcast use lemma_le_len;

        }
        assert(le(e.page_index as nat, 4) == bytes.subrange(4, 8));
        assert(le(e.layers.len(), 4) == bytes.subrange(9, 13));
        assert(bytes.subrange(0, 4) == entry_magic());
        assert forall|k: int| 0 <= k < 13 implies head[k] == bytes[k] by {
            if k < 4 {
                assert(bytes.subrange(0, 4)[k] == bytes[k]);
            } else if k < 8 {
                assert(bytes.subrange(4, 8)[k - 4] == bytes[k]);
            } else if k > 8 {
                assert(bytes.subrange(9, 13)[k - 9] == bytes[k]);
            }
        }
    }
    assert(bytes =~= bytes.subrange(0, 13) + bytes.subrange(13, bytes.len() as int));
}

proof fn lemma_bf16_bytes_injective(a: Seq<u16>, b: Seq<u16>)
    requires
        bf16_bytes(a) == bf16_bytes(b),
    ensures
        a == b,
{
    assert(bf16_bytes(a).len() == 2 * a.len());
    assert(bf16_bytes(b).len() == 2 * b.len());
    assert forall|i: int| 0 <= i < a.len() implies a[i] == b[i] by {
        lemma_le2(a[i] as nat);
        lemma_le2(b[i] as nat);
        assert(bf16_bytes(a)[2 * i] == bf16_bytes(b)[2 * i]);
        assert(bf16_bytes(a)[2 * i + 1] == bf16_bytes(b)[2 * i + 1]);
        assert((2 * i) / 2 == i && (2 * i) % 2 == 0);
        assert((2 * i + 1) / 2 == i && (2 * i + 1) % 2 == 1);
        assert(bf16_bytes(a)[2 * i] == le(a[i] as nat, 2)[0]);
        assert(bf16_bytes(b)[2 * i] == le(b[i] as nat, 2)[0]);
        assert(bf16_bytes(a)[2 * i + 1] == le(a[i] as nat, 2)[1]);
        assert(bf16_bytes(b)[2 * i + 1] == le(b[i] as nat, 2)[1]);
        let (x, y) = (a[i] as nat, b[i] as nat);
        assert(x % 256 == y % 256);
        assert(x / 256 == y / 256);
    }
    assert(a =~= b);
}

/// Layers with the same raw sections hold the same rows in every field.
pub proof fn sections_determine_layer(a: &Dsv4LayerPageState, b: &Dsv4LayerPageState)
    requires
        a.sections() == b.sections(),
    ensures
        a.staging@ == b.staging@,
        a.dsa_data@ == b.dsa_data@,
        a.dsa_scale@ == b.dsa_scale@,
        a.overlap_kv@ == b.overlap_kv@,
        a.overlap_score@ == b.overlap_score@,
        a.idx_overlap_kv@ == b.idx_overlap_kv@,
        a.idx_overlap_score@ == b.idx_overlap_score@,
        a.ring@ == b.ring@,
        a.pending_kv@ == b.pending_kv@,
        a.pending_score@ == b.pending_score@,
        a.idx_pending_kv@ == b.idx_pending_kv@,
        a.idx_pending_score@ == b.idx_pending_score@,
        a.tail_staging@ == b.tail_staging@,
        a.tail_dsa_data@ == b.tail_dsa_data@,
        a.tail_dsa_scale@ == b.tail_dsa_scale@,
{
    assert(a.sections()[0] == b.sections()[0]);
    lemma_bf16_bytes_injective(a.staging@, b.staging@);
    assert(a.sections()[1] == b.sections()[1]);
    assert(a.sections()[2] == b.sections()[2]);
    assert(a.sections()[3] == b.sections()[3]);
    lemma_bf16_bytes_injective(a.overlap_kv@, b.overlap_kv@);
    assert(a.sections()[4] == b.sections()[4]);
    lemma_bf16_bytes_injective(a.overlap_score@, b.overlap_score@);
    assert(a.sections()[5] == b.sections()[5]);
    lemma_bf16_bytes_injective(a.idx_overlap_kv@, b.idx_overlap_kv@);
    assert(a.sections()[6] == b.sections()[6]);
    lemma_bf16_bytes_injective(a.idx_overlap_score@, b.idx_overlap_score@);
    assert(a.sections()[7] == b.sections()[7]);
    lemma_bf16_bytes_injective(a.ring@, b.ring@);
    assert(a.sections()[8] == b.sections()[8]);
    lemma_bf16_bytes_injective(a.pending_kv@, b.pending_kv@);
    assert(a.sections()[9] == b.sections()[9]);
    lemma_bf16_bytes_injective(a.pending_score@, b.pending_score@);
    assert(a.sections()[10] == b.sections()[10]);
    lemma_bf16_bytes_injective(a.idx_pending_kv@, b.idx_pending_kv@);
    assert(a.sections()[11] == b.sections()[11]);
    lemma_bf16_bytes_injective(a.idx_pending_score@, b.idx_pending_score@);
    assert(a.sections()[12] == b.sections()[12]);
    lemma_bf16_bytes_injective(a.tail_staging@, b.tail_staging@);
    assert(a.sections()[13] == b.sections()[13]);
    assert(a.sections()[14] == b.sections()[14]);
}

/// At most this many captures may be pending (fence not yet polled) per
/// executor: the queue depth that the publish path budgets for.
pub const MAX_PENDING_PREFIX_CAPTURES: usize = 2;

/// A page captured from a slot's KV, not yet published to the content-keyed
/// pool. The radix dedup between capture and publish can retarget or cancel
/// it: `confirm`/`cancel_provisional`/`repair` track that, and publish skips
/// any page that did not survive.
pub struct PendingPrefixPage {
    source_page: u32,
    target_page: u32,
    confirmed: bool,
    cancelled: bool,
    entry: Dsv4PrefixPageEntry,
    frontier_tail: Option<Vec<u32>>,
}

/// The lifecycle state of a pending page, and what it carries.
pub struct PendingView {
    pub source_page: u32,
    pub target_page: u32,
    pub confirmed: bool,
    pub cancelled: bool,
    pub entry: Dsv4PrefixPageEntry,
    pub frontier_tail: Option<Seq<u32>>,
}

impl PendingView {
    pub open spec fn confirm(self, pages: Seq<u32>) -> PendingView {
        PendingView { confirmed: self.confirmed || pages.contains(self.target_page), ..self }
    }

    pub open spec fn cancel(self) -> PendingView {
        PendingView { cancelled: true, ..self }
    }

    pub open spec fn cancel_provisional(self, pages: Seq<u32>) -> PendingView {
        PendingView {
            cancelled: self.cancelled || (!self.confirmed && pages.contains(self.source_page)),
            ..self
        }
    }

    pub open spec fn repair(self, canonical: u32, own: u32, canonical_exists: bool) -> PendingView {
        if self.source_page != own || self.cancelled {
            self
        } else if canonical_exists {
            PendingView { cancelled: true, ..self }
        } else {
            PendingView { target_page: canonical, confirmed: true, ..self }
        }
    }
}

impl View for PendingPrefixPage {
    type V = PendingView;

    closed spec fn view(&self) -> PendingView {
        PendingView {
            source_page: self.source_page,
            target_page: self.target_page,
            confirmed: self.confirmed,
            cancelled: self.cancelled,
            entry: self.entry,
            frontier_tail: match self.frontier_tail {
                Some(tail) => Some(tail@),
                None => None,
            },
        }
    }
}

fn contains_page(pages: &[u32], page: u32) -> (found: bool)
    ensures
        found == pages@.contains(page),
{
    let mut i: usize = 0;
    while i < pages.len()
        invariant
            i <= pages@.len(),
            forall|j: int| 0 <= j < i ==> pages@[j] != page,
        decreases pages@.len() - i,
    {
        if pages[i] == page {
            assert(pages@[i as int] == page);
            return true;
        }
        i = i + 1;
    }
    false
}

impl PendingPrefixPage {
    pub fn new(
        source_page: u32,
        target_page: u32,
        entry: Dsv4PrefixPageEntry,
        frontier_tail: Option<Vec<u32>>,
    ) -> (page: Self)
        ensures
            page@ == (PendingView {
                source_page,
                target_page,
                confirmed: false,
                cancelled: false,
                entry,
                frontier_tail: match frontier_tail {
                    Some(tail) => Some(tail@),
                    None => None,
                },
            }),
    {
        PendingPrefixPage {
            source_page,
            target_page,
            confirmed: false,
            cancelled: false,
            entry,
            frontier_tail,
        }
    }

    pub fn source_page(&self) -> (page: u32)
        ensures
            page == self@.source_page,
    {
        self.source_page
    }

    pub fn target_page(&self) -> (page: u32)
        ensures
            page == self@.target_page,
    {
        self.target_page
    }

    pub fn is_confirmed(&self) -> (b: bool)
        ensures
            b == self@.confirmed,
    {
        self.confirmed
    }

    pub fn is_cancelled(&self) -> (b: bool)
        ensures
            b == self@.cancelled,
    {
        self.cancelled
    }

    pub fn entry(&self) -> (entry: &Dsv4PrefixPageEntry)
        ensures
            *entry == self@.entry,
    {
        &self.entry
    }

    pub fn frontier_tail(&self) -> (tail: Option<&[u32]>)
        ensures
            match self@.frontier_tail {
                Some(v) => tail is Some && tail->0@ == v,
                None => tail is None,
            },
    {
        match &self.frontier_tail {
            Some(tail) => Some(tail.as_slice()),
            None => None,
        }
    }

    /// Confirms the page when its target is among `pages`.
    pub fn confirm(&mut self, pages: &[u32])
        ensures
            final(self)@ == old(self)@.confirm(pages@),
    {
        let hit: bool = contains_page(pages, self.target_page);
        self.confirmed = self.confirmed || hit;
    }

    pub fn cancel(&mut self)
        ensures
            final(self)@ == old(self)@.cancel(),
    {
        self.cancelled = true;
    }

    /// Cancels a still unconfirmed page whose source is among `pages`.
    pub fn cancel_provisional(&mut self, pages: &[u32])
        ensures
            final(self)@ == old(self)@.cancel_provisional(pages@),
    {
        let hit: bool = contains_page(pages, self.source_page);
        self.cancelled = self.cancelled || (!self.confirmed && hit);
    }

    /// Follows a dedup of page `own` onto `canonical`: cancels when the
    /// canonical page already holds content, otherwise adopts it as the
    /// confirmed target.
    pub fn repair(&mut self, canonical: u32, own: u32, canonical_exists: bool)
        ensures
            final(self)@ == old(self)@.repair(canonical, own, canonical_exists),
    {
        if self.source_page != own || self.cancelled {
            return;
        }
        if canonical_exists {
            self.cancelled = true;
        } else {
            self.target_page = canonical;
            self.confirmed = true;
        }
    }
}

/// No step of the lifecycle takes a confirmation or a cancellation back,
/// changes the source page, or touches what the page carries.
pub proof fn pending_state_is_sticky(
    p: PendingView,
    pages: Seq<u32>,
    canonical: u32,
    own: u32,
    exists_already: bool,
)
    ensures
        forall|q: PendingView|
            (q == p.confirm(pages) || q == p.cancel() || q == p.cancel_provisional(pages) || q
                == p.repair(canonical, own, exists_already)) ==> (p.confirmed
                ==> #[trigger] q.confirmed) && (p.cancelled ==> q.cancelled) && q.source_page
                == p.source_page && q.entry == p.entry && q.frontier_tail == p.frontier_tail,
{
}

/// A confirmed page survives every provisional cancel, and a cancelled page
/// is never retargeted.
pub proof fn confirmed_pages_survive(
    p: PendingView,
    pages: Seq<u32>,
    canonical: u32,
    own: u32,
    exists_already: bool,
)
    ensures
        p.confirmed ==> p.cancel_provisional(pages) == p,
        p.cancelled ==> p.repair(canonical, own, exists_already) == p,
{
}

/// A capture is publishable only while the slot's content epoch still
/// matches the one captured under.
pub fn capture_epoch_matches(captured: u64, current: Option<u64>) -> (b: bool)
    ensures
        b == (current == Some(captured)),
{
    match current {
        Some(epoch) => epoch == captured,
        None => false,
    }
}

/// A captured page may not publish onto a target that already holds
/// different content.
pub fn rekey_target_conflicts(source_page: u32, target_page: u32, target_exists: bool) -> (b: bool)
    ensures
        b == (source_page != target_page && target_exists),
{
    source_page != target_page && target_exists
}

} // verus!
