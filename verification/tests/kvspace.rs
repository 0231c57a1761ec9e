use std::collections::HashMap;

use agent_infer::bytes::{copy_range, push_all, push_le, read_le};
use agent_infer::kvspace::dsv4::{
    capture_epoch_matches, rekey_target_conflicts, Dsv4CodecError, Dsv4LayerPageState,
    Dsv4PrefixPageEntry, PendingPrefixPage,
};
use agent_infer::kvspace::tier::{
    build_blob_entries, chunk_sub, hash_prefix_tokens, pick_sidecar, probe_keys,
    sidecar_candidates, sidecar_lstar, sidecar_mat_len, sidecar_periodic_savable, tier_io_stats,
    tier_key, DiskIoMode, KvSlotTier, KvTierIoMode, SidecarSnapshot, SidecarSubmit, TierIoStats,
    BLOB_CHUNK_BYTES, NS_SIDECAR, NS_SIDECAR_CHUNK, NS_SLOT,
};
use half::bf16;

const PAGE: usize = 16;
const STRIDE: usize = 1024;

fn bits(x: f32) -> u16 {
    bf16::from_f32(x).to_bits()
}

fn sample_entry() -> Dsv4PrefixPageEntry {
    Dsv4PrefixPageEntry {
        page_index: 7,
        boundary: true,
        layers: vec![
            Dsv4LayerPageState {
                staging: vec![bits(1.0), bits(-2.5)],
                dsa_data: vec![0xAB, 0xCD],
                ring: vec![bits(3.0)],
                ..Default::default()
            },
            Dsv4LayerPageState::default(),
        ],
    }
}

#[test]
fn codec_round_trips_and_sizes_the_buffer() {
    let entry = sample_entry();
    let bytes = entry.to_bytes();
    let expected = 13 + 2 * 15 * 4 + entry.host_bytes();
    assert_eq!(bytes.len(), expected);
    let back = Dsv4PrefixPageEntry::from_bytes(&bytes).unwrap();
    assert_eq!(back.page_index, 7);
    assert!(back.boundary);
    assert_eq!(back.layers.len(), 2);
    assert_eq!(back.layers[0].staging, entry.layers[0].staging);
    assert_eq!(back.layers[0].dsa_data, entry.layers[0].dsa_data);
    assert_eq!(back.layers[0].ring, entry.layers[0].ring);
    assert_eq!(back.layers[1], Dsv4LayerPageState::default());
}

#[test]
fn codec_rejects_truncated_and_trailing_bytes() {
    let bytes = sample_entry().to_bytes();
    assert!(Dsv4PrefixPageEntry::from_bytes(&bytes[..bytes.len() - 1]).is_err());
    let mut bad = bytes.clone();
    bad[0] ^= 0xFF;
    assert!(Dsv4PrefixPageEntry::from_bytes(&bad).is_err());
    let mut trailing = bytes.clone();
    trailing.push(0);
    assert!(Dsv4PrefixPageEntry::from_bytes(&trailing).is_err());
}

#[test]
fn codec_rejects_every_cut_and_every_extension() {
    let bytes = sample_entry().to_bytes();
    for end in 0..bytes.len() {
        assert!(Dsv4PrefixPageEntry::from_bytes(&bytes[..end]).is_err());
    }
    for extra in 1..9 {
        let long = [bytes.as_slice(), &vec![0; extra]].concat();
        assert!(matches!(
            Dsv4PrefixPageEntry::from_bytes(&long),
            Err(Dsv4CodecError::TrailingBytes)
        ));
    }
}

#[test]
fn codec_names_each_fault() {
    let bytes = sample_entry().to_bytes();
    let fault = |b: &[u8]| Dsv4PrefixPageEntry::from_bytes(b).err();
    assert!(matches!(fault(&bytes[..5]), Some(Dsv4CodecError::BadHeader)));
    assert!(matches!(fault(&bytes[..15]), Some(Dsv4CodecError::TruncatedAtLen)));
    assert!(matches!(fault(&bytes[..18]), Some(Dsv4CodecError::TruncatedAtSection)));
    let mut long = bytes.clone();
    long.push(0);
    assert!(matches!(fault(&long), Some(Dsv4CodecError::TrailingBytes)));
    let mut odd = b"DSP2".to_vec();
    odd.extend([0u8, 0, 0, 0, 1, 1, 0, 0, 0]);
    odd.extend([1u8, 0, 0, 0, 9]);
    assert!(matches!(fault(&odd), Some(Dsv4CodecError::OddBf16Section { len: 1 })));
}

#[test]
fn codec_writes_bf16_rows_low_byte_first() {
    let entry = Dsv4PrefixPageEntry {
        page_index: 0,
        boundary: false,
        layers: vec![Dsv4LayerPageState { staging: vec![0x3f80], ..Default::default() }],
    };
    let bytes = entry.to_bytes();
    assert_eq!(&bytes[..4], b"DSP2");
    assert_eq!(&bytes[13..19], &[2, 0, 0, 0, 0x80, 0x3f]);
    let back = Dsv4PrefixPageEntry::from_bytes(&bytes).unwrap();
    assert_eq!(bf16::from_bits(back.layers[0].staging[0]).to_f32(), 1.0);
}

#[test]
fn pending_page_lifecycle_tracks_dedup() {
    let entry = sample_entry();
    let mut page = PendingPrefixPage::new(10, 10, entry, None);
    assert!(!page.is_confirmed() && !page.is_cancelled());

    page.confirm(&[11]);
    assert!(!page.is_confirmed());
    page.confirm(&[10]);
    assert!(page.is_confirmed());

    let mut provisional = PendingPrefixPage::new(10, 10, sample_entry(), None);
    provisional.cancel_provisional(&[10]);
    assert!(provisional.is_cancelled());
    let mut confirmed = PendingPrefixPage::new(10, 10, sample_entry(), None);
    confirmed.confirm(&[10]);
    confirmed.cancel_provisional(&[10]);
    assert!(!confirmed.is_cancelled());

    let mut adopt = PendingPrefixPage::new(10, 10, sample_entry(), None);
    adopt.repair(20, 10, false);
    assert_eq!(adopt.target_page(), 20);
    assert!(adopt.is_confirmed() && !adopt.is_cancelled());
    let mut clash = PendingPrefixPage::new(10, 10, sample_entry(), None);
    clash.repair(20, 10, true);
    assert!(clash.is_cancelled());
    let mut foreign = PendingPrefixPage::new(10, 10, sample_entry(), None);
    foreign.repair(20, 11, false);
    assert_eq!(foreign.target_page(), 10);
}

#[test]
fn epoch_and_rekey_predicates() {
    assert!(capture_epoch_matches(5, Some(5)));
    assert!(!capture_epoch_matches(5, Some(6)));
    assert!(!capture_epoch_matches(5, None));
    assert!(rekey_target_conflicts(1, 2, true));
    assert!(!rekey_target_conflicts(1, 2, false));
    assert!(!rekey_target_conflicts(1, 1, true));
}

/// A snapshot that no empty blob can be read back into.
#[derive(Debug, PartialEq)]
struct TestSnap(Vec<u8>);

impl SidecarSnapshot for TestSnap {
    fn serialize(self) -> Vec<u8> {
        self.0
    }

    fn deserialize(bytes: &[u8]) -> Option<Self> {
        if bytes.is_empty() {
            None
        } else {
            Some(TestSnap(bytes.to_vec()))
        }
    }
}

/// The tier's decisions over a store in memory.
struct Harness {
    tier: KvSlotTier,
    images: HashMap<u64, Vec<u8>>,
    entries: HashMap<u64, Vec<u8>>,
    background: Vec<(usize, u64, Vec<u8>, Vec<u32>)>,
}

impl Harness {
    fn new(sync: bool) -> Self {
        Harness {
            tier: KvSlotTier::new(PAGE, sync),
            images: HashMap::new(),
            entries: HashMap::new(),
            background: Vec::new(),
        }
    }

    fn store_image(&mut self, slot: u64, bytes: &[u8]) -> bool {
        self.images.insert(tier_key(NS_SLOT, slot), bytes.to_vec());
        true
    }

    fn load_image(&self, slot: u64) -> Option<Vec<u8>> {
        self.images.get(&tier_key(NS_SLOT, slot)).cloned()
    }

    fn remove_image(&mut self, slot: u64) {
        self.images.remove(&tier_key(NS_SLOT, slot));
    }

    fn store_blob(&mut self, pos: usize, key: u64, bytes: &[u8], pages: &[u32]) {
        let (chunks, entries) = build_blob_entries(key, bytes, vec![0xEE]);
        assert_eq!(entries.len(), chunks + 1);
        for (k, v) in entries {
            self.entries.insert(k, v);
        }
        if let Some(old) = self.tier.store_sidecar_blob(pos, key, true, pages) {
            self.remove_blob(old);
        }
    }

    fn remove_blob(&mut self, key: u64) {
        self.entries.remove(&tier_key(NS_SIDECAR, key));
        let mut idx = 0;
        while self.entries.remove(&tier_key(NS_SIDECAR_CHUNK, chunk_sub(key, idx))).is_some() {
            idx += 1;
        }
    }

    fn read_blob(&self, key: u64) -> Option<Vec<u8>> {
        self.entries.get(&tier_key(NS_SIDECAR, key))?;
        let mut out = Vec::new();
        let mut idx = 0;
        while let Some(part) = self.entries.get(&tier_key(NS_SIDECAR_CHUNK, chunk_sub(key, idx))) {
            out.extend(part);
            idx += 1;
        }
        Some(out)
    }

    fn submit(&mut self, items: Vec<(usize, u64, TestSnap)>, pages: &[u32]) {
        match self.tier.submit_sidecar(items, pages) {
            SidecarSubmit::Nothing => {}
            SidecarSubmit::Inline(items) => {
                for (pos, key, snap) in items {
                    self.store_blob(pos, key, &snap.serialize(), pages);
                }
            }
            SidecarSubmit::Background(items, pages) => {
                for (pos, key, snap) in items {
                    self.background.push((pos, key, snap.serialize(), pages.clone()));
                }
            }
        }
    }

    fn poll(&mut self) {
        let ready: Vec<_> = self.background.drain(..).collect();
        for (pos, key, bytes, pages) in ready {
            self.store_blob(pos, key, &bytes, &pages);
        }
    }

    fn probe(&self, tokens: &[u32], matched: usize) -> Option<(usize, TestSnap)> {
        let probes = probe_keys(tokens, matched, STRIDE);
        let decoded: Vec<Option<TestSnap>> = probes
            .iter()
            .map(|p| self.read_blob(p.1).and_then(|b| TestSnap::deserialize(&b)))
            .collect();
        pick_sidecar(&probes, decoded)
    }

    fn release(&mut self, pages: &[u32]) {
        for key in self.tier.release_sidecar_pages(pages) {
            self.remove_blob(key);
        }
    }
}

#[test]
fn boundary_math_aligns_and_orders() {
    assert_eq!(sidecar_lstar(256, PAGE), 240);
    assert_eq!(sidecar_lstar(1, PAGE), 0);
    assert_eq!(sidecar_mat_len(1000, 500, 9999, PAGE), 496);
    assert_eq!(sidecar_mat_len(31, 9999, 9999, PAGE), 16);
    assert_eq!(sidecar_mat_len(15, 9999, 9999, PAGE), 0);
    assert!(sidecar_periodic_savable(512, 1024));
    assert!(!sidecar_periodic_savable(0, 1024));
    assert!(!sidecar_periodic_savable(1025, 1024));
    assert_eq!(sidecar_candidates(3000, STRIDE), vec![3000, 2048, 1024]);
    assert_eq!(sidecar_candidates(2048, STRIDE), vec![2048, 1024]);
    assert_eq!(sidecar_candidates(100, STRIDE), vec![100]);
}

#[test]
fn slot_image_round_trips_and_drops() {
    let mut t = Harness::new(true);
    assert!(t.store_image(7, b"slot-image"));
    assert_eq!(t.load_image(7).unwrap(), b"slot-image");
    t.remove_image(7);
    assert!(t.load_image(7).is_none());
    t.store_image(8, b"a");
    t.store_image(9, b"b");
    for slot in [8, 9] {
        t.remove_image(slot);
    }
    assert!(t.load_image(8).is_none() && t.load_image(9).is_none());
}

#[test]
fn sidecar_eviction_rides_the_tail_page() {
    let mut t = Harness::new(true);
    let tokens: Vec<u32> = (0..1024).collect();
    let key = hash_prefix_tokens(&tokens[..1024]);
    t.submit(vec![(1024, key, TestSnap(b"snap".to_vec()))], &[10, 11, 63]);
    assert!(t.probe(&tokens, 1024).is_some());
    t.release(&[11]);
    assert!(t.probe(&tokens, 1024).is_some());
    t.release(&[63]);
    assert!(t.probe(&tokens, 1024).is_none());
}

#[test]
fn probe_skips_corrupt_and_falls_to_the_next_boundary() {
    let mut t = Harness::new(true);
    let tokens: Vec<u32> = (0..3000).collect();
    t.submit(
        vec![
            (3000, hash_prefix_tokens(&tokens[..3000]), TestSnap(Vec::new())),
            (2048, hash_prefix_tokens(&tokens[..2048]), TestSnap(b"ok".to_vec())),
        ],
        &[187],
    );
    let (boundary, snap) = t.probe(&tokens, 3000).unwrap();
    assert_eq!(boundary, 2048);
    assert_eq!(snap, TestSnap(b"ok".to_vec()));
}

#[test]
fn async_submit_drains_through_poll() {
    let mut t = Harness::new(false);
    let tokens: Vec<u32> = (0..1024).collect();
    let key = hash_prefix_tokens(&tokens[..1024]);
    t.submit(vec![(1024, key, TestSnap(b"snap".to_vec()))], &[63]);
    assert!(t.probe(&tokens, 1024).is_none());
    t.poll();
    assert!(t.probe(&tokens, 1024).is_some());
}

#[test]
fn drop_all_sidecar_clears_every_blob() {
    let mut t = Harness::new(true);
    let tokens: Vec<u32> = (0..2048).collect();
    t.submit(
        vec![
            (1024, hash_prefix_tokens(&tokens[..1024]), TestSnap(b"a".to_vec())),
            (2048, hash_prefix_tokens(&tokens[..2048]), TestSnap(b"b".to_vec())),
        ],
        &[63, 127],
    );
    for key in t.tier.drop_all_sidecar() {
        t.remove_blob(key);
    }
    assert!(t.probe(&tokens, 2048).is_none());
}

#[test]
fn displaced_blob_is_removed() {
    let mut t = Harness::new(true);
    t.store_blob(1024, 5, b"old", &[63]);
    t.store_blob(1024, 6, b"new", &[63]);
    assert_eq!(t.read_blob(5), None);
    assert_eq!(t.read_blob(6).unwrap(), b"new");
}

#[test]
fn large_blobs_are_cut_and_rebuilt() {
    let mut t = Harness::new(true);
    let blob: Vec<u8> = (0..BLOB_CHUNK_BYTES + 3).map(|i| (i % 251) as u8).collect();
    let (chunks, entries) = build_blob_entries(9, &blob, Vec::new());
    assert_eq!(chunks, 2);
    assert_eq!(entries[1].1.len(), BLOB_CHUNK_BYTES);
    assert_eq!(entries[2].1.len(), 3);
    t.store_blob(16, 9, &blob, &[1]);
    assert_eq!(t.read_blob(9).unwrap(), blob);
}

#[test]
fn store_keys_of_namespaces_differ() {
    assert_ne!(tier_key(NS_SIDECAR, 1), tier_key(NS_SIDECAR_CHUNK, chunk_sub(1, 0)));
    assert_ne!(chunk_sub(1, 0), chunk_sub(1, 1));
    assert_ne!(chunk_sub(1, 1), chunk_sub(2, 1));
}

#[test]
fn prefix_hash_depends_on_every_token() {
    assert_ne!(hash_prefix_tokens(&[1, 2, 3]), hash_prefix_tokens(&[1, 2, 4]));
    assert_ne!(hash_prefix_tokens(&[1, 2]), hash_prefix_tokens(&[2, 1]));
    assert!(hash_prefix_tokens(&[1, 2, 3]) < 1 << 40);
}

#[test]
fn io_stats_keep_their_numbers() {
    let stats = tier_io_stats(&TierIoStats {
        mode: DiskIoMode::Direct,
        useful_read_bytes: 1,
        useful_write_bytes: 2,
        submitted_read_bytes: 3,
        submitted_write_bytes: 4,
        metadata_write_bytes: 5,
        failures: 6,
        completion_wait_ns: 7,
    });
    assert!(matches!(stats.mode, KvTierIoMode::Direct));
    assert_eq!(stats.useful_read_bytes, 1);
    assert_eq!(stats.completion_wait_ns, 7);
}

#[test]
fn little_endian_numbers_read_back() {
    let mut buf = vec![0xFF];
    push_le(&mut buf, 0x0102_0304, 4);
    assert_eq!(buf, vec![0xFF, 4, 3, 2, 1]);
    assert_eq!(read_le(&buf, 1, 4), 0x0102_0304);
    push_all(&mut buf, &[7, 8]);
    assert_eq!(copy_range(&buf, 4, 7), vec![1, 7, 8]);
}
