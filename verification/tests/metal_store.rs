use agent_infer::metal::keyed::{is_front_of, KeyedVec};
use agent_infer::metal::kv_ssd::{
    prefix_store_key, tier_slot_bytes, MaterializeError, MetalPageStore, MetalPrefixSnapshot,
    PrefixBlock, SnapshotSource, TierError, TierRemoval,
};
use agent_infer::metal::mlx::{dtype_size, Dtype, DtypeCodes};
use agent_infer::metal::payload::{
    decode_page_payload, decode_prefix_payload, encode_page_payload, encode_prefix_payload,
    expected_array_nbytes, HostArray, PayloadError,
};

/// Page slices of a slot: tokens of two values each, four to a page.
fn page_slices(tokens: usize, base: i32) -> Vec<Option<Vec<Vec<f32>>>> {
    (0..tokens / 4)
        .map(|page| {
            let vals: Vec<f32> = (page * 4..page * 4 + 4)
                .flat_map(|t| [(base + t as i32 * 10) as f32, (base + t as i32 * 10 + 1) as f32])
                .collect();
            Some(vec![vals])
        })
        .collect()
}

/// Page slices of a slot whose every value is `fill`.
fn filled_slices(tokens: usize, fill: i32) -> Vec<Option<Vec<Vec<f32>>>> {
    (0..tokens / 4).map(|_| Some(vec![vec![fill as f32; 8]])).collect()
}

fn resident(pages: &[u32]) -> Vec<PrefixBlock> {
    pages.iter().copied().map(PrefixBlock::ResidentPage).collect()
}

#[test]
fn page_reuse_prunes_stale_prefix_snapshot() {
    let mut store: MetalPageStore<Vec<f32>> = MetalPageStore::new();
    let first_pages = [0u32, 1];
    store.publish_slot(0, 1, 8, 4, &first_pages, filled_slices(8, 10), vec![vec![1.0]]).unwrap();
    let first_key = store.logical_key_for_pages(&first_pages).expect("first occupant logical key");
    assert_eq!(store.reusable_prefix_blocks(&resident(&first_pages)), 2);

    let second_pages = [1u32, 0];
    store.publish_slot(1, 1, 8, 4, &second_pages, filled_slices(8, 20), vec![vec![2.0]]).unwrap();

    assert!(
        store.prefix_snapshot(&first_key).is_none(),
        "stale prefix key {first_key:?} must be pruned on page reuse"
    );
    assert_eq!(store.reusable_prefix_blocks(&resident(&first_pages)), 0);
    assert_eq!(store.reusable_prefix_blocks(&resident(&second_pages)), 2);
    let second_key =
        store.logical_key_for_pages(&second_pages).expect("second occupant logical key");
    let snap = store
        .prefix_snapshot(&second_key)
        .expect("new occupant's boundary snapshot must survive");
    assert_eq!(snap.cache_len, 8);
    assert_eq!(snap.gdr_flat[0], vec![2.0]);
}

#[test]
fn republish_same_slot_keeps_own_prefix_snapshots() {
    let mut store: MetalPageStore<Vec<f32>> = MetalPageStore::new();
    let one_page = [0u32];
    store.publish_slot(0, 1, 4, 4, &one_page, filled_slices(4, 10), vec![vec![1.0]]).unwrap();
    let one_key = store.logical_key_for_pages(&one_page).expect("one-page logical key");
    assert_eq!(store.reusable_prefix_blocks(&resident(&one_page)), 1);

    let two_pages = [0u32, 1];
    store.publish_slot(0, 1, 8, 4, &two_pages, filled_slices(8, 10), vec![vec![1.0]]).unwrap();
    let two_key = store.logical_key_for_pages(&two_pages).expect("two-page logical key");

    assert!(store.prefix_snapshot(&one_key).is_some());
    assert!(store.prefix_snapshot(&two_key).is_some());
    assert_eq!(store.reusable_prefix_blocks(&resident(&one_page)), 1);
    assert_eq!(store.reusable_prefix_blocks(&resident(&two_pages)), 2);
}

#[test]
fn release_pages_drops_mirrors_and_prefix_snapshots() {
    let mut store: MetalPageStore<Vec<f32>> = MetalPageStore::new();
    let pages = [0u32, 1];
    store.publish_slot(0, 1, 8, 4, &pages, filled_slices(8, 10), vec![vec![1.0]]).unwrap();
    let key = store.logical_key_for_pages(&pages).expect("published logical key");
    assert_eq!(store.page_count(), 2);
    assert_eq!(store.reusable_prefix_blocks(&resident(&pages)), 2);

    store.release_pages(&[pages[0]]);

    assert!(!store.has_page(pages[0]), "evicted page mirror must be dropped");
    assert!(
        store.prefix_snapshot(&key).is_none(),
        "prefix snapshot containing the evicted page must be pruned"
    );
    assert_eq!(store.reusable_prefix_blocks(&resident(&pages)), 0);
}

#[test]
fn ssd_write_through_promotes_released_pages_and_prefix_snapshot() {
    let mut store: MetalPageStore<Vec<f32>> = MetalPageStore::new();
    assert!(store.set_ssd(true));
    let pages = [0u32, 1];
    let outcome =
        store.publish_slot(0, 1, 8, 4, &pages, page_slices(8, 10), vec![vec![7.0]]).unwrap();
    let logical_key = store.logical_key_for_pages(&pages).expect("published logical key");
    assert_eq!(outcome.prefix, Some(logical_key.clone()));
    assert_eq!(outcome.writes.len(), 2);
    store.note_disk_prefix(&logical_key, true);
    assert!(
        store.has_disk_prefix(&logical_key),
        "write-through must persist the prefix snapshot"
    );
    assert_eq!(store.demote_prefix_pages(&[(pages[0], 10), (pages[1], 11)], &[true, true]), 2);

    store.release_pages(&pages);
    assert_eq!(store.page_count(), 0, "release must drop RAM page mirrors");
    assert!(
        store.prefix_snapshot(&logical_key).is_none(),
        "release must drop RAM prefix snapshots"
    );
    assert_eq!(store.reusable_prefix_blocks(&resident(&pages)), 0);

    let demoted = [PrefixBlock::DemotedKey(10), PrefixBlock::DemotedKey(11)];
    assert_eq!(
        store.reusable_prefix_blocks(&demoted),
        2,
        "T2 mcheck must prove the prefix before mget/promote"
    );
    let on_disk = page_slices(8, 10);
    for (i, slice) in on_disk.into_iter().enumerate() {
        store.promote_page(10 + i as u64, pages[i], slice.unwrap()).unwrap();
    }
    assert_eq!(
        store.ensure_prefix_snapshot_resident(&logical_key),
        Ok(SnapshotSource::OnDisk { hash: prefix_store_key(&logical_key) })
    );
    store.admit_prefix(
        &logical_key,
        MetalPrefixSnapshot { cache_len: 8, gdr_flat: vec![vec![7.0]] },
    );
    assert_eq!(store.reusable_prefix_blocks(&resident(&pages)), 2);
    let plan = store.materialize_slot_from_prefix(&pages, 4, 8, 8).unwrap();
    assert_eq!(plan.pages, pages);
    assert_eq!(plan.arrays, 1);
    let kv: Vec<f32> =
        store.page_arrays(&plan.pages, 0).unwrap().into_iter().flatten().copied().collect();
    assert_eq!(
        &kv[..16],
        &[
            10.0, 11.0, 20.0, 21.0, 30.0, 31.0, 40.0, 41.0, 50.0, 51.0, 60.0, 61.0, 70.0, 71.0,
            80.0, 81.0
        ]
    );
    let snap = store.prefix_snapshot(&logical_key).unwrap();
    assert_eq!(snap.cache_len, 8);
    assert_eq!(snap.gdr_flat[0], vec![7.0]);
}

#[test]
fn dropping_bound_keys_removes_what_nothing_names() {
    let mut store: MetalPageStore<u8> = MetalPageStore::new();
    store.set_ssd(true);
    let slices = vec![Some(vec![1u8])];
    store.publish_slot(0, 1, 4, 4, &[5], slices, vec![9]).unwrap();
    let key = store.logical_key_for_pages(&[5]).unwrap();
    store.note_disk_prefix(&key, true);
    store.demote_prefix_pages(&[(5, 77)], &[true]);
    assert_eq!(store.kv_tier_location(77), Some(key[0]));
    assert_eq!(store.kv_tier_disk_pages(), 1);
    store.release_pages(&[5]);
    let removals = store.drop_kv_tier_entries(&[77]);
    assert!(removals.contains(&TierRemoval::Page { logical_id: key[0] }));
    assert_eq!(store.kv_tier_location(77), None);
    assert_eq!(store.tier_page_id(77), Err(TierError::MissingKey { key: 77 }));
}

#[test]
fn materialize_names_each_fault() {
    let mut store: MetalPageStore<u8> = MetalPageStore::new();
    let fault = |s: &MetalPageStore<u8>, pages: &[u32], tokens: usize| {
        s.materialize_slot_from_prefix(pages, 4, tokens, 64).err()
    };
    assert!(matches!(fault(&store, &[1], 3), Some(MaterializeError::Unaligned { .. })));
    assert!(matches!(fault(&store, &[1], 8), Some(MaterializeError::TooFewPages { .. })));
    assert!(matches!(fault(&store, &[1], 4), Some(MaterializeError::MissingPages)));
    assert!(matches!(
        store.materialize_slot_from_prefix(&[1], 4, usize::MAX - 3, usize::MAX).err(),
        Some(MaterializeError::TooFewPages { .. })
    ));
    store.publish_slot(0, 1, 5, 4, &[1, 2], vec![Some(vec![1]), None], vec![]).ok();
    assert!(matches!(fault(&store, &[1, 2], 4), Some(MaterializeError::MissingSnapshot)));
}

#[test]
fn tables_keyed_by_ids_prune_by_front() {
    let mut t: KeyedVec<u8> = KeyedVec::new();
    t.insert(vec![1, 2], 10);
    t.insert(vec![3], 20);
    t.insert(vec![1, 2, 4], 30);
    assert_eq!(t.len(), 3);
    assert!(is_front_of(&[1, 2], &[1, 2, 4]));
    let dropped = t.prune(&[2, 3], Some(&[1, 2, 4]));
    assert_eq!(dropped, vec![20]);
    assert_eq!(t.get(&[1, 2]), Some(&10));
    assert!(!t.contains_key(&[3]));
}

#[test]
fn tier_slots_leave_room_for_the_header() {
    assert_eq!(tier_slot_bytes(1024), 1024 + 65536);
}

fn codes() -> DtypeCodes {
    DtypeCodes {
        bool_: 0,
        uint8: 1,
        uint16: 2,
        uint32: 3,
        uint64: 4,
        int8: 5,
        int16: 6,
        int32: 7,
        int64: 8,
        float16: 9,
        float32: 10,
        float64: 11,
        bfloat16: 12,
        complex64: 13,
    }
}

#[test]
fn page_payload_reads_back() {
    let arrays = vec![
        HostArray { dtype: Dtype::Bfloat16, shape: vec![1, 2], bytes: vec![1, 2, 3, 4] },
        HostArray { dtype: Dtype::Uint8, shape: vec![3], bytes: vec![7, 8, 9] },
    ];
    let bytes = encode_page_payload(&arrays, &codes()).unwrap();
    let back = decode_page_payload(&bytes, &codes()).unwrap();
    assert_eq!(back.len(), 2);
    assert_eq!(back[0].shape, vec![1, 2]);
    assert_eq!(back[0].dtype, Dtype::Bfloat16);
    assert_eq!(back[1].bytes, vec![7, 8, 9]);
    assert!(decode_page_payload(&bytes[..bytes.len() - 1], &codes()).is_err());
}

#[test]
fn prefix_payload_reads_back_under_its_key_only() {
    let arrays = vec![HostArray { dtype: Dtype::Uint8, shape: vec![1], bytes: vec![5] }];
    let bytes = encode_prefix_payload(&[1, 2], 16, &arrays, &codes()).unwrap();
    let (len, back) = decode_prefix_payload(&bytes, &[1, 2], &codes()).unwrap();
    assert_eq!(len, 16);
    assert_eq!(back[0].bytes, vec![5]);
    assert!(matches!(
        decode_prefix_payload(&bytes, &[1, 3], &codes()),
        Err(PayloadError::KeyMismatch)
    ));
    let mut long = bytes.clone();
    long.push(0);
    assert!(matches!(
        decode_prefix_payload(&long, &[1, 2], &codes()),
        Err(PayloadError::TrailingBytes { count: 1 })
    ));
}

#[test]
fn payloads_end_where_they_end() {
    let arrays = vec![HostArray { dtype: Dtype::Uint8, shape: vec![2], bytes: vec![5, 6] }];
    let page = encode_page_payload(&arrays, &codes()).unwrap();
    let prefix = encode_prefix_payload(&[1, 2], 16, &arrays, &codes()).unwrap();
    for end in 0..page.len() {
        assert!(decode_page_payload(&page[..end], &codes()).is_err());
    }
    for end in 0..prefix.len() {
        assert!(decode_prefix_payload(&prefix[..end], &[1, 2], &codes()).is_err());
        assert!(decode_prefix_payload(&prefix[..end], &[1], &codes()).is_err());
    }
    let long = [page.as_slice(), &[0, 0, 0]].concat();
    assert!(matches!(
        decode_page_payload(&long, &codes()),
        Err(PayloadError::TrailingBytes { count: 3 })
    ));
    let long = [prefix.as_slice(), &[9; 8]].concat();
    assert!(matches!(
        decode_prefix_payload(&long, &[1, 2], &codes()),
        Err(PayloadError::TrailingBytes { count: 8 })
    ));
}

#[test]
fn array_sizes_multiply_and_faults_are_named() {
    assert_eq!(expected_array_nbytes(&[2, 3], Dtype::Float32).unwrap(), 24);
    assert_eq!(dtype_size(Dtype::Complex64), 8);
    assert!(matches!(
        expected_array_nbytes(&[2, -1], Dtype::Uint8),
        Err(PayloadError::NegativeDim { size: -1 })
    ));
    assert!(matches!(
        expected_array_nbytes(&[i32::MAX, i32::MAX, i32::MAX], Dtype::Uint8),
        Err(PayloadError::ShapeOverflow)
    ));
}

#[test]
fn dtype_codes_round_trip() {
    for d in [Dtype::Bool, Dtype::Int8, Dtype::Bfloat16, Dtype::Complex64] {
        assert_eq!(Dtype::from_raw(d.to_raw(&codes()), &codes()), Some(d));
    }
    assert_eq!(Dtype::from_raw(99, &codes()), None);
}

#[test]
fn blocks_of_either_kind_name_the_same_key() {
    let mut store: MetalPageStore<u8> = MetalPageStore::new();
    store.set_ssd(true);
    let slices = vec![Some(vec![1u8]), Some(vec![2u8])];
    store.publish_slot(0, 1, 8, 4, &[5, 6], slices, vec![9]).unwrap();
    let key = store.logical_key_for_pages(&[5, 6]).unwrap();
    store.demote_prefix_pages(&[(5, 77)], &[true]);
    let mixed = [PrefixBlock::DemotedKey(77), PrefixBlock::ResidentPage(6)];
    assert_eq!(store.logical_key_for_prefix_blocks(&mixed), Some(key));
    assert_eq!(store.logical_key_for_prefix_blocks(&[PrefixBlock::DemotedKey(78)]), None);
    assert_eq!(store.logical_key_for_prefix_blocks(&[]), Some(vec![]));
}

#[test]
fn nothing_is_on_disk_without_a_tier() {
    let mut store: MetalPageStore<u8> = MetalPageStore::new();
    store.publish_slot(0, 1, 4, 4, &[5], vec![Some(vec![1u8])], vec![9]).unwrap();
    let key = store.logical_key_for_pages(&[5]).unwrap();
    store.note_disk_prefix(&key, true);
    assert!(!store.has_disk_prefix(&key));
    assert_eq!(store.demote_prefix_pages(&[(5, 77)], &[true]), 0);
    assert_eq!(store.kv_tier_location(77), None);
}
