use agent_infer::metal::config::MetalGdrConfig;
use agent_infer::metal::model_source::{
    cache_repo_name, common_local_roots, huggingface_hub_root, is_weight_file_ext,
    is_weighted_model_dir, looks_like_local_path, model_name, resolve_model_path,
    side_files_to_fetch, snapshot_dirs, sum_weight_files, weight_files_to_fetch, DirEntry,
    HubRoot, LocalRoot, ModelSource, SizedFile,
};
use agent_infer::metal::resource::{
    auto_wired_limit_bytes, available_memory_bytes, default_system_reserve_bytes,
    gdr_state_bytes_per_slot, kv_bytes_per_token_per_slot, parse_swap_used,
    parse_system_value, parse_vm_stat_pages, plan_pages, plan_resource_budget, plan_weight_only_resource_budget,
    resolve_memory_limit, sample_paging_activity, MetalResourceRequest, MetalSystemStatus,
    MetalWeightOnlyResourceRequest, ModelNeeds, PagingActivity, ResourceError, TokenBudget,
    VmStatCounters, GIB, MIB,
};
use agent_infer::metal::slot::{estimated_metal_kv_page_bytes, MetalKvCacheDtype};

fn status(total: u64, available: u64) -> MetalSystemStatus {
    MetalSystemStatus::current(Some(total), Some(available), Some(total), Some(0))
}

fn calm() -> Option<PagingActivity> {
    Some(PagingActivity {
        pageouts_delta_bytes: Some(0),
        swapouts_delta_bytes: Some(0),
        sample_millis: 200,
    })
}

fn weights_only(budget: Option<u64>) -> MetalWeightOnlyResourceRequest {
    MetalWeightOnlyResourceRequest {
        low_impact: false,
        memory_budget_bytes: budget,
        system_reserve_bytes: None,
        allow_swap: false,
    }
}

#[test]
fn weight_only_plans_hold_weights_and_headroom() {
    let plan = plan_weight_only_resource_budget(
        &weights_only(Some(16 * GIB)),
        &status(64 * GIB, 60 * GIB),
        calm(),
        Some(8 * GIB),
    )
    .unwrap();
    assert_eq!(plan.memory_limit_bytes, 16 * GIB);
    assert_eq!(plan.weight_bytes, 8 * GIB);
    assert_eq!(plan.wired_limit_bytes, 9 * GIB);
    assert_eq!(plan.runtime_headroom_bytes, 4 * GIB);
    assert_eq!(plan.cache_limit_bytes, GIB);
    assert!(!plan.residual_swap_warning);
    assert!(plan.describe("64", "60", "64").contains("64"));
}

#[test]
fn weight_only_plans_name_each_fault() {
    let s = status(64 * GIB, 60 * GIB);
    let plan = |budget, weights, paging| {
        plan_weight_only_resource_budget(&weights_only(budget), &s, paging, weights).err()
    };
    assert_eq!(plan(None, None, calm()), Some(ResourceError::UnknownWeights));
    let busy = Some(PagingActivity {
        pageouts_delta_bytes: Some(64 * MIB),
        swapouts_delta_bytes: Some(0),
        sample_millis: 200,
    });
    assert!(busy.unwrap().is_active_pressure());
    assert_eq!(plan(Some(16 * GIB), Some(GIB), busy), Some(ResourceError::ActivePaging));
    assert!(matches!(
        plan(Some(8 * GIB), Some(8 * GIB), calm()),
        Some(ResourceError::BelowFixed { .. })
    ));
    assert!(matches!(
        plan(Some(65 * GIB), Some(GIB), calm()),
        Some(ResourceError::BudgetExceedsMemory { .. })
    ));
}

#[test]
fn memory_limits_leave_the_reserve() {
    let total = 64 * GIB;
    let reserve = default_system_reserve_bytes(total, false);
    assert!(reserve > 0 && default_system_reserve_bytes(total, true) >= reserve);
    let limit = resolve_memory_limit(None, None, false, &status(total, total)).unwrap();
    assert!(limit + reserve <= total);
    assert!(matches!(
        resolve_memory_limit(None, Some(total), false, &status(total, total)),
        Err(ResourceError::ReserveTooLarge { .. })
    ));
    assert!(matches!(
        resolve_memory_limit(None, None, false, &status(total, GIB)),
        Err(ResourceError::AvailableTooLow { .. })
    ));
    let blind = MetalSystemStatus::current(None, None, None, None);
    assert_eq!(resolve_memory_limit(None, None, false, &blind), Err(ResourceError::UnknownBudget));
    assert_eq!(resolve_memory_limit(Some(0), None, false, &blind), Err(ResourceError::BudgetTooSmall));
}

fn gdr() -> MetalGdrConfig {
    MetalGdrConfig { num_key_heads: 2, key_dim: 8, num_value_heads: 4, value_dim: 16, conv_kernel: 4 }
}

#[test]
fn state_sizes_are_exact() {
    // Two values of 2 bytes per head dimension and layer.
    assert_eq!(kv_bytes_per_token_per_slot(3, 2, 128, MetalKvCacheDtype::Bf16), Ok(3 * 2 * 2 * 128 * 2));
    let int8 = kv_bytes_per_token_per_slot(1, 1, 128, MetalKvCacheDtype::Int8).unwrap();
    assert_eq!(int8, 2 * (128 + 4));
    assert_eq!(
        kv_bytes_per_token_per_slot(1, 1, 80, MetalKvCacheDtype::Int8),
        Err(ResourceError::HeadDim { head_dim: 80 })
    );
    assert_eq!(
        kv_bytes_per_token_per_slot(usize::MAX, usize::MAX, 128, MetalKvCacheDtype::Bf16),
        Err(ResourceError::KvOverflow)
    );
    let qkv = 2 * 2 * 8 + 4 * 16;
    assert_eq!(gdr_state_bytes_per_slot(5, &gdr()), 5 * (4 * 16 * 8 * 4 + 3 * qkv * 2));
    assert_eq!(
        estimated_metal_kv_page_bytes(3, 2, 128, MetalKvCacheDtype::Bf16, 16),
        16 * 3 * 2 * 2 * 128 * 2
    );
}

#[test]
fn a_page_takes_its_tokens_bytes() {
    for dtype in [MetalKvCacheDtype::Bf16, MetalKvCacheDtype::Int8] {
        for (layers, heads, head_dim, page) in [(3, 2, 128, 16), (1, 5, 96, 7), (0, 2, 64, 16)] {
            let token = kv_bytes_per_token_per_slot(layers, heads, head_dim, dtype).unwrap();
            assert_eq!(
                estimated_metal_kv_page_bytes(layers, heads, head_dim, dtype, page),
                page * token as usize
            );
        }
        assert_eq!(estimated_metal_kv_page_bytes(3, 2, 128, dtype, usize::MAX), usize::MAX);
    }
}

#[test]
fn pages_follow_the_affordable_tokens() {
    let b = TokenBudget { budget_bytes: 1000, affordable: Some(100) };
    let p = plan_pages(10, 16, &b).unwrap();
    assert_eq!((p.requested, p.planned, p.capacity_tokens, p.clamped), (10, 6, 96, true));
    let p = plan_pages(3, 16, &b).unwrap();
    assert_eq!((p.planned, p.clamped), (3, false));
    let poor = TokenBudget { budget_bytes: 5, affordable: Some(15) };
    assert!(matches!(plan_pages(1, 16, &poor), Err(ResourceError::NoPageFits { .. })));
    assert_eq!(plan_pages(u64::MAX, 16, &b).err(), Some(ResourceError::RequestOverflow));
}

#[test]
fn model_plans_clamp_to_the_budget() {
    let request = MetalResourceRequest {
        kv_cache_dtype: MetalKvCacheDtype::Bf16,
        num_slots: 1,
        total_pages: 1 << 20,
        page_size: 16,
        low_impact: false,
        memory_budget_bytes: Some(16 * GIB),
        system_reserve_bytes: None,
        allow_swap: false,
    };
    let needs = ModelNeeds {
        full_layers: 4,
        linear_layers: 2,
        num_key_value_heads: 2,
        head_dim: 128,
        linear: gdr(),
    };
    let s = status(64 * GIB, 60 * GIB);
    let kernel = |limit: u64, fixed: u64, per_token: u64| TokenBudget {
        budget_bytes: limit - fixed,
        affordable: Some((limit - fixed) / per_token),
    };
    let plan =
        plan_resource_budget(&request, &s, calm(), Some(8 * GIB), &needs, kernel).unwrap();
    assert!(plan.clamped);
    assert_eq!(plan.kv_bytes_per_token, 4 * 2 * 2 * 128 * 2);
    assert_eq!(plan.capacity_tokens, plan.planned_total_pages * 16);
    let flat = ModelNeeds { full_layers: 0, ..needs };
    assert_eq!(
        plan_resource_budget(&request, &s, calm(), Some(8 * GIB), &flat, kernel).err(),
        Some(ResourceError::KvZero)
    );
    let mut wide = gdr();
    wide.num_key_heads = usize::MAX;
    let wide = ModelNeeds { linear: wide, ..needs };
    assert_eq!(
        plan_resource_budget(&request, &s, calm(), None, &wide, kernel).err(),
        Some(ResourceError::UnknownWeights)
    );
}

const VM_STAT: &str = "Mach Virtual Memory Statistics: (page size of 16384 bytes)\n\
Pages free:                               12345.\n\
Pages inactive:                            100.\n\
\"Translation faults\":                 99.\n\
Pageouts:                                    7.\n";

#[test]
fn system_reports_are_read() {
    assert_eq!(parse_vm_stat_pages(VM_STAT, "Pages free"), Some(12345));
    assert_eq!(parse_vm_stat_pages(VM_STAT, "Pageouts"), Some(7));
    assert_eq!(parse_vm_stat_pages(VM_STAT, "Swapouts"), None);
    assert_eq!(available_memory_bytes(VM_STAT, 4096), Some(12445 * 4096));
    assert_eq!(available_memory_bytes(VM_STAT, u64::MAX), Some(u64::MAX));
    assert_eq!(available_memory_bytes("", 4096), None);
    assert!(VmStatCounters::current(VM_STAT).is_none());
    let before = VmStatCounters::current("Pageouts: 5.\nSwapouts: 1,000.\n").unwrap();
    assert_eq!(before, VmStatCounters { pageouts: 5, swapouts: 1000 });
    let after = VmStatCounters { pageouts: 9, swapouts: 999 };
    let paging = sample_paging_activity(&before, &after, 4096);
    assert_eq!(paging.pageouts_delta_bytes, Some(4 * 4096));
    assert_eq!(paging.swapouts_delta_bytes, None);
    let q = parse_swap_used("vm.swapusage: total = 2048.00M  used = 1024.50M  free = 1.00M");
    let q = q.unwrap();
    assert_eq!((q.number.as_str(), q.unit_bytes), ("1024.50", MIB));
    assert!(parse_swap_used("nothing").is_none());
    assert_eq!(auto_wired_limit_bytes(8 * GIB), 9 * GIB);
}

#[test]
fn model_names_and_paths() {
    assert!(looks_like_local_path("./m") && looks_like_local_path("/m") && !looks_like_local_path("a/b"));
    assert_eq!(model_name("org/Model-4bit"), "Model-4bit");
    assert_eq!(cache_repo_name("org/Model").as_deref(), Some("models--org--Model"));
    assert_eq!(cache_repo_name("Model"), None);
    assert_eq!(common_local_roots(false, false).len(), 0);
    assert!(common_local_roots(true, true).contains(&LocalRoot::WorkingModels));
    assert_eq!(huggingface_hub_root(Some("/x"), true), HubRoot::Configured);
    assert_eq!(huggingface_hub_root(None, true), HubRoot::Home);
    assert_eq!(huggingface_hub_root(None, false), HubRoot::Relative);
    let names = vec!["b".to_string(), "a".to_string()];
    assert_eq!(snapshot_dirs(&names).len(), 2);
}

#[test]
fn model_sources_are_resolved_in_order() {
    assert_eq!(resolve_model_path("org/m", true, &vec![]), ModelSource::Named);
    assert_eq!(resolve_model_path("org/m", false, &vec![false, true]), ModelSource::Candidate(1));
    assert_eq!(resolve_model_path("org/m", false, &vec![false]), ModelSource::Download);
    assert_eq!(resolve_model_path("./m", false, &vec![]), ModelSource::Missing);
}

#[test]
fn weight_files_are_recognised() {
    let entry = |name: &str, is_file| DirEntry { name: name.to_string(), is_file };
    let listed = Some(vec![entry("config.json", true), entry("a.safetensors", true)]);
    assert!(is_weighted_model_dir(true, true, &listed));
    assert!(!is_weighted_model_dir(true, false, &listed));
    assert!(!is_weighted_model_dir(true, true, &Some(vec![entry("a.safetensors", false)])));
    assert!(!is_weighted_model_dir(true, true, &None));
    assert!(is_weight_file_ext("w.npz") && !is_weight_file_ext("w.txt"));
    let files = vec![
        SizedFile { name: "a.gguf".to_string(), bytes: 5 },
        SizedFile { name: "b.md".to_string(), bytes: 100 },
        SizedFile { name: "c.bin".to_string(), bytes: 7 },
    ];
    assert_eq!(sum_weight_files(&files), Some(12));
    let names: Vec<String> =
        ["config.json", "model-1.safetensors", "readme.md"].iter().map(|s| s.to_string()).collect();
    assert_eq!(weight_files_to_fetch(&names).ok().unwrap(), vec!["model-1.safetensors"]);
    assert!(side_files_to_fetch(&names).contains(&"config.json".to_string()));
    assert!(weight_files_to_fetch(&vec![]).is_err());
}

#[test]
fn system_values_are_trimmed_numbers() {
    assert_eq!(parse_system_value(" 17179869184\n"), Some(17179869184));
    assert_eq!(parse_system_value("0"), Some(0));
    assert_eq!(parse_system_value("16 GB"), None);
    assert_eq!(parse_system_value(""), None);
    assert_eq!(parse_system_value("18446744073709551616"), None);
}
