//! Startup resource budgets: how much unified memory a model may take before
//! the desktop would start to swap. Sizes are in bytes.
use vstd::prelude::*;
use vstd::string::*;

use crate::metal::config::MetalGdrConfig;
use crate::metal::slot::{int8_kv_group_size, MetalKvCacheDtype};
#[allow(unused_imports)]
use crate::metal::slot::{group_divides_head, group_size, page_bytes_of, sat};
use crate::text::{chars_at, decimal_string, is_white_space, parse_number, to_chars, trimmed};
#[allow(unused_imports)]
use crate::text::{decimal, is_digit, is_white, occurs_at, parsed_number, trim_of};

verus! {

pub const GIB: u64 = 0x4000_0000;

pub const MIB: u64 = 0x10_0000;

/// Wired memory beside the weights.
pub const WIRED_HEADROOM_BYTES: u64 = 0x4000_0000;

/// Runtime scratch beside the weights: 4 GiB, or 6 GiB for low impact.
pub const DEFAULT_RUNTIME_HEADROOM_BYTES: u64 = 0x1_0000_0000;

pub const LOW_IMPACT_RUNTIME_HEADROOM_BYTES: u64 = 0x1_8000_0000;

/// Memory kept free against swapping: 6 GiB, or 8 GiB for low impact.
pub const DEFAULT_AVAILABLE_RESERVE_BYTES: u64 = 0x1_8000_0000;

pub const LOW_IMPACT_AVAILABLE_RESERVE_BYTES: u64 = 0x2_0000_0000;

/// Allocator cache: 1 GiB, or 512 MiB for low impact.
pub const DEFAULT_CACHE_LIMIT_BYTES: u64 = 0x4000_0000;

pub const LOW_IMPACT_CACHE_LIMIT_BYTES: u64 = 0x2000_0000;

/// How long paging is watched before a plan is made.
pub const PAGING_SAMPLE_MILLIS: u64 = 1000;

/// Swap in use from which on a warning is due: 512 MiB.
pub const SWAP_USED_WARN_BYTES: u64 = 0x2000_0000;

/// Page-outs, and swap-outs, in a sample from which on startup is refused:
/// 64 MiB and 16 MiB.
pub const ACTIVE_PAGEOUT_GUARD_BYTES: u64 = 0x400_0000;

pub const ACTIVE_SWAPOUT_GUARD_BYTES: u64 = 0x100_0000;

#[derive(Debug, Clone, Copy, PartialEq, Eq, Structural)]
pub struct MetalResourceRequest {
    pub kv_cache_dtype: MetalKvCacheDtype,
    pub num_slots: u64,
    pub total_pages: u64,
    pub page_size: u64,
    pub low_impact: bool,
    pub memory_budget_bytes: Option<u64>,
    pub system_reserve_bytes: Option<u64>,
    pub allow_swap: bool,
}

#[derive(Debug, Clone, Copy, PartialEq, Eq, Structural)]
pub struct MetalWeightOnlyResourceRequest {
    pub low_impact: bool,
    pub memory_budget_bytes: Option<u64>,
    pub system_reserve_bytes: Option<u64>,
    pub allow_swap: bool,
}

/// What the machine says of its memory.
#[derive(Debug, Clone, Copy, PartialEq, Eq, Structural)]
pub struct MetalSystemStatus {
    pub total_memory_bytes: Option<u64>,
    pub available_memory_bytes: Option<u64>,
    pub recommended_max_working_set_bytes: Option<u64>,
    pub swap_used_bytes: Option<u64>,
    pub pageouts_delta_bytes: Option<u64>,
    pub swapouts_delta_bytes: Option<u64>,
    pub paging_sample_millis: u64,
}

/// Paging seen over a sample.
#[derive(Debug, Clone, Copy, PartialEq, Eq, Structural)]
pub struct PagingActivity {
    pub pageouts_delta_bytes: Option<u64>,
    pub swapouts_delta_bytes: Option<u64>,
    pub sample_millis: u64,
}

impl PagingActivity {
    pub open spec fn pressing(self) -> bool {
        (self.pageouts_delta_bytes is Some && self.pageouts_delta_bytes->0
            >= ACTIVE_PAGEOUT_GUARD_BYTES) || (self.swapouts_delta_bytes is Some
            && self.swapouts_delta_bytes->0 >= ACTIVE_SWAPOUT_GUARD_BYTES)
    }

    pub fn is_active_pressure(self) -> (r: bool)
        ensures
            r == self.pressing(),
    {
        let out: bool = match self.pageouts_delta_bytes {
            Some(b) => b >= ACTIVE_PAGEOUT_GUARD_BYTES,
            None => false,
        };
        let swap: bool = match self.swapouts_delta_bytes {
            Some(b) => b >= ACTIVE_SWAPOUT_GUARD_BYTES,
            None => false,
        };
        out || swap
    }
}

pub open spec fn mib_text(bytes: Option<u64>) -> Seq<char> {
    match bytes {
        None => "unknown"@,
        Some(b) => decimal(b as nat / 0x10_0000) + "MiB"@,
    }
}

fn format_mib(bytes: Option<u64>) -> (s: String)
    ensures
        s@ == mib_text(bytes),
{
    match bytes {
        None => String::from_str("unknown"),
        Some(b) => {
            let mut s: String = decimal_string(b / MIB);
            s.append("MiB");
            s
        },
    }
}

impl MetalSystemStatus {
    /// The machine's memory as its probes give it, before paging is sampled.
    pub fn current(
        total_memory_bytes: Option<u64>,
        available_memory_bytes: Option<u64>,
        recommended_max_working_set_bytes: Option<u64>,
        swap_used_bytes: Option<u64>,
    ) -> (s: Self)
        ensures
            s == (MetalSystemStatus {
                total_memory_bytes,
                available_memory_bytes,
                recommended_max_working_set_bytes,
                swap_used_bytes,
                pageouts_delta_bytes: None,
                swapouts_delta_bytes: None,
                paging_sample_millis: 0,
            }),
    {
        MetalSystemStatus {
            total_memory_bytes,
            available_memory_bytes,
            recommended_max_working_set_bytes,
            swap_used_bytes,
            pageouts_delta_bytes: None,
            swapouts_delta_bytes: None,
            paging_sample_millis: 0,
        }
    }

    pub open spec fn sampled(self, paging: Option<PagingActivity>) -> MetalSystemStatus {
        MetalSystemStatus {
            pageouts_delta_bytes: match paging {
                Some(p) => p.pageouts_delta_bytes,
                None => None,
            },
            swapouts_delta_bytes: match paging {
                Some(p) => p.swapouts_delta_bytes,
                None => None,
            },
            paging_sample_millis: match paging {
                Some(p) => p.sample_millis,
                None => 0,
            },
            ..self
        }
    }

    /// The status with what a paging sample showed.
    pub fn with_paging(&self, paging: Option<PagingActivity>) -> (s: Self)
        ensures
            s == self.sampled(paging),
    {
        let mut s: MetalSystemStatus = *self;
        match paging {
            Some(p) => {
                s.pageouts_delta_bytes = p.pageouts_delta_bytes;
                s.swapouts_delta_bytes = p.swapouts_delta_bytes;
                s.paging_sample_millis = p.sample_millis;
            },
            None => {
                s.pageouts_delta_bytes = None;
                s.swapouts_delta_bytes = None;
                s.paging_sample_millis = 0;
            },
        }
        s
    }

    pub open spec fn paging_text(self) -> Seq<char> {
        if self.paging_sample_millis == 0 {
            "paging_delta=not_sampled"@
        } else {
            "pageouts_delta="@ + mib_text(self.pageouts_delta_bytes) + " swapouts_delta="@
                + mib_text(self.swapouts_delta_bytes) + " sample="@ + decimal(
                self.paging_sample_millis as nat,
            ) + "ms"@
        }
    }

    /// One line for a person. The three texts are the total memory, the
    /// available memory and the working set in GiB.
    pub open spec fn line(self, total: Seq<char>, available: Seq<char>, working_set: Seq<char>) -> Seq<
        char,
    > {
        "system total="@ + total + " available="@ + available + " gpu_working_set="@ + working_set
            + " swap_used="@ + mib_text(self.swap_used_bytes) + " "@ + self.paging_text()
    }

    pub fn describe(&self, total: &str, available: &str, working_set: &str) -> (s: String)
        ensures
            s@ == self.line(total@, available@, working_set@),
    {
        let mut s: String = String::from_str("system total=");
        s.append(total);
        s.append(" available=");
        s.append(available);
        s.append(" gpu_working_set=");
        s.append(working_set);
        s.append(" swap_used=");
        s.append(format_mib(self.swap_used_bytes).as_str());
        s.append(" ");
        let paging: String = if self.paging_sample_millis == 0 {
            String::from_str("paging_delta=not_sampled")
        } else {
            let mut p: String = String::from_str("pageouts_delta=");
            p.append(format_mib(self.pageouts_delta_bytes).as_str());
            p.append(" swapouts_delta=");
            p.append(format_mib(self.swapouts_delta_bytes).as_str());
            p.append(" sample=");
            p.append(decimal_string(self.paging_sample_millis).as_str());
            p.append("ms");
            p
        };
        s.append(paging.as_str());
        s
    }
}

/// What a process may take.
#[derive(Debug, Clone, Copy, PartialEq, Eq, Structural)]
pub struct MetalResourcePlan {
    pub total_memory_bytes: Option<u64>,
    pub available_memory_bytes: Option<u64>,
    pub recommended_max_working_set_bytes: Option<u64>,
    pub swap_used_bytes: Option<u64>,
    pub pageouts_delta_bytes: Option<u64>,
    pub swapouts_delta_bytes: Option<u64>,
    pub paging_sample_millis: u64,
    pub residual_swap_warning: bool,
    pub memory_limit_bytes: u64,
    pub cache_limit_bytes: u64,
    pub wired_limit_bytes: u64,
    pub weight_bytes: u64,
    pub runtime_headroom_bytes: u64,
    pub static_state_bytes: u64,
    pub kv_budget_bytes: u64,
    pub kv_bytes_per_token: u64,
    pub requested_total_pages: u64,
    pub planned_total_pages: u64,
    pub capacity_tokens: u64,
    pub clamped: bool,
}

impl MetalResourcePlan {
    pub open spec fn status(self) -> MetalSystemStatus {
        MetalSystemStatus {
            total_memory_bytes: self.total_memory_bytes,
            available_memory_bytes: self.available_memory_bytes,
            recommended_max_working_set_bytes: self.recommended_max_working_set_bytes,
            swap_used_bytes: self.swap_used_bytes,
            pageouts_delta_bytes: self.pageouts_delta_bytes,
            swapouts_delta_bytes: self.swapouts_delta_bytes,
            paging_sample_millis: self.paging_sample_millis,
        }
    }

    pub open spec fn line(self, total: Seq<char>, available: Seq<char>, working_set: Seq<char>) -> Seq<
        char,
    > {
        self.status().line(total, available, working_set) + " memory_limit="@ + decimal(
            self.memory_limit_bytes as nat / 0x4000_0000,
        ) + "GiB wired="@ + decimal(self.wired_limit_bytes as nat / 0x4000_0000) + "GiB cache="@
            + decimal(self.cache_limit_bytes as nat / 0x10_0000) + "MiB weights="@ + decimal(
            self.weight_bytes as nat / 0x4000_0000,
        ) + "GiB runtime_headroom="@ + decimal(self.runtime_headroom_bytes as nat / 0x4000_0000)
            + "GiB static_state="@ + decimal(self.static_state_bytes as nat / 0x10_0000)
            + "MiB kv_budget="@ + decimal(self.kv_budget_bytes as nat / 0x4000_0000)
            + "GiB kv_capacity_tokens="@ + decimal(self.capacity_tokens as nat) + " pages="@
            + decimal(self.planned_total_pages as nat) + if self.clamped {
            " clamped"@
        } else {
            ""@
        }
    }

    /// One line for a person; the texts are as for the system status.
    pub fn describe(&self, total: &str, available: &str, working_set: &str) -> (s: String)
        ensures
            s@ == self.line(total@, available@, working_set@),
    {
        let status = MetalSystemStatus {
            total_memory_bytes: self.total_memory_bytes,
            available_memory_bytes: self.available_memory_bytes,
            recommended_max_working_set_bytes: self.recommended_max_working_set_bytes,
            swap_used_bytes: self.swap_used_bytes,
            pageouts_delta_bytes: self.pageouts_delta_bytes,
            swapouts_delta_bytes: self.swapouts_delta_bytes,
            paging_sample_millis: self.paging_sample_millis,
        };
        let mut s: String = status.describe(total, available, working_set);
        s.append(" memory_limit=");
        s.append(decimal_string(self.memory_limit_bytes / GIB).as_str());
        s.append("GiB wired=");
        s.append(decimal_string(self.wired_limit_bytes / GIB).as_str());
        s.append("GiB cache=");
        s.append(decimal_string(self.cache_limit_bytes / MIB).as_str());
        s.append("MiB weights=");
        s.append(decimal_string(self.weight_bytes / GIB).as_str());
        s.append("GiB runtime_headroom=");
        s.append(decimal_string(self.runtime_headroom_bytes / GIB).as_str());
        s.append("GiB static_state=");
        s.append(decimal_string(self.static_state_bytes / MIB).as_str());
        s.append("MiB kv_budget=");
        s.append(decimal_string(self.kv_budget_bytes / GIB).as_str());
        s.append("GiB kv_capacity_tokens=");
        s.append(decimal_string(self.capacity_tokens).as_str());
        s.append(" pages=");
        s.append(decimal_string(self.planned_total_pages).as_str());
        if self.clamped {
            s.append(" clamped");
        } else {
            s.append("");
        }
        s
    }
}

/// Why startup is refused.
#[derive(Debug, Clone, Copy, PartialEq, Eq, Structural)]
pub enum ResourceError {
    UnknownWeights,
    ActivePaging,
    BudgetTooSmall,
    ReserveTooLarge { reserve: u64, total: u64 },
    BudgetExceedsMemory { budget: u64, limit: u64 },
    AvailableTooLow { available: u64, reserve: u64 },
    UnknownBudget,
    WiredOverflow,
    StateOverflow,
    FixedOverflow,
    BelowFixed { limit: u64, fixed: u64 },
    BelowWired { limit: u64, wired: u64 },
    HeadDim { head_dim: usize },
    KvOverflow,
    KvZero,
    RequestOverflow,
    NoPageFits { kv_budget: u64, page_size: u64 },
    CapacityOverflow,
}

/// Memory left to the system by default: a third or a quarter of it, at least
/// 18 or 14 GiB, and never so much that less than 1 GiB is left.
pub open spec fn system_reserve(total: u64, low_impact: bool) -> nat {
    let fraction = if low_impact {
        total as nat / 3
    } else {
        total as nat / 4
    };
    let floor = if low_impact {
        18 * 0x4000_0000nat
    } else {
        14 * 0x4000_0000nat
    };
    let wanted = if fraction >= floor {
        fraction
    } else {
        floor
    };
    let most = if total >= 0x4000_0000 {
        (total - 0x4000_0000) as nat
    } else {
        0
    };
    if wanted <= most {
        wanted
    } else {
        most
    }
}

pub fn default_system_reserve_bytes(total: u64, low_impact: bool) -> (r: u64)
    ensures
        r == system_reserve(total, low_impact),
{
    let fraction: u64 = if low_impact {
        total / 3
    } else {
        total / 4
    };
    let floor: u64 = if low_impact {
        18 * GIB
    } else {
        14 * GIB
    };
    let wanted: u64 = if fraction >= floor {
        fraction
    } else {
        floor
    };
    let most: u64 = if total >= GIB {
        total - GIB
    } else {
        0
    };
    if wanted <= most {
        wanted
    } else {
        most
    }
}

pub open spec fn available_reserve(low_impact: bool) -> u64 {
    if low_impact {
        LOW_IMPACT_AVAILABLE_RESERVE_BYTES
    } else {
        DEFAULT_AVAILABLE_RESERVE_BYTES
    }
}

pub open spec fn reserve_of(asked: Option<u64>, total: u64, low_impact: bool) -> u64 {
    match asked {
        Some(r) => r,
        None => system_reserve(total, low_impact) as u64,
    }
}

/// What is wrong with the machine's memory for any budget.
pub open spec fn memory_fault(
    reserve: Option<u64>,
    low_impact: bool,
    total: Option<u64>,
    available: Option<u64>,
    budget: Option<u64>,
) -> Option<ResourceError> {
    let r = reserve_of(reserve, total->0, low_impact);
    if budget is Some && budget->0 < GIB {
        Some(ResourceError::BudgetTooSmall)
    } else if total is Some && r >= total->0 {
        Some(ResourceError::ReserveTooLarge { reserve: r, total: total->0 })
    } else if budget is Some && total is Some && budget->0 > total->0 - r {
        Some(
            ResourceError::BudgetExceedsMemory { budget: budget->0, limit: (total->0 - r) as u64 },
        )
    } else if available is Some && available->0 <= available_reserve(low_impact) {
        Some(
            ResourceError::AvailableTooLow {
                available: available->0,
                reserve: available_reserve(low_impact),
            },
        )
    } else {
        None
    }
}

pub open spec fn least(a: Option<u64>, b: Option<u64>) -> Option<u64> {
    match (a, b) {
        (Some(x), Some(y)) => Some(
            if x <= y {
                x
            } else {
                y
            },
        ),
        (Some(x), None) => Some(x),
        (None, _) => b,
    }
}

/// What an open budget may be at most: the least of the working set, the
/// memory beyond the system's reserve, and what is available beyond the
/// reserve against swapping.
pub open spec fn open_budget(
    reserve: Option<u64>,
    low_impact: bool,
    total: Option<u64>,
    available: Option<u64>,
    working_set: Option<u64>,
) -> Option<u64> {
    least(
        least(
            working_set,
            match total {
                Some(t) => Some((t - reserve_of(reserve, t, low_impact)) as u64),
                None => None,
            },
        ),
        match available {
            Some(a) => Some((a - available_reserve(low_impact)) as u64),
            None => None,
        },
    )
}

/// The memory limit: the budget asked for where the machine has it, an open
/// budget otherwise.
pub open spec fn memory_limit(
    budget: Option<u64>,
    reserve: Option<u64>,
    low_impact: bool,
    total: Option<u64>,
    available: Option<u64>,
    working_set: Option<u64>,
) -> Result<u64, ResourceError> {
    match memory_fault(reserve, low_impact, total, available, budget) {
        Some(e) => Err(e),
        None => match budget {
            Some(b) => Ok(b),
            None => match open_budget(reserve, low_impact, total, available, working_set) {
                Some(b) => Ok(b),
                None => Err(ResourceError::UnknownBudget),
            },
        },
    }
}

fn least_of(a: Option<u64>, b: Option<u64>) -> (r: Option<u64>)
    ensures
        r == least(a, b),
{
    match a {
        Some(x) => match b {
            Some(y) => Some(
                if x <= y {
                    x
                } else {
                    y
                },
            ),
            None => Some(x),
        },
        None => b,
    }
}

pub fn resolve_memory_limit(
    budget: Option<u64>,
    reserve: Option<u64>,
    low_impact: bool,
    status: &MetalSystemStatus,
) -> (r: Result<u64, ResourceError>)
    ensures
        r == memory_limit(
            budget,
            reserve,
            low_impact,
            status.total_memory_bytes,
            status.available_memory_bytes,
            status.recommended_max_working_set_bytes,
        ),
{
    match budget {
        Some(b) => {
            if b < GIB {
                return Err(ResourceError::BudgetTooSmall);
            }
        },
        None => {},
    }
    let mut by_total: Option<u64> = None;
    match status.total_memory_bytes {
        Some(total) => {
            let r: u64 = match reserve {
                Some(r) => r,
                None => default_system_reserve_bytes(total, low_impact),
            };
            if r >= total {
                return Err(ResourceError::ReserveTooLarge { reserve: r, total });
            }
            match budget {
                Some(b) => {
                    if b > total - r {
                        return Err(
                            ResourceError::BudgetExceedsMemory { budget: b, limit: total - r },
                        );
                    }
                },
                None => {},
            }
            by_total = Some(total - r);
        },
        None => {},
    }
    let floor: u64 = if low_impact {
        LOW_IMPACT_AVAILABLE_RESERVE_BYTES
    } else {
        DEFAULT_AVAILABLE_RESERVE_BYTES
    };
    let mut by_available: Option<u64> = None;
    match status.available_memory_bytes {
        Some(available) => {
            if available <= floor {
                return Err(ResourceError::AvailableTooLow { available, reserve: floor });
            }
            by_available = Some(available - floor);
        },
        None => {},
    }
    match budget {
        Some(b) => Ok(b),
        None => match least_of(
            least_of(status.recommended_max_working_set_bytes, by_total),
            by_available,
        ) {
            Some(b) => Ok(b),
            None => Err(ResourceError::UnknownBudget),
        },
    }
}

/// An open budget never reaches into what the system or the reserve against
/// swapping keeps.
pub proof fn open_budget_leaves_reserves(
    reserve: Option<u64>,
    low_impact: bool,
    total: Option<u64>,
    available: Option<u64>,
    working_set: Option<u64>,
)
    requires
        memory_limit(None, reserve, low_impact, total, available, working_set) is Ok,
    ensures
        ({
            let b = memory_limit(None, reserve, low_impact, total, available, working_set)->Ok_0;
            &&& total is Some ==> b + reserve_of(reserve, total->0, low_impact) <= total->0
            &&& available is Some ==> b + available_reserve(low_impact) <= available->0
            &&& working_set is Some ==> b <= working_set->0
        }),
{
}

/// Bytes that stay with the system: those asked for, or its default share.
pub open spec fn kept_by_system(reserve: Option<u64>, low_impact: bool, total: u64) -> int {
    match reserve {
        Some(r) => r as int,
        None => system_reserve(total, low_impact) as int,
    }
}

/// Bytes kept free against swapping: 6 GiB, or 8 GiB for low impact.
pub open spec fn kept_free(low_impact: bool) -> int {
    if low_impact {
        0x2_0000_0000
    } else {
        0x1_8000_0000
    }
}

/// Whether a number bounds an open budget: it is the recommended working set,
/// the memory beyond what stays with the system, or what is available beyond
/// what is kept free against swapping.
pub open spec fn bounds_budget(
    reserve: Option<u64>,
    low_impact: bool,
    total: Option<u64>,
    available: Option<u64>,
    working_set: Option<u64>,
    x: int,
) -> bool {
    ||| (working_set is Some && x == working_set->0)
    ||| (total is Some && x == total->0 - kept_by_system(reserve, low_impact, total->0))
    ||| (available is Some && x == available->0 - kept_free(low_impact))
}

/// With no budget asked for, the limit is the least of the known bounds: it is
/// one of them and none is below it. It is refused exactly where no bound is
/// known or a reserve leaves nothing, so where every bound is positive the
/// limit is.
pub proof fn open_budget_is_the_least_bound(
    reserve: Option<u64>,
    low_impact: bool,
    total: Option<u64>,
    available: Option<u64>,
    working_set: Option<u64>,
)
    ensures
        ({
            let limit = memory_limit(None, reserve, low_impact, total, available, working_set);
            &&& limit is Ok ==> bounds_budget(
                reserve,
                low_impact,
                total,
                available,
                working_set,
                limit->Ok_0 as int,
            )
            &&& limit is Ok ==> forall|x: int| #[trigger]
                bounds_budget(reserve, low_impact, total, available, working_set, x)
                    ==> limit->Ok_0 <= x
            &&& limit is Ok <==> {
                &&& total is Some || available is Some || working_set is Some
                &&& total is Some ==> kept_by_system(reserve, low_impact, total->0) < total->0
                &&& available is Some ==> kept_free(low_impact) < available->0
            }
            &&& (limit is Ok && forall|x: int| #[trigger]
                bounds_budget(reserve, low_impact, total, available, working_set, x) ==> x > 0)
                ==> limit->Ok_0 > 0
        }),
{
    let limit = memory_limit(None, reserve, low_impact, total, available, working_set);
    if limit is Ok {
        assert(bounds_budget(
            reserve,
            low_impact,
            total,
            available,
            working_set,
            limit->Ok_0 as int,
        ));
    }
}

/// A budget that is asked for is given in full or refused: it must be 1 GiB at
/// least, leave the system its reserve, and find what is kept free available.
pub proof fn asked_budget_is_given_in_full(
    budget: u64,
    reserve: Option<u64>,
    low_impact: bool,
    total: Option<u64>,
    available: Option<u64>,
    working_set: Option<u64>,
)
    ensures
        ({
            let limit = memory_limit(
                Some(budget),
                reserve,
                low_impact,
                total,
                available,
                working_set,
            );
            &&& limit is Ok ==> limit->Ok_0 == budget
            &&& limit is Ok <==> {
                &&& budget >= 0x4000_0000
                &&& total is Some ==> kept_by_system(reserve, low_impact, total->0) < total->0
                    && budget + kept_by_system(reserve, low_impact, total->0) <= total->0
                &&& available is Some ==> kept_free(low_impact) < available->0
            }
        }),
{
}

/// The system's default share leaves at least 1 GiB where there is that much,
/// grows with the memory without ever taking more than the growth, and is no
/// smaller for low impact. A machine large enough gives a quarter, or a third
/// for low impact; one in between gives 14 GiB, or 18 GiB.
pub proof fn default_reserve_is_a_share(small: u64, total: u64, low_impact: bool)
    requires
        small <= total,
    ensures
        ({
            let kept = system_reserve(total, low_impact);
            &&& total >= 0x4000_0000 ==> kept + 0x4000_0000 <= total
            &&& total < 0x4000_0000 ==> kept == 0
            &&& system_reserve(small, low_impact) <= kept
            &&& small - system_reserve(small, low_impact) <= total - kept
            &&& system_reserve(total, false) <= system_reserve(total, true)
            &&& !low_impact && total >= 56 * 0x4000_0000 ==> 4 * kept <= total < 4 * kept + 4
            &&& low_impact && total >= 54 * 0x4000_0000 ==> 3 * kept <= total < 3 * kept + 3
            &&& !low_impact && 15 * 0x4000_0000 <= total <= 56 * 0x4000_0000 ==> kept == 14
                * 0x4000_0000
            &&& low_impact && 19 * 0x4000_0000 <= total <= 54 * 0x4000_0000 ==> kept == 18
                * 0x4000_0000
        }),
{
}

// ---- what a model needs ----

/// A product that fits, step by step.
pub open spec fn times(a: Option<nat>, b: nat) -> Option<nat> {
    match a {
        Some(x) => if x * b <= u64::MAX {
            Some(x * b)
        } else {
            None
        },
        None => None,
    }
}

fn times_checked(a: Option<u64>, b: u64) -> (r: Option<u64>)
    ensures
        match (
            r,
            times(
                match a {
                    Some(x) => Some(x as nat),
                    None => None,
                },
                b as nat,
            ),
        ) {
            (Some(x), Some(y)) => x == y,
            (None, None) => true,
            _ => false,
        },
{
    match a {
        Some(x) => x.checked_mul(b),
        None => None,
    }
}

/// Cache bytes that one token takes in all full-attention layers: two bf16
/// vectors per head, or for INT8 the packed values with a scale and a bias
/// per group, for keys and values each. `KvOverflow` where a step of the
/// product does not fit.
pub open spec fn kv_per_token(layers: nat, nkv: nat, head_dim: usize, dtype: MetalKvCacheDtype) -> Result<
    nat,
    ResourceError,
> {
    let product = match dtype {
        MetalKvCacheDtype::Bf16 => Ok(
            times(times(times(times(Some(2), nkv), head_dim as nat), 2), layers),
        ),
        MetalKvCacheDtype::Int8 => match group_size(head_dim as nat) {
            None => Err(ResourceError::HeadDim { head_dim }),
            Some(g) => Ok(
                times(
                    times(
                        times(
                            times(Some(1), head_dim as nat + 4 * (head_dim as nat / g)),
                            nkv,
                        ),
                        2,
                    ),
                    layers,
                ),
            ),
        },
    };
    match product {
        Err(e) => Err(e),
        Ok(None) => Err(ResourceError::KvOverflow),
        Ok(Some(n)) => Ok(n),
    }
}

pub fn kv_bytes_per_token_per_slot(
    layers: usize,
    nkv: usize,
    head_dim: usize,
    dtype: MetalKvCacheDtype,
) -> (r: Result<u64, ResourceError>)
    ensures
        match (r, kv_per_token(layers as nat, nkv as nat, head_dim, dtype)) {
            (Ok(b), Ok(n)) => b == n,
            (Err(e), Err(f)) => e == f,
            _ => false,
        },
{
    let product: Option<u64> = match dtype {
        MetalKvCacheDtype::Bf16 => times_checked(
            times_checked(
                times_checked(times_checked(Some(2), nkv as u64), head_dim as u64),
                2,
            ),
            layers as u64,
        ),
        MetalKvCacheDtype::Int8 => {
            let g: usize = match int8_kv_group_size(head_dim) {
                Err(_) => {
                    return Err(ResourceError::HeadDim { head_dim });
                },
                Ok(g) => g,
            };
            let groups: u64 = (head_dim / g) as u64;
            assert(groups <= u64::MAX / 32) by {
                assert(head_dim as int / g as int <= head_dim as int / 32) by (nonlinear_arith)
                    requires
                        g >= 32,
                        head_dim >= 0,
                ;
            }
            let one: Option<u64> = (head_dim as u64).checked_add(4 * groups);
            times_checked(times_checked(times_checked(one, nkv as u64), 2), layers as u64)
        },
    };
    match product {
        None => Err(ResourceError::KvOverflow),
        Some(n) => Ok(n),
    }
}

/// The cache bytes of a token add up: layers side by side take what each takes,
/// and one layer with one head takes a key and a value of two bytes per
/// dimension, or, packed, of one byte per dimension with a scale and a bias of
/// two bytes for every group.
pub proof fn kv_bytes_add_up(a: nat, b: nat, nkv: nat, head_dim: usize, dtype: MetalKvCacheDtype)
    requires
        kv_per_token(a + b, nkv, head_dim, dtype) is Ok,
    ensures
        kv_per_token(a, nkv, head_dim, dtype) is Ok,
        kv_per_token(b, nkv, head_dim, dtype) is Ok,
        kv_per_token(a + b, nkv, head_dim, dtype)->Ok_0 == kv_per_token(
            a,
            nkv,
            head_dim,
            dtype,
        )->Ok_0 + kv_per_token(b, nkv, head_dim, dtype)->Ok_0,
        dtype == MetalKvCacheDtype::Bf16 ==> kv_per_token(a + b, nkv, head_dim, dtype)->Ok_0 == (a
            + b) * nkv * 2 * (2 * head_dim),
        dtype == MetalKvCacheDtype::Int8 ==> head_dim % 32 == 0 && kv_per_token(
            a + b,
            nkv,
            head_dim,
            dtype,
        )->Ok_0 == (a + b) * nkv * 2 * (head_dim + 2 * 2 * (head_dim as nat / group_size(
            head_dim as nat,
        )->0)),
{
    let h = head_dim as nat;
    match dtype {
        MetalKvCacheDtype::Bf16 => {
            let one = 2 * nkv * h * 2;
            assert(one * (a + b) == one * a + one * b && one * a >= 0 && one * b >= 0)
                by (nonlinear_arith)
                requires
                    one >= 0,
                    a >= 0,
                    b >= 0,
            ;
            assert((2 * nkv * h * 2) * (a + b) == (a + b) * nkv * 2 * (2 * h)) by (nonlinear_arith);
        },
        MetalKvCacheDtype::Int8 => {
            group_divides_head(h);
            let k = h / group_size(h)->0;
            let one = 1 * (h + 4 * k) * nkv * 2;
            assert(one * (a + b) == one * a + one * b && one * a >= 0 && one * b >= 0)
                by (nonlinear_arith)
                requires
                    one >= 0,
                    a >= 0,
                    b >= 0,
            ;
            assert((1 * (h + 4 * k) * nkv * 2) * (a + b) == (a + b) * nkv * 2 * (h + 2 * 2 * k))
                by (nonlinear_arith);
        },
    }
}

pub open spec fn at_most_usize(n: nat) -> nat {
    if n > usize::MAX {
        usize::MAX as nat
    } else {
        n
    }
}

/// A page's estimate is its tokens times the bytes of one, at most
/// `usize::MAX`.
pub proof fn a_page_is_its_tokens(
    layers: nat,
    nkv: nat,
    head_dim: usize,
    dtype: MetalKvCacheDtype,
    page_size: nat,
)
    requires
        kv_per_token(layers, nkv, head_dim, dtype) is Ok,
    ensures
        page_bytes_of(layers, nkv, head_dim as nat, dtype, page_size) == at_most_usize(
            page_size * kv_per_token(layers, nkv, head_dim, dtype)->Ok_0,
        ),
{
    let h = head_dim as nat;
    let n = kv_per_token(layers, nkv, head_dim, dtype)->Ok_0;
    match dtype {
        MetalKvCacheDtype::Bf16 => {
            lemma_capped(layers * 2, nkv);
            lemma_capped(layers * 2 * nkv, page_size);
            lemma_capped(layers * 2 * nkv * page_size, h);
            lemma_capped(layers * 2 * nkv * page_size * h, 2);
            assert(n == 2 * nkv * h * 2 * layers);
            assert(layers * 2 * nkv * page_size * h * 2 == page_size * (2 * nkv * h * 2 * layers))
                by (nonlinear_arith);
        },
        MetalKvCacheDtype::Int8 => {
            group_divides_head(h);
            let k = h / group_size(h)->0;
            let d = h / 4;
            let tokens = nkv * page_size;
            lemma_capped(tokens, d);
            lemma_capped(tokens * d, 4);
            lemma_capped(tokens, k);
            lemma_capped(tokens * k, 2);
            lemma_capped(tokens * d * 4, 2);
            lemma_capped(tokens * k * 2, 4);
            let all = tokens * d * 4 * 2 + tokens * k * 2 * 4;
            lemma_capped(all, layers);
            assert(h == 4 * d);
            assert(n == (h + 4 * k) * nkv * 2 * layers) by {
                assert(1 * (h + 4 * k) == h + 4 * k);
            }
            assert(layers * ((nkv * page_size) * d * 4 * 2 + (nkv * page_size) * k * 2 * 4)
                == page_size * ((4 * d + 4 * k) * nkv * 2 * layers)) by (nonlinear_arith);
        },
    }
}

/// A product of what was capped is the whole product, capped.
proof fn lemma_capped(x: nat, b: nat)
    ensures
        sat(at_most_usize(x), b) == at_most_usize(x * b),
        sat(b, at_most_usize(x)) == at_most_usize(b * x),
{
    assert(x * b == b * x) by (nonlinear_arith);
    let m = usize::MAX as nat;
    assert(m * b == b * m) by (nonlinear_arith);
    if x > m && b > 0 {
        assert(m * b >= m && x * b > m) by (nonlinear_arith)
            requires
                x > m,
                b > 0,
        ;
    }
    if b == 0 {
        assert(x * b == 0 && m * b == 0) by (nonlinear_arith)
            requires
                b == 0,
        ;
    }
}

pub open spec fn sat64(n: nat) -> nat {
    if n > u64::MAX {
        u64::MAX as nat
    } else {
        n
    }
}

fn times_sat(a: u64, b: u64) -> (r: u64)
    ensures
        r == sat64(a as nat * b as nat),
{
    match a.checked_mul(b) {
        Some(x) => x,
        None => u64::MAX,
    }
}

/// Recurrent state bytes of one slot, at most the range: an f32 matrix per
/// value head and the bf16 frames that the convolution looks back on, for
/// every linear-attention layer.
pub open spec fn gdr_bytes(layers: nat, c: MetalGdrConfig) -> nat {
    let recurrent = sat64(
        sat64(
            sat64(c.num_value_heads as nat * c.value_dim as nat) * c.key_dim as nat,
        ) * 4,
    );
    let frames = if c.conv_kernel == 0 {
        0
    } else {
        (c.conv_kernel - 1) as nat
    };
    let conv = sat64(sat64(frames * c.qkv() as nat) * 2);
    sat64(layers * sat64(recurrent + conv))
}

/// The recurrent state of a slot is, for every linear-attention layer, a matrix
/// of four-byte numbers per value head and the two-byte rows that the
/// convolution looks back on, at most `u64::MAX` in all.
pub proof fn state_bytes_add_up(layers: nat, c: MetalGdrConfig)
    ensures
        ({
            let matrix = c.num_value_heads as int * c.value_dim * c.key_dim * 4;
            let back = (if c.conv_kernel == 0 {
                0
            } else {
                c.conv_kernel - 1
            }) * (2 * (c.num_key_heads * c.key_dim) + c.num_value_heads * c.value_dim) * 2;
            let all = layers * (matrix + back);
            gdr_bytes(layers, c) == if all > u64::MAX {
                u64::MAX as int
            } else {
                all
            }
        }),
{
    let vv = c.num_value_heads as nat * c.value_dim as nat;
    let k = c.key_dim as nat;
    assert(c.num_key_heads * c.key_dim * 2 == 2 * (c.num_key_heads * c.key_dim))
        by (nonlinear_arith);
    assert(c.num_key_heads * c.key_dim >= 0 && c.num_value_heads * c.value_dim >= 0)
        by (nonlinear_arith);
    let q = c.qkv() as nat;
    let frames: nat = if c.conv_kernel == 0 {
        0
    } else {
        (c.conv_kernel - 1) as nat
    };
    lemma_sat64(vv, k);
    lemma_sat64(vv * k, 4);
    lemma_sat64(frames * q, 2);
    lemma_sat64(vv * k * 4 + frames * q * 2, layers);
    assert(layers * (vv * k * 4 + frames * q * 2) == (vv * k * 4 + frames * q * 2) * layers)
        by (nonlinear_arith);
}

proof fn lemma_sat64(x: nat, b: nat)
    ensures
        sat64(sat64(x) * b) == sat64(x * b),
        sat64(b * sat64(x)) == sat64(b * x),
{
    assert(x * b == b * x && sat64(x) * b == b * sat64(x)) by (nonlinear_arith);
    let m = u64::MAX as nat;
    if x > m && b > 0 {
        assert(m * b >= m && x * b > m) by (nonlinear_arith)
            requires
                x > m,
                b > 0,
        ;
    }
    if b == 0 {
        assert(x * b == 0 && sat64(x) * b == 0) by (nonlinear_arith)
            requires
                b == 0,
        ;
    }
}

pub fn gdr_state_bytes_per_slot(layers: usize, c: &MetalGdrConfig) -> (r: u64)
    requires
        c.qkv() <= usize::MAX,
    ensures
        r == gdr_bytes(layers as nat, *c),
{
    let recurrent: u64 = times_sat(
        times_sat(times_sat(c.num_value_heads as u64, c.value_dim as u64), c.key_dim as u64),
        4,
    );
    let frames: u64 = if c.conv_kernel == 0 {
        0
    } else {
        (c.conv_kernel - 1) as u64
    };
    let conv: u64 = times_sat(times_sat(frames, c.qkv_dim() as u64), 2);
    let both: u64 = match recurrent.checked_add(conv) {
        Some(x) => x,
        None => u64::MAX,
    };
    times_sat(layers as u64, both)
}

// ---- plans ----

/// What a budget kernel affords: bytes for the cache, and tokens.
#[derive(Debug, Clone, Copy, PartialEq, Eq, Structural)]
pub struct TokenBudget {
    pub budget_bytes: u64,
    pub affordable: Option<u64>,
}

/// What a plan is made from.
#[derive(Debug, Clone, Copy, PartialEq, Eq, Structural)]
pub struct PlanInputs {
    pub status: MetalSystemStatus,
    pub paging: Option<PagingActivity>,
    pub weight_bytes: Option<u64>,
    pub low_impact: bool,
    pub memory_budget_bytes: Option<u64>,
    pub system_reserve_bytes: Option<u64>,
    pub allow_swap: bool,
}

pub open spec fn headroom(low_impact: bool) -> u64 {
    if low_impact {
        LOW_IMPACT_RUNTIME_HEADROOM_BYTES
    } else {
        DEFAULT_RUNTIME_HEADROOM_BYTES
    }
}

/// The part of a plan that does not depend on the cache.
#[derive(Debug, Clone, Copy, PartialEq, Eq, Structural)]
pub struct FixedPlan {
    pub weight_bytes: u64,
    pub memory_limit: u64,
    pub wired_limit: u64,
    pub fixed: u64,
}

/// What the machine and the weights allow before any state is counted.
#[derive(Debug, Clone, Copy, PartialEq, Eq, Structural)]
pub struct MachinePlan {
    pub weight_bytes: u64,
    pub memory_limit: u64,
    pub wired_limit: u64,
}

pub open spec fn machine_plan(i: PlanInputs) -> Result<MachinePlan, ResourceError> {
    let limit = memory_limit(
        i.memory_budget_bytes,
        i.system_reserve_bytes,
        i.low_impact,
        i.status.total_memory_bytes,
        i.status.available_memory_bytes,
        i.status.recommended_max_working_set_bytes,
    );
    if i.weight_bytes is None {
        Err(ResourceError::UnknownWeights)
    } else if !i.allow_swap && i.paging is Some && i.paging->0.pressing() {
        Err(ResourceError::ActivePaging)
    } else if limit is Err {
        Err(limit->Err_0)
    } else if i.weight_bytes->0 + WIRED_HEADROOM_BYTES > u64::MAX {
        Err(ResourceError::WiredOverflow)
    } else {
        Ok(
            MachinePlan {
                weight_bytes: i.weight_bytes->0,
                memory_limit: limit->Ok_0,
                wired_limit: (i.weight_bytes->0 + WIRED_HEADROOM_BYTES) as u64,
            },
        )
    }
}

/// The plan of the bytes that are taken whatever the cache gets.
pub open spec fn fixed_plan(i: PlanInputs, state: Option<nat>) -> Result<
    FixedPlan,
    ResourceError,
> {
    match machine_plan(i) {
        Err(e) => Err(e),
        Ok(m) => {
            let w = m.weight_bytes;
            let limit = m.memory_limit;
            if state is None {
                Err(ResourceError::StateOverflow)
            } else {
                let fixed = w + headroom(i.low_impact) + state->0;
                if w + headroom(i.low_impact) > u64::MAX || fixed > u64::MAX {
                    Err(ResourceError::FixedOverflow)
                } else if limit <= fixed {
                    Err(ResourceError::BelowFixed { limit, fixed: fixed as u64 })
                } else if limit <= m.wired_limit {
                    Err(ResourceError::BelowWired { limit, wired: m.wired_limit })
                } else {
                    Ok(
                        FixedPlan {
                            weight_bytes: w,
                            memory_limit: limit,
                            wired_limit: m.wired_limit,
                            fixed: fixed as u64,
                        },
                    )
                }
            }
        },
    }
}

fn plan_machine(i: &PlanInputs) -> (r: Result<MachinePlan, ResourceError>)
    ensures
        r == machine_plan(*i),
{
    let weight_bytes: u64 = match i.weight_bytes {
        None => {
            return Err(ResourceError::UnknownWeights);
        },
        Some(w) => w,
    };
    let pressing: bool = match i.paging {
        Some(p) => p.is_active_pressure(),
        None => false,
    };
    if !i.allow_swap && pressing {
        return Err(ResourceError::ActivePaging);
    }
    let memory_limit: u64 = match resolve_memory_limit(
        i.memory_budget_bytes,
        i.system_reserve_bytes,
        i.low_impact,
        &i.status,
    ) {
        Err(e) => {
            return Err(e);
        },
        Ok(l) => l,
    };
    match weight_bytes.checked_add(WIRED_HEADROOM_BYTES) {
        None => Err(ResourceError::WiredOverflow),
        Some(wired_limit) => Ok(MachinePlan { weight_bytes, memory_limit, wired_limit }),
    }
}

fn plan_fixed(i: &PlanInputs, m: &MachinePlan, state: Option<u64>) -> (r: Result<
    FixedPlan,
    ResourceError,
>)
    requires
        machine_plan(*i) == Ok::<MachinePlan, ResourceError>(*m),
    ensures
        r == fixed_plan(
            *i,
            match state {
                Some(s) => Some(s as nat),
                None => None,
            },
        ),
{
    let state_bytes: u64 = match state {
        None => {
            return Err(ResourceError::StateOverflow);
        },
        Some(s) => s,
    };
    let room: u64 = if i.low_impact {
        LOW_IMPACT_RUNTIME_HEADROOM_BYTES
    } else {
        DEFAULT_RUNTIME_HEADROOM_BYTES
    };
    let fixed: u64 = match m.weight_bytes.checked_add(room) {
        None => {
            return Err(ResourceError::FixedOverflow);
        },
        Some(a) => match a.checked_add(state_bytes) {
            None => {
                return Err(ResourceError::FixedOverflow);
            },
            Some(b) => b,
        },
    };
    if m.memory_limit <= fixed {
        return Err(ResourceError::BelowFixed { limit: m.memory_limit, fixed });
    }
    if m.memory_limit <= m.wired_limit {
        return Err(
            ResourceError::BelowWired { limit: m.memory_limit, wired: m.wired_limit },
        );
    }
    Ok(
        FixedPlan {
            weight_bytes: m.weight_bytes,
            memory_limit: m.memory_limit,
            wired_limit: m.wired_limit,
            fixed,
        },
    )
}

pub open spec fn at_least_one(n: u64) -> u64 {
    if n == 0 {
        1
    } else {
        n
    }
}

/// The cache part of a plan: whole pages, at most those asked for.
#[derive(Debug, Clone, Copy, PartialEq, Eq, Structural)]
pub struct PagePlan {
    pub requested: u64,
    pub planned: u64,
    pub capacity_tokens: u64,
    pub clamped: bool,
}

pub open spec fn page_plan(total_pages: u64, page_size: u64, b: TokenBudget) -> Result<
    PagePlan,
    ResourceError,
> {
    let requested = at_least_one(total_pages);
    let size = at_least_one(page_size);
    let tokens = match b.affordable {
        Some(n) => n,
        None => 0,
    };
    let most = tokens as int / size as int;
    let planned = if requested <= most {
        requested as int
    } else {
        most
    };
    if requested * size > u64::MAX {
        Err(ResourceError::RequestOverflow)
    } else if most == 0 {
        Err(ResourceError::NoPageFits { kv_budget: b.budget_bytes, page_size: size })
    } else {
        Ok(
            PagePlan {
                requested,
                planned: planned as u64,
                capacity_tokens: (planned * size) as u64,
                clamped: planned < requested,
            },
        )
    }
}

/// Plans the pages that a budget affords.
pub fn plan_pages(total_pages: u64, page_size: u64, b: &TokenBudget) -> (r: Result<
    PagePlan,
    ResourceError,
>)
    ensures
        r == page_plan(total_pages, page_size, *b),
{
    let requested: u64 = if total_pages == 0 {
        1
    } else {
        total_pages
    };
    let size: u64 = if page_size == 0 {
        1
    } else {
        page_size
    };
    let asked: u64 = match requested.checked_mul(size) {
        None => {
            return Err(ResourceError::RequestOverflow);
        },
        Some(a) => a,
    };
    let tokens: u64 = match b.affordable {
        Some(n) => n,
        None => 0,
    };
    let most: u64 = tokens / size;
    if most == 0 {
        return Err(ResourceError::NoPageFits { kv_budget: b.budget_bytes, page_size: size });
    }
    let planned: u64 = if requested <= most {
        requested
    } else {
        most
    };
    assert(planned * size <= requested * size) by (nonlinear_arith)
        requires
            planned <= requested,
    ;
    Ok(
        PagePlan {
            requested,
            planned,
            capacity_tokens: planned * size,
            clamped: planned < requested,
        },
    )
}

/// A plan never asks for more pages than were requested or can be afforded,
/// gives fewer only where one more could not be afforded, and is marked as
/// clamped exactly then.
pub proof fn pages_are_affordable(total_pages: u64, page_size: u64, b: TokenBudget)
    requires
        page_plan(total_pages, page_size, b) is Ok,
    ensures
        ({
            let p = page_plan(total_pages, page_size, b)->Ok_0;
            let size: int = if page_size == 0 {
                1
            } else {
                page_size as int
            };
            &&& 1 <= p.planned <= p.requested
            &&& p.requested == if total_pages == 0 {
                1
            } else {
                total_pages
            }
            &&& p.planned * size <= b.affordable->0
            &&& p.planned < p.requested ==> (p.planned + 1) * size > b.affordable->0
            &&& p.clamped <==> p.planned < p.requested
            &&& p.capacity_tokens == p.planned * size
        }),
{
    let size = at_least_one(page_size) as int;
    let tokens = b.affordable->0 as int;
    let most = tokens / size;
    let planned = page_plan(total_pages, page_size, b)->Ok_0.planned as int;
    let requested = at_least_one(total_pages) as int;
    assert(most * size <= tokens && planned * size <= most * size && planned * size <= requested
        * size) by (nonlinear_arith)
        requires
            most == tokens / size,
            size >= 1,
            tokens >= 0,
            planned <= most,
            planned <= requested,
    ;
    if planned < requested {
        assert(planned == most);
        assert((most + 1) * size > tokens) by (nonlinear_arith)
            requires
                most == tokens / size,
                size >= 1,
                tokens >= 0,
        ;
    }
}

/// Pages are refused exactly where the request has no length in tokens or not
/// one page can be afforded.
pub proof fn pages_are_refused_only_for_want(total_pages: u64, page_size: u64, b: TokenBudget)
    ensures
        ({
            let size: int = if page_size == 0 {
                1
            } else {
                page_size as int
            };
            let asked: int = if total_pages == 0 {
                1
            } else {
                total_pages as int
            };
            let plan = page_plan(total_pages, page_size, b);
            &&& plan is Ok <==> asked * size <= u64::MAX && b.affordable is Some
                && b.affordable->0 >= size
            &&& plan is Err ==> (plan->Err_0 is RequestOverflow <==> asked * size > u64::MAX)
        }),
{
    let size = at_least_one(page_size) as int;
    let tokens: int = match b.affordable {
        Some(n) => n as int,
        None => 0,
    };
    assert(tokens / size == 0 <==> tokens < size) by (nonlinear_arith)
        requires
            size >= 1,
            tokens >= 0,
    ;
}

/// The fixed bytes are the weights, the runtime's scratch of 4 GiB, or 6 GiB
/// for low impact, and the state; a plan is made exactly where the weights are
/// known, the machine does not page hard unless that is allowed, there is a
/// limit, and both the fixed bytes and the wired ones, 1 GiB more than the
/// weights, lie below it.
pub proof fn fixed_bytes_lie_below_the_limit(i: PlanInputs, state: nat)
    ensures
        ({
            let f = fixed_plan(i, Some(state));
            let limit = memory_limit(
                i.memory_budget_bytes,
                i.system_reserve_bytes,
                i.low_impact,
                i.status.total_memory_bytes,
                i.status.available_memory_bytes,
                i.status.recommended_max_working_set_bytes,
            );
            let scratch: int = if i.low_impact {
                0x1_8000_0000
            } else {
                0x1_0000_0000
            };
            let paging_hard = i.paging is Some && ((i.paging->0.pageouts_delta_bytes is Some
                && i.paging->0.pageouts_delta_bytes->0 >= 64 * 0x10_0000) || (
            i.paging->0.swapouts_delta_bytes is Some && i.paging->0.swapouts_delta_bytes->0 >= 16
                * 0x10_0000));
            let fixed = i.weight_bytes->0 + scratch + state;
            &&& f is Ok <==> {
                &&& i.weight_bytes is Some
                &&& i.allow_swap || !paging_hard
                &&& limit is Ok
                &&& fixed < limit->Ok_0
                &&& i.weight_bytes->0 + 0x4000_0000 < limit->Ok_0
            }
            &&& f is Ok ==> {
                &&& f->Ok_0.weight_bytes == i.weight_bytes->0
                &&& f->Ok_0.memory_limit == limit->Ok_0
                &&& f->Ok_0.fixed == fixed
                &&& f->Ok_0.wired_limit == i.weight_bytes->0 + 0x4000_0000
            }
        }),
{
}

pub open spec fn full_plan(
    i: PlanInputs,
    f: FixedPlan,
    state: u64,
    per_token: u64,
    b: TokenBudget,
    p: PagePlan,
) -> MetalResourcePlan {
    let s = i.status.sampled(i.paging);
    MetalResourcePlan {
        total_memory_bytes: s.total_memory_bytes,
        available_memory_bytes: s.available_memory_bytes,
        recommended_max_working_set_bytes: s.recommended_max_working_set_bytes,
        swap_used_bytes: s.swap_used_bytes,
        pageouts_delta_bytes: s.pageouts_delta_bytes,
        swapouts_delta_bytes: s.swapouts_delta_bytes,
        paging_sample_millis: s.paging_sample_millis,
        residual_swap_warning: s.swap_used_bytes is Some && s.swap_used_bytes->0
            >= SWAP_USED_WARN_BYTES,
        memory_limit_bytes: f.memory_limit,
        cache_limit_bytes: if i.low_impact {
            LOW_IMPACT_CACHE_LIMIT_BYTES
        } else {
            DEFAULT_CACHE_LIMIT_BYTES
        },
        wired_limit_bytes: f.wired_limit,
        weight_bytes: f.weight_bytes,
        runtime_headroom_bytes: headroom(i.low_impact),
        static_state_bytes: state,
        kv_budget_bytes: b.budget_bytes,
        kv_bytes_per_token: per_token,
        requested_total_pages: p.requested,
        planned_total_pages: p.planned,
        capacity_tokens: p.capacity_tokens,
        clamped: p.clamped,
    }
}

fn make_plan(
    i: &PlanInputs,
    f: &FixedPlan,
    state: u64,
    per_token: u64,
    b: &TokenBudget,
    p: &PagePlan,
) -> (r: MetalResourcePlan)
    ensures
        r == full_plan(*i, *f, state, per_token, *b, *p),
{
    let s: MetalSystemStatus = i.status.with_paging(i.paging);
    let warn: bool = match s.swap_used_bytes {
        Some(u) => u >= SWAP_USED_WARN_BYTES,
        None => false,
    };
    MetalResourcePlan {
        total_memory_bytes: s.total_memory_bytes,
        available_memory_bytes: s.available_memory_bytes,
        recommended_max_working_set_bytes: s.recommended_max_working_set_bytes,
        swap_used_bytes: s.swap_used_bytes,
        pageouts_delta_bytes: s.pageouts_delta_bytes,
        swapouts_delta_bytes: s.swapouts_delta_bytes,
        paging_sample_millis: s.paging_sample_millis,
        residual_swap_warning: warn,
        memory_limit_bytes: f.memory_limit,
        cache_limit_bytes: if i.low_impact {
            LOW_IMPACT_CACHE_LIMIT_BYTES
        } else {
            DEFAULT_CACHE_LIMIT_BYTES
        },
        wired_limit_bytes: f.wired_limit,
        weight_bytes: f.weight_bytes,
        runtime_headroom_bytes: if i.low_impact {
            LOW_IMPACT_RUNTIME_HEADROOM_BYTES
        } else {
            DEFAULT_RUNTIME_HEADROOM_BYTES
        },
        static_state_bytes: state,
        kv_budget_bytes: b.budget_bytes,
        kv_bytes_per_token: per_token,
        requested_total_pages: p.requested,
        planned_total_pages: p.planned,
        capacity_tokens: p.capacity_tokens,
        clamped: p.clamped,
    }
}

/// A finished plan adds up: what is fixed lies below the limit, as do the wired
/// bytes, and every number stands in its own place.
pub proof fn a_plan_adds_up(
    i: PlanInputs,
    state: u64,
    per_token: u64,
    b: TokenBudget,
    p: PagePlan,
)
    requires
        fixed_plan(i, Some(state as nat)) is Ok,
    ensures
        ({
            let f = fixed_plan(i, Some(state as nat))->Ok_0;
            let plan = full_plan(i, f, state, per_token, b, p);
            let s = plan.swap_used_bytes;
            &&& plan.weight_bytes + plan.runtime_headroom_bytes + plan.static_state_bytes
                < plan.memory_limit_bytes
            &&& plan.weight_bytes + 0x4000_0000 == plan.wired_limit_bytes
            &&& plan.wired_limit_bytes < plan.memory_limit_bytes
            &&& Some(plan.weight_bytes) == i.weight_bytes
            &&& plan.static_state_bytes == state
            &&& plan.runtime_headroom_bytes == if i.low_impact {
                0x1_8000_0000int
            } else {
                0x1_0000_0000
            }
            &&& plan.cache_limit_bytes == if i.low_impact {
                0x2000_0000int
            } else {
                0x4000_0000
            }
            &&& plan.kv_bytes_per_token == per_token && plan.kv_budget_bytes == b.budget_bytes
            &&& plan.requested_total_pages == p.requested && plan.planned_total_pages == p.planned
            &&& plan.capacity_tokens == p.capacity_tokens && plan.clamped == p.clamped
            &&& s == i.status.swap_used_bytes
            &&& plan.residual_swap_warning <==> s is Some && s->0 >= 512 * 0x10_0000
            &&& plan.total_memory_bytes == i.status.total_memory_bytes
            &&& plan.available_memory_bytes == i.status.available_memory_bytes
            &&& plan.recommended_max_working_set_bytes
                == i.status.recommended_max_working_set_bytes
            &&& i.paging is Some ==> plan.pageouts_delta_bytes == i.paging->0.pageouts_delta_bytes
                && plan.swapouts_delta_bytes == i.paging->0.swapouts_delta_bytes
                && plan.paging_sample_millis == i.paging->0.sample_millis
            &&& i.paging is None ==> plan.pageouts_delta_bytes is None
                && plan.swapouts_delta_bytes is None && plan.paging_sample_millis == 0
        }),
{
}

/// What a model asks of its memory, as far as the plan needs it.
#[derive(Debug, Clone, Copy)]
pub struct ModelNeeds {
    pub full_layers: usize,
    pub linear_layers: usize,
    pub num_key_value_heads: usize,
    pub head_dim: usize,
    pub linear: MetalGdrConfig,
}

pub open spec fn inputs_of(
    r: MetalResourceRequest,
    status: MetalSystemStatus,
    paging: Option<PagingActivity>,
    weight_bytes: Option<u64>,
) -> PlanInputs {
    PlanInputs {
        status,
        paging,
        weight_bytes,
        low_impact: r.low_impact,
        memory_budget_bytes: r.memory_budget_bytes,
        system_reserve_bytes: r.system_reserve_bytes,
        allow_swap: r.allow_swap,
    }
}

/// Static state of all slots.
pub open spec fn state_bytes(needs: ModelNeeds, num_slots: u64) -> Option<nat> {
    times(Some(gdr_bytes(needs.linear_layers as nat, needs.linear)), at_least_one(num_slots) as nat)
}

/// What is wrong before a budget kernel is asked.
pub open spec fn plan_fault(
    r: MetalResourceRequest,
    i: PlanInputs,
    needs: ModelNeeds,
) -> Option<ResourceError> {
    match fixed_plan(i, state_bytes(needs, r.num_slots)) {
        Err(e) => Some(e),
        Ok(_) => match kv_per_token(
            needs.full_layers as nat,
            needs.num_key_value_heads as nat,
            needs.head_dim,
            r.kv_cache_dtype,
        ) {
            Err(e) => Some(e),
            Ok(n) => if n == 0 {
                Some(ResourceError::KvZero)
            } else {
                None
            },
        },
    }
}

/// The plan of a model once a budget kernel has answered.
pub open spec fn plan_with(
    r: MetalResourceRequest,
    i: PlanInputs,
    needs: ModelNeeds,
    b: TokenBudget,
) -> Result<MetalResourcePlan, ResourceError> {
    match plan_fault(r, i, needs) {
        Some(e) => Err(e),
        None => {
            let state = state_bytes(needs, r.num_slots);
            let per_token = kv_per_token(
                needs.full_layers as nat,
                needs.num_key_value_heads as nat,
                needs.head_dim,
                r.kv_cache_dtype,
            )->Ok_0;
            match page_plan(r.total_pages, r.page_size, b) {
                Err(e) => Err(e),
                Ok(p) => Ok(
                    full_plan(
                        i,
                        fixed_plan(i, state)->Ok_0,
                        state->0 as u64,
                        per_token as u64,
                        b,
                        p,
                    ),
                ),
            }
        },
    }
}

/// A model's plan counts the state of every slot among the fixed bytes and
/// plans whole pages of what the kernel affords.
pub proof fn a_models_plan_counts_every_slot(
    r: MetalResourceRequest,
    i: PlanInputs,
    needs: ModelNeeds,
    b: TokenBudget,
)
    requires
        plan_with(r, i, needs, b) is Ok,
    ensures
        ({
            let plan = plan_with(r, i, needs, b)->Ok_0;
            let slots: int = if r.num_slots == 0 {
                1
            } else {
                r.num_slots as int
            };
            let size: int = if r.page_size == 0 {
                1
            } else {
                r.page_size as int
            };
            &&& plan.static_state_bytes == gdr_bytes(needs.linear_layers as nat, needs.linear)
                * slots
            &&& plan.weight_bytes + plan.runtime_headroom_bytes + plan.static_state_bytes
                < plan.memory_limit_bytes
            &&& kv_per_token(
                needs.full_layers as nat,
                needs.num_key_value_heads as nat,
                needs.head_dim,
                r.kv_cache_dtype,
            ) == Ok::<nat, ResourceError>(plan.kv_bytes_per_token as nat)
            &&& plan.kv_bytes_per_token > 0
            &&& plan.capacity_tokens == plan.planned_total_pages * size <= b.affordable->0
            &&& 1 <= plan.planned_total_pages <= plan.requested_total_pages
        }),
{
    let state = state_bytes(needs, r.num_slots);
    fixed_bytes_lie_below_the_limit(i, state->0);
    pages_are_affordable(r.total_pages, r.page_size, b);
    lemma_kv_fits(
        needs.full_layers as nat,
        needs.num_key_value_heads as nat,
        needs.head_dim,
        r.kv_cache_dtype,
    );
}

proof fn lemma_kv_fits(layers: nat, nkv: nat, head_dim: usize, dtype: MetalKvCacheDtype)
    ensures
        kv_per_token(layers, nkv, head_dim, dtype) matches Ok(n) ==> n <= u64::MAX,
{
}

/// Plans the budget of a model. `kernel` turns the memory limit, the fixed
/// bytes and the bytes per token into a token budget.
pub fn plan_resource_budget<F: Fn(u64, u64, u64) -> TokenBudget>(
    request: &MetalResourceRequest,
    status: &MetalSystemStatus,
    paging: Option<PagingActivity>,
    weight_bytes: Option<u64>,
    needs: &ModelNeeds,
    kernel: F,
) -> (r: Result<MetalResourcePlan, ResourceError>)
    requires
        machine_plan(inputs_of(*request, *status, paging, weight_bytes)) is Ok
            ==> needs.linear.qkv() <= usize::MAX,
        forall|a: u64, b: u64, c: u64| kernel.requires((a, b, c)),
    ensures
        ({
            let i = inputs_of(*request, *status, paging, weight_bytes);
            let state = state_bytes(*needs, request.num_slots);
            match plan_fault(*request, i, *needs) {
                Some(e) => r == Err::<MetalResourcePlan, ResourceError>(e),
                None => {
                    let f = fixed_plan(i, state)->Ok_0;
                    let per_token = kv_per_token(
                        needs.full_layers as nat,
                        needs.num_key_value_heads as nat,
                        needs.head_dim,
                        request.kv_cache_dtype,
                    )->Ok_0;
                    exists|b: TokenBudget| #[trigger]
                        kernel.ensures((f.memory_limit, f.fixed, per_token as u64), b) && r
                            == plan_with(*request, i, *needs, b)
                },
            }
        }),
{
    let i = PlanInputs {
        status: *status,
        paging,
        weight_bytes,
        low_impact: request.low_impact,
        memory_budget_bytes: request.memory_budget_bytes,
        system_reserve_bytes: request.system_reserve_bytes,
        allow_swap: request.allow_swap,
    };
    let machine: MachinePlan = match plan_machine(&i) {
        Err(e) => {
            return Err(e);
        },
        Ok(m) => m,
    };
    let slots: u64 = if request.num_slots == 0 {
        1
    } else {
        request.num_slots
    };
    let state: Option<u64> = gdr_state_bytes_per_slot(
        needs.linear_layers,
        &needs.linear,
    ).checked_mul(slots);
    let f: FixedPlan = match plan_fixed(&i, &machine, state) {
        Err(e) => {
            return Err(e);
        },
        Ok(f) => f,
    };
    let per_token: u64 = match kv_bytes_per_token_per_slot(
        needs.full_layers,
        needs.num_key_value_heads,
        needs.head_dim,
        request.kv_cache_dtype,
    ) {
        Err(e) => {
            return Err(e);
        },
        Ok(n) => n,
    };
    if per_token == 0 {
        return Err(ResourceError::KvZero);
    }
    let held: u64 = match state {
        Some(s) => s,
        None => 0,
    };
    let b: TokenBudget = kernel(f.memory_limit, f.fixed, per_token);
    match plan_pages(request.total_pages, request.page_size, &b) {
        Err(e) => Err(e),
        Ok(p) => Ok(make_plan(&i, &f, held, per_token, &b, &p)),
    }
}

/// The plan of a model that only holds weights.
pub open spec fn weight_only_plan(i: PlanInputs) -> Result<MetalResourcePlan, ResourceError> {
    match fixed_plan(i, Some(0)) {
        Err(e) => Err(e),
        Ok(f) => Ok(
            full_plan(
                i,
                f,
                0,
                0,
                TokenBudget {
                    budget_bytes: (f.memory_limit - f.fixed) as u64,
                    affordable: None,
                },
                PagePlan { requested: 0, planned: 0, capacity_tokens: u64::MAX, clamped: false },
            ),
        ),
    }
}

/// A model that only holds weights gets everything beyond its fixed bytes, no
/// pages and no bound on its tokens.
pub proof fn weight_only_plans_leave_the_rest(i: PlanInputs)
    ensures
        weight_only_plan(i) is Ok <==> fixed_plan(i, Some(0)) is Ok,
        weight_only_plan(i) matches Ok(p) ==> {
            &&& p.kv_budget_bytes + p.weight_bytes + p.runtime_headroom_bytes
                == p.memory_limit_bytes
            &&& p.kv_budget_bytes > 0
            &&& p.static_state_bytes == 0
            &&& p.planned_total_pages == 0 && p.requested_total_pages == 0
            &&& p.capacity_tokens == u64::MAX
            &&& !p.clamped
        },
{
}

/// Plans the budget of a model that only holds weights: everything beyond the
/// fixed bytes is left to it.
pub fn plan_weight_only_resource_budget(
    request: &MetalWeightOnlyResourceRequest,
    status: &MetalSystemStatus,
    paging: Option<PagingActivity>,
    weight_bytes: Option<u64>,
) -> (r: Result<MetalResourcePlan, ResourceError>)
    ensures
        ({
            let i = PlanInputs {
                status: *status,
                paging,
                weight_bytes,
                low_impact: request.low_impact,
                memory_budget_bytes: request.memory_budget_bytes,
                system_reserve_bytes: request.system_reserve_bytes,
                allow_swap: request.allow_swap,
            };
            r == weight_only_plan(i)
        }),
{
    let i = PlanInputs {
        status: *status,
        paging,
        weight_bytes,
        low_impact: request.low_impact,
        memory_budget_bytes: request.memory_budget_bytes,
        system_reserve_bytes: request.system_reserve_bytes,
        allow_swap: request.allow_swap,
    };
    let machine: MachinePlan = match plan_machine(&i) {
        Err(e) => {
            return Err(e);
        },
        Ok(m) => m,
    };
    let f: FixedPlan = match plan_fixed(&i, &machine, Some(0)) {
        Err(e) => {
            return Err(e);
        },
        Ok(f) => f,
    };
    let b = TokenBudget { budget_bytes: f.memory_limit - f.fixed, affordable: None };
    let p = PagePlan { requested: 0, planned: 0, capacity_tokens: u64::MAX, clamped: false };
    Ok(make_plan(&i, &f, 0, 0, &b, &p))
}

// ---- reading the machine ----

/// The end of the line that starts at `i`.
pub open spec fn line_end(t: Seq<char>, i: int) -> int
    decreases t.len() - i,
{
    if i < 0 || i >= t.len() || t[i] == '\n' {
        i
    } else {
        line_end(t, i + 1)
    }
}

/// The first line, from `i` on, that begins with a key, without its line
/// break.
pub open spec fn find_line(t: Seq<char>, key: Seq<char>, i: int) -> Option<Seq<char>>
    decreases t.len() - i,
{
    if i < 0 || i >= t.len() {
        None
    } else {
        let e = line_end(t, i);
        let stop = if i < e < t.len() && t[e - 1] == '\r' {
            e - 1
        } else {
            e
        };
        if occurs_at(t.subrange(i, stop), key, 0) {
            Some(t.subrange(i, stop))
        } else if i <= e < t.len() {
            find_line(t, key, e + 1)
        } else {
            None
        }
    }
}

pub open spec fn first_place(s: Seq<char>, c: char, i: int) -> int
    decreases s.len() - i,
{
    if i < 0 || i >= s.len() || s[i] == c {
        i
    } else {
        first_place(s, c, i + 1)
    }
}

/// The piece between the first and the second colon.
pub open spec fn second_piece(line: Seq<char>) -> Option<Seq<char>> {
    let a = first_place(line, ':', 0);
    if a >= line.len() {
        None
    } else {
        Some(line.subrange(a + 1, first_place(line, ':', a + 1)))
    }
}

/// A text without its commas and dots.
pub open spec fn without_marks(s: Seq<char>) -> Seq<char>
    decreases s.len(),
{
    if s.len() == 0 {
        Seq::empty()
    } else if s.last() == ',' || s.last() == '.' {
        without_marks(s.drop_last())
    } else {
        without_marks(s.drop_last()).push(s.last())
    }
}

/// The number that a counter line holds behind its colon.
pub open spec fn counter_of(text: Seq<char>, key: Seq<char>) -> Option<nat> {
    match find_line(text, key, 0) {
        None => None,
        Some(line) => match second_piece(line) {
            None => None,
            Some(piece) => parsed_number(without_marks(trim_of(piece)), u64::MAX as nat),
        },
    }
}

fn place_of(s: &[char], c: char, from: usize) -> (i: usize)
    requires
        from <= s@.len(),
    ensures
        i == first_place(s@, c, from as int),
        from <= i <= s@.len(),
{
    let mut i: usize = from;
    while i < s.len()
        invariant
            from <= i <= s@.len(),
            first_place(s@, c, from as int) == first_place(s@, c, i as int),
        decreases s@.len() - i,
    {
        if s[i] == c {
            return i;
        }
        i = i + 1;
    }
    i
}

proof fn lemma_line_end(t: Seq<char>, i: int)
    requires
        0 <= i <= t.len(),
    ensures
        line_end(t, i) == first_place(t, '\n', i),
    decreases t.len() - i,
{
    if i < t.len() && t[i] != '\n' {
        lemma_line_end(t, i + 1);
    }
}

fn keep_digits(s: &[char]) -> (out: Vec<char>)
    ensures
        out@ == without_marks(s@),
{
    let mut out: Vec<char> = Vec::new();
    let mut i: usize = 0;
    assert(s@.take(0) =~= Seq::<char>::empty());
    while i < s.len()
        invariant
            i <= s@.len(),
            out@ == without_marks(s@.take(i as int)),
        decreases s@.len() - i,
    {
        assert(s@.take(i + 1).drop_last() =~= s@.take(i as int));
        if s[i] != ',' && s[i] != '.' {
            out.push(s[i]);
        }
        i = i + 1;
    }
    assert(s@.take(i as int) =~= s@);
    out
}

/// Reads a counter line: the number between its first two colons, with its
/// commas and dots left out.
pub fn parse_vm_stat_pages(text: &str, key: &str) -> (r: Option<u64>)
    ensures
        match counter_of(text@, key@) {
            Some(n) => r == Some(n as u64) && n <= u64::MAX,
            None => r is None,
        },
{
    let t: Vec<char> = to_chars(text);
    let k: Vec<char> = to_chars(key);
    let mut i: usize = 0;
    while i < t.len()
        invariant
            i <= t@.len(),
            t@ == text@,
            k@ == key@,
            find_line(t@, k@, 0) == find_line(t@, k@, i as int),
        decreases t@.len() - i,
    {
        let e: usize = place_of(t.as_slice(), '\n', i);
        proof {
            lemma_line_end(t@, i as int);
        }
        let stop: usize = if i < e && e < t.len() && t[e - 1] == '\r' {
            e - 1
        } else {
            e
        };
        let line_text: &str = text.substring_char(i, stop);
        let line: Vec<char> = to_chars(line_text);
        if chars_at(line.as_slice(), k.as_slice(), 0) {
            let a: usize = place_of(line.as_slice(), ':', 0);
            if a >= line.len() {
                return None;
            }
            let b: usize = place_of(line.as_slice(), ':', a + 1);
            let piece: String = trimmed(line_text.substring_char(a + 1, b));
            let digits: Vec<char> = keep_digits(to_chars(piece.as_str()).as_slice());
            return parse_number(digits.as_slice(), u64::MAX);
        }
        if e >= t.len() {
            return None;
        }
        i = e + 1;
    }
    None
}

/// Reads a system value: a number, with white space around it.
pub fn parse_system_value(text: &str) -> (r: Option<u64>)
    ensures
        match parsed_number(trim_of(text@), u64::MAX as nat) {
            Some(n) => r == Some(n as u64),
            None => r is None,
        },
{
    let value: String = trimmed(text);
    parse_number(to_chars(value.as_str()).as_slice(), u64::MAX)
}

/// A counter of a report, none of it where the report lacks it.
pub open spec fn counter_or_zero(text: Seq<char>, key: Seq<char>) -> nat {
    match counter_of(text, key) {
        Some(n) => n,
        None => 0,
    }
}

/// Pages that can be had: the free, inactive and speculative ones.
pub open spec fn free_pages_of(text: Seq<char>) -> nat {
    counter_or_zero(text, "Pages free"@) + counter_or_zero(text, "Pages inactive"@)
        + counter_or_zero(text, "Pages speculative"@)
}

fn pages_or_zero(text: &str, key: &str) -> (n: u64)
    ensures
        n == counter_or_zero(text@, key@),
{
    match parse_vm_stat_pages(text, key) {
        Some(n) => n,
        None => 0,
    }
}

/// Memory that can be had, as far as a report tells.
pub fn available_memory_bytes(text: &str, page_size: u64) -> (r: Option<u64>)
    requires
        free_pages_of(text@) <= u64::MAX,
    ensures
        r == if free_pages_of(text@) > 0 {
            Some(sat64(free_pages_of(text@) * page_size as nat) as u64)
        } else {
            None
        },
{
    let pages: u64 = pages_or_zero(text, "Pages free") + pages_or_zero(text, "Pages inactive")
        + pages_or_zero(text, "Pages speculative");
    if pages > 0 {
        Some(times_sat(pages, page_size))
    } else {
        None
    }
}

/// The paging counters of a report.
#[derive(Debug, Clone, Copy, PartialEq, Eq, Structural)]
pub struct VmStatCounters {
    pub pageouts: u64,
    pub swapouts: u64,
}

impl VmStatCounters {
    /// Nothing where the report lacks one of them.
    pub fn current(text: &str) -> (r: Option<Self>)
        ensures
            r == match (counter_of(text@, "Pageouts"@), counter_of(text@, "Swapouts"@)) {
                (Some(p), Some(s)) => Some(
                    VmStatCounters { pageouts: p as u64, swapouts: s as u64 },
                ),
                _ => None,
            },
    {
        match (parse_vm_stat_pages(text, "Pageouts"), parse_vm_stat_pages(text, "Swapouts")) {
            (Some(pageouts), Some(swapouts)) => Some(VmStatCounters { pageouts, swapouts }),
            _ => None,
        }
    }
}

/// The growth of a counter of pages, in bytes; nothing where it went back.
pub open spec fn growth_bytes(before: u64, after: u64, page_size: u64) -> Option<u64> {
    if after >= before {
        Some(sat64((after - before) as nat * page_size as nat) as u64)
    } else {
        None
    }
}

fn paging_delta(before: u64, after: u64, page_size: u64) -> (r: Option<u64>)
    ensures
        r == growth_bytes(before, after, page_size),
{
    if after >= before {
        Some(times_sat(after - before, page_size))
    } else {
        None
    }
}

/// Paging between two samples.
pub fn sample_paging_activity(
    before: &VmStatCounters,
    after: &VmStatCounters,
    page_size: u64,
) -> (a: PagingActivity)
    ensures
        a == (PagingActivity {
            pageouts_delta_bytes: growth_bytes(before.pageouts, after.pageouts, page_size),
            swapouts_delta_bytes: growth_bytes(before.swapouts, after.swapouts, page_size),
            sample_millis: PAGING_SAMPLE_MILLIS,
        }),
{
    PagingActivity {
        pageouts_delta_bytes: paging_delta(before.pageouts, after.pageouts, page_size),
        swapouts_delta_bytes: paging_delta(before.swapouts, after.swapouts, page_size),
        sample_millis: PAGING_SAMPLE_MILLIS,
    }
}

/// Wired memory for weights of this size: 1 GiB more.
pub fn auto_wired_limit_bytes(weight_bytes: u64) -> (limit: u64)
    requires
        weight_bytes + WIRED_HEADROOM_BYTES <= u64::MAX,
    ensures
        limit == weight_bytes + WIRED_HEADROOM_BYTES,
{
    weight_bytes + WIRED_HEADROOM_BYTES
}

/// Where `needle` first stands from `i` on, or the length.
pub open spec fn find_text(s: Seq<char>, needle: Seq<char>, i: int) -> int
    decreases s.len() - i,
{
    if i < 0 || i >= s.len() {
        s.len() as int
    } else if occurs_at(s, needle, i) {
        i
    } else {
        find_text(s, needle, i + 1)
    }
}

/// Where the first word ends.
pub open spec fn word_end(s: Seq<char>, i: int) -> int
    decreases s.len() - i,
{
    if i < 0 || i >= s.len() || is_white(s[i]) {
        i
    } else {
        word_end(s, i + 1)
    }
}

/// A number as it is written, and the bytes that one of its units stands for.
#[derive(Debug)]
pub struct MemoryQuantity {
    pub number: String,
    pub unit_bytes: u64,
}

pub open spec fn unit_of(c: char) -> Option<u64> {
    if c == 'K' || c == 'k' {
        Some(1024)
    } else if c == 'M' || c == 'm' {
        Some(MIB)
    } else if c == 'G' || c == 'g' {
        Some(GIB)
    } else {
        None
    }
}

/// A quantity: digits, with a letter for its unit behind them or none.
pub open spec fn quantity_of(word: Seq<char>) -> Option<(Seq<char>, u64)> {
    if word.len() == 0 {
        None
    } else if unit_of(word.last()) is Some {
        Some((word.drop_last(), unit_of(word.last())->0))
    } else if is_digit(word.last()) {
        Some((word, 1u64))
    } else {
        None
    }
}

/// The quantity behind the first `used =` of a swap report, up to the second.
pub open spec fn swap_quantity(text: Seq<char>) -> Option<(Seq<char>, u64)> {
    let a = find_text(text, "used ="@, 0);
    if a >= text.len() {
        None
    } else {
        let from = a + "used ="@.len();
        let piece = trim_of(text.subrange(from, find_text(text, "used ="@, from)));
        quantity_of(piece.take(word_end(piece, 0)))
    }
}

fn text_place(s: &[char], needle: &[char], from: usize) -> (i: usize)
    requires
        from <= s@.len(),
    ensures
        i == find_text(s@, needle@, from as int),
        from <= i <= s@.len(),
{
    let mut i: usize = from;
    while i < s.len()
        invariant
            from <= i <= s@.len(),
            find_text(s@, needle@, from as int) == find_text(s@, needle@, i as int),
        decreases s@.len() - i,
    {
        if chars_at(s, needle, i) {
            return i;
        }
        i = i + 1;
    }
    i
}

fn unit_bytes(c: char) -> (r: Option<u64>)
    ensures
        r == unit_of(c),
{
    if c == 'K' || c == 'k' {
        Some(1024)
    } else if c == 'M' || c == 'm' {
        Some(MIB)
    } else if c == 'G' || c == 'g' {
        Some(GIB)
    } else {
        None
    }
}

/// Reads the used swap out of a report. The number may have a fraction and is
/// left as it is written.
pub fn parse_swap_used(text: &str) -> (r: Option<MemoryQuantity>)
    ensures
        match (r, swap_quantity(text@)) {
            (Some(q), Some(s)) => q.number@ == s.0 && q.unit_bytes == s.1,
            (None, None) => true,
            _ => false,
        },
{
    let t: Vec<char> = to_chars(text);
    let k: Vec<char> = to_chars("used =");
    let a: usize = text_place(t.as_slice(), k.as_slice(), 0);
    if a >= t.len() {
        return None;
    }
    proof {
        lemma_found(t@, k@, 0);
    }
    let from: usize = a + k.len();
    let b: usize = text_place(t.as_slice(), k.as_slice(), from);
    let piece: String = trimmed(text.substring_char(from, b));
    let chars: Vec<char> = to_chars(piece.as_str());
    let total: usize = chars.len();
    let mut e: usize = 0;
    while e < total && !is_white_space(chars[e])
        invariant
            e <= total == chars@.len(),
            word_end(chars@, 0) == word_end(chars@, e as int),
        decreases total - e,
    {
        e = e + 1;
    }
    let ghost word = piece@.take(e as int);
    if e == 0 {
        return None;
    }
    let last: char = chars[e - 1];
    assert(word.last() == last);
    match unit_bytes(last) {
        Some(unit) => {
            let number: &str = piece.as_str().substring_char(0, e - 1);
            assert(number@ =~= word.drop_last());
            Some(MemoryQuantity { number: String::from_str(number), unit_bytes: unit })
        },
        None => if '0' <= last && last <= '9' {
            let number: &str = piece.as_str().substring_char(0, e);
            assert(number@ =~= word);
            Some(MemoryQuantity { number: String::from_str(number), unit_bytes: 1 })
        } else {
            None
        },
    }
}

proof fn lemma_found(s: Seq<char>, needle: Seq<char>, i: int)
    requires
        0 <= i <= s.len(),
        find_text(s, needle, i) < s.len(),
    ensures
        occurs_at(s, needle, find_text(s, needle, i)),
    decreases s.len() - i,
{
    if i < s.len() && !occurs_at(s, needle, i) {
        lemma_found(s, needle, i + 1);
    }
}

} // verus!
