//! Request/response documents of the HTTP control plane that carry no
//! floating-point fields, plus the shared request plumbing: validated
//! page limits, cursor paging over sorted ids, and the request principal.

use vstd::prelude::*;
use vstd::string::*;

use crate::problem::{problem_new_view, Problem, ProblemCode, ProblemView};
use crate::text::{concat2, decimal, decimal_string, to_string_of};

verus! {

/// Cursor pagination envelope.
#[derive(Debug, Clone)]
pub struct PageInfo {
    /// Opaque cursor for the next page; `None` when exhausted.
    pub next_cursor: Option<String>,
    /// Whether more results exist.
    pub has_more: bool,
}

/// Pagination query parameters shared by list endpoints.
#[derive(Debug, Clone)]
pub struct PageParams {
    /// Page size (1..=1000, default 100).
    pub limit: Option<u32>,
    /// Opaque continuation cursor from a previous page.
    pub cursor: Option<String>,
}

/// Message for an out-of-range page size.
pub open spec fn msg_limit(n: u32) -> Seq<char> {
    "limit must be within 1..=1000, got "@ + decimal(n as nat)
}

impl PageParams {
    /// Validated limit: 100 when absent, the given value within 1..=1000,
    /// else a validation problem.
    pub fn limit(&self) -> (r: Result<usize, Problem>)
        ensures
            match self.limit {
                None => r == Ok::<usize, Problem>(100),
                Some(n) => if 1 <= n <= 1000 {
                    r == Ok::<usize, Problem>(n as usize)
                } else {
                    r matches Err(p) && p@ == problem_new_view(ProblemCode::ValidationError, 400, "Validation error"@)
                        .with_detail(msg_limit(n))
                },
            },
    {
        match self.limit {
            None => Ok(100),
            Some(n) => {
                if 1 <= n && n <= 1000 {
                    Ok(n as usize)
                } else {
                    let num = decimal_string(n as u64);
                    Err(Problem::validation(concat2("limit must be within 1..=1000, got ", num.as_str())))
                }
            },
        }
    }
}

/// Battery selection for a home.
#[derive(Debug, Clone)]
pub struct BatterySpec {
    /// Battery model id from the device catalog.
    pub model_id: String,
    /// Number of units (>= 1).
    pub count: u32,
}

/// Inverter selection; omitted means "compose the vendor default".
#[derive(Debug, Clone)]
pub struct InverterSpec {
    /// Inverter model id from the device catalog.
    pub model_id: String,
    /// Number of units (>= 1; default 1).
    pub quantity: u32,
}

/// Default inverter quantity.
pub fn one() -> (r: u32)
    ensures
        r == 1,
{
    1
}

/// Home siting.
#[derive(Debug, Clone)]
pub struct LocationSpec {
    /// ERCOT load zone, e.g. `LZ_NORTH`, `LZ_HOUSTON`, `LZ_WEST`.
    pub ercot_load_zone: String,
    /// Climate zone: IECC-style (`2A`, `3A`, `3B`, `4A`) or a Texas zone
    /// name (`gulf_coast`, `central`, `north`, `west`). Default `central`.
    pub climate_zone: Option<String>,
}

/// Operating modes a home can be commanded into.
#[derive(Debug, Clone, Copy, PartialEq, Eq, Structural)]
pub enum OperatingMode {
    /// Net-zero grid exchange.
    SelfConsumption,
    /// Hold state of charge at or above the reserve floor.
    BackupOnly,
    /// Follows self-consumption until tariff schedules are modeled.
    TimeOfUse,
    /// Follow externally supplied setpoints.
    GridServices,
}

/// Control modes of the simulation engine's home controller.
#[derive(Debug, Clone, Copy, PartialEq, Eq, Structural)]
pub enum ControlMode {
    /// Net-zero grid exchange.
    SelfConsumption,
    /// Hold the reserve; no discharge below it.
    BackupReserveHold,
    /// Follow externally supplied setpoints.
    Manual,
    /// No control action.
    Idle,
}

/// The engine control mode an API operating mode maps onto.
pub open spec fn control_mode_spec(m: OperatingMode) -> ControlMode {
    match m {
        OperatingMode::SelfConsumption | OperatingMode::TimeOfUse => ControlMode::SelfConsumption,
        OperatingMode::BackupOnly => ControlMode::BackupReserveHold,
        OperatingMode::GridServices => ControlMode::Manual,
    }
}

/// The API operating mode an engine control mode reads back as.
pub open spec fn api_mode_spec(m: ControlMode) -> OperatingMode {
    match m {
        ControlMode::SelfConsumption => OperatingMode::SelfConsumption,
        ControlMode::BackupReserveHold => OperatingMode::BackupOnly,
        ControlMode::Manual | ControlMode::Idle => OperatingMode::GridServices,
    }
}

/// Map an API operating mode onto the engine control mode.
pub fn control_mode_of(mode: OperatingMode) -> (r: ControlMode)
    ensures
        r == control_mode_spec(mode),
{
    match mode {
        OperatingMode::SelfConsumption | OperatingMode::TimeOfUse => ControlMode::SelfConsumption,
        OperatingMode::BackupOnly => ControlMode::BackupReserveHold,
        OperatingMode::GridServices => ControlMode::Manual,
    }
}

/// Map an engine control mode back to the API vocabulary.
pub fn api_mode_of(mode: ControlMode) -> (r: OperatingMode)
    ensures
        r == api_mode_spec(mode),
{
    match mode {
        ControlMode::SelfConsumption => OperatingMode::SelfConsumption,
        ControlMode::BackupReserveHold => OperatingMode::BackupOnly,
        ControlMode::Manual | ControlMode::Idle => OperatingMode::GridServices,
    }
}

/// A commanded operating mode reads back unchanged, except time-of-use,
/// which reads back as self-consumption (the mode it follows); reading a
/// mode back and commanding it again leaves the engine mode unchanged,
/// except an idle controller, which becomes manual.
pub proof fn law_mode_round_trip(m: OperatingMode, c: ControlMode)
    ensures
        api_mode_spec(control_mode_spec(m)) == (if m == OperatingMode::TimeOfUse {
            OperatingMode::SelfConsumption
        } else {
            m
        }),
        control_mode_spec(api_mode_spec(c)) == (if c == ControlMode::Idle {
            ControlMode::Manual
        } else {
            c
        }),
{
}

/// Home list filters.
#[derive(Debug, Clone)]
pub struct HomeListParams {
    /// Page size.
    pub limit: Option<u32>,
    /// Continuation cursor.
    pub cursor: Option<String>,
    /// Restrict to a fleet.
    pub fleet_id: Option<String>,
    /// Restrict to an operating mode.
    pub mode: Option<OperatingMode>,
    /// Restrict to a load zone.
    pub load_zone: Option<String>,
    /// Restrict to a battery model.
    pub battery_model: Option<String>,
}

/// Fleet expansion request.
#[derive(Debug, Clone)]
pub struct ExpandFleetRequest {
    /// Additional homes to create from the fleet's manifest.
    pub count: u32,
}

/// Scenario time binding.
#[derive(Debug, Clone)]
pub struct ScenarioTime {
    /// Run start (RFC 3339 UTC; must be 5-minute aligned).
    pub start: String,
    /// Run end (RFC 3339 UTC).
    pub end: String,
    /// Tick length in seconds (default 1).
    pub tick_seconds: Option<u32>,
}

/// Synchronous step request.
#[derive(Debug, Clone)]
pub struct StepRequest {
    /// Ticks to advance (at most 86400 unless `allow_large=true`).
    pub ticks: u64,
}

/// Synchronous step / run-until response.
#[derive(Debug, Clone)]
pub struct StepResponse {
    /// Simulation time reached.
    pub sim_time: String,
    /// Tick index reached.
    pub tick: u64,
    /// Ticks executed.
    pub ticks_executed: u64,
    /// Wall-clock milliseconds taken.
    pub wall_ms: u64,
}

/// Run-until request.
#[derive(Debug, Clone)]
pub struct RunUntilRequest {
    /// Target simulation time (RFC 3339 UTC).
    pub until: String,
}

/// `allow_large` query flag shared by step and run-until.
#[derive(Debug, Clone)]
pub struct AllowLarge {
    /// Permit advances beyond one simulation day.
    pub allow_large: Option<bool>,
}

/// Latency model for per-device execution.
#[derive(Debug, Clone, Copy)]
pub enum LatencySpec {
    /// Fixed latency in milliseconds.
    Fixed(u64),
    /// Uniform draw over `[min, max]` milliseconds.
    Range {
        /// Inclusive bounds.
        uniform: [u64; 2],
    },
}

/// Ramp styles for power commands.
#[derive(Debug, Clone, Copy, PartialEq, Eq, Structural)]
pub enum RampStyle {
    /// Apply the full setpoint at the execution tick.
    Immediate,
}

/// Execution shaping for a command.
#[derive(Debug, Clone, Copy)]
pub struct ExecutionSpec {
    /// Per-device execution latency (default uniform 250..2000 ms).
    pub latency_ms: Option<LatencySpec>,
    /// Per-device timeout in seconds (default 30).
    pub timeout_s: Option<u64>,
    /// Ramp style; only `immediate` is supported.
    pub ramp: Option<RampStyle>,
}

/// Command rollup status.
#[derive(Debug, Clone, Copy, PartialEq, Eq, Structural)]
pub enum CommandStatus {
    /// Enqueued; no device has executed yet.
    Queued,
    /// At least one device has executed; more pending.
    InFlight,
    /// Every device applied the command.
    Completed,
    /// Finished with at least one partial/rejected/timed-out target.
    CompletedWithErrors,
    /// Cancelled before full execution.
    Cancelled,
}

/// Dispatch acceptance response.
#[derive(Debug, Clone)]
pub struct DispatchResponse {
    /// The command id (echoed or server-assigned).
    pub command_id: String,
    /// Always true for a 202 response.
    pub accepted: bool,
    /// Number of homes targeted.
    pub targets: usize,
    /// Rollup status at response time.
    pub status: CommandStatus,
    /// Poll URL for execution detail.
    pub status_url: String,
}

/// Per-target status.
#[derive(Debug, Clone, Copy, PartialEq, Eq, Structural)]
pub enum TargetStatus {
    /// Command fully applied.
    Applied,
    /// Command partially applied (physics limited).
    Partial,
    /// Command rejected by the device.
    Rejected,
    /// Device did not execute within the timeout.
    Timeout,
    /// Cancelled before execution.
    Cancelled,
}

/// Command audit-log filters.
#[derive(Debug, Clone)]
pub struct CommandListParams {
    /// Page size.
    pub limit: Option<u32>,
    /// Continuation cursor.
    pub cursor: Option<String>,
    /// Filter by target home id.
    pub target: Option<String>,
    /// Filter by rollup status.
    pub status: Option<CommandStatus>,
    /// Only commands accepted at or after this RFC 3339 time.
    pub since: Option<String>,
}

/// Series resolution.
#[derive(Debug, Clone, Copy, PartialEq, Eq, Structural)]
pub enum Resolution {
    /// Raw ticks (`1s`).
    S1,
    /// One-minute buckets (`1m`).
    M1,
    /// Five-minute settlement-interval buckets (`5m`).
    M5,
    /// Fifteen-minute buckets (`15m`).
    M15,
    /// One-hour buckets (`1h`).
    H1,
}

/// Bucket length of a resolution, in seconds.
pub open spec fn resolution_seconds(r: Resolution) -> u64 {
    match r {
        Resolution::S1 => 1,
        Resolution::M1 => 60,
        Resolution::M5 => 300,
        Resolution::M15 => 900,
        Resolution::H1 => 3600,
    }
}

impl Resolution {
    /// Bucket length in seconds.
    pub fn seconds(self) -> (r: u64)
        ensures
            r == resolution_seconds(self),
    {
        match self {
            Resolution::S1 => 1,
            Resolution::M1 => 60,
            Resolution::M5 => 300,
            Resolution::M15 => 900,
            Resolution::H1 => 3600,
        }
    }
}

/// Fleet aggregation across homes per bucket.
#[derive(Debug, Clone, Copy, PartialEq, Eq, Structural)]
pub enum FleetAgg {
    /// Sum across homes.
    Sum,
    /// Mean across homes.
    Mean,
    /// 95th percentile across homes.
    P95,
}

/// Series query parameters.
#[derive(Debug, Clone)]
pub struct SeriesParams {
    /// Comma-separated field list.
    pub fields: Option<String>,
    /// Range start, sim time (RFC 3339).
    pub from: Option<String>,
    /// Range end, sim time (RFC 3339).
    pub to: Option<String>,
    /// Bucket resolution (default 1m).
    pub resolution: Option<Resolution>,
    /// Fleet bucket aggregation (fleet series only; default sum).
    pub agg: Option<FleetAgg>,
}

/// Live-stream query parameters.
#[derive(Debug, Clone)]
pub struct StreamParams {
    /// Restrict to a fleet. Mutually exclusive with `home_ids`.
    pub fleet_id: Option<String>,
    /// Restrict to specific homes (comma-separated; at most 500).
    pub home_ids: Option<String>,
    /// `aggregate` for fleet rollups, `raw` for per-home vectors.
    pub fields: Option<String>,
    /// Stream at most one event per N ticks (default 1).
    pub downsample: Option<u64>,
}

/// Catalog version document.
#[derive(Debug, Clone)]
pub struct RegistryVersionDoc {
    /// Registry semantic version.
    pub registry_version: String,
    /// Registry JSON schema version.
    pub schema_version: String,
    /// Catalog integrity hash.
    pub catalog_sha256: String,
    /// Number of battery entries.
    pub batteries: usize,
    /// Number of inverter entries.
    pub inverters: usize,
}

/// Simulation run state.
#[derive(Debug, Clone, Copy, PartialEq, Eq, Structural)]
pub enum SimState {
    /// Not ticking.
    Stopped,
    /// Ticking at the configured speed.
    Running,
    /// Frozen at a tick boundary.
    Paused,
}

/// Health document.
#[derive(Debug, Clone)]
pub struct HealthDoc {
    /// `ok` when the server is ready.
    pub status: String,
    /// Simulation run state.
    pub sim_state: SimState,
    /// Wall-clock uptime in seconds.
    pub uptime_s: u64,
    /// Server version.
    pub version: String,
}

/// Version document.
#[derive(Debug, Clone)]
pub struct VersionDoc {
    /// Server version.
    pub version: String,
    /// Build git SHA (when available).
    pub git_sha: String,
    /// Registry version in use.
    pub registry_version: String,
    /// OpenAPI version served.
    pub openapi_version: String,
}

/// Empty success body for action endpoints with nothing to return.
#[derive(Debug, Clone)]
pub struct OkDoc {
    /// Always true.
    pub ok: bool,
}

/// The requesting principal, inserted by the auth layer.
#[derive(Debug, Clone)]
pub struct Principal(pub String);

/// The principal's name, `local` when the auth layer inserted none.
pub fn principal_of(req: Option<&Principal>) -> (r: String)
    ensures
        r@ == match req {
            Some(p) => p.0@,
            None => "local"@,
        },
{
    match req {
        Some(p) => p.0.clone(),
        None => String::from_str("local"),
    }
}

/// Byte-wise lexicographic "strictly less".
pub open spec fn bytes_lt(a: Seq<u8>, b: Seq<u8>) -> bool
    decreases a.len(),
{
    if b.len() == 0 {
        false
    } else if a.len() == 0 {
        true
    } else if a[0] != b[0] {
        a[0] < b[0]
    } else {
        bytes_lt(a.drop_first(), b.drop_first())
    }
}

/// Byte-wise lexicographic "strictly less" on slices.
pub fn bytes_less(a: &[u8], b: &[u8]) -> (r: bool)
    ensures
        r == bytes_lt(a@, b@),
{
    let mut i: usize = 0;
    assert(a@.subrange(0, a@.len() as int) =~= a@);
    assert(b@.subrange(0, b@.len() as int) =~= b@);
    while i < a.len() && i < b.len()
        invariant
            i <= a@.len(),
            i <= b@.len(),
            bytes_lt(a@, b@) == bytes_lt(a@.subrange(i as int, a@.len() as int), b@.subrange(i as int, b@.len() as int)),
        decreases a.len() - i,
    {
        let ghost sa = a@.subrange(i as int, a@.len() as int);
        let ghost sb = b@.subrange(i as int, b@.len() as int);
        if a[i] != b[i] {
            return a[i] < b[i];
        }
        i = i + 1;
        assert(sa.drop_first() =~= a@.subrange(i as int, a@.len() as int));
        assert(sb.drop_first() =~= b@.subrange(i as int, b@.len() as int));
    }
    i == a.len() && i < b.len()
}

/// Index of the first id at or after `i` whose bytes sort strictly after
/// the cursor (the id count when none does).
pub open spec fn first_after(ids: Seq<String>, cursor: Seq<u8>, i: int) -> int
    decreases ids.len() - i,
{
    if i >= ids.len() {
        ids.len() as int
    } else if bytes_lt(cursor, vstd::utf8::encode_utf8(ids[i]@)) {
        i
    } else {
        first_after(ids, cursor, i + 1)
    }
}

/// The bytes of an optional cursor.
pub open spec fn cursor_bytes(cursor: Option<&[u8]>) -> Option<Seq<u8>> {
    match cursor {
        Some(c) => Some(c@),
        None => None,
    }
}

/// Where a page starts: after the cursor when one is given, else at 0.
pub open spec fn page_start(ids: Seq<String>, cursor: Option<Seq<u8>>) -> int {
    match cursor {
        Some(c) => first_after(ids, c, 0),
        None => 0,
    }
}

/// `first_after` stays within `i..=len`.
pub proof fn lemma_first_after_bounds(ids: Seq<String>, cursor: Seq<u8>, i: int)
    requires
        0 <= i <= ids.len(),
    ensures
        i <= first_after(ids, cursor, i) <= ids.len(),
    decreases ids.len() - i,
{
    if i < ids.len() && !bytes_lt(cursor, vstd::utf8::encode_utf8(ids[i]@)) {
        lemma_first_after_bounds(ids, cursor, i + 1);
    }
}

/// `bytes_lt` is irreflexive.
proof fn lemma_bytes_lt_irreflexive(a: Seq<u8>)
    ensures
        !bytes_lt(a, a),
    decreases a.len(),
{
    if a.len() > 0 {
        lemma_bytes_lt_irreflexive(a.drop_first());
    }
}

/// `bytes_lt` is asymmetric.
proof fn lemma_bytes_lt_asymmetric(a: Seq<u8>, b: Seq<u8>)
    requires
        bytes_lt(a, b),
    ensures
        !bytes_lt(b, a),
    decreases a.len(),
{
    if a.len() > 0 && b.len() > 0 && a[0] == b[0] {
        lemma_bytes_lt_asymmetric(a.drop_first(), b.drop_first());
    }
}

/// The ids ascend strictly by their UTF-8 bytes.
pub open spec fn ids_ascending_bytes(ids: Seq<String>) -> bool {
    forall|i: int, j: int|
        0 <= i < j < ids.len() ==> bytes_lt(
            vstd::utf8::encode_utf8(#[trigger] ids[i]@),
            vstd::utf8::encode_utf8(#[trigger] ids[j]@),
        )
}

/// Skipping ids that do not sort after the cursor.
proof fn lemma_first_after_skip(ids: Seq<String>, c: Seq<u8>, i: int, k: int)
    requires
        0 <= i <= k + 1,
        k < ids.len(),
        forall|j: int| i <= j <= k ==> !bytes_lt(c, vstd::utf8::encode_utf8(#[trigger] ids[j]@)),
    ensures
        first_after(ids, c, i) == first_after(ids, c, k + 1),
    decreases k + 1 - i,
{
    if i <= k {
        lemma_first_after_skip(ids, c, i + 1, k);
    }
}

/// Paging resumes right after the id a cursor names: over ids ascending
/// by their bytes, the page that follows the cursor of id `k` starts at
/// id `k + 1` (so consecutive pages neither skip nor repeat an id).
pub proof fn law_page_resumes_after(ids: Seq<String>, k: int)
    requires
        ids_ascending_bytes(ids),
        0 <= k < ids.len(),
    ensures
        page_start(ids, Some(vstd::utf8::encode_utf8(ids[k]@))) == k + 1,
{
    let c = vstd::utf8::encode_utf8(ids[k]@);
    assert forall|j: int| 0 <= j <= k implies !bytes_lt(c, vstd::utf8::encode_utf8(#[trigger] ids[j]@)) by {
        if j < k {
            lemma_bytes_lt_asymmetric(vstd::utf8::encode_utf8(ids[j]@), c);
        } else {
            lemma_bytes_lt_irreflexive(c);
        }
    }
    lemma_first_after_skip(ids, c, 0, k);
    if k + 1 < ids.len() {
        assert(bytes_lt(c, vstd::utf8::encode_utf8(ids[k + 1]@)));
    }
}

/// Page a sorted (by id) id list: up to `limit` entries strictly after the
/// cursor (byte-wise comparison), and whether more remain.
pub fn page_ids(ids: &[String], cursor: Option<&[u8]>, limit: usize) -> (r: (Vec<String>, bool))
    requires
        page_start(ids@, cursor_bytes(cursor)) + limit <= usize::MAX,
    ensures
        ({
            let start = page_start(ids@, cursor_bytes(cursor));
            let end = if start + limit < ids@.len() { start + limit } else { ids@.len() as int };
            &&& r.0@ == ids@.subrange(start, end)
            &&& r.1 == (end < ids@.len())
        }),
{
    let start: usize = match cursor {
        None => 0,
        Some(c) => {
            let mut i: usize = 0;
            proof {
                lemma_first_after_bounds(ids@, c@, 0);
            }
            while i < ids.len()
                invariant
                    i <= ids@.len(),
                    first_after(ids@, c@, 0) == first_after(ids@, c@, i as int),
                ensures
                    first_after(ids@, c@, 0) == i,
                decreases ids.len() - i,
            {
                if bytes_less(c, ids[i].as_str().as_bytes()) {
                    break;
                }
                i = i + 1;
            }
            i
        },
    };
    proof {
        match cursor {
            Some(c) => lemma_first_after_bounds(ids@, c@, 0),
            None => {},
        }
    }
    let end: usize = if start + limit < ids.len() { start + limit } else { ids.len() };
    let mut out: Vec<String> = Vec::new();
    let mut k: usize = start;
    while k < end
        invariant
            start <= k <= end <= ids@.len(),
            out@ == ids@.subrange(start as int, k as int),
        decreases end - k,
    {
        out.push(ids[k].clone());
        k = k + 1;
        assert(out@ =~= ids@.subrange(start as int, k as int));
    }
    (out, end < ids.len())
}

/// A request body or query decoded into `T`, refusals mapped to 400
/// problems by the HTTP layer.
pub struct ValidJson<T>(pub T);

/// A query string decoded into `T`, refusals mapped to 400 problems by the
/// HTTP layer.
pub struct ValidQuery<T>(pub T);

/// The kind of a decoded JSON value.
#[derive(Debug, Clone, Copy, PartialEq, Eq, Structural)]
pub enum JsonKind {
    /// `null`.
    Null,
    /// `true` or `false`.
    Bool,
    /// A number.
    Number,
    /// A string.
    String,
    /// An array.
    Array,
    /// An object.
    Object,
}

/// Request bodies must be JSON objects (or `null`, read as an empty
/// request): positional arrays and scalars are refused.
pub fn check_body_kind(kind: JsonKind) -> (r: Result<(), Problem>)
    ensures
        (kind == JsonKind::Object || kind == JsonKind::Null) ==> r is Ok,
        !(kind == JsonKind::Object || kind == JsonKind::Null) ==> (r matches Err(p) && p@ == problem_new_view(
            ProblemCode::ValidationError,
            400,
            "Validation error"@,
        ).with_detail("request body must be a JSON object"@)),
{
    match kind {
        JsonKind::Object | JsonKind::Null => Ok(()),
        _ => Err(Problem::validation(String::from_str("request body must be a JSON object"))),
    }
}

/// A body that decoded as JSON but not into the request type.
pub fn body_decode_problem(reason: &str) -> (r: Problem)
    ensures
        r@ == problem_new_view(ProblemCode::ValidationError, 400, "Validation error"@).with_detail(
            "Failed to deserialize the JSON body: "@ + reason@,
        ),
{
    Problem::validation(concat2("Failed to deserialize the JSON body: ", reason))
}

} // verus!
