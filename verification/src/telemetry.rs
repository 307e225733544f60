//! Telemetry query handling: field lists, time ranges, the fleet-series
//! cell budget, and live-stream subscription filters.

use vstd::prelude::*;
use vstd::string::*;

use crate::api::{resolution_seconds, Resolution, SeriesParams, StreamParams};
use crate::clock::{rfc3339_unix, unix_of};
use crate::dispatch::{contains_str, first_unknown, lemma_first_unknown_stable};
use crate::fields::{list_items, split_list};
use crate::idem::has_str;
use crate::problem::{problem_new_view, Problem, ProblemCode, ProblemView};
use crate::text::{concat2, concat3, decimal, decimal_string, str_eq};

verus! {

/// The telemetry field allow-list, in column order.
pub open spec fn telemetry_fields() -> Seq<Seq<char>> {
    seq![
        "soc"@,
        "battery_power_kw"@,
        "pv_power_kw"@,
        "load_power_kw"@,
        "grid_power_kw"@,
        "price_rtm"@,
    ]
}

/// The allow-list as strings.
pub fn telemetry_field_names() -> (r: Vec<String>)
    ensures
        r@.len() == 6,
        forall|i: int| 0 <= i < 6 ==> (#[trigger] r@[i])@ == telemetry_fields()[i],
{
    let mut v: Vec<String> = Vec::new();
    v.push(String::from_str("soc"));
    v.push(String::from_str("battery_power_kw"));
    v.push(String::from_str("pv_power_kw"));
    v.push(String::from_str("load_power_kw"));
    v.push(String::from_str("grid_power_kw"));
    v.push(String::from_str("price_rtm"));
    v
}

/// Whether `f` is an allowed field.
pub open spec fn allowed_field(f: Seq<char>) -> bool {
    telemetry_fields().contains(f)
}

/// Index of the first item not on the allow-list, if any.
pub open spec fn first_disallowed(items: Seq<Seq<char>>, n: int) -> Option<int>
    decreases n,
{
    if n <= 0 {
        None
    } else {
        match first_disallowed(items, n - 1) {
            Some(i) => Some(i),
            None => if !allowed_field(items[n - 1]) {
                Some(n - 1)
            } else {
                None
            },
        }
    }
}

/// Message for a field outside the allow-list.
pub open spec fn msg_unknown_field(f: Seq<char>) -> Seq<char> {
    "unknown field `"@ + f + "`"@
        + " (allowed: soc, battery_power_kw, pv_power_kw, load_power_kw, grid_power_kw, price_rtm)"@
}

/// Field list selection: every allowed field when absent; otherwise the
/// listed items, each of which must be allowed, and at least one.
pub fn parse_fields(raw: Option<&str>) -> (r: Result<Vec<String>, Problem>)
    ensures
        match raw {
            None => r matches Ok(v) && v@.len() == 6 && forall|i: int| 0 <= i < 6 ==> (#[trigger] v@[i])@
                == telemetry_fields()[i],
            Some(s) => {
                let items = list_items(s@);
                match first_disallowed(items, items.len() as int) {
                    Some(i) => r matches Err(p) && p@ == problem_new_view(
                        ProblemCode::ValidationError,
                        400,
                        "Validation error"@,
                    ).with_detail(msg_unknown_field(items[i])),
                    None => if items.len() == 0 {
                        r matches Err(p) && p@ == problem_new_view(
                            ProblemCode::ValidationError,
                            400,
                            "Validation error"@,
                        ).with_detail("fields must not be empty"@)
                    } else {
                        r matches Ok(v) && v@.len() == items.len() && forall|i: int|
                            0 <= i < items.len() ==> (#[trigger] v@[i])@ == items[i]
                    },
                }
            },
        },
{
    let s = match raw {
        None => return Ok(telemetry_field_names()),
        Some(s) => s,
    };
    let items = split_list(s);
    let allowed = telemetry_field_names();
    let ghost iv = list_items(s@);
    let mut i: usize = 0;
    while i < items.len()
        invariant
            i <= items@.len() == iv.len(),
            iv == list_items(s@),
            raw == Some(s),
            forall|j: int| 0 <= j < items@.len() ==> (#[trigger] items@[j])@ == iv[j],
            allowed@.len() == 6,
            forall|j: int| 0 <= j < 6 ==> (#[trigger] allowed@[j])@ == telemetry_fields()[j],
            first_disallowed(iv, i as int) is None,
        decreases items.len() - i,
    {
        let ok = contains_str(&allowed, items[i].as_str());
        proof {
            if ok {
                let j = choose|j: int| 0 <= j < allowed@.len() && (#[trigger] allowed@[j])@ == items@[i as int]@;
                assert(telemetry_fields()[j] == iv[i as int]);
                assert(allowed_field(iv[i as int]));
            } else {
                if allowed_field(iv[i as int]) {
                    let j = choose|j: int| 0 <= j < telemetry_fields().len() && telemetry_fields()[j] == iv[i as int];
                    assert(allowed@[j]@ == items@[i as int]@);
                }
                assert(first_disallowed(iv, i + 1) == Some(i as int));
                lemma_first_disallowed_stable(iv, i + 1, iv.len() as int);
            }
        }
        if !ok {
            let mut m = concat3("unknown field `", items[i].as_str(), "`");
            m.append(" (allowed: soc, battery_power_kw, pv_power_kw, load_power_kw, grid_power_kw, price_rtm)");
            proof {
                assert(m@ =~= msg_unknown_field(iv[i as int]));
                assert(first_disallowed(iv, iv.len() as int) == Some(i as int));
                assert(iv == list_items(s@));
            }
            let p = Problem::validation(m);
            assert(p@ == problem_new_view(ProblemCode::ValidationError, 400, "Validation error"@).with_detail(
                msg_unknown_field(iv[i as int]),
            ));
            return Err(p);
        }
        i = i + 1;
    }
    if items.len() == 0 {
        return Err(Problem::validation(String::from_str("fields must not be empty")));
    }
    Ok(items)
}

/// Once a disallowed item is found, it stays the first.
proof fn lemma_first_disallowed_stable(items: Seq<Seq<char>>, a: int, b: int)
    requires
        a <= b,
        first_disallowed(items, a) is Some,
    ensures
        first_disallowed(items, b) == first_disallowed(items, a),
    decreases b - a,
{
    if a < b {
        lemma_first_disallowed_stable(items, a, b - 1);
    }
}

/// One optional range bound: `default` when absent, else the parsed unix
/// seconds; a refusal carries `label: ` before its reason (for unparsable
/// text the reason continues with the parser's own words, see
/// [`refused_for`]).
pub open spec fn bound_spec(label: Seq<char>, s: Option<Seq<char>>, default: u64) -> Result<u64, (Seq<char>, bool)> {
    match s {
        None => Ok(default),
        Some(t) => match rfc3339_unix(t) {
            Some(u) => if u >= 0 {
                Ok(u as u64)
            } else {
                Err((label + ": "@ + "time must not be before 1970"@, false))
            },
            None => Err((label + ": "@ + "invalid RFC 3339 time"@, true)),
        },
    }
}

/// The series range: `from` (default 0) up to `to` (default one second
/// past `now`), which must come strictly after.
pub open spec fn range_spec(from: Option<Seq<char>>, to: Option<Seq<char>>, now: u64) -> Result<(u64, u64), (Seq<char>, bool)> {
    let f = bound_spec("from"@, from, 0);
    let t = bound_spec("to"@, to, if now == u64::MAX { now } else { (now + 1) as u64 });
    match (f, t) {
        (Err(e), _) => Err(e),
        (Ok(_), Err(e)) => Err(e),
        (Ok(a), Ok(b)) => if b <= a {
            Err(("`to` must be after `from`"@, false))
        } else {
            Ok((a, b))
        },
    }
}

/// Whether a problem is a validation problem whose detail starts with
/// `prefix` (the detail of unparsable times ends with the parser's text).
pub open spec fn validation_with_prefix(p: ProblemView, prefix: Seq<char>) -> bool {
    &&& p.code == ProblemCode::ValidationError
    &&& p.status == 400
    &&& p.detail matches Some(d) && prefix.len() <= d.len() && d.subrange(0, prefix.len() as int) == prefix
}

/// Whether a problem is the validation refusal for `reason`: its detail is
/// exactly the reason's text or, when the reason's flag is set (an
/// unparsable timestamp), starts with that text and continues with the
/// parser's own words.
pub open spec fn refused_for(p: ProblemView, reason: (Seq<char>, bool)) -> bool {
    if reason.1 {
        validation_with_prefix(p, reason.0)
    } else {
        p == validation_view(reason.0)
    }
}

/// Parse a timestamp field; a refusal's detail is `label: ` and the
/// reason (see [`bound_spec`]).
pub(crate) fn parse_labeled_time(t: &str, label: &str) -> (r: Result<u64, Problem>)
    ensures
        match bound_spec(label@, Some(t@), 0) {
            Ok(u) => r == Ok::<u64, Problem>(u),
            Err(m) => r matches Err(p) && refused_for(p@, m),
        },
{
    match unix_of(t) {
        Ok(u) => Ok(u),
        Err(e) => {
            let m = concat3(label, ": ", e.as_str());
            proof {
                reveal_strlit("invalid RFC 3339 time");
                reveal_strlit("invalid RFC 3339 time: ");
                reveal_strlit(": ");
                assert(m@ == label@ + ": "@ + e@);
                if rfc3339_unix(t@) is None {
                    let pre = label@ + ": "@ + "invalid RFC 3339 time"@;
                    assert(e@.len() >= 23);
                    assert forall|i: int| 0 <= i < pre.len() implies m@[i] == pre[i] by {
                        if i >= label@.len() + 2 {
                            let k = i - label@.len() - 2;
                            assert(e@.subrange(0, 23)[k] == e@[k]);
                        }
                    }
                    assert(m@.subrange(0, pre.len() as int) =~= pre);
                }
            }
            Err(Problem::validation(m))
        },
    }
}

/// Parse an optional bound (see [`bound_spec`]).
fn parse_bound(s: Option<&String>, label: &str, default: u64) -> (r: Result<u64, Problem>)
    ensures
        match bound_spec(
            label@,
            match s {
                Some(x) => Some(x@),
                None => None,
            },
            default,
        ) {
            Ok(u) => r == Ok::<u64, Problem>(u),
            Err(m) => r matches Err(p) && refused_for(p@, m),
        },
{
    match s {
        None => Ok(default),
        Some(t) => parse_labeled_time(t.as_str(), label),
    }
}

/// Series time range from the query (see [`range_spec`]).
pub fn parse_range(q: &SeriesParams, now_unix: u64) -> (r: Result<(u64, u64), Problem>)
    ensures
        match r {
            Ok((a, b)) => range_spec(
                match q.from {
                    Some(x) => Some(x@),
                    None => None,
                },
                match q.to {
                    Some(x) => Some(x@),
                    None => None,
                },
                now_unix,
            ) == Ok::<(u64, u64), (Seq<char>, bool)>((a, b)),
            Err(p) => range_spec(
                match q.from {
                    Some(x) => Some(x@),
                    None => None,
                },
                match q.to {
                    Some(x) => Some(x@),
                    None => None,
                },
                now_unix,
            ) matches Err(m) && refused_for(p@, m),
        },
{
    let from = match parse_bound(q.from.as_ref(), "from", 0) {
        Ok(f) => f,
        Err(p) => return Err(p),
    };
    let default_to = if now_unix == u64::MAX { now_unix } else { now_unix + 1 };
    let to = match parse_bound(q.to.as_ref(), "to", default_to) {
        Ok(t) => t,
        Err(p) => return Err(p),
    };
    if to <= from {
        return Err(Problem::validation(String::from_str("`to` must be after `from`")));
    }
    Ok((from, to))
}

/// Largest fleet-series response, in cells (homes x buckets).
pub const MAX_FLEET_SERIES_CELLS: u64 = 1000000;

/// Buckets retained per home at a bucket length of `secs` seconds.
pub open spec fn retained_buckets(secs: u64, raw_ticks: u64, rollup_minutes: u64) -> int {
    if secs == 1 {
        raw_ticks as int
    } else if secs <= 60 {
        rollup_minutes + 1
    } else {
        (rollup_minutes / (secs / 60)) as int + 2
    }
}

/// Buckets per home a fleet series may return over `from..to`.
pub open spec fn buckets_per_home(from: u64, to: u64, res: Resolution, raw_ticks: u64, rollup_minutes: u64) -> int {
    let secs = resolution_seconds(res);
    let span = (to - from) / (secs as int) + 1;
    let kept = retained_buckets(secs, raw_ticks, rollup_minutes);
    if span < kept {
        span
    } else {
        kept
    }
}

/// The fleet-series cell budget: `homes x buckets per home` may not exceed
/// one million.
pub fn check_series_budget(
    homes: u64,
    from: u64,
    to: u64,
    res: Resolution,
    raw_ticks: u64,
    rollup_minutes: u64,
) -> (r: Result<u64, Problem>)
    requires
        from < to,
        to - from < u64::MAX,
        rollup_minutes <= u64::MAX - 2,
        homes * buckets_per_home(from, to, res, raw_ticks, rollup_minutes) <= u64::MAX,
    ensures
        ({
            let per_home = buckets_per_home(from, to, res, raw_ticks, rollup_minutes);
            if homes * per_home > MAX_FLEET_SERIES_CELLS {
                r matches Err(p) && p@ == problem_new_view(ProblemCode::ValidationError, 400, "Validation error"@)
                    .with_detail(
                    "fleet series too broad: "@ + decimal(homes as nat) + " homes x up to "@ + decimal(
                        per_home as nat,
                    ) + " buckets exceeds the "@ + decimal(1000000)
                        + " cell budget; narrow the range or use a coarser resolution"@,
                )
            } else {
                r == Ok::<u64, Problem>(per_home as u64)
            }
        }),
{
    let secs = res.seconds();
    let span = (to - from) / secs + 1;
    let retained: u64 = if secs == 1 {
        raw_ticks
    } else if secs <= 60 {
        rollup_minutes + 1
    } else {
        rollup_minutes / (secs / 60) + 2
    };
    let per_home = if span < retained { span } else { retained };
    let cells = homes * per_home;
    if cells > MAX_FLEET_SERIES_CELLS {
        let mut m = String::from_str("fleet series too broad: ");
        let h = decimal_string(homes);
        m.append(h.as_str());
        m.append(" homes x up to ");
        let p = decimal_string(per_home);
        m.append(p.as_str());
        m.append(" buckets exceeds the ");
        let c = decimal_string(1000000);
        m.append(c.as_str());
        m.append(" cell budget; narrow the range or use a coarser resolution");
        return Err(Problem::validation(m));
    }
    Ok(per_home)
}

/// The characters of an optional string.
pub open spec fn opt_str(s: &Option<String>) -> Option<Seq<char>> {
    match s {
        Some(x) => Some(x@),
        None => None,
    }
}

/// The strings of an optional list.
pub open spec fn opt_vec(v: Option<&Vec<String>>) -> Option<Seq<String>> {
    match v {
        Some(x) => Some(x@),
        None => None,
    }
}

/// The home ids listed in a stream query (see [`list_items`]).
pub open spec fn requested_homes(home_ids: Option<Seq<char>>) -> Seq<Seq<char>> {
    match home_ids {
        Some(s) => list_items(s),
        None => Seq::empty(),
    }
}

/// The homes of the named fleet, when a fleet is named and exists.
pub open spec fn fleet_part(fleet_id: Option<Seq<char>>, fleet_homes: Option<Seq<String>>) -> Seq<String> {
    match (fleet_id, fleet_homes) {
        (Some(_), Some(h)) => h,
        _ => Seq::empty(),
    }
}

/// Whether a raw row of home `k` is wanted: it is listed or belongs to
/// the named fleet.
pub open spec fn stream_wants(requested: Seq<Seq<char>>, fleet: Seq<String>, k: Seq<char>) -> bool {
    requested.contains(k) || has_str(fleet, k)
}

/// No two strings of `v` are equal.
pub open spec fn distinct_strs(v: Seq<String>) -> bool {
    forall|i: int, j: int| 0 <= i < j < v.len() ==> (#[trigger] v[i])@ != (#[trigger] v[j])@
}

/// A validation problem with a detail.
pub open spec fn validation_view(d: Seq<char>) -> ProblemView {
    problem_new_view(ProblemCode::ValidationError, 400, "Validation error"@).with_detail(d)
}

/// A not-found problem for a `kind` id.
pub open spec fn not_found_view(kind: Seq<char>, id: Seq<char>) -> ProblemView {
    problem_new_view(ProblemCode::NotFound, 404, "Not found"@).with_detail("no "@ + kind + " with id `"@ + id + "`"@)
}

/// The outcome of a stream query, checked in this order: the mode; a
/// fleet and listed homes are mutually exclusive; listed homes only on raw
/// streams, at most 500 of them, each existing; the
/// named fleet existing; raw streaming only while the world has at most
/// `limit` active homes; a downsample factor of at least 1 (default 1).
/// On success: raw mode and the downsample factor.
pub open spec fn stream_outcome(
    fields: Option<Seq<char>>,
    home_ids: Option<Seq<char>>,
    fleet_id: Option<Seq<char>>,
    downsample: Option<u64>,
    home_known: Seq<bool>,
    fleet_exists: bool,
    active: usize,
    limit: usize,
) -> Result<(bool, u64), ProblemView> {
    let req = requested_homes(home_ids);
    let ds = match downsample {
        Some(d) => d,
        None => 1,
    };
    match stream_mode(fields) {
        Err(m) => Err(validation_view(m)),
        Ok(raw) => if fleet_id is Some && req.len() > 0 {
            Err(validation_view("fleet_id and home_ids are mutually exclusive"@))
        } else if req.len() > 0 && !raw {
            Err(validation_view("home_ids applies to raw streams only; add `fields=raw`"@))
        } else if req.len() > 500 {
            Err(validation_view("home_ids accepts at most 500 entries"@))
        } else if first_unknown(home_known, req.len() as int) is Some {
            Err(not_found_view("home"@, req[first_unknown(home_known, req.len() as int).unwrap()]))
        } else if fleet_id is Some && !fleet_exists {
            Err(not_found_view("fleet"@, fleet_id.unwrap()))
        } else if raw && active > limit {
            Err(
                problem_new_view(ProblemCode::Unprocessable, 422, "Unprocessable request"@).with_detail(
                    "raw streaming is limited to "@ + decimal(limit as nat) + " active homes; this world has "@
                        + decimal(active as nat),
                ),
            )
        } else if ds == 0 {
            Err(validation_view("downsample must be >= 1"@))
        } else {
            Ok((raw, ds))
        },
    }
}

/// Pushing a string not yet present keeps the strings distinct.
proof fn lemma_push_distinct(v: Seq<String>, x: String)
    requires
        distinct_strs(v),
        !has_str(v, x@),
    ensures
        distinct_strs(v.push(x)),
{
    assert forall|i: int, j: int| 0 <= i < j < v.push(x).len() implies (#[trigger] v.push(x)[i])@ != (
    #[trigger] v.push(x)[j])@ by {
        if j == v.len() {
            assert(v[i] == v.push(x)[i]);
        }
    }
}

/// Membership after a push.
proof fn lemma_has_str_push(v: Seq<String>, x: String, k: Seq<char>)
    ensures
        has_str(v.push(x), k) == (has_str(v, k) || x@ == k),
{
    if has_str(v, k) {
        let i = choose|i: int| 0 <= i < v.len() && (#[trigger] v[i])@ == k;
        assert(v.push(x)[i] == v[i]);
    }
    if x@ == k {
        assert(v.push(x)[v.len() as int] == x);
    }
    if has_str(v.push(x), k) && x@ != k {
        let i = choose|i: int| 0 <= i < v.push(x).len() && (#[trigger] v.push(x)[i])@ == k;
        assert(v[i] == v.push(x)[i]);
    }
}

/// A live-stream subscription filter.
#[derive(Debug)]
pub struct StreamFilter {
    /// Restrict fleet rollups to this fleet.
    pub fleet_id: Option<String>,
    /// Restrict raw rows to these homes (distinct ids).
    pub home_ids: Option<Vec<String>>,
    /// Raw per-home rows instead of fleet rollups.
    pub raw: bool,
    /// Emit one event per this many ticks.
    pub downsample: u64,
}

/// Whether the stream is raw: absent or `aggregate` is not, `raw` is;
/// anything else is refused.
pub open spec fn stream_mode(fields: Option<Seq<char>>) -> Result<bool, Seq<char>> {
    match fields {
        None => Ok(false),
        Some(f) => if f == "aggregate"@ {
            Ok(false)
        } else if f == "raw"@ {
            Ok(true)
        } else {
            Err("fields must be `aggregate` or `raw`, got `"@ + f + "`"@)
        },
    }
}

impl StreamFilter {
    /// Build a subscription filter (see [`stream_outcome`] and
    /// [`stream_wants`]). `home_known` tells, for each listed home id (see
    /// [`list_items`]), whether it exists; `fleet_homes` is the named
    /// fleet's home ids (`None` when no such fleet exists); `active_homes`
    /// and `raw_limit` gate raw streaming.
    pub fn parse(
        q: &StreamParams,
        home_known: &Vec<bool>,
        fleet_homes: Option<&Vec<String>>,
        active_homes: usize,
        raw_limit: usize,
    ) -> (r: Result<StreamFilter, Problem>)
        requires
            home_known@.len() == requested_homes(opt_str(&q.home_ids)).len(),
        ensures
            match stream_outcome(
                opt_str(&q.fields),
                opt_str(&q.home_ids),
                opt_str(&q.fleet_id),
                q.downsample,
                home_known@,
                fleet_homes is Some,
                active_homes,
                raw_limit,
            ) {
                Ok((raw, ds)) => r matches Ok(f) && {
                    let fleet = fleet_part(opt_str(&q.fleet_id), opt_vec(fleet_homes));
                    let req = requested_homes(opt_str(&q.home_ids));
                    &&& f.raw == raw
                    &&& f.downsample == ds
                    &&& opt_str(&f.fleet_id) == opt_str(&q.fleet_id)
                    &&& match f.home_ids {
                        None => req.len() == 0 && fleet.len() == 0,
                        Some(v) => v@.len() > 0 && distinct_strs(v@) && forall|k: Seq<char>|
                            #[trigger] has_str(v@, k) == stream_wants(req, fleet, k),
                    }
                },
                Err(p) => r matches Err(e) && e@ == p,
            },
    {
        let raw = match &q.fields {
            None => false,
            Some(f) => {
                if str_eq(f.as_str(), "aggregate") {
                    false
                } else if str_eq(f.as_str(), "raw") {
                    true
                } else {
                    let m = concat3("fields must be `aggregate` or `raw`, got `", f.as_str(), "`");
                    return Err(Problem::validation(m));
                }
            },
        };
        assert(stream_mode(opt_str(&q.fields)) == Ok::<bool, Seq<char>>(raw));
        let requested: Vec<String> = match &q.home_ids {
            Some(s) => split_list(s.as_str()),
            None => Vec::new(),
        };
        let ghost req = requested_homes(opt_str(&q.home_ids));
        assert(requested@.len() == req.len());
        assert(forall|i: int| 0 <= i < req.len() ==> (#[trigger] requested@[i])@ == req[i]);
        if requested.len() > 0 {
            if q.fleet_id.is_some() {
                return Err(Problem::validation(String::from_str("fleet_id and home_ids are mutually exclusive")));
            }
            if !raw {
                return Err(Problem::validation(String::from_str("home_ids applies to raw streams only; add `fields=raw`")));
            }
            if requested.len() > 500 {
                return Err(Problem::validation(String::from_str("home_ids accepts at most 500 entries")));
            }
        }
        let mut i: usize = 0;
        while i < requested.len()
            invariant
                i <= requested@.len() == home_known@.len() == req.len(),
                forall|j: int| 0 <= j < req.len() ==> (#[trigger] requested@[j])@ == req[j],
                first_unknown(home_known@, i as int) is None,
                req.len() > 0 ==> raw && req.len() <= 500 && q.fleet_id is None,
                req == requested_homes(opt_str(&q.home_ids)),
                stream_mode(opt_str(&q.fields)) == Ok::<bool, Seq<char>>(raw),
            decreases requested.len() - i,
        {
            if !home_known[i] {
                proof {
                    assert(first_unknown(home_known@, i + 1) == Some(i as int));
                    lemma_first_unknown_stable(home_known@, i + 1, req.len() as int);
                    assert(requested@[i as int]@ == req[i as int]);
                }
                let p = Problem::not_found("home", requested[i].as_str());
                assert(p@ == not_found_view("home"@, req[i as int]));
                assert(!(req.len() > 0 && !raw) && !(req.len() > 500) && !(opt_str(&q.fleet_id) is Some && req.len() > 0));
                assert(first_unknown(home_known@, req.len() as int) == Some(i as int));
                return Err(p);
            }
            i = i + 1;
        }
        let mut set: Vec<String> = Vec::new();
        let mut k: usize = 0;
        while k < requested.len()
            invariant
                k <= requested@.len() == req.len(),
                forall|j: int| 0 <= j < req.len() ==> (#[trigger] requested@[j])@ == req[j],
                distinct_strs(set@),
                forall|key: Seq<char>| #[trigger] has_str(set@, key) == req.take(k as int).contains(key),
                set@.len() > 0 <==> k > 0,
            decreases requested.len() - k,
        {
            let ghost before = set@;
            if !contains_str(&set, requested[k].as_str()) {
                set.push(requested[k].clone());
                proof {
                    lemma_push_distinct(before, requested@[k as int]);
                }
            }
            k = k + 1;
            proof {
                let t0 = req.take(k - 1);
                let t1 = req.take(k as int);
                let x = requested@[k - 1];
                assert(x@ == req[k - 1]);
                assert(t1 =~= t0.push(req[k - 1]));
                assert forall|key: Seq<char>| #[trigger] has_str(set@, key) == t1.contains(key) by {
                    lemma_has_str_push(before, x, key);
                    if has_str(before, x@) {
                        assert(set@ == before);
                    } else {
                        assert(set@ == before.push(x));
                    }
                    if t0.contains(key) {
                        let w = choose|w: int| 0 <= w < t0.len() && t0[w] == key;
                        assert(t1[w] == key);
                    }
                    if req[k - 1] == key {
                        assert(t1[k - 1] == key);
                    }
                    if t1.contains(key) {
                        let w = choose|w: int| 0 <= w < t1.len() && t1[w] == key;
                        if w < k - 1 {
                            assert(t0[w] == key);
                        }
                    }
                }
            }
        }
        assert(req.take(req.len() as int) =~= req);
        let ghost after_req = set@;
        let ghost fleet = fleet_part(opt_str(&q.fleet_id), opt_vec(fleet_homes));
        if let Some(fid) = &q.fleet_id {
            match fleet_homes {
                None => return Err(Problem::not_found("fleet", fid.as_str())),
                Some(fh) => {
                    let mut j: usize = 0;
                    while j < fh.len()
                        invariant
                            j <= fh@.len(),
                            fleet == fh@,
                            distinct_strs(set@),
                            forall|key: Seq<char>|
                                #[trigger] has_str(set@, key) == (req.contains(key) || has_str(fh@.take(j as int), key)),
                            set@.len() > 0 <==> (req.len() > 0 || j > 0),
                        decreases fh.len() - j,
                    {
                        let ghost before = set@;
                        if !contains_str(&set, fh[j].as_str()) {
                            set.push(fh[j].clone());
                            proof {
                                lemma_push_distinct(before, fh@[j as int]);
                            }
                        }
                        j = j + 1;
                        proof {
                            assert(fh@.take(j as int) =~= fh@.take(j - 1).push(fh@[j - 1]));
                            assert forall|key: Seq<char>|
                                #[trigger] has_str(set@, key) == (req.contains(key) || has_str(fh@.take(j as int), key)) by {
                                lemma_has_str_push(before, fh@[j - 1], key);
                                lemma_has_str_push(fh@.take(j - 1), fh@[j - 1], key);
                                if has_str(before, fh@[j - 1]@) {
                                    assert(set@ == before);
                                }
                            }
                        }
                    }
                    assert(fh@.take(fh@.len() as int) =~= fh@);
                },
            }
        } else {
            assert forall|key: Seq<char>| #[trigger] has_str(set@, key) == (req.contains(key) || has_str(fleet, key)) by {
                assert(fleet.len() == 0);
            }
        }
        if raw && active_homes > raw_limit {
            let mut m = String::from_str("raw streaming is limited to ");
            let l = decimal_string(raw_limit as u64);
            m.append(l.as_str());
            m.append(" active homes; this world has ");
            let n = decimal_string(active_homes as u64);
            m.append(n.as_str());
            return Err(Problem::unprocessable(m));
        }
        let downsample = match q.downsample {
            Some(d) => d,
            None => 1,
        };
        if downsample == 0 {
            return Err(Problem::validation(String::from_str("downsample must be >= 1")));
        }
        let fleet_id = match &q.fleet_id {
            Some(f) => Some(f.clone()),
            None => None,
        };
        let home_ids = if set.len() == 0 {
            None
        } else {
            Some(set)
        };
        Ok(StreamFilter { fleet_id, home_ids, raw, downsample })
    }

    /// Whether an event at `tick` is emitted (one per `downsample` ticks).
    pub fn emits_tick(&self, tick: u64) -> (r: bool)
        requires
            self.downsample >= 1,
        ensures
            r == (tick % self.downsample == 0),
    {
        tick % self.downsample == 0
    }

    /// Whether a fleet rollup is forwarded.
    pub fn wants_fleet(&self, fleet_id: &str) -> (r: bool)
        ensures
            r == match self.fleet_id {
                Some(f) => f@ == fleet_id@,
                None => true,
            },
    {
        match &self.fleet_id {
            Some(f) => str_eq(f.as_str(), fleet_id),
            None => true,
        }
    }

    /// Whether a raw home row is forwarded.
    pub fn wants_home(&self, home_id: &str) -> (r: bool)
        ensures
            r == match self.home_ids {
                Some(ids) => has_str(ids@, home_id@),
                None => true,
            },
    {
        match &self.home_ids {
            Some(ids) => contains_str(ids, home_id),
            None => true,
        }
    }
}

} // verus!
