//! Per-entry catalog checks that concern identity and structure:
//! schema version, `vendor.model` identifier shape, vendor-prefix
//! consistency, microinverter and expansion declarations. Every violation
//! is appended to the caller's list; nothing fails fast.

use vstd::prelude::*;
use vstd::string::*;

use crate::kinds::SCHEMA_VERSION;
use crate::text::{ascii_lowercase, chars_of, concat3, concat5, lower_seq, str_eq, string_from_chars};
use crate::violation::{push_violation, views, vv, Violation, ViolationView};

verus! {

/// Characters allowed in an identifier segment: `[a-z0-9_]`.
pub open spec fn id_char(c: char) -> bool {
    ('a' <= c && c <= 'z') || ('0' <= c && c <= '9') || c == '_'
}

/// `s` splits at `k` into two non-empty `[a-z0-9_]+` segments.
pub open spec fn id_split_at(s: Seq<char>, k: int) -> bool {
    &&& 0 < k < s.len() - 1
    &&& s[k] == '.'
    &&& forall|i: int| 0 <= i < s.len() && i != k ==> id_char(#[trigger] s[i])
}

/// `s` matches `^[a-z0-9_]+\.[a-z0-9_]+$`.
pub open spec fn well_formed_id(s: Seq<char>) -> bool {
    exists|k: int| id_split_at(s, k)
}

/// The vendor segment (before the dot) of a well-formed identifier.
pub open spec fn id_prefix(s: Seq<char>) -> Seq<char> {
    s.take(choose|k: int| id_split_at(s, k))
}

/// Message for a malformed identifier.
pub open spec fn msg_bad_id(id: Seq<char>) -> Seq<char> {
    "`"@ + id + "` does not match `^[a-z0-9_]+\\.[a-z0-9_]+$`"@
}

/// Message for a vendor-prefix mismatch.
pub open spec fn msg_vendor_mismatch(prefix: Seq<char>, vendor: Seq<char>) -> Seq<char> {
    "model_id prefix `"@ + prefix + "` does not match vendor `"@ + vendor + "`"@
}

/// Violations of the identifier rule for `id` at `field`: a malformed
/// identifier, or (when a vendor is given) a vendor prefix that differs
/// from the ASCII-lowercased vendor name.
pub open spec fn identifier_violations(
    path: Seq<char>,
    field: Seq<char>,
    id: Seq<char>,
    vendor: Option<Seq<char>>,
) -> Seq<ViolationView> {
    if !well_formed_id(id) {
        seq![vv(path, field, msg_bad_id(id))]
    } else {
        match vendor {
            Some(v) => if lower_seq(v) != id_prefix(id) {
                seq![vv(path, field, msg_vendor_mismatch(id_prefix(id), v))]
            } else {
                Seq::empty()
            },
            None => Seq::empty(),
        }
    }
}

/// Message for an unsupported schema version.
pub open spec fn msg_schema(actual: Seq<char>) -> Seq<char> {
    "unsupported schema_version `"@ + actual + "`; expected `"@ + "1.0.0"@ + "`"@
}

/// Violations of the schema-version rule.
pub open spec fn schema_violations(path: Seq<char>, actual: Seq<char>) -> Seq<ViolationView> {
    if actual != "1.0.0"@ {
        seq![vv(path, "schema_version"@, msg_schema(actual))]
    } else {
        Seq::empty()
    }
}

/// `schema_version` must equal the supported catalog schema version.
pub fn check_schema_version(path: &str, actual: &str, out: &mut Vec<Violation>)
    ensures
        views(final(out)@) == views(old(out)@) + schema_violations(path@, actual@),
{
    if !str_eq(actual, SCHEMA_VERSION) {
        let mut msg = concat3("unsupported schema_version `", actual, "`; expected `");
        msg.append(SCHEMA_VERSION);
        msg.append("`");
        push_violation(out, Violation::new(path, "schema_version", msg));
    } else {
        assert(views(out@) =~= views(out@) + schema_violations(path@, actual@));
    }
}

/// Scan result for an identifier: number of dots, position of the first
/// dot, and whether every non-dot character is an identifier character.
fn scan_identifier(v: &Vec<char>) -> (r: (usize, usize, bool))
    ensures
        r.0 == 0 ==> forall|i: int| 0 <= i < v@.len() ==> v@[i] != '.',
        r.0 == 1 ==> r.1 < v@.len() && v@[r.1 as int] == '.' && forall|i: int|
            0 <= i < v@.len() && i != r.1 ==> v@[i] != '.',
        r.0 >= 2 ==> exists|a: int, b: int|
            0 <= a < b < v@.len() && v@[a] == '.' && v@[b] == '.',
        r.2 == (forall|i: int| 0 <= i < v@.len() && v@[i] != '.' ==> id_char(v@[i])),
{
    let mut dots: usize = 0;
    let mut first: usize = 0;
    let mut ok = true;
    let mut i: usize = 0;
    while i < v.len()
        invariant
            i <= v.len(),
            dots <= i,
            dots == 0 ==> forall|j: int| 0 <= j < i ==> v@[j] != '.',
            dots == 1 ==> first < i && v@[first as int] == '.' && forall|j: int|
                0 <= j < i && j != first ==> v@[j] != '.',
            dots >= 2 ==> exists|a: int, b: int| 0 <= a < b < i && v@[a] == '.' && v@[b] == '.',
            ok == (forall|j: int| 0 <= j < i && v@[j] != '.' ==> id_char(v@[j])),
        decreases v.len() - i,
    {
        let c = v[i];
        if c == '.' {
            if dots == 0 {
                first = i;
                dots = 1;
            } else if dots == 1 {
                assert(v@[first as int] == '.' && v@[i as int] == '.');
                dots = 2;
            }
        } else {
            let good = ('a' <= c && c <= 'z') || ('0' <= c && c <= '9') || c == '_';
            if !good {
                ok = false;
            }
        }
        i = i + 1;
    }
    (dots, first, ok)
}

/// Whether `id` matches `^[a-z0-9_]+\.[a-z0-9_]+$`; when it does, the
/// position of its dot.
pub fn identifier_shape(id: &str) -> (r: Option<usize>)
    ensures
        r is Some <==> well_formed_id(id@),
        r matches Some(k) ==> id_split_at(id@, k as int) && id_prefix(id@) == id@.take(k as int),
{
    let v = chars_of(id);
    let (dots, first, ok) = scan_identifier(&v);
    if dots == 1 && ok && first > 0 && first < v.len() && first + 1 < v.len() {
        proof {
            assert(id_split_at(id@, first as int));
            let k = choose|k: int| id_split_at(id@, k);
            if k != first as int {
                assert(id_char(id@[first as int]));
            }
        }
        Some(first)
    } else {
        proof {
            if well_formed_id(id@) {
                let k = choose|k: int| id_split_at(id@, k);
                if dots == 0 {
                    assert(v@[k] != '.');
                } else if dots >= 2 {
                    let (a, b) = choose|a: int, b: int|
                        0 <= a < b < v@.len() && v@[a] == '.' && v@[b] == '.';
                    if a != k {
                        assert(id_char(v@[a]));
                    } else {
                        assert(id_char(v@[b]));
                    }
                } else {
                    if !ok {
                        let j = choose|j: int| 0 <= j < v@.len() && v@[j] != '.' && !id_char(v@[j]);
                        assert(j != k);
                    } else {
                        assert(k == first as int);
                    }
                }
            }
        }
        None
    }
}

/// `model_id` (or `preset_id`) must match `^[a-z0-9_]+\.[a-z0-9_]+$`
/// (exactly one dot; lowercase alphanumerics and underscores). When a
/// `vendor` is given, the prefix before the dot must equal it
/// ASCII-lowercased.
pub fn check_identifier(
    path: &str,
    field: &str,
    id: &str,
    vendor: Option<&str>,
    out: &mut Vec<Violation>,
)
    ensures
        views(final(out)@) == views(old(out)@) + identifier_violations(
            path@,
            field@,
            id@,
            match vendor {
                Some(v) => Some(v@),
                None => None,
            },
        ),
{
    let ghost vend = match vendor {
        Some(v) => Some(v@),
        None => None,
    };
    match identifier_shape(id) {
        None => {
            let msg = concat3("`", id, "` does not match `^[a-z0-9_]+\\.[a-z0-9_]+$`");
            push_violation(out, Violation::new(path, field, msg));
        },
        Some(k) => {
            match vendor {
                Some(vendor_name) => {
                    let lowered = ascii_lowercase(vendor_name);
                    let idv = chars_of(id);
                    let mut prefix: Vec<char> = Vec::new();
                    let mut i: usize = 0;
                    while i < k
                        invariant
                            idv@ == id@,
                            k < idv@.len(),
                            i <= k,
                            prefix@ == idv@.take(i as int),
                        decreases k - i,
                    {
                        prefix.push(idv[i]);
                        i = i + 1;
                        assert(prefix@ =~= idv@.take(i as int));
                    }
                    let same = chars_equal(&lowered, &prefix);
                    if !same {
                        let p = string_from_chars(&prefix);
                        let msg = concat5(
                            "model_id prefix `",
                            p.as_str(),
                            "` does not match vendor `",
                            vendor_name,
                            "`",
                        );
                        push_violation(out, Violation::new(path, field, msg));
                    } else {
                        assert(views(out@) =~= views(out@) + identifier_violations(
                            path@, field@, id@, vend));
                    }
                },
                None => {
                    assert(views(out@) =~= views(out@) + identifier_violations(
                        path@, field@, id@, vend));
                },
            }
        },
    }
}

/// Whether two character vectors are equal.
pub fn chars_equal(a: &Vec<char>, b: &Vec<char>) -> (r: bool)
    ensures
        r == (a@ == b@),
{
    if a.len() != b.len() {
        return false;
    }
    let mut i: usize = 0;
    while i < a.len()
        invariant
            a.len() == b.len(),
            i <= a.len(),
            forall|j: int| 0 <= j < i ==> a@[j] == b@[j],
        decreases a.len() - i,
    {
        if a[i] != b[i] {
            return false;
        }
        i = i + 1;
    }
    assert(a@ =~= b@);
    true
}

} // verus!

verus! {

/// Message: a count that must be positive when declared.
pub open spec fn msg_at_least_one() -> Seq<char> {
    "must be >= 1 when declared"@
}

/// Microinverter declaration violations of a battery entry: a declared
/// count must be at least 1 and only appear on microinverter-based
/// entries; microinverter-based coupling requires a declared count.
pub open spec fn microinverter_decl_violations(
    path: Seq<char>,
    coupling: crate::kinds::Coupling,
    count: Option<u32>,
) -> Seq<ViolationView> {
    match count {
        Some(c) => (if c == 0 {
            seq![vv(path, "microinverter_count"@, msg_at_least_one())]
        } else {
            Seq::empty()
        }) + (if coupling != crate::kinds::Coupling::MicroinverterBased {
            seq![vv(path, "microinverter_count"@, "declared on a non-microinverter-based entry"@)]
        } else {
            Seq::empty()
        }),
        None => if coupling == crate::kinds::Coupling::MicroinverterBased {
            seq![vv(
                path,
                "microinverter_count"@,
                "microinverter-based coupling requires an explicit microinverter_count (spec §2.3)"@,
            )]
        } else {
            Seq::empty()
        },
    }
}

/// Structural microinverter rules of a battery entry (the power ceiling
/// itself is a rating comparison made by the caller).
pub fn check_battery_microinverter_decl(
    path: &str,
    coupling: crate::kinds::Coupling,
    count: Option<u32>,
    out: &mut Vec<Violation>,
)
    ensures
        views(final(out)@) == views(old(out)@) + microinverter_decl_violations(path@, coupling, count),
{
    let ghost start = views(out@);
    match count {
        Some(c) => {
            if c == 0 {
                push_violation(
                    out,
                    Violation::new(path, "microinverter_count", String::from_str("must be >= 1 when declared")),
                );
            }
            let ghost mid = views(out@);
            if coupling != crate::kinds::Coupling::MicroinverterBased {
                push_violation(
                    out,
                    Violation::new(
                        path,
                        "microinverter_count",
                        String::from_str("declared on a non-microinverter-based entry"),
                    ),
                );
            }
            assert(views(out@) =~= start + microinverter_decl_violations(path@, coupling, count));
        },
        None => {
            if coupling == crate::kinds::Coupling::MicroinverterBased {
                push_violation(
                    out,
                    Violation::new(
                        path,
                        "microinverter_count",
                        String::from_str(
                            "microinverter-based coupling requires an explicit microinverter_count (spec §2.3)",
                        ),
                    ),
                );
            } else {
                assert(views(out@) =~= start + microinverter_decl_violations(path@, coupling, count));
            }
        },
    }
}

/// Expansion metadata violations of a battery entry.
pub open spec fn expansion_violations(path: Seq<char>, e: Option<crate::catalog::Expansion>) -> Seq<
    ViolationView,
> {
    match e {
        Some(x) => (match x.max_units_per_inverter {
            Some(m) => if m < 1 {
                seq![vv(path, "expansion.max_units_per_inverter"@, msg_at_least_one())]
            } else {
                Seq::empty()
            },
            None => Seq::empty(),
        }) + (match x.expansion_pack_model_id {
            Some(pid) => identifier_violations(path, "expansion.expansion_pack_model_id"@, pid@, None),
            None => Seq::empty(),
        }),
        None => Seq::empty(),
    }
}

/// Expansion metadata shape: a declared unit limit is at least 1 and a
/// declared pack id is a well-formed identifier.
pub fn check_battery_expansion(
    path: &str,
    expansion: &Option<crate::catalog::Expansion>,
    out: &mut Vec<Violation>,
)
    ensures
        views(final(out)@) == views(old(out)@) + expansion_violations(path@, *expansion),
{
    let ghost start = views(out@);
    match expansion {
        Some(x) => {
            if let Some(m) = x.max_units_per_inverter {
                if m < 1 {
                    push_violation(
                        out,
                        Violation::new(
                            path,
                            "expansion.max_units_per_inverter",
                            String::from_str("must be >= 1 when declared"),
                        ),
                    );
                }
            }
            let ghost mid = views(out@);
            assert(mid =~= start + match x.max_units_per_inverter {
                Some(m) => if m < 1 {
                    seq![vv(path@, "expansion.max_units_per_inverter"@, msg_at_least_one())]
                } else {
                    Seq::empty()
                },
                None => Seq::empty(),
            });
            if let Some(pid) = &x.expansion_pack_model_id {
                check_identifier(path, "expansion.expansion_pack_model_id", pid.as_str(), None, out);
            }
            assert(views(out@) =~= start + expansion_violations(path@, *expansion));
        },
        None => {
            assert(views(out@) =~= start + expansion_violations(path@, *expansion));
        },
    }
}

/// Message for a hybrid inverter without compatible batteries.
pub open spec fn msg_hybrid_empty() -> Seq<char> {
    "hybrid DC-coupled inverter must declare at least one compatible battery"@
}

/// Field path `compatible_battery_ids[<i>]`.
pub open spec fn compat_field_name(i: nat) -> Seq<char> {
    "compatible_battery_ids["@ + crate::text::decimal(i) + "]"@
}

/// Some id before position `i` equals the id at `i`.
pub open spec fn seen_before(ids: Seq<String>, i: int) -> bool {
    exists|j: int| 0 <= j < i && (#[trigger] ids[j])@ == ids[i]@
}

/// Violations for the first `n` compatible-battery ids: each must be a
/// well-formed identifier and must not repeat an earlier id.
pub open spec fn compat_list_violations(path: Seq<char>, ids: Seq<String>, n: nat) -> Seq<ViolationView>
    decreases n,
{
    if n == 0 {
        Seq::empty()
    } else {
        let i = (n - 1) as nat;
        compat_list_violations(path, ids, i) + identifier_violations(
            path,
            compat_field_name(i),
            ids[i as int]@,
            None,
        ) + if seen_before(ids, i as int) {
            seq![vv(path, compat_field_name(i), "duplicate compatible battery `"@ + ids[i as int]@ + "`"@)]
        } else {
            Seq::empty()
        }
    }
}

/// Compatibility-list violations of an inverter entry.
pub open spec fn inverter_compat_violations(
    path: Seq<char>,
    topology: crate::kinds::InverterTopology,
    ids: Seq<String>,
    max_batteries: Option<u32>,
) -> Seq<ViolationView> {
    (if topology == crate::kinds::InverterTopology::HybridDCCoupled && ids.len() == 0 {
        seq![vv(path, "compatible_battery_ids"@, msg_hybrid_empty())]
    } else {
        Seq::empty()
    }) + compat_list_violations(path, ids, ids.len()) + match max_batteries {
        Some(m) => if m < 1 {
            seq![vv(path, "max_batteries"@, msg_at_least_one())]
        } else {
            Seq::empty()
        },
        None => Seq::empty(),
    }
}

/// Entry-level hybrid rule and compatibility-list shape of an inverter:
/// a hybrid DC-coupled inverter declares at least one compatible battery,
/// every listed id is well formed and listed once, and a declared battery
/// limit is at least 1.
pub fn check_inverter_compat(
    path: &str,
    topology: crate::kinds::InverterTopology,
    ids: &Vec<String>,
    max_batteries: Option<u32>,
    out: &mut Vec<Violation>,
)
    ensures
        views(final(out)@) == views(old(out)@) + inverter_compat_violations(
            path@,
            topology,
            ids@,
            max_batteries,
        ),
{
    let ghost start = views(out@);
    if topology == crate::kinds::InverterTopology::HybridDCCoupled && ids.len() == 0 {
        push_violation(
            out,
            Violation::new(
                path,
                "compatible_battery_ids",
                String::from_str("hybrid DC-coupled inverter must declare at least one compatible battery"),
            ),
        );
    }
    let ghost first = views(out@);
    let mut i: usize = 0;
    while i < ids.len()
        invariant
            i <= ids@.len(),
            views(out@) == first + compat_list_violations(path@, ids@, i as nat),
        decreases ids.len() - i,
    {
        let mut field = String::from_str("compatible_battery_ids[");
        let num = crate::text::decimal_string(i as u64);
        field.append(num.as_str());
        field.append("]");
        let ghost before = views(out@);
        check_identifier(path, field.as_str(), ids[i].as_str(), None, out);
        let ghost mid = views(out@);
        let mut seen = false;
        let mut j: usize = 0;
        while j < i
            invariant
                j <= i,
                i < ids@.len(),
                seen == exists|k: int| 0 <= k < j && (#[trigger] ids@[k])@ == ids@[i as int]@,
            decreases i - j,
        {
            if str_eq(ids[j].as_str(), ids[i].as_str()) {
                seen = true;
            }
            j = j + 1;
        }
        if seen {
            let msg = concat3("duplicate compatible battery `", ids[i].as_str(), "`");
            push_violation(out, Violation::new(path, field.as_str(), msg));
        }
        proof {
            assert(seen == seen_before(ids@, i as int));
            assert(views(out@) =~= first + compat_list_violations(path@, ids@, (i + 1) as nat));
        }
        i = i + 1;
    }
    let ghost after_list = views(out@);
    if let Some(m) = max_batteries {
        if m < 1 {
            push_violation(
                out,
                Violation::new(path, "max_batteries", String::from_str("must be >= 1 when declared")),
            );
        }
    }
    assert(views(out@) =~= start + inverter_compat_violations(path@, topology, ids@, max_batteries));
}

/// Wiring violations of a PV preset: a declared PV inverter id is a
/// well-formed identifier and a declared microinverter count is at least 1.
pub open spec fn preset_wiring_violations(
    path: Seq<char>,
    pv_inverter_model_id: Option<String>,
    microinverter_count: Option<u32>,
) -> Seq<ViolationView> {
    (match pv_inverter_model_id {
        Some(id) => identifier_violations(path, "pv_inverter_model_id"@, id@, None),
        None => Seq::empty(),
    }) + match microinverter_count {
        Some(c) => if c < 1 {
            seq![vv(path, "microinverter_count"@, msg_at_least_one())]
        } else {
            Seq::empty()
        },
        None => Seq::empty(),
    }
}

/// Wiring checks of a PV preset.
pub fn check_pv_preset_wiring(
    path: &str,
    pv_inverter_model_id: &Option<String>,
    microinverter_count: Option<u32>,
    out: &mut Vec<Violation>,
)
    ensures
        views(final(out)@) == views(old(out)@) + preset_wiring_violations(
            path@,
            *pv_inverter_model_id,
            microinverter_count,
        ),
{
    let ghost start = views(out@);
    if let Some(id) = pv_inverter_model_id {
        check_identifier(path, "pv_inverter_model_id", id.as_str(), None, out);
    }
    let ghost mid = views(out@);
    if let Some(c) = microinverter_count {
        if c < 1 {
            push_violation(
                out,
                Violation::new(path, "microinverter_count", String::from_str("must be >= 1 when declared")),
            );
        }
    }
    assert(views(out@) =~= start + preset_wiring_violations(path@, *pv_inverter_model_id, microinverter_count));
}

} // verus!
