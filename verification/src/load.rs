//! The catalog load pipeline after parsing: entry records, the tree's
//! manifest, assembling a registry with its cross-reference and
//! whole-catalog checks, and layering an external tree over a loaded
//! registry entry by entry.

use vstd::prelude::*;
use vstd::string::*;

use crate::catalog::{
    ascending_keys, find, has_key, last_with_key, ordered_by_key, sort_by_key, sorted_keys, table_from, BatteryModel,
    CatalogEntry, CatalogManifest, ControllerModel, InverterModel, Keyed, PvPreset, Registry, RegistrySource,
};
use crate::digest::{hex_sha256, sha256_of};
use crate::error::RegistryError;
use crate::integrity::{catalog_hash, catalog_sha256, msg_catalog_mismatch, verify_catalog_hash};
use crate::kinds::{kind_dir, kind_name, serde_of_kind, EntryKind, EntryKindSerde};
use crate::text::{concat2, concat3, hex_seq, to_string_of};
use crate::violation::{views, Violation, ViolationView};
use crate::xref::{batteries_xref, check_cross_references, inverters_xref, presets_xref, registry_xref};

verus! {

/// A parsed catalog entry of any kind.
#[derive(Debug)]
pub enum ParsedEntry {
    /// A battery entry.
    Battery(BatteryModel),
    /// An inverter entry.
    Inverter(InverterModel),
    /// A controller entry.
    Controller(ControllerModel),
    /// A PV preset entry.
    PvPreset(PvPreset),
}

/// The kind of a parsed entry.
pub open spec fn parsed_kind(p: ParsedEntry) -> EntryKind {
    match p {
        ParsedEntry::Battery(_) => EntryKind::Battery,
        ParsedEntry::Inverter(_) => EntryKind::Inverter,
        ParsedEntry::Controller(_) => EntryKind::Controller,
        ParsedEntry::PvPreset(_) => EntryKind::PvPreset,
    }
}

/// The identifier of a parsed entry (`model_id` or `preset_id`).
pub open spec fn parsed_id(p: ParsedEntry) -> Seq<char> {
    match p {
        ParsedEntry::Battery(m) => m.model_id@,
        ParsedEntry::Inverter(m) => m.model_id@,
        ParsedEntry::Controller(m) => m.model_id@,
        ParsedEntry::PvPreset(m) => m.preset_id@,
    }
}

/// The entry version of a parsed entry.
pub open spec fn parsed_version(p: ParsedEntry) -> Seq<char> {
    match p {
        ParsedEntry::Battery(m) => m.entry_version@,
        ParsedEntry::Inverter(m) => m.entry_version@,
        ParsedEntry::Controller(m) => m.entry_version@,
        ParsedEntry::PvPreset(m) => m.entry_version@,
    }
}

impl ParsedEntry {
    /// The entry's kind.
    pub fn kind(&self) -> (r: EntryKind)
        ensures
            r == parsed_kind(*self),
    {
        match self {
            ParsedEntry::Battery(_) => EntryKind::Battery,
            ParsedEntry::Inverter(_) => EntryKind::Inverter,
            ParsedEntry::Controller(_) => EntryKind::Controller,
            ParsedEntry::PvPreset(_) => EntryKind::PvPreset,
        }
    }

    /// The entry's identifier.
    pub fn model_id(&self) -> (r: &str)
        ensures
            r@ == parsed_id(*self),
    {
        match self {
            ParsedEntry::Battery(m) => m.model_id.as_str(),
            ParsedEntry::Inverter(m) => m.model_id.as_str(),
            ParsedEntry::Controller(m) => m.model_id.as_str(),
            ParsedEntry::PvPreset(m) => m.preset_id.as_str(),
        }
    }

    /// The entry's version.
    pub fn entry_version(&self) -> (r: &str)
        ensures
            r@ == parsed_version(*self),
    {
        match self {
            ParsedEntry::Battery(m) => m.entry_version.as_str(),
            ParsedEntry::Inverter(m) => m.entry_version.as_str(),
            ParsedEntry::Controller(m) => m.entry_version.as_str(),
            ParsedEntry::PvPreset(m) => m.entry_version.as_str(),
        }
    }
}

/// One entry file after parse: its record plus the typed content.
#[derive(Debug)]
pub struct ParsedFile {
    /// Manifest-style record built from the file.
    pub record: CatalogEntry,
    /// Typed content.
    pub parsed: ParsedEntry,
}

/// The record of an entry file: its path, kind, declared identity and
/// content hash.
pub fn entry_record(path: &str, kind: EntryKind, parsed: &ParsedEntry, bytes: &[u8]) -> (r: CatalogEntry)
    ensures
        r.path@ == path@,
        r.kind == serde_of_kind(kind),
        r.model_id@ == parsed_id(*parsed),
        r.entry_version@ == parsed_version(*parsed),
        r.sha256@ == hex_seq(sha256_of(bytes@)),
{
    CatalogEntry {
        path: to_string_of(path),
        kind: EntryKindSerde::from(kind),
        model_id: to_string_of(parsed.model_id()),
        entry_version: to_string_of(parsed.entry_version()),
        sha256: hex_sha256(bytes),
    }
}

/// The kind directory a registry-relative path lies under: its first
/// `/`-separated segment.
pub open spec fn first_segment(path: Seq<char>) -> Seq<char>
    decreases path.len(),
{
    if path.len() == 0 {
        Seq::empty()
    } else if path[0] == '/' {
        Seq::empty()
    } else {
        seq![path[0]] + first_segment(path.drop_first())
    }
}

/// The kind of an entry path (by its first segment), or the integrity
/// error for a path outside the kind directories.
pub fn kind_of_path(path: &str) -> (r: Result<EntryKind, RegistryError>)
    ensures
        match r {
            Ok(k) => kind_dir(k) == first_segment(path@),
            Err(e) => (forall|k: EntryKind| kind_dir(k) != first_segment(path@)) && (e matches RegistryError::Integrity(
                m,
            ) && m@ == path@ + ": entry not under a known kind directory"@),
        },
{
    let chars = crate::text::chars_of(path);
    let mut seg: Vec<char> = Vec::new();
    let mut i: usize = 0;
    assert(chars@.subrange(0, chars@.len() as int) =~= chars@);
    assert(seg@ + first_segment(chars@) =~= first_segment(chars@));
    while i < chars.len() && chars[i] != '/'
        invariant
            i <= chars@.len(),
            first_segment(chars@) == seg@ + first_segment(chars@.subrange(i as int, chars@.len() as int)),
        decreases chars.len() - i,
    {
        proof {
            let rest = chars@.subrange(i as int, chars@.len() as int);
            assert(rest.drop_first() =~= chars@.subrange(i + 1, chars@.len() as int));
            assert(seg@.push(chars@[i as int]) + first_segment(rest.drop_first()) =~= seg@ + (seq![rest[0]]
                + first_segment(rest.drop_first())));
        }
        seg.push(chars[i]);
        i = i + 1;
    }
    proof {
        assert(chars@.subrange(0, chars@.len() as int) =~= chars@);
        let rest = chars@.subrange(i as int, chars@.len() as int);
        assert(first_segment(rest) =~= Seq::<char>::empty());
        assert(seg@ =~= first_segment(chars@));
    }
    let s = crate::text::string_from_chars(&seg);
    match EntryKind::from_dir(s.as_str()) {
        Some(k) => Ok(k),
        None => Err(RegistryError::Integrity(concat2(path, ": entry not under a known kind directory"))),
    }
}

/// Records of parsed files, in order.
pub open spec fn records_of(fs: Seq<ParsedFile>) -> Seq<CatalogEntry> {
    fs.map_values(|f: ParsedFile| f.record)
}

/// Battery entries among parsed files, in order.
pub open spec fn batteries_of(fs: Seq<ParsedFile>) -> Seq<BatteryModel>
    decreases fs.len(),
{
    if fs.len() == 0 {
        Seq::empty()
    } else {
        batteries_of(fs.drop_last()) + match fs.last().parsed {
            ParsedEntry::Battery(m) => seq![m],
            _ => Seq::empty(),
        }
    }
}

/// Inverter entries among parsed files, in order.
pub open spec fn inverters_of(fs: Seq<ParsedFile>) -> Seq<InverterModel>
    decreases fs.len(),
{
    if fs.len() == 0 {
        Seq::empty()
    } else {
        inverters_of(fs.drop_last()) + match fs.last().parsed {
            ParsedEntry::Inverter(m) => seq![m],
            _ => Seq::empty(),
        }
    }
}

/// Controller entries among parsed files, in order.
pub open spec fn controllers_of(fs: Seq<ParsedFile>) -> Seq<ControllerModel>
    decreases fs.len(),
{
    if fs.len() == 0 {
        Seq::empty()
    } else {
        controllers_of(fs.drop_last()) + match fs.last().parsed {
            ParsedEntry::Controller(m) => seq![m],
            _ => Seq::empty(),
        }
    }
}

/// PV presets among parsed files, in order.
pub open spec fn presets_of(fs: Seq<ParsedFile>) -> Seq<PvPreset>
    decreases fs.len(),
{
    if fs.len() == 0 {
        Seq::empty()
    } else {
        presets_of(fs.drop_last()) + match fs.last().parsed {
            ParsedEntry::PvPreset(m) => seq![m],
            _ => Seq::empty(),
        }
    }
}

/// Cross-reference violations of registry tables.
pub open spec fn tables_xref(
    bs: Seq<BatteryModel>,
    is: Seq<InverterModel>,
    cs: Seq<ControllerModel>,
    ps: Seq<PvPreset>,
) -> Seq<ViolationView> {
    batteries_xref(bs, is, cs, bs.len()) + inverters_xref(bs, is, is.len()) + presets_xref(is, ps, ps.len())
}

/// `computed` is the whole-catalog hash of the records taken in path
/// order.
pub open spec fn path_order_hash(records: Seq<CatalogEntry>, computed: Seq<char>) -> bool {
    exists|s: Seq<CatalogEntry>|
        ascending_keys(s) && s.to_multiset() == records.to_multiset() && #[trigger] catalog_hash(s) == computed
}

/// A parsed tree ready to assemble: its manifest, parsed files, and
/// whether the manifest's `catalog_sha256` must still be verified.
#[derive(Debug)]
pub struct LoadedTree {
    /// The tree's manifest.
    pub manifest: CatalogManifest,
    /// Parsed entry files, in path order.
    pub files: Vec<ParsedFile>,
    /// Whether `catalog_sha256` came from a manifest on hand (rather than
    /// being computed from the content) and must be verified.
    pub verify_catalog_hash: bool,
}

/// Split parsed files into their records and per-kind entries, in order.
fn split_files(files: Vec<ParsedFile>) -> (r: (
    Vec<CatalogEntry>,
    Vec<BatteryModel>,
    Vec<InverterModel>,
    Vec<ControllerModel>,
    Vec<PvPreset>,
))
    ensures
        r.0@ == records_of(files@),
        r.1@ == batteries_of(files@),
        r.2@ == inverters_of(files@),
        r.3@ == controllers_of(files@),
        r.4@ == presets_of(files@),
{
    let ghost all = files@;
    assert(all.len() == files.len());
    let mut rest = files;
    let mut records: Vec<CatalogEntry> = Vec::new();
    let mut bs: Vec<BatteryModel> = Vec::new();
    let mut is: Vec<InverterModel> = Vec::new();
    let mut cs: Vec<ControllerModel> = Vec::new();
    let mut ps: Vec<PvPreset> = Vec::new();
    let mut n: usize = 0;
    assert(all.take(0) =~= Seq::<ParsedFile>::empty());
    assert(records_of(all.take(0)) =~= Seq::<CatalogEntry>::empty());
    while rest.len() > 0
        invariant
            n <= all.len(),
            all.len() <= usize::MAX,
            rest@ == all.skip(n as int),
            records@ == records_of(all.take(n as int)),
            bs@ == batteries_of(all.take(n as int)),
            is@ == inverters_of(all.take(n as int)),
            cs@ == controllers_of(all.take(n as int)),
            ps@ == presets_of(all.take(n as int)),
        decreases rest.len(),
    {
        let f = rest.remove(0);
        proof {
            assert(f == all[n as int]);
            assert(all.take(n + 1).drop_last() =~= all.take(n as int));
            assert(all.take(n + 1).last() == f);
        }
        records.push(f.record);
        match f.parsed {
            ParsedEntry::Battery(m) => bs.push(m),
            ParsedEntry::Inverter(m) => is.push(m),
            ParsedEntry::Controller(m) => cs.push(m),
            ParsedEntry::PvPreset(m) => ps.push(m),
        }
        n = n + 1;
        proof {
            assert(records@ =~= records_of(all.take(n as int)));
            assert(bs@ =~= batteries_of(all.take(n as int)));
            assert(is@ =~= inverters_of(all.take(n as int)));
            assert(cs@ =~= controllers_of(all.take(n as int)));
            assert(ps@ =~= presets_of(all.take(n as int)));
            assert(rest@ =~= all.skip(n as int));
        }
    }
    assert(all.take(all.len() as int) =~= all);
    (records, bs, is, cs, ps)
}

/// Assemble a registry from a parsed tree: build the ordered tables (a
/// later entry replaces an earlier one with the same identifier), run the
/// cross-reference checks (reported after the given per-entry
/// violations), and verify the whole-catalog hash when the tree's
/// manifest declares one.
pub fn finalize(tree: LoadedTree, violations: Vec<Violation>, source: RegistrySource) -> (r: Result<
    Registry,
    RegistryError,
>)
    ensures
        ({
            let bs = ordered_by_key(batteries_of(tree.files@));
            let is = ordered_by_key(inverters_of(tree.files@));
            let cs = ordered_by_key(controllers_of(tree.files@));
            let ps = ordered_by_key(presets_of(tree.files@));
            let all = views(violations@) + tables_xref(bs, is, cs, ps);
            let recs = records_of(tree.files@);
            let declared = tree.manifest.catalog_sha256@;
            match r {
                Ok(reg) => {
                    &&& all.len() == 0
                    &&& reg.battery_seq() == bs
                    &&& reg.inverter_seq() == is
                    &&& reg.controller_seq() == cs
                    &&& reg.pv_preset_seq() == ps
                    &&& *reg.manifest_spec() == tree.manifest
                    &&& *reg.source_spec() == source
                    &&& (tree.verify_catalog_hash ==> path_order_hash(recs, declared))
                },
                Err(RegistryError::Validation { violations: vs }) => all.len() > 0 && views(vs@) == all,
                Err(RegistryError::Integrity(m)) => all.len() == 0 && tree.verify_catalog_hash && exists|c: Seq<char>|
                    path_order_hash(recs, c) && c != declared && m@ == msg_catalog_mismatch(declared, c),
                _ => false,
            }
        }),
{
    let ghost files = tree.files@;
    let LoadedTree { manifest, files: fs, verify_catalog_hash: check_hash } = tree;
    let (records, bs, is, cs, ps) = split_files(fs);
    let bt = table_from(bs);
    let it = table_from(is);
    let ct = table_from(cs);
    let pt = table_from(ps);
    let declared = manifest.catalog_sha256.clone();
    let registry = Registry::assemble(manifest, source, bt, it, ct, pt);
    let xref = check_cross_references(&registry);
    let mut all = violations;
    let ghost start = views(all@);
    let mut k: usize = 0;
    while k < xref.len()
        invariant
            k <= xref@.len(),
            views(all@) == start + views(xref@).take(k as int),
        decreases xref.len() - k,
    {
        let ghost before = all@;
        all.push(xref[k].duplicate());
        k = k + 1;
        proof {
            assert(views(all@) =~= views(before).push(xref@[k - 1]@));
            assert(views(xref@).take(k as int) =~= views(xref@).take(k - 1).push(xref@[k - 1]@));
        }
    }
    assert(views(xref@).take(xref@.len() as int) =~= views(xref@));
    if all.len() > 0 {
        return Err(RegistryError::Validation { violations: all });
    }
    if check_hash {
        let sorted = sort_by_key(records);
        match verify_catalog_hash(sorted.as_slice(), declared.as_str()) {
            Ok(()) => {},
            Err(e) => {
                return Err(e);
            },
        }
    }
    Ok(registry)
}

} // verus!

verus! {

/// Copies of the records of parsed files, in order.
fn copy_file_records(files: &[ParsedFile]) -> (r: Vec<CatalogEntry>)
    ensures
        r@ == records_of(files@),
{
    let mut out: Vec<CatalogEntry> = Vec::new();
    let mut i: usize = 0;
    while i < files.len()
        invariant
            i <= files@.len(),
            out@ == records_of(files@.take(i as int)),
        decreases files.len() - i,
    {
        out.push(files[i].record.duplicate());
        i = i + 1;
        proof {
            assert(records_of(files@.take(i as int)) =~= records_of(files@.take(i - 1)).push(files@[i - 1].record));
            assert(files@.take(i as int).drop_last() =~= files@.take(i - 1));
        }
    }
    assert(files@.take(files@.len() as int) =~= files@);
    out
}

/// `m` is the final manifest of a tree with parsed `files` (see
/// [`build_manifest`]), and `verify` whether its hash is still to be checked.
pub open spec fn manifest_built(
    manifest_opt: Option<CatalogManifest>,
    files: Seq<ParsedFile>,
    m: CatalogManifest,
    verify: bool,
) -> bool {
    match manifest_opt {
        Some(d) => verify && m.registry_version == d.registry_version && m.schema_version == d.schema_version
            && m.catalog_sha256 == d.catalog_sha256 && m.entries@ == records_of(files),
        None => {
            &&& !verify
            &&& m.registry_version@ == "0.0.0-external"@
            &&& m.schema_version@ == "1.0.0"@
            &&& ascending_keys(m.entries@)
            &&& m.entries@.to_multiset() == records_of(files).to_multiset()
            &&& m.catalog_sha256@ == catalog_hash(m.entries@)
        },
    }
}

/// Final manifest of a tree: the declared one with its entry index taken
/// from the files (its `catalog_sha256` still to be verified), or, with no
/// manifest on hand, one synthesized from the content (entries in path
/// order, hash computed over them).
pub fn build_manifest(manifest_opt: Option<CatalogManifest>, files: &[ParsedFile]) -> (r: (CatalogManifest, bool))
    ensures
        manifest_built(manifest_opt, files@, r.0, r.1),
{
    let records = copy_file_records(files);
    match manifest_opt {
        Some(m) => {
            let CatalogManifest { registry_version, schema_version, entries: _, catalog_sha256 } = m;
            (CatalogManifest { registry_version, schema_version, entries: records, catalog_sha256 }, true)
        },
        None => {
            let entries = sort_by_key(records);
            let hash = catalog_sha256(entries.as_slice());
            (
                CatalogManifest {
                    registry_version: String::from_str("0.0.0-external"),
                    schema_version: String::from_str("1.0.0"),
                    entries,
                    catalog_sha256: hash,
                },
                false,
            )
        },
    }
}

/// Check a parsed tree and give it its final manifest: with a manifest on
/// hand, its identity records must match the files; no two files may
/// share a `(kind, identifier)` key (the first repeat is reported).
pub fn assemble_tree(manifest_opt: Option<CatalogManifest>, files: Vec<ParsedFile>) -> (r: Result<
    LoadedTree,
    RegistryError,
>)
    ensures
        match r {
            Ok(t) => {
                &&& t.files@ == files@
                &&& (manifest_opt matches Some(m) ==> crate::integrity::identity_lines(m.entries@, records_of(files@)).len()
                    == 0)
                &&& forall|q: int|
                    0 <= q < files@.len() ==> !#[trigger] crate::integrity::repeats_key(records_of(files@), q)
                &&& manifest_built(manifest_opt, files@, t.manifest, t.verify_catalog_hash)
            },
            Err(e) => if manifest_opt matches Some(m) && crate::integrity::identity_lines(
                m.entries@,
                records_of(files@),
            ).len() > 0 {
                manifest_opt matches Some(m) && crate::integrity::integrity_outcome(
                    Err(e),
                    crate::integrity::identity_lines(m.entries@, records_of(files@)),
                )
            } else {
                exists|j: int|
                    0 <= j < files@.len() && #[trigger] crate::integrity::repeats_key(records_of(files@), j) && (forall|q: int|
                        0 <= q < j ==> !#[trigger] crate::integrity::repeats_key(records_of(files@), q)) && (e matches RegistryError::Duplicate {
                        kind,
                        model_id,
                    } && kind == crate::kinds::kind_of_serde(records_of(files@)[j].kind) && model_id@ == records_of(files@)[j].model_id@)
            },
        },
{
    let records = copy_file_records(files.as_slice());
    if let Some(m) = &manifest_opt {
        match crate::integrity::verify_manifest_identity(m, records.as_slice()) {
            Ok(()) => {},
            Err(e) => return Err(e),
        }
    }
    match crate::integrity::check_duplicates(records.as_slice()) {
        Ok(()) => {},
        Err(e) => return Err(e),
    }
    let (manifest, verify) = build_manifest(manifest_opt, files.as_slice());
    Ok(LoadedTree { manifest, files, verify_catalog_hash: verify })
}

/// The shadow record key of an entry: `Kind:identifier`.
pub open spec fn shadow_key(kind: EntryKind, id: Seq<char>) -> Seq<char> {
    kind_name(kind) + ":"@ + id
}

/// Whether file `i` of `files` replaces an entry already present: one of
/// the base registry's, or an earlier file's of the same kind.
pub open spec fn replaces_existing(base: &Registry, files: Seq<ParsedFile>, i: int) -> bool {
    let p = files[i].parsed;
    let id = parsed_id(p);
    let before = files.take(i);
    match p {
        ParsedEntry::Battery(_) => has_key(base.battery_seq(), id) || has_key(batteries_of(before), id),
        ParsedEntry::Inverter(_) => has_key(base.inverter_seq(), id) || has_key(inverters_of(before), id),
        ParsedEntry::Controller(_) => has_key(base.controller_seq(), id) || has_key(controllers_of(before), id),
        ParsedEntry::PvPreset(_) => has_key(base.pv_preset_seq(), id) || has_key(presets_of(before), id),
    }
}

/// Shadow keys of the first `n` files that replace an existing entry.
pub open spec fn shadowed_keys(base: &Registry, files: Seq<ParsedFile>, n: int) -> Seq<Seq<char>>
    decreases n,
{
    if n <= 0 {
        Seq::empty()
    } else {
        shadowed_keys(base, files, n - 1) + if replaces_existing(base, files, n - 1) {
            seq![shadow_key(parsed_kind(files[n - 1].parsed), parsed_id(files[n - 1].parsed))]
        } else {
            Seq::empty()
        }
    }
}


/// Lookup in `base` overlaid with the entries of `items` (the last one
/// with a key wins).
pub open spec fn overlaid<T: Keyed>(base: Seq<T>, items: Seq<T>, k: Seq<char>) -> Option<T> {
    match last_with_key(items, k) {
        Some(m) => Some(m),
        None => find(base, k),
    }
}

/// Tables layered from an external tree over `base`: each key-sorted, and
/// each lookup giving the tree's last entry with the key, else the base
/// registry's (see [`overlaid`]).
pub open spec fn layered_tables(
    base: &Registry,
    fs: Seq<ParsedFile>,
    bs: Seq<BatteryModel>,
    is: Seq<InverterModel>,
    cs: Seq<ControllerModel>,
    ps: Seq<PvPreset>,
) -> bool {
    &&& sorted_keys(bs)
    &&& sorted_keys(is)
    &&& sorted_keys(cs)
    &&& sorted_keys(ps)
    &&& forall|k: Seq<char>| #[trigger] find(bs, k) == overlaid(base.battery_seq(), batteries_of(fs), k)
    &&& forall|k: Seq<char>| #[trigger] find(is, k) == overlaid(base.inverter_seq(), inverters_of(fs), k)
    &&& forall|k: Seq<char>| #[trigger] find(cs, k) == overlaid(base.controller_seq(), controllers_of(fs), k)
    &&& forall|k: Seq<char>| #[trigger] find(ps, k) == overlaid(base.pv_preset_seq(), presets_of(fs), k)
}

/// Base manifest entries not shadowed by `shadowed`, in order.
pub open spec fn unshadowed(entries: Seq<CatalogEntry>, shadowed: Seq<Seq<char>>) -> Seq<CatalogEntry>
    decreases entries.len(),
{
    if entries.len() == 0 {
        Seq::empty()
    } else {
        let rest = unshadowed(entries.drop_last(), shadowed);
        let e = entries.last();
        if shadowed.contains(shadow_key(crate::kinds::kind_of_serde(e.kind), e.model_id@)) {
            rest
        } else {
            rest.push(e)
        }
    }
}

/// The character sequences of strings, in order.
pub open spec fn str_views(s: Seq<String>) -> Seq<Seq<char>> {
    s.map_values(|x: String| x@)
}

/// Layer an external tree over a loaded registry, entry by entry on
/// `(kind, identifier)`: external entries replace or add to the base
/// tables (every replacement is recorded as `Kind:identifier`); the
/// manifest keeps the base records not shadowed plus the external
/// records, in path order, with the whole-catalog hash recomputed; the
/// origin becomes the external directory. The external tree must carry no
/// per-entry violations and (when it has its own manifest) a matching
/// whole-catalog hash, and the layered registry must pass the
/// cross-reference checks.
pub fn layer(base: Registry, ext: LoadedTree, ext_violations: Vec<Violation>, dir: String) -> (r: Result<
    Registry,
    RegistryError,
>)
    ensures
        ext_violations@.len() > 0 ==> (r matches Err(RegistryError::Validation { violations: vs }) && views(vs@)
            == views(ext_violations@)),
        r is Ok || r matches Err(RegistryError::Validation { .. }) || r matches Err(RegistryError::Integrity(_)),
        r matches Err(RegistryError::Integrity(m)) ==> {
            let declared = ext.manifest.catalog_sha256@;
            &&& ext_violations@.len() == 0
            &&& ext.verify_catalog_hash
            &&& exists|c: Seq<char>|
                path_order_hash(records_of(ext.files@), c) && c != declared && m@ == msg_catalog_mismatch(declared, c)
        },
        r matches Err(RegistryError::Validation { violations: vs }) ==> ext_violations@.len() == 0 ==> {
            &&& (ext.verify_catalog_hash ==> path_order_hash(records_of(ext.files@), ext.manifest.catalog_sha256@))
            &&& vs@.len() > 0
            &&& exists|bs: Seq<BatteryModel>, is: Seq<InverterModel>, cs: Seq<ControllerModel>, ps: Seq<PvPreset>|
                #[trigger] layered_tables(&base, ext.files@, bs, is, cs, ps) && views(vs@) == tables_xref(bs, is, cs, ps)
        },
        r matches Ok(reg) ==> {
            let fs = ext.files@;
            let shadowed = shadowed_keys(&base, fs, fs.len() as int);
            &&& ext_violations@.len() == 0
            &&& (ext.verify_catalog_hash ==> path_order_hash(records_of(fs), ext.manifest.catalog_sha256@))
            &&& layered_tables(&base, fs, reg.battery_seq(), reg.inverter_seq(), reg.controller_seq(), reg.pv_preset_seq())
            &&& forall|k: Seq<char>| #[trigger] find(reg.battery_seq(), k) == overlaid(base.battery_seq(), batteries_of(fs), k)
            &&& forall|k: Seq<char>| #[trigger] find(reg.inverter_seq(), k) == overlaid(base.inverter_seq(), inverters_of(fs), k)
            &&& forall|k: Seq<char>| #[trigger] find(reg.controller_seq(), k) == overlaid(base.controller_seq(), controllers_of(fs), k)
            &&& forall|k: Seq<char>| #[trigger] find(reg.pv_preset_seq(), k) == overlaid(base.pv_preset_seq(), presets_of(fs), k)
            &&& reg.source_spec() matches RegistrySource::External { dir: d, shadowed: sh } && d@ == dir@ && str_views(sh@)
                == shadowed
            &&& reg.manifest_spec().registry_version == base.manifest_spec().registry_version
            &&& reg.manifest_spec().schema_version == base.manifest_spec().schema_version
            &&& ascending_keys(reg.manifest_spec().entries@)
            &&& reg.manifest_spec().entries@.to_multiset() == (unshadowed(base.manifest_spec().entries@, shadowed)
                + records_of(fs)).to_multiset()
            &&& reg.manifest_spec().catalog_sha256@ == catalog_hash(reg.manifest_spec().entries@)
            &&& registry_xref(&reg).len() == 0
        },
{
    if ext_violations.len() > 0 {
        return Err(RegistryError::Validation { violations: ext_violations });
    }
    let ghost fs = ext.files@;
    let ghost base0 = base;
    let LoadedTree { manifest: ext_manifest, files, verify_catalog_hash: check_hash } = ext;
    assert(files@ == fs);
    assert(fs.len() == files.len());
    if check_hash {
        let recs = copy_file_records(files.as_slice());
        let sorted = sort_by_key(recs);
        match verify_catalog_hash(sorted.as_slice(), ext_manifest.catalog_sha256.as_str()) {
            Ok(()) => {},
            Err(e) => return Err(e),
        }
    }
    let mut reg = base;
    let mut shadowed: Vec<String> = Vec::new();
    let mut ext_records: Vec<CatalogEntry> = Vec::new();
    let mut rest = files;
    let mut n: usize = 0;
    assert(fs.take(0) =~= Seq::<ParsedFile>::empty());
    assert(records_of(fs.take(0)) =~= Seq::<CatalogEntry>::empty());
    assert(str_views(shadowed@) =~= Seq::<Seq<char>>::empty());
    while rest.len() > 0
        invariant
            n <= fs.len(),
            fs.len() <= usize::MAX,
            rest@ == fs.skip(n as int),
            ext_records@ == records_of(fs.take(n as int)),
            str_views(shadowed@) == shadowed_keys(&base0, fs, n as int),
            forall|k: Seq<char>| #[trigger] find(reg.battery_seq(), k) == overlaid(base0.battery_seq(), batteries_of(fs.take(n as int)), k),
            forall|k: Seq<char>| #[trigger] find(reg.inverter_seq(), k) == overlaid(base0.inverter_seq(), inverters_of(fs.take(n as int)), k),
            forall|k: Seq<char>| #[trigger] find(reg.controller_seq(), k) == overlaid(base0.controller_seq(), controllers_of(fs.take(n as int)), k),
            forall|k: Seq<char>| #[trigger] find(reg.pv_preset_seq(), k) == overlaid(base0.pv_preset_seq(), presets_of(fs.take(n as int)), k),
            *reg.manifest_spec() == *base0.manifest_spec(),
        decreases rest.len(),
    {
        let f = rest.remove(0);
        let ghost pre = fs.take(n as int);
        let ghost post = fs.take(n + 1);
        proof {
            assert(f == fs[n as int]);
            assert(post.drop_last() =~= pre);
            assert(post.last() == f);
            assert(pre == fs.take(n as int));
        }
        let kind = f.parsed.kind();
        let key = to_string_of(f.parsed.model_id());
        ext_records.push(f.record);
        let ghost id = key@;
        let replaced = match f.parsed {
            ParsedEntry::Battery(m) => {
                proof {
                    crate::catalog::lemma_last_with_key(batteries_of(pre), id);
                    assert(find(reg.battery_seq(), id) == overlaid(base0.battery_seq(), batteries_of(pre), id));
                }
                let ghost mm = m;
                let ghost old_reg = reg;
                let rp = reg.put_battery(m);
                proof {
                    assert(batteries_of(post) =~= batteries_of(pre).push(mm));
                    assert(inverters_of(post) == inverters_of(pre));
                    assert(controllers_of(post) == controllers_of(pre));
                    assert(presets_of(post) == presets_of(pre));
                    assert forall|q: Seq<char>| #[trigger] find(reg.battery_seq(), q) == overlaid(base0.battery_seq(), batteries_of(post), q) by {
                        assert(batteries_of(post).drop_last() =~= batteries_of(pre));
                        assert(batteries_of(post).last() == mm);
                        if q != mm.key_view() {
                            assert(find(reg.battery_seq(), q) == find(old_reg.battery_seq(), q));
                        }
                    }
                }
                rp
            },
            ParsedEntry::Inverter(m) => {
                proof {
                    crate::catalog::lemma_last_with_key(inverters_of(pre), id);
                    assert(find(reg.inverter_seq(), id) == overlaid(base0.inverter_seq(), inverters_of(pre), id));
                }
                let ghost mm = m;
                let ghost old_reg = reg;
                let rp = reg.put_inverter(m);
                proof {
                    assert(inverters_of(post) =~= inverters_of(pre).push(mm));
                    assert(batteries_of(post) == batteries_of(pre));
                    assert(controllers_of(post) == controllers_of(pre));
                    assert(presets_of(post) == presets_of(pre));
                    assert forall|q: Seq<char>| #[trigger] find(reg.inverter_seq(), q) == overlaid(base0.inverter_seq(), inverters_of(post), q) by {
                        assert(inverters_of(post).drop_last() =~= inverters_of(pre));
                        assert(inverters_of(post).last() == mm);
                        if q != mm.key_view() {
                            assert(find(reg.inverter_seq(), q) == find(old_reg.inverter_seq(), q));
                        }
                    }
                }
                rp
            },
            ParsedEntry::Controller(m) => {
                proof {
                    crate::catalog::lemma_last_with_key(controllers_of(pre), id);
                    assert(find(reg.controller_seq(), id) == overlaid(base0.controller_seq(), controllers_of(pre), id));
                }
                let ghost mm = m;
                let ghost old_reg = reg;
                let rp = reg.put_controller(m);
                proof {
                    assert(controllers_of(post) =~= controllers_of(pre).push(mm));
                    assert(batteries_of(post) == batteries_of(pre));
                    assert(inverters_of(post) == inverters_of(pre));
                    assert(presets_of(post) == presets_of(pre));
                    assert forall|q: Seq<char>| #[trigger] find(reg.controller_seq(), q) == overlaid(base0.controller_seq(), controllers_of(post), q) by {
                        assert(controllers_of(post).drop_last() =~= controllers_of(pre));
                        assert(controllers_of(post).last() == mm);
                        if q != mm.key_view() {
                            assert(find(reg.controller_seq(), q) == find(old_reg.controller_seq(), q));
                        }
                    }
                }
                rp
            },
            ParsedEntry::PvPreset(m) => {
                proof {
                    crate::catalog::lemma_last_with_key(presets_of(pre), id);
                    assert(find(reg.pv_preset_seq(), id) == overlaid(base0.pv_preset_seq(), presets_of(pre), id));
                }
                let ghost mm = m;
                let ghost old_reg = reg;
                let rp = reg.put_pv_preset(m);
                proof {
                    assert(presets_of(post) =~= presets_of(pre).push(mm));
                    assert(batteries_of(post) == batteries_of(pre));
                    assert(inverters_of(post) == inverters_of(pre));
                    assert(controllers_of(post) == controllers_of(pre));
                    assert forall|q: Seq<char>| #[trigger] find(reg.pv_preset_seq(), q) == overlaid(base0.pv_preset_seq(), presets_of(post), q) by {
                        assert(presets_of(post).drop_last() =~= presets_of(pre));
                        assert(presets_of(post).last() == mm);
                        if q != mm.key_view() {
                            assert(find(reg.pv_preset_seq(), q) == find(old_reg.pv_preset_seq(), q));
                        }
                    }
                }
                rp
            },
        };
        if replaced {
            shadowed.push(concat3(kind.name(), ":", key.as_str()));
        }
        n = n + 1;
        proof {
            assert(rest@ =~= fs.skip(n as int));
            assert(ext_records@ =~= records_of(post));
            assert(str_views(shadowed@) =~= shadowed_keys(&base0, fs, n as int));
        }
    }
    assert(fs.take(fs.len() as int) =~= fs);
    let old_manifest = reg.take_manifest();
    let CatalogManifest { registry_version, schema_version, entries, catalog_sha256: _ } = old_manifest;
    let mut kept: Vec<CatalogEntry> = Vec::new();
    let mut i: usize = 0;
    while i < entries.len()
        invariant
            i <= entries@.len(),
            kept@ == unshadowed(entries@.take(i as int), str_views(shadowed@)),
        decreases entries.len() - i,
    {
        let e = &entries[i];
        let k = crate::integrity::entry_kind_of(e.kind);
        let sk = concat3(k.name(), ":", e.model_id.as_str());
        let hit = crate::dispatch::contains_str(&shadowed, sk.as_str());
        proof {
            assert(entries@.take(i + 1).drop_last() =~= entries@.take(i as int));
            assert(entries@.take(i + 1).last() == *e);
            if hit {
                let j = choose|j: int| 0 <= j < shadowed@.len() && (#[trigger] shadowed@[j])@ == sk@;
                assert(str_views(shadowed@)[j] == sk@);
            } else {
                if str_views(shadowed@).contains(sk@) {
                    let j = choose|j: int| 0 <= j < str_views(shadowed@).len() && str_views(shadowed@)[j] == sk@;
                    assert(shadowed@[j]@ == sk@);
                }
            }
        }
        if !hit {
            kept.push(e.duplicate());
        }
        i = i + 1;
    }
    assert(entries@.take(entries@.len() as int) =~= entries@);
    let ghost kept_v = kept@;
    let mut j: usize = 0;
    while j < ext_records.len()
        invariant
            j <= ext_records@.len(),
            kept@ == kept_v + ext_records@.take(j as int),
        decreases ext_records.len() - j,
    {
        kept.push(ext_records[j].duplicate());
        j = j + 1;
        assert(kept@ =~= kept_v + ext_records@.take(j as int));
    }
    assert(ext_records@.take(ext_records@.len() as int) =~= ext_records@);
    let sorted = sort_by_key(kept);
    let hash = catalog_sha256(sorted.as_slice());
    let manifest = CatalogManifest { registry_version, schema_version, entries: sorted, catalog_sha256: hash };
    reg.relabel(manifest, RegistrySource::External { dir, shadowed });
    let _ = reg.batteries();
    let _ = reg.inverters();
    let _ = reg.controllers();
    let _ = reg.pv_presets();
    assert(layered_tables(&base0, fs, reg.battery_seq(), reg.inverter_seq(), reg.controller_seq(), reg.pv_preset_seq()));
    let violations = check_cross_references(&reg);
    if violations.len() > 0 {
        return Err(RegistryError::Validation { violations });
    }
    Ok(reg)
}

} // verus!
