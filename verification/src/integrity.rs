//! Catalog integrity: per-file content hashes against `catalog.json`,
//! file-set agreement, manifest identity records, duplicate keys, and the
//! whole-catalog hash (SHA-256 over the concatenated raw 32-byte digests
//! of every entry file, in path order).

use vstd::prelude::*;
use vstd::string::*;

use crate::catalog::{
    ascending, has_key, keys_of, last_with_key, lemma_ascending_of, lemma_keys_of_sorted, lemma_last_with_key,
    find, sorted_keys, table_from, CatalogEntry, CatalogManifest, Keyed, Table,
};
use crate::digest::{hex_sha256, sha256_digest, sha256_of};
use crate::error::{join, join_strings, string_views, RegistryError};
use crate::kinds::{kind_name, kind_of_serde, EntryKind, EntryKindSerde};
use crate::text::{concat2, concat3, hex_lower, hex_seq, str_eq, to_string_of};

verus! {

/// Value of an ASCII hex digit (either case).
pub open spec fn hex_val(b: u8) -> Option<u8> {
    if 48 <= b <= 57 {
        Some((b - 48) as u8)
    } else if 97 <= b <= 102 {
        Some((b - 87) as u8)
    } else if 65 <= b <= 70 {
        Some((b - 55) as u8)
    } else {
        None
    }
}

/// Byte `i` of a decoded digest: the two hex digits at `2i` and `2i + 1`,
/// or 0 when that pair is missing or not hex.
pub open spec fn digest_byte(hex: Seq<u8>, i: int) -> u8 {
    if 2 * i + 2 <= hex.len() {
        match (hex_val(hex[2 * i]), hex_val(hex[2 * i + 1])) {
            (Some(h), Some(l)) => (h * 16 + l) as u8,
            _ => 0,
        }
    } else {
        0
    }
}

/// The 32 raw bytes a hex digest string decodes to.
pub open spec fn digest_of_hex(hex: Seq<u8>) -> Seq<u8> {
    Seq::new(32, |i: int| digest_byte(hex, i))
}

/// Value of one ASCII hex digit.
fn hex_digit_value(b: u8) -> (r: Option<u8>)
    ensures
        r == hex_val(b),
{
    if 48 <= b && b <= 57 {
        Some(b - 48)
    } else if 97 <= b && b <= 102 {
        Some(b - 87)
    } else if 65 <= b && b <= 70 {
        Some(b - 55)
    } else {
        None
    }
}

/// Decode a 64-character hex digest into its 32 raw bytes. A pair that is
/// missing or not hex decodes as a zero byte, which simply fails any
/// later integrity comparison.
pub fn hex_to_digest(hex: &str) -> (r: Vec<u8>)
    ensures
        r@ == digest_of_hex(hex.spec_bytes()),
{
    let bytes = hex.as_bytes();
    let mut out: Vec<u8> = Vec::new();
    let mut i: usize = 0;
    while i < 32
        invariant
            i <= 32,
            bytes@ == hex.spec_bytes(),
            out@.len() == i,
            forall|j: int| 0 <= j < i ==> out@[j] == digest_byte(bytes@, j),
        decreases 32 - i,
    {
        let mut v: u8 = 0;
        if 2 * i + 2 <= bytes.len() {
            match (hex_digit_value(bytes[2 * i]), hex_digit_value(bytes[2 * i + 1])) {
                (Some(h), Some(l)) => {
                    v = h * 16 + l;
                },
                _ => {},
            }
        }
        out.push(v);
        i = i + 1;
    }
    assert(out@ =~= digest_of_hex(hex.spec_bytes()));
    out
}

/// Raw digests of `records`, concatenated in order.
pub open spec fn digests_concat(records: Seq<CatalogEntry>) -> Seq<u8>
    decreases records.len(),
{
    if records.len() == 0 {
        Seq::empty()
    } else {
        digests_concat(records.drop_last()) + digest_of_hex(
            vstd::utf8::encode_utf8(records.last().sha256@),
        )
    }
}

/// Whole-catalog hash of `records` (taken in the order given).
pub open spec fn catalog_hash(records: Seq<CatalogEntry>) -> Seq<char> {
    hex_seq(sha256_of(digests_concat(records)))
}

/// Whole-catalog integrity hash: lowercase hex SHA-256 over the
/// concatenation, in the order given (lexicographic path order by
/// convention), of each entry's raw 32-byte digest.
pub fn catalog_sha256(records: &[CatalogEntry]) -> (s: String)
    ensures
        s@ == catalog_hash(records@),
{
    let mut buf: Vec<u8> = Vec::new();
    let mut i: usize = 0;
    while i < records.len()
        invariant
            i <= records@.len(),
            buf@ == digests_concat(records@.take(i as int)),
        decreases records.len() - i,
    {
        let d = hex_to_digest(records[i].sha256.as_str());
        let ghost before = buf@;
        let mut j: usize = 0;
        while j < d.len()
            invariant
                j <= d@.len(),
                buf@ == before + d@.take(j as int),
            decreases d.len() - j,
        {
            buf.push(d[j]);
            j = j + 1;
            assert(buf@ =~= before + d@.take(j as int));
        }
        assert(d@.take(d@.len() as int) =~= d@);
        i = i + 1;
        assert(records@.take(i as int).drop_last() =~= records@.take(i - 1));
    }
    assert(records@.take(records@.len() as int) =~= records@);
    let digest = sha256_digest(buf.as_slice());
    hex_lower(digest.as_slice())
}

} // verus!

verus! {

/// An entry file of a registry tree: its registry-relative path and bytes.
#[derive(Debug)]
pub struct EntryFile {
    /// Registry-relative path, e.g. `batteries/tesla_powerwall_3.json`.
    pub path: String,
    /// Raw file content.
    pub bytes: Vec<u8>,
}

impl Keyed for EntryFile {
    open spec fn key_view(&self) -> Seq<char> {
        self.path@
    }

    fn key_str(&self) -> (r: &str) {
        self.path.as_str()
    }
}

impl Keyed for CatalogEntry {
    open spec fn key_view(&self) -> Seq<char> {
        self.path@
    }

    fn key_str(&self) -> (r: &str) {
        self.path.as_str()
    }
}

/// A path with the lowercase hex SHA-256 of its content.
pub struct PathDigest {
    /// Registry-relative path.
    pub path: String,
    /// Lowercase hex SHA-256 of the file's bytes.
    pub hex: String,
}

impl Keyed for PathDigest {
    open spec fn key_view(&self) -> Seq<char> {
        self.path@
    }

    fn key_str(&self) -> (r: &str) {
        self.path.as_str()
    }
}

/// Paths declared in a manifest's entry index.
pub open spec fn declared_paths(entries: Seq<CatalogEntry>) -> Set<Seq<char>> {
    Set::new(|k: Seq<char>| has_key(entries, k))
}

/// Paths of the entry files on hand.
pub open spec fn present_paths(files: Seq<EntryFile>) -> Set<Seq<char>> {
    Set::new(|k: Seq<char>| has_key(files, k))
}

/// One problem per declared path (taken from `paths`) with no file.
pub open spec fn missing_lines(paths: Seq<Seq<char>>, files: Seq<EntryFile>) -> Seq<Seq<char>>
    decreases paths.len(),
{
    if paths.len() == 0 {
        Seq::empty()
    } else {
        missing_lines(paths.drop_last(), files) + if has_key(files, paths.last()) {
            Seq::empty()
        } else {
            seq![paths.last() + ": declared in catalog.json but file missing"@]
        }
    }
}

/// The problem, if any, of the file at `path`: undeclared, or content
/// hash differing from the declared one (the last record and the last
/// file with that path count).
pub open spec fn file_line(entries: Seq<CatalogEntry>, files: Seq<EntryFile>, path: Seq<char>) -> Seq<Seq<char>> {
    match last_with_key(entries, path) {
        None => seq![path + ": entry file not declared in catalog.json"@],
        Some(rec) => {
            let actual = hex_seq(sha256_of(last_with_key(files, path).unwrap().bytes@));
            if actual != rec.sha256@ {
                seq![path + ": content hash mismatch (catalog.json "@ + rec.sha256@ + ", actual "@ + actual + ")"@]
            } else {
                Seq::empty()
            }
        },
    }
}

/// File problems over the file paths taken from `paths`.
pub open spec fn file_lines(paths: Seq<Seq<char>>, entries: Seq<CatalogEntry>, files: Seq<EntryFile>) -> Seq<
    Seq<char>,
>
    decreases paths.len(),
{
    if paths.len() == 0 {
        Seq::empty()
    } else {
        file_lines(paths.drop_last(), entries, files) + file_line(entries, files, paths.last())
    }
}

/// Every per-file integrity problem: declared paths without a file (in
/// path order), then, for each file path in order, an undeclared file or
/// a content-hash mismatch.
pub open spec fn file_hash_problems(entries: Seq<CatalogEntry>, files: Seq<EntryFile>) -> Seq<Seq<char>> {
    missing_lines(ascending(declared_paths(entries)), files) + file_lines(
        ascending(present_paths(files)),
        entries,
        files,
    )
}

/// The result of an integrity phase with the given problems.
pub open spec fn integrity_outcome(r: Result<(), RegistryError>, problems: Seq<Seq<char>>) -> bool {
    match r {
        Ok(()) => problems.len() == 0,
        Err(e) => problems.len() > 0 && (e matches RegistryError::Integrity(m) && m@ == join(problems, "; "@)),
    }
}

/// The outcome of an integrity phase from its problem lines.
fn integrity_result(problems: Vec<String>) -> (r: Result<(), RegistryError>)
    ensures
        integrity_outcome(r, string_views(problems@)),
{
    if problems.len() == 0 {
        Ok(())
    } else {
        Err(RegistryError::Integrity(join_strings(&problems, "; ")))
    }
}

/// Copies of manifest records, in order.
fn copy_records(entries: &[CatalogEntry]) -> (r: Vec<CatalogEntry>)
    ensures
        r@ == entries@,
{
    let mut out: Vec<CatalogEntry> = Vec::new();
    let mut i: usize = 0;
    while i < entries.len()
        invariant
            i <= entries@.len(),
            out@ == entries@.take(i as int),
        decreases entries.len() - i,
    {
        out.push(entries[i].duplicate());
        i = i + 1;
        assert(out@ =~= entries@.take(i as int));
    }
    assert(entries@.take(entries@.len() as int) =~= entries@);
    out
}

/// Digest table of the files: for each path, the digest of the last file
/// with that path.
fn digest_table(files: &[EntryFile]) -> (t: Table<PathDigest>)
    ensures
        t.wf(),
        forall|k: Seq<char>|
            #![trigger find(t.seq(), k)]
            match find(t.seq(), k) {
                None => last_with_key(files@, k) is None,
                Some(d) => d.path@ == k && (last_with_key(files@, k) matches Some(f) && d.hex@ == hex_seq(
                    sha256_of(f.bytes@),
                )),
            },
{
    let mut t: Table<PathDigest> = Table::new();
    let mut i: usize = 0;
    while i < files.len()
        invariant
            i <= files@.len(),
            t.wf(),
            forall|k: Seq<char>|
                #![trigger find(t.seq(), k)]
                match find(t.seq(), k) {
                    None => last_with_key(files@.take(i as int), k) is None,
                    Some(d) => d.path@ == k && (last_with_key(files@.take(i as int), k) matches Some(f)
                        && d.hex@ == hex_seq(sha256_of(f.bytes@))),
                },
        decreases files.len() - i,
    {
        let f = &files[i];
        let d = PathDigest { path: to_string_of(f.path.as_str()), hex: hex_sha256(f.bytes.as_slice()) };
        let ghost old_seq = t.seq();
        t.insert(d);
        i = i + 1;
        proof {
            let pre = files@.take(i as int);
            assert(pre.drop_last() =~= files@.take(i - 1));
            assert(pre.last() == files@[i - 1]);
            assert forall|k: Seq<char>|
                #![trigger find(t.seq(), k)]
                match find(t.seq(), k) {
                    None => last_with_key(pre, k) is None,
                    Some(dd) => dd.path@ == k && (last_with_key(pre, k) matches Some(ff) && dd.hex@ == hex_seq(
                        sha256_of(ff.bytes@),
                    )),
                } by {
                if k == files@[i - 1].path@ {
                } else {
                    assert(find(t.seq(), k) == find(old_seq, k));
                }
            }
        }
    }
    assert(files@.take(files@.len() as int) =~= files@);
    t
}

/// Per-file content hashes against the manifest, plus file-set agreement.
/// Every mismatch is enumerated in one [`RegistryError::Integrity`]
/// message (see [`file_hash_problems`]).
pub fn verify_file_hashes(manifest: &CatalogManifest, files: &[EntryFile]) -> (r: Result<(), RegistryError>)
    ensures
        integrity_outcome(r, file_hash_problems(manifest.entries@, files@)),
        forall|p: Seq<char>|
            #[trigger] tampered(manifest.entries@, files@, p) ==> r is Err && file_hash_problems(
                manifest.entries@,
                files@,
            ).contains(mismatch_line(manifest.entries@, files@, p)),
{
    let entries = manifest.entries.as_slice();
    let dt = table_from(copy_records(entries));
    let ft = digest_table(files);
    let dseq = dt.entries();
    let fseq = ft.entries();
    let ghost dk = keys_of(dseq@);
    let ghost fk = keys_of(fseq@);
    proof {
        lemma_keys_of_sorted(dseq@);
        lemma_keys_of_sorted(fseq@);
        assert forall|k: Seq<char>| #[trigger] dk.contains(k) <==> declared_paths(entries@).contains(k) by {
            lemma_last_with_key(entries@, k);
            assert(find(dt.seq(), k) == last_with_key(entries@, k));
            assert(find(dseq@, k) is Some <==> has_key(dseq@, k));
        }
        lemma_ascending_of(dk, declared_paths(entries@));
        assert forall|k: Seq<char>| #[trigger] fk.contains(k) <==> present_paths(files@).contains(k) by {
            lemma_last_with_key(files@, k);
            assert(find(ft.seq(), k) is Some <==> has_key(fseq@, k));
        }
        lemma_ascending_of(fk, present_paths(files@));
    }
    let mut problems: Vec<String> = Vec::new();
    let mut i: usize = 0;
    while i < dseq.len()
        invariant
            i <= dseq@.len(),
            dk == keys_of(dseq@),
            dseq@ == dt.seq(),
            ft.wf(),
            forall|k: Seq<char>|
                #![trigger find(ft.seq(), k)]
                match find(ft.seq(), k) {
                    None => last_with_key(files@, k) is None,
                    Some(d) => d.path@ == k && (last_with_key(files@, k) matches Some(f) && d.hex@ == hex_seq(
                        sha256_of(f.bytes@),
                    )),
                },
            string_views(problems@) == missing_lines(dk.take(i as int), files@),
        decreases dseq.len() - i,
    {
        let path = dseq[i].path.as_str();
        let ghost before = problems@;
        proof {
            lemma_last_with_key(files@, path@);
        }
        if ft.get(path).is_none() {
            problems.push(concat2(path, ": declared in catalog.json but file missing"));
        }
        i = i + 1;
        proof {
            lemma_string_views_push(before, problems@);
            assert(dk.take(i as int).drop_last() =~= dk.take(i - 1));
            assert(dk.take(i as int).last() == path@);
            assert(string_views(problems@) =~= missing_lines(dk.take(i as int), files@));
        }
    }
    assert(dk.take(dseq@.len() as int) =~= dk);
    let ghost mid = string_views(problems@);
    let mut j: usize = 0;
    while j < fseq.len()
        invariant
            j <= fseq@.len(),
            fk == keys_of(fseq@),
            fseq@ == ft.seq(),
            sorted_keys(fseq@),
            dt.wf(),
            forall|k: Seq<char>| #[trigger] find(dt.seq(), k) == last_with_key(entries@, k),
            forall|k: Seq<char>|
                #![trigger find(ft.seq(), k)]
                match find(ft.seq(), k) {
                    None => last_with_key(files@, k) is None,
                    Some(d) => d.path@ == k && (last_with_key(files@, k) matches Some(f) && d.hex@ == hex_seq(
                        sha256_of(f.bytes@),
                    )),
                },
            string_views(problems@) == mid + file_lines(fk.take(j as int), entries@, files@),
        decreases fseq.len() - j,
    {
        let d = &fseq[j];
        let ghost before = problems@;
        proof {
            lemma_find_at_key(fseq@, j as int);
            assert(find(ft.seq(), d.path@) == Some(*d));
            assert(find(dt.seq(), d.path@) == last_with_key(entries@, d.path@));
        }
        match dt.get(d.path.as_str()) {
            None => {
                problems.push(concat2(d.path.as_str(), ": entry file not declared in catalog.json"));
            },
            Some(rec) => {
                if !str_eq(d.hex.as_str(), rec.sha256.as_str()) {
                    let mut m = concat3(d.path.as_str(), ": content hash mismatch (catalog.json ", rec.sha256.as_str());
                    m.append(", actual ");
                    m.append(d.hex.as_str());
                    m.append(")");
                    problems.push(m);
                }
            },
        }
        j = j + 1;
        proof {
            lemma_string_views_push(before, problems@);
            assert(fk.take(j as int).drop_last() =~= fk.take(j - 1));
            assert(fk.take(j as int).last() == d.path@);
            assert(string_views(problems@) =~= string_views(before) + file_line(entries@, files@, d.path@));
            assert(string_views(problems@) =~= mid + file_lines(fk.take(j as int), entries@, files@));
        }
    }
    assert(fk.take(fseq@.len() as int) =~= fk);
    proof {
        assert forall|p: Seq<char>| #[trigger] tampered(entries@, files@, p) implies file_hash_problems(
            entries@,
            files@,
        ).contains(mismatch_line(entries@, files@, p)) by {
            assert(present_paths(files@).contains(p));
            assert(fk.contains(p));
            lemma_file_lines_has(fk, entries@, files@, p);
            let m = missing_lines(ascending(declared_paths(entries@)), files@);
            let fl = file_lines(fk, entries@, files@);
            let x = mismatch_line(entries@, files@, p);
            let i = choose|i: int| 0 <= i < fl.len() && fl[i] == x;
            assert((m + fl)[m.len() + i] == x);
        }
    }
    integrity_result(problems)
}

/// File `p` is on hand and declared, and its content hash differs from the
/// declared one (the last record and the last file with that path count).
pub open spec fn tampered(entries: Seq<CatalogEntry>, files: Seq<EntryFile>, p: Seq<char>) -> bool {
    &&& has_key(files, p)
    &&& last_with_key(entries, p) matches Some(rec)
    &&& hex_seq(sha256_of(last_with_key(files, p).unwrap().bytes@)) != rec.sha256@
}

/// The content-hash-mismatch line of file `p`.
pub open spec fn mismatch_line(entries: Seq<CatalogEntry>, files: Seq<EntryFile>, p: Seq<char>) -> Seq<char> {
    file_line(entries, files, p)[0]
}

/// A path among `paths` whose file has a one-line problem contributes
/// that line to the problems over `paths`.
proof fn lemma_file_lines_has(paths: Seq<Seq<char>>, entries: Seq<CatalogEntry>, files: Seq<EntryFile>, p: Seq<char>)
    requires
        paths.contains(p),
        file_line(entries, files, p).len() == 1,
    ensures
        file_lines(paths, entries, files).contains(file_line(entries, files, p)[0]),
    decreases paths.len(),
{
    let fl = file_lines(paths, entries, files);
    let rest = file_lines(paths.drop_last(), entries, files);
    let x = file_line(entries, files, p)[0];
    if paths.last() == p {
        assert(fl[rest.len() as int] == x);
    } else {
        let i = choose|i: int| 0 <= i < paths.len() && paths[i] == p;
        assert(paths.drop_last()[i] == p);
        lemma_file_lines_has(paths.drop_last(), entries, files, p);
        let j = choose|j: int| 0 <= j < rest.len() && rest[j] == x;
        assert(fl[j] == x);
    }
}

/// Pushing one string (or none) extends the views accordingly.
proof fn lemma_string_views_push(before: Seq<String>, after: Seq<String>)
    ensures
        after.len() == before.len() + 1 && after.drop_last() == before ==> string_views(after) == string_views(
            before,
        ).push(after.last()@),
        after == before ==> string_views(after) == string_views(before),
{
    if after.len() == before.len() + 1 && after.drop_last() == before {
        assert(string_views(after) =~= string_views(before).push(after.last()@));
    }
}

/// In a key-sorted sequence, `find` on the key of entry `i` gives entry `i`.
proof fn lemma_find_at_key<T: Keyed>(s: Seq<T>, i: int)
    requires
        sorted_keys(s),
        0 <= i < s.len(),
    ensures
        find(s, s[i].key_view()) == Some(s[i]),
{
    crate::catalog::lemma_find_at(s, i);
}

} // verus!

verus! {

/// The identity problem, if any, of a parsed file's record against the
/// manifest record declared for the same path (the last one counts).
pub open spec fn identity_line(entries: Seq<CatalogEntry>, file: CatalogEntry) -> Seq<Seq<char>> {
    match last_with_key(entries, file.path@) {
        None => Seq::empty(),
        Some(rec) => if rec.model_id@ != file.model_id@ || rec.entry_version@ != file.entry_version@
            || rec.kind != file.kind {
            seq![file.path@ + ": catalog.json identity ("@ + kind_name(kind_of_serde(rec.kind)) + " `"@
                + rec.model_id@ + "` v"@ + rec.entry_version@ + ") does not match file content ("@ + kind_name(
                kind_of_serde(file.kind),
            ) + " `"@ + file.model_id@ + "` v"@ + file.entry_version@ + ")"@]
        } else {
            Seq::empty()
        },
    }
}

/// Identity problems of the parsed files' records, in file order.
pub open spec fn identity_lines(entries: Seq<CatalogEntry>, files: Seq<CatalogEntry>) -> Seq<Seq<char>>
    decreases files.len(),
{
    if files.len() == 0 {
        Seq::empty()
    } else {
        identity_lines(entries, files.drop_last()) + identity_line(entries, files.last())
    }
}

/// Manifest identity records (`model_id`, `entry_version`, kind) must
/// match the content of each parsed file (`files` holds the records built
/// from the files themselves).
pub fn verify_manifest_identity(manifest: &CatalogManifest, files: &[CatalogEntry]) -> (r: Result<(), RegistryError>)
    ensures
        integrity_outcome(r, identity_lines(manifest.entries@, files@)),
{
    let dt = table_from(copy_records(manifest.entries.as_slice()));
    let mut problems: Vec<String> = Vec::new();
    let mut i: usize = 0;
    while i < files.len()
        invariant
            i <= files@.len(),
            dt.wf(),
            forall|k: Seq<char>| #[trigger] find(dt.seq(), k) == last_with_key(manifest.entries@, k),
            string_views(problems@) == identity_lines(manifest.entries@, files@.take(i as int)),
        decreases files.len() - i,
    {
        let f = &files[i];
        let ghost before = problems@;
        match dt.get(f.path.as_str()) {
            None => {},
            Some(rec) => {
                if !str_eq(rec.model_id.as_str(), f.model_id.as_str()) || !str_eq(
                    rec.entry_version.as_str(),
                    f.entry_version.as_str(),
                ) || rec.kind != f.kind {
                    let mut m = concat3(f.path.as_str(), ": catalog.json identity (", entry_kind_of(rec.kind).name());
                    m.append(" `");
                    m.append(rec.model_id.as_str());
                    m.append("` v");
                    m.append(rec.entry_version.as_str());
                    m.append(") does not match file content (");
                    m.append(entry_kind_of(f.kind).name());
                    m.append(" `");
                    m.append(f.model_id.as_str());
                    m.append("` v");
                    m.append(f.entry_version.as_str());
                    m.append(")");
                    problems.push(m);
                }
            },
        }
        i = i + 1;
        proof {
            lemma_string_views_push(before, problems@);
            assert(files@.take(i as int).drop_last() =~= files@.take(i - 1));
            assert(files@.take(i as int).last() == *f);
            assert(string_views(problems@) =~= string_views(before) + identity_line(manifest.entries@, *f));
        }
    }
    assert(files@.take(files@.len() as int) =~= files@);
    integrity_result(problems)
}

/// The entry kind of a serde-facing kind.
pub(crate) fn entry_kind_of(k: EntryKindSerde) -> (r: EntryKind)
    ensures
        r == kind_of_serde(k),
{
    EntryKind::from(k)
}

/// Two records share a `(kind, model_id)` key.
pub open spec fn same_key(a: CatalogEntry, b: CatalogEntry) -> bool {
    a.kind == b.kind && a.model_id@ == b.model_id@
}

/// Record `j` repeats the key of an earlier record.
pub open spec fn repeats_key(records: Seq<CatalogEntry>, j: int) -> bool {
    exists|i: int| 0 <= i < j && same_key(#[trigger] records[i], records[j])
}

/// Index of the first record whose `(kind, model_id)` key repeats an
/// earlier one, if any.
pub fn first_duplicate(records: &[CatalogEntry]) -> (r: Option<usize>)
    ensures
        match r {
            Some(j) => j < records@.len() && repeats_key(records@, j as int) && forall|q: int|
                0 <= q < j ==> !#[trigger] repeats_key(records@, q),
            None => forall|q: int| 0 <= q < records@.len() ==> !#[trigger] repeats_key(records@, q),
        },
{
    let mut j: usize = 0;
    while j < records.len()
        invariant
            j <= records@.len(),
            forall|q: int| 0 <= q < j ==> !#[trigger] repeats_key(records@, q),
        decreases records.len() - j,
    {
        let mut i: usize = 0;
        while i < j
            invariant
                i <= j < records@.len(),
                forall|q: int| 0 <= q < j ==> !#[trigger] repeats_key(records@, q),
                forall|p: int| 0 <= p < i ==> !same_key(#[trigger] records@[p], records@[j as int]),
            decreases j - i,
        {
            if records[i].kind == records[j].kind && str_eq(
                records[i].model_id.as_str(),
                records[j].model_id.as_str(),
            ) {
                assert(same_key(records@[i as int], records@[j as int]));
                return Some(j);
            }
            i = i + 1;
        }
        j = j + 1;
    }
    None
}

/// Duplicate `(kind, model_id)` keys within one tree: the first repeated
/// key, in file order, is reported.
pub fn check_duplicates(records: &[CatalogEntry]) -> (r: Result<(), RegistryError>)
    ensures
        match r {
            Ok(()) => forall|q: int| 0 <= q < records@.len() ==> !#[trigger] repeats_key(records@, q),
            Err(e) => exists|j: int|
                0 <= j < records@.len() && #[trigger] repeats_key(records@, j) && (forall|q: int|
                    0 <= q < j ==> !#[trigger] repeats_key(records@, q)) && (e matches RegistryError::Duplicate {
                    kind,
                    model_id,
                } && kind == kind_of_serde(records@[j].kind) && model_id@ == records@[j].model_id@),
        },
{
    match first_duplicate(records) {
        None => Ok(()),
        Some(j) => {
            let kind = entry_kind_of(records[j].kind);
            Err(RegistryError::Duplicate { kind, model_id: to_string_of(records[j].model_id.as_str()) })
        },
    }
}

/// Message for a whole-catalog hash mismatch.
pub open spec fn msg_catalog_mismatch(declared: Seq<char>, computed: Seq<char>) -> Seq<char> {
    "catalog_sha256 mismatch: catalog.json "@ + declared + ", computed "@ + computed
}

/// Whole-catalog check: the hash over `records` (in path order) must equal
/// the declared `catalog_sha256`.
pub fn verify_catalog_hash(records: &[CatalogEntry], declared: &str) -> (r: Result<(), RegistryError>)
    ensures
        match r {
            Ok(()) => catalog_hash(records@) == declared@,
            Err(e) => catalog_hash(records@) != declared@ && (e matches RegistryError::Integrity(m) && m@
                == msg_catalog_mismatch(declared@, catalog_hash(records@))),
        },
{
    let computed = catalog_sha256(records);
    if str_eq(computed.as_str(), declared) {
        Ok(())
    } else {
        let mut m = concat3("catalog_sha256 mismatch: catalog.json ", declared, ", computed ");
        m.append(computed.as_str());
        Err(RegistryError::Integrity(m))
    }
}

} // verus!
