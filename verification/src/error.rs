//! Errors from loading or validating the device registry.

use vstd::prelude::*;
use vstd::string::*;

use crate::kinds::{kind_name, EntryKind};
use crate::text::{concat3, decimal, decimal_string};
use crate::violation::{violation_text, views, Violation, ViolationView};

verus! {

/// Errors from loading or validating the device registry.
#[derive(Debug)]
pub enum RegistryError {
    /// A catalog file could not be read.
    Io {
        /// File that failed.
        path: String,
        /// Description of the underlying I/O error.
        message: String,
    },
    /// A catalog file is not valid JSON or does not match its entry type.
    Parse {
        /// Registry-relative path.
        path: String,
        /// Description of the underlying parse error.
        message: String,
    },
    /// The catalog failed semantic validation; every violation is
    /// enumerated.
    Validation {
        /// All violations found, across all entries.
        violations: Vec<Violation>,
    },
    /// `catalog.json` content hashes do not match the entry files.
    Integrity(String),
    /// Two entries share the same `(kind, model_id)` key.
    Duplicate {
        /// Entry kind.
        kind: EntryKind,
        /// Duplicated identifier.
        model_id: String,
    },
    /// A requested `model_id` does not exist in the loaded registry.
    UnknownModel {
        /// Entry kind that was queried.
        kind: EntryKind,
        /// Identifier that was not found.
        model_id: String,
    },
}

/// `parts` joined with `sep` between consecutive parts.
pub open spec fn join(parts: Seq<Seq<char>>, sep: Seq<char>) -> Seq<char>
    decreases parts.len(),
{
    if parts.len() == 0 {
        Seq::empty()
    } else if parts.len() == 1 {
        parts[0]
    } else {
        join(parts.drop_last(), sep) + sep + parts.last()
    }
}

/// The characters of each string, in order.
pub open spec fn string_views(s: Seq<String>) -> Seq<Seq<char>> {
    s.map_values(|p: String| p@)
}

/// The one-line renderings of violations, in order.
pub open spec fn violation_lines(vs: Seq<ViolationView>) -> Seq<Seq<char>> {
    vs.map_values(|v: ViolationView| violation_text(v))
}

/// The human-readable rendering of each error.
pub open spec fn registry_error_text(e: &RegistryError) -> Seq<char> {
    match e {
        RegistryError::Io { path, message } => "failed to read registry file "@ + path@ + ": "@ + message@,
        RegistryError::Parse { path, message } => "failed to parse registry entry "@ + path@ + ": "@
            + message@,
        RegistryError::Validation { violations } => "registry validation failed with "@ + decimal(
            violations@.len(),
        ) + " violation(s):\n"@ + join(violation_lines(views(violations@)), "\n"@),
        RegistryError::Integrity(m) => "registry integrity check failed: "@ + m@,
        RegistryError::Duplicate { kind, model_id } => "duplicate registry entry "@ + kind_name(*kind)
            + " `"@ + model_id@ + "`"@,
        RegistryError::UnknownModel { kind, model_id } => "unknown "@ + kind_name(*kind) + " model `"@
            + model_id@ + "`"@,
    }
}

/// Join strings with a separator.
pub fn join_strings(parts: &Vec<String>, sep: &str) -> (r: String)
    ensures
        r@ == join(string_views(parts@), sep@),
{
    let ghost views_of = string_views(parts@);
    let mut out = String::new();
    let mut i: usize = 0;
    while i < parts.len()
        invariant
            i <= parts@.len(),
            views_of == string_views(parts@),
            out@ == join(views_of.take(i as int), sep@),
        decreases parts.len() - i,
    {
        if i > 0 {
            out.append(sep);
        }
        out.append(parts[i].as_str());
        i = i + 1;
        proof {
            assert(views_of.take(i as int).drop_last() =~= views_of.take(i - 1));
            if i == 1 {
                assert(views_of.take(0) =~= Seq::<Seq<char>>::empty());
            }
        }
    }
    assert(views_of.take(parts.len() as int) =~= views_of);
    out
}

impl RegistryError {
    /// The human-readable message of this error.
    pub fn to_text(&self) -> (r: String)
        ensures
            r@ == registry_error_text(self),
    {
        match self {
            RegistryError::Io { path, message } => {
                let mut s = concat3("failed to read registry file ", path.as_str(), ": ");
                s.append(message.as_str());
                s
            },
            RegistryError::Parse { path, message } => {
                let mut s = concat3("failed to parse registry entry ", path.as_str(), ": ");
                s.append(message.as_str());
                s
            },
            RegistryError::Validation { violations } => {
                let mut lines: Vec<String> = Vec::new();
                let mut i: usize = 0;
                while i < violations.len()
                    invariant
                        i <= violations@.len(),
                        lines@.len() == i,
                        string_views(lines@) == violation_lines(views(violations@)).take(
                            i as int,
                        ),
                    decreases violations.len() - i,
                {
                    let line = violations[i].to_text();
                    let ghost before = lines@;
                    let ghost k = i as int;
                    proof {
                        assert(views(violations@)[k] == violations@[k]@);
                        assert(violation_lines(views(violations@))[k] == line@);
                    }
                    lines.push(line);
                    i = i + 1;
                    proof {
                        assert(lines@ == before.push(line));
                        assert forall|j: int| 0 <= j < i implies string_views(lines@)[j] == violation_lines(
                            views(violations@),
                        ).take(i as int)[j] by {
                            if j < k {
                                assert(lines@[j] == before[j]);
                                assert(string_views(before)[j] == violation_lines(views(violations@)).take(k)[j]);
                            }
                        }
                        assert(string_views(lines@) =~= violation_lines(views(violations@)).take(
                            i as int,
                        ));
                    }
                }
                assert(violation_lines(views(violations@)).take(violations@.len() as int) =~= violation_lines(
                    views(violations@),
                ));
                let mut s = String::from_str("registry validation failed with ");
                let n = decimal_string(violations.len() as u64);
                s.append(n.as_str());
                s.append(" violation(s):\n");
                let body = join_strings(&lines, "\n");
                s.append(body.as_str());
                s
            },
            RegistryError::Integrity(m) => {
                let mut s = String::from_str("registry integrity check failed: ");
                s.append(m.as_str());
                s
            },
            RegistryError::Duplicate { kind, model_id } => {
                let mut s = concat3("duplicate registry entry ", kind.name(), " `");
                s.append(model_id.as_str());
                s.append("`");
                s
            },
            RegistryError::UnknownModel { kind, model_id } => {
                let mut s = concat3("unknown ", kind.name(), " model `");
                s.append(model_id.as_str());
                s.append("`");
                s
            },
        }
    }
}

} // verus!
