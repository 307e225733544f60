//! Validation diagnostics: one [`Violation`] per offending entry field.
//! Validation collects every violation before failing, never fail-fast.

use vstd::prelude::*;
use vstd::string::*;

use crate::text::{concat5, to_string_of};

verus! {

/// One semantic or schema violation found in a catalog entry or a
/// composition document.
#[derive(Debug)]
pub struct Violation {
    /// Registry-relative path of the offending file, e.g.
    /// `batteries/tesla_powerwall_2.json`, or `<home_system>`.
    pub path: String,
    /// Field path within the entry, e.g. `soc_window.min_soc_frac`.
    pub field: String,
    /// Human-readable description of the violation.
    pub message: String,
}

/// The character-level content of a [`Violation`].
pub struct ViolationView {
    /// Offending file path.
    pub path: Seq<char>,
    /// Offending field path.
    pub field: Seq<char>,
    /// Description.
    pub message: Seq<char>,
}

impl View for Violation {
    type V = ViolationView;

    open spec fn view(&self) -> ViolationView {
        ViolationView { path: self.path@, field: self.field@, message: self.message@ }
    }
}

/// The views of a sequence of violations, in order.
pub open spec fn views(s: Seq<Violation>) -> Seq<ViolationView> {
    s.map_values(|v: Violation| v@)
}

/// A violation record with the given contents.
pub open spec fn vv(path: Seq<char>, field: Seq<char>, message: Seq<char>) -> ViolationView {
    ViolationView { path, field, message }
}

/// Path label used for composition-document violations.
pub open spec fn home_system_path() -> Seq<char> {
    "<home_system>"@
}

/// The one-line rendering `path: field: message`.
pub open spec fn violation_text(v: ViolationView) -> Seq<char> {
    v.path + ": "@ + v.field + ": "@ + v.message
}

impl Violation {
    /// Build a violation from its three parts.
    pub fn new(path: &str, field: &str, message: String) -> (r: Violation)
        ensures
            r@ == vv(path@, field@, message@),
    {
        Violation { path: to_string_of(path), field: to_string_of(field), message }
    }

    /// Render as `path: field: message`.
    pub fn to_text(&self) -> (r: String)
        ensures
            r@ == violation_text(self@),
    {
        concat5(self.path.as_str(), ": ", self.field.as_str(), ": ", self.message.as_str())
    }

    /// A copy of this violation.
    pub fn duplicate(&self) -> (r: Violation)
        ensures
            r@ == self@,
    {
        Violation {
            path: self.path.clone(),
            field: self.field.clone(),
            message: self.message.clone(),
        }
    }
}

/// Composition-check violation constructor: path `<home_system>`.
pub fn violation(field: &str, message: String) -> (r: Violation)
    ensures
        r@ == vv(home_system_path(), field@, message@),
{
    Violation::new("<home_system>", field, message)
}

/// Appends one violation to a list.
pub fn push_violation(out: &mut Vec<Violation>, v: Violation)
    ensures
        views(final(out)@) == views(old(out)@).push(v@),
{
    let ghost before = out@;
    out.push(v);
    assert(views(out@) =~= views(before).push(v@));
}

/// Appends copies of a list of violations, in order.
pub fn append_violations(out: &mut Vec<Violation>, more: &Vec<Violation>)
    ensures
        views(final(out)@) == views(old(out)@) + views(more@),
{
    let ghost start = views(out@);
    let mut i: usize = 0;
    while i < more.len()
        invariant
            i <= more@.len(),
            views(out@) == start + views(more@.take(i as int)),
        decreases more.len() - i,
    {
        push_violation(out, more[i].duplicate());
        i += 1;
        assert(views(more@.take(i as int)) =~= views(more@.take(i - 1)).push(more@[i - 1]@));
        assert(views(out@) =~= start + views(more@.take(i as int)));
    }
    assert(more@.take(more@.len() as int) =~= more@);
}

} // verus!
