//! RFC 9457 problem details: every error the API produces has this shape,
//! with a stable machine-readable code and a fixed registry of problem
//! type URNs.

use vstd::prelude::*;
use vstd::string::*;

use crate::text::{concat2, concat3, to_string_of};

verus! {

/// Stable machine-readable error codes.
#[derive(Debug, Clone, Copy, PartialEq, Eq, Structural)]
pub enum ProblemCode {
    /// Request failed validation.
    ValidationError,
    /// Credentials missing or wrong.
    Unauthorized,
    /// The addressed resource does not exist.
    NotFound,
    /// State conflict, including idempotency-key reuse with another body.
    Conflict,
    /// Well-formed request violating a physics or composition rule.
    Unprocessable,
    /// The transition is illegal while the simulation is running.
    SimRunning,
    /// The transition requires a running or paused simulation.
    SimNotRunning,
    /// The same idempotency key arrived with a different request body.
    IdempotencyKeyReuse,
    /// An internal error.
    Internal,
}

/// Kebab-case problem type slug of each code.
pub open spec fn type_slug_of(c: ProblemCode) -> Seq<char> {
    match c {
        ProblemCode::ValidationError => "validation-error"@,
        ProblemCode::Unauthorized => "unauthorized"@,
        ProblemCode::NotFound => "not-found"@,
        ProblemCode::Conflict => "conflict"@,
        ProblemCode::Unprocessable => "unprocessable"@,
        ProblemCode::SimRunning => "sim-running"@,
        ProblemCode::SimNotRunning => "sim-not-running"@,
        ProblemCode::IdempotencyKeyReuse => "idempotency-key-reuse"@,
        ProblemCode::Internal => "internal"@,
    }
}

impl ProblemCode {
    /// The problem type slug (kebab-case sibling of the code).
    pub fn type_slug(self) -> (r: &'static str)
        ensures
            r@ == type_slug_of(self),
    {
        match self {
            ProblemCode::ValidationError => "validation-error",
            ProblemCode::Unauthorized => "unauthorized",
            ProblemCode::NotFound => "not-found",
            ProblemCode::Conflict => "conflict",
            ProblemCode::Unprocessable => "unprocessable",
            ProblemCode::SimRunning => "sim-running",
            ProblemCode::SimNotRunning => "sim-not-running",
            ProblemCode::IdempotencyKeyReuse => "idempotency-key-reuse",
            ProblemCode::Internal => "internal",
        }
    }
}

/// RFC 9457 problem document, with any extra response headers it needs.
#[derive(Debug, Clone)]
pub struct Problem {
    /// Problem type URN.
    pub problem_type: String,
    /// Short human-readable summary.
    pub title: String,
    /// HTTP status code.
    pub status: u16,
    /// Specifics of this occurrence.
    pub detail: Option<String>,
    /// The request path that produced the problem.
    pub instance: Option<String>,
    /// Stable machine-readable code.
    pub code: ProblemCode,
    /// Request correlation id.
    pub trace_id: Option<String>,
    /// Extra response headers (name, value), not part of the body.
    pub headers: Vec<(String, String)>,
}

/// The character-level content of a [`Problem`].
pub struct ProblemView {
    /// Problem type URN.
    pub problem_type: Seq<char>,
    /// Title.
    pub title: Seq<char>,
    /// HTTP status.
    pub status: u16,
    /// Detail.
    pub detail: Option<Seq<char>>,
    /// Instance.
    pub instance: Option<Seq<char>>,
    /// Code.
    pub code: ProblemCode,
    /// Trace id.
    pub trace_id: Option<Seq<char>>,
    /// Extra response headers.
    pub headers: Seq<(Seq<char>, Seq<char>)>,
}

impl View for Problem {
    type V = ProblemView;

    open spec fn view(&self) -> ProblemView {
        ProblemView {
            problem_type: self.problem_type@,
            title: self.title@,
            status: self.status,
            detail: match self.detail {
                Some(d) => Some(d@),
                None => None,
            },
            instance: match self.instance {
                Some(d) => Some(d@),
                None => None,
            },
            code: self.code,
            trace_id: match self.trace_id {
                Some(d) => Some(d@),
                None => None,
            },
            headers: self.headers@.map_values(|h: (String, String)| (h.0@, h.1@)),
        }
    }
}

impl ProblemView {
    /// The same problem with a detail message.
    pub open spec fn with_detail(self, d: Seq<char>) -> ProblemView {
        ProblemView { detail: Some(d), ..self }
    }
}

/// Base URN of problem types.
pub open spec fn problem_base() -> Seq<char> {
    "https://batsim.dev/problems/"@
}

/// A fresh problem for `code` at `status` with `title`.
pub open spec fn problem_new_view(code: ProblemCode, status: u16, title: Seq<char>) -> ProblemView {
    ProblemView {
        problem_type: problem_base() + type_slug_of(code),
        title,
        status,
        detail: None,
        instance: None,
        code,
        trace_id: None,
        headers: Seq::empty(),
    }
}

impl Problem {
    /// Build a problem for `code` at `status`.
    pub fn new(code: ProblemCode, status: u16, title: &str) -> (r: Problem)
        ensures
            r@ == problem_new_view(code, status, title@),
    {
        let p = Problem {
            problem_type: concat2("https://batsim.dev/problems/", code.type_slug()),
            title: to_string_of(title),
            status,
            detail: None,
            instance: None,
            code,
            trace_id: None,
            headers: Vec::new(),
        };
        assert(p@.headers =~= Seq::<(Seq<char>, Seq<char>)>::empty());
        p
    }

    /// Attach a detail message.
    pub fn detail(self, detail: String) -> (r: Problem)
        ensures
            r@ == self@.with_detail(detail@),
    {
        Problem { detail: Some(detail), ..self }
    }

    /// 400 validation error.
    pub fn validation(detail: String) -> (r: Problem)
        ensures
            r@ == problem_new_view(ProblemCode::ValidationError, 400, "Validation error"@).with_detail(detail@),
    {
        Problem::new(ProblemCode::ValidationError, 400, "Validation error").detail(detail)
    }

    /// 404: no `kind` with id `id`.
    pub fn not_found(kind: &str, id: &str) -> (r: Problem)
        ensures
            r@ == problem_new_view(ProblemCode::NotFound, 404, "Not found"@).with_detail(
                "no "@ + kind@ + " with id `"@ + id@ + "`"@,
            ),
    {
        let mut d = concat3("no ", kind, " with id `");
        d.append(id);
        d.append("`");
        Problem::new(ProblemCode::NotFound, 404, "Not found").detail(d)
    }

    /// 409 conflict with a detail message.
    pub fn conflict(detail: String) -> (r: Problem)
        ensures
            r@ == problem_new_view(ProblemCode::Conflict, 409, "Conflict"@).with_detail(detail@),
    {
        Problem::new(ProblemCode::Conflict, 409, "Conflict").detail(detail)
    }

    /// 422 rule violation.
    pub fn unprocessable(detail: String) -> (r: Problem)
        ensures
            r@ == problem_new_view(ProblemCode::Unprocessable, 422, "Unprocessable request"@).with_detail(
                detail@,
            ),
    {
        Problem::new(ProblemCode::Unprocessable, 422, "Unprocessable request").detail(detail)
    }

    /// 409: the simulation is running and the operation requires it not to be.
    pub fn sim_running(detail: String) -> (r: Problem)
        ensures
            r@ == problem_new_view(ProblemCode::SimRunning, 409, "Simulation is running"@).with_detail(detail@),
    {
        Problem::new(ProblemCode::SimRunning, 409, "Simulation is running").detail(detail)
    }

    /// 409: the operation requires a started simulation.
    pub fn sim_not_running(detail: String) -> (r: Problem)
        ensures
            r@ == problem_new_view(ProblemCode::SimNotRunning, 409, "Simulation is not running"@).with_detail(
                detail@,
            ),
    {
        Problem::new(ProblemCode::SimNotRunning, 409, "Simulation is not running").detail(detail)
    }

    /// 500 internal error; the cause is logged, not leaked.
    pub fn internal() -> (r: Problem)
        ensures
            r@ == problem_new_view(ProblemCode::Internal, 500, "Internal error"@),
    {
        Problem::new(ProblemCode::Internal, 500, "Internal error")
    }
}

/// 405 with the `Allow` header listing the allowed methods.
pub fn method_not_allowed_problem(allow: &str) -> (r: Problem)
    ensures
        r@ == (ProblemView {
            headers: seq![("allow"@, allow@)],
            ..problem_new_view(ProblemCode::NotFound, 405, "Method not allowed"@)
        }),
{
    let mut p = Problem::new(ProblemCode::NotFound, 405, "Method not allowed");
    let mut headers: Vec<(String, String)> = Vec::new();
    headers.push((String::from_str("allow"), to_string_of(allow)));
    p.headers = headers;
    assert(p@.headers =~= seq![("allow"@, allow@)]);
    p
}

} // verus!
