//! From a print request to the job that is handed to the backend, and the
//! errors on the way.

use vstd::prelude::*;
use vstd::string::*;
use crate::merge::PageRange;
use crate::model::{PrintOptions, JobAttribute, views, job_attrs, job_attributes};
use crate::pages::{ParseRangeError, pages_outcome, parse_pages, render_range_error};
use crate::numeral::cause_text;

verus! {

/// Why a print request failed.
#[derive(Debug, Clone)]
pub enum KprintError {
    /// The backend or its transport failed; the text is for the log.
    InternalError(String),
    /// A failure that already carries its HTTP status.
    Actix { status: u16, text: String },
    /// The page specification holds a term that is no integer.
    PageRange(ParseRangeError),
}

/// A job as the backend is to receive it, the document aside.
#[derive(Debug, Clone)]
pub struct PrintJob {
    pub user_name: String,
    pub title: String,
    pub attributes: Vec<JobAttribute>,
}

/// The index of the first of `names` that equals `name`.
pub open spec fn index_of_name(names: Seq<String>, name: Seq<char>) -> Option<int>
    decreases names.len(),
{
    if names.len() == 0 {
        None
    } else {
        match index_of_name(names.drop_last(), name) {
            Some(i) => Some(i),
            None => if names.last()@ == name {
                Some(names.len() - 1)
            } else {
                None
            },
        }
    }
}

/// The text of the reply for a backend that is not configured.
pub open spec fn unknown_backend_text(name: Seq<char>) -> Seq<char> {
    "Printer named "@ + name + " doesn't exist!"@
}

/// What the caller is told of an internal failure.
pub open spec fn internal_text() -> Seq<char> {
    "an unspecified internal error occurred"@
}

impl KprintError {
    /// The HTTP status under which the error leaves the gateway.
    pub open spec fn status_spec(&self) -> int {
        match self {
            KprintError::InternalError(_) => 500,
            KprintError::Actix { status, text } => *status as int,
            KprintError::PageRange(_) => 412,
        }
    }

    pub fn status_code(&self) -> (code: u16)
        ensures
            code == self.status_spec(),
    {
        match self {
            KprintError::InternalError(_) => 500,
            KprintError::Actix { status, text } => *status,
            KprintError::PageRange(_) => 412,
        }
    }

    /// The error in words, cause included: for the log.
    pub fn message(&self) -> (m: String)
        ensures
            match self {
                KprintError::InternalError(t) => m@
                    == "an unspecified internal error occurred: "@ + t@,
                KprintError::Actix { status, text } => m@ == "Actix error: "@ + text@,
                KprintError::PageRange(e) => exists|cause: Seq<char>|
                    m@ == "Page range parse failure: "@ + ("Range Parsing Error: "@ + cause
                        + " in "@ + e.bad_range@),
            },
    {
        match self {
            KprintError::InternalError(t) => {
                let mut m = "an unspecified internal error occurred: ".to_owned();
                m.append(t.as_str());
                m
            },
            KprintError::Actix { status, text } => {
                let mut m = "Actix error: ".to_owned();
                m.append(text.as_str());
                m
            },
            KprintError::PageRange(e) => {
                let cause = cause_text(&e.error);
                let inner = render_range_error(cause.as_str(), e.bad_range.as_str());
                let mut m = "Page range parse failure: ".to_owned();
                m.append(inner.as_str());
                m
            },
        }
    }

    /// The body of the error response. A failure that carries its own
    /// status answers with its own text, a bad page specification with the
    /// error in words, which names the offending term. An internal failure
    /// answers with a fixed text: its cause is for the log and never leaves.
    pub fn response_body(&self) -> (m: String)
        ensures
            self matches KprintError::Actix { status, text } ==> m@ == text@,
            self matches KprintError::InternalError(t) ==> m@ == internal_text(),
            self matches KprintError::PageRange(e) ==> exists|cause: Seq<char>|
                m@ == "Page range parse failure: "@ + ("Range Parsing Error: "@ + cause + " in "@
                    + e.bad_range@),
    {
        match self {
            KprintError::Actix { status, text } => text.clone(),
            KprintError::InternalError(_) => "an unspecified internal error occurred".to_owned(),
            KprintError::PageRange(_) => self.message(),
        }
    }
}

/// Looks a backend up by name among the configured ones.
pub fn resolve(names: &Vec<String>, name: &str) -> (r: Option<usize>)
    ensures
        match r {
            Some(i) => index_of_name(names@, name@) == Some(i as int) && i < names@.len()
                && names@[i as int]@ == name@,
            None => index_of_name(names@, name@) is None,
        },
{
    let key = name.to_owned();
    let mut i: usize = 0;
    while i < names.len()
        invariant
            i <= names.len(),
            key@ == name@,
            index_of_name(names@.take(i as int), name@) is None,
        decreases names.len() - i,
    {
        proof {
            assert(names@.take(i + 1).drop_last() =~= names@.take(i as int));
        }
        if names[i] == key {
            proof {
                lemma_index_stays(names@.take(i + 1), names@.skip(i + 1), name@);
                assert(names@.take(i + 1) + names@.skip(i + 1) =~= names@);
            }
            return Some(i);
        }
        i += 1;
    }
    proof {
        assert(names@.take(i as int) =~= names@);
    }
    None
}

proof fn lemma_index_stays(x: Seq<String>, y: Seq<String>, name: Seq<char>)
    requires
        index_of_name(x, name) is Some,
    ensures
        index_of_name(x + y, name) == index_of_name(x, name),
    decreases y.len(),
{
    if y.len() == 0 {
        assert(x + y =~= x);
    } else {
        assert((x + y).drop_last() =~= x + y.drop_last());
        lemma_index_stays(x, y.drop_last(), name);
    }
}

/// The failure for a backend that is not configured: status 404.
pub fn unknown_backend(name: &str) -> (e: KprintError)
    ensures
        e matches KprintError::Actix { status, text } && status == 404 && text@
            == unknown_backend_text(name@),
{
    let mut text = "Printer named ".to_owned();
    text.append(name);
    text.append(" doesn't exist!");
    KprintError::Actix { status: 404, text }
}

/// Turns a request into the job for the backend. The backend is looked up
/// first, so an unknown name fails before the page specification is read;
/// then the page specification is parsed and merged; then the attributes are
/// laid out. Gives the place of the backend among `backends` and the job.
pub fn prepare_job(
    backends: &Vec<String>,
    printer: &str,
    user_name: &str,
    options: &PrintOptions,
) -> (r: Result<(usize, PrintJob), KprintError>)
    ensures
        index_of_name(backends@, printer@) is None ==> (r matches Err(
            KprintError::Actix { status, text },
        ) && status == 404 && text@ == unknown_backend_text(printer@)),
        index_of_name(backends@, printer@) is Some ==> match pages_outcome(options.pages@) {
            Err(bad) => r matches Err(KprintError::PageRange(e)) && e.bad_range@ == bad,
            Ok(ranges) => r matches Ok((at, job)) && index_of_name(backends@, printer@) == Some(
                at as int,
            ) && job.user_name@ == user_name@ && job.title@ == options.title@ && views(
                job.attributes@,
            ) == job_attrs(options.sides, options.color_mode, ranges, options.copies),
        },
{
    let at: usize = match resolve(backends, printer) {
        Some(at) => at,
        None => {
            return Err(unknown_backend(printer));
        },
    };
    let ranges: Vec<PageRange> = match parse_pages(options.pages.as_str()) {
        Ok(ranges) => ranges,
        Err(e) => {
            return Err(KprintError::PageRange(e));
        },
    };
    let attributes = job_attributes(options.sides, options.color_mode, &ranges, options.copies);
    Ok((at, PrintJob { user_name: user_name.to_owned(), title: options.title.clone(), attributes }))
}

/// The failure for a submission that the backend or its transport refused:
/// status 500, whatever the cause.
pub fn backend_failure(cause: String) -> (e: KprintError)
    ensures
        e == KprintError::InternalError(cause),
        e.status_spec() == 500,
{
    KprintError::InternalError(cause)
}

} // verus!
