//! Asking the service for one set: the address to ask, and what to make of
//! the answer.

use crate::text::{decimal, decimal_text, trim, trimmed};
use vstd::prelude::*;

verus! {

/// How a request ended.
#[derive(Clone, Debug, PartialEq, Eq)]
pub enum HttpOutcome {
    /// No answer came, or it could not be read.
    Failed { cause: String },
    /// The service answered. A body that was not read is empty.
    Responded { status: u16, body: String },
}

/// Why a set could not be fetched.
#[derive(Clone, Debug, PartialEq, Eq)]
pub enum FetchError {
    /// The request did not get through.
    Transport { cause: String },
    /// The service answered `url` with a status that is no success.
    Status { url: String, status: u16 },
}

/// An [`HttpOutcome`] as plain values.
pub enum Reply {
    Failed { cause: Seq<char> },
    Responded { status: u16, body: Seq<char> },
}

/// A [`FetchError`] as plain values.
pub enum FetchFailure {
    Transport { cause: Seq<char> },
    Status { url: Seq<char>, status: u16 },
}

impl View for HttpOutcome {
    type V = Reply;

    open spec fn view(&self) -> Reply {
        match self {
            HttpOutcome::Failed { cause } => Reply::Failed { cause: cause@ },
            HttpOutcome::Responded { status, body } => Reply::Responded {
                status: *status,
                body: body@,
            },
        }
    }
}

impl View for FetchError {
    type V = FetchFailure;

    open spec fn view(&self) -> FetchFailure {
        match self {
            FetchError::Transport { cause } => FetchFailure::Transport { cause: cause@ },
            FetchError::Status { url, status } => FetchFailure::Status {
                url: url@,
                status: *status,
            },
        }
    }
}

/// The address to ask for the cards of `code`: the base address followed
/// by the trimmed code, which is not encoded in any way.
pub open spec fn request_target(base_url: Seq<char>, code: Seq<char>) -> Seq<char> {
    base_url + trimmed(code)
}

/// Whether `status` is a success: from 200 to 299.
pub open spec fn success_status(status: u16) -> bool {
    200 <= status < 300
}

/// What an answer to the request for `url` amounts to: the body as it came
/// where the status is a success, else the reason why there is none.
pub open spec fn fetched(url: Seq<char>, reply: Reply) -> Result<Seq<char>, FetchFailure> {
    match reply {
        Reply::Failed { cause } => Err(FetchFailure::Transport { cause }),
        Reply::Responded { status, body } => if success_status(status) {
            Ok(body)
        } else {
            Err(FetchFailure::Status { url, status })
        },
    }
}

/// What a failure reads like.
pub open spec fn failure_text(failure: FetchFailure) -> Seq<char> {
    match failure {
        FetchFailure::Transport { cause } => cause,
        FetchFailure::Status { url, status } => "Request to "@ + url + " failed with status: "@
            + decimal(status as nat),
    }
}

/// Builds the address to ask for the cards of `set_code`.
pub fn request_url(base_url: &str, set_code: &str) -> (url: String)
    ensures
        url@ == request_target(base_url@, set_code@),
{
    let mut url = base_url.to_owned();
    url.append(trim(set_code).as_str());
    url
}

/// Tells whether `status` is a success.
pub fn is_success(status: u16) -> (b: bool)
    ensures
        b == success_status(status),
{
    200 <= status && status < 300
}

/// Turns the outcome of the request for `url` into the payload or into the
/// reason why there is none.
pub fn interpret(url: String, outcome: HttpOutcome) -> (result: Result<String, FetchError>)
    ensures
        match result {
            Ok(body) => fetched(url@, outcome@) == Ok::<Seq<char>, FetchFailure>(body@),
            Err(error) => fetched(url@, outcome@) == Err::<Seq<char>, FetchFailure>(error@),
        },
{
    match outcome {
        HttpOutcome::Failed { cause } => Err(FetchError::Transport { cause }),
        HttpOutcome::Responded { status, body } => {
            if is_success(status) {
                Ok(body)
            } else {
                Err(FetchError::Status { url, status })
            }
        },
    }
}

impl FetchError {
    /// A line that tells the failure to a reader.
    pub fn describe(&self) -> (text: String)
        ensures
            text@ == failure_text(self@),
    {
        match self {
            FetchError::Transport { cause } => cause.clone(),
            FetchError::Status { url, status } => {
                let mut text = "Request to ".to_owned();
                text.append(url.as_str());
                text.append(" failed with status: ");
                text.append(decimal_text(*status as usize).as_str());
                text
            },
        }
    }
}

} // verus!
