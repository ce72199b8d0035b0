use vstd::prelude::*;

use crate::identifier::{file_name_text, Identifier};
use crate::json::{encode_submission, submission_text};
use crate::model::BackupSubmission;

verus! {

/// Status of a request whose submission was stored.
pub const NO_CONTENT: u16 = 204;

/// Status of a request whose submission could not be stored.
pub const SERVER_ERROR: u16 = 500;

/// Why a request body could not be read as a submission.
#[derive(Clone, Copy, Debug, PartialEq, Eq)]
pub enum DecodeFailure {
    /// The body is not JSON text.
    Syntax,
    /// The body is JSON, but a field is missing or has the wrong type.
    Shape,
    /// The request does not declare a JSON body.
    MissingContentType,
}

/// The status that answers a body which failed to decode.
pub open spec fn failure_status(f: DecodeFailure) -> u16 {
    match f {
        DecodeFailure::Syntax => 400,
        DecodeFailure::Shape => 422,
        DecodeFailure::MissingContentType => 415,
    }
}

impl DecodeFailure {
    /// The client-error status the request is answered with.
    pub fn status(&self) -> (r: u16)
        ensures
            r == failure_status(*self),
            400 <= r < 500,
    {
        match self {
            DecodeFailure::Syntax => 400,
            DecodeFailure::Shape => 422,
            DecodeFailure::MissingContentType => 415,
        }
    }
}

/// The file that stores one submission: its name and its whole content.
#[derive(Clone, Debug, PartialEq, Eq)]
pub struct Artifact {
    pub file_name: String,
    pub contents: Vec<u8>,
}

/// The artifact for a submission stored under the given identifier.
pub fn prepare_artifact(s: &BackupSubmission, id: &Identifier) -> (r: Artifact)
    ensures
        r.file_name@ == file_name_text(id.bytes@),
        r.contents@ == submission_text(*s),
{
    Artifact { file_name: id.file_name(), contents: encode_submission(s) }
}

/// What a request leads to once its body has been decoded.
#[derive(Clone, Debug, PartialEq, Eq)]
pub enum Step {
    /// Answer at once with this status; nothing is stored.
    Respond(u16),
    /// Create this file, which must not exist yet, then answer.
    Store(Artifact),
}

/// Decides a request from the outcome of decoding its body: a body that
/// failed to decode is answered with a client error and stores nothing; a
/// submission is stored, verbatim, under the identifier supplied.
pub fn plan_submission(decoded: Result<BackupSubmission, DecodeFailure>, id: Identifier) -> (r:
    Step)
    ensures
        match decoded {
            Err(f) => r == Step::Respond(failure_status(f)),
            Ok(s) => match r {
                Step::Store(a) => a.file_name@ == file_name_text(id.bytes@) && a.contents@
                    == submission_text(s),
                Step::Respond(_) => false,
            },
        },
{
    match decoded {
        Err(f) => Step::Respond(f.status()),
        Ok(s) => Step::Store(prepare_artifact(&s, &id)),
    }
}

/// The status that answers a request once its artifact was written, or failed
/// to be.
pub fn written_status(written: bool) -> (r: u16)
    ensures
        r == (if written {
            NO_CONTENT
        } else {
            SERVER_ERROR
        }),
{
    if written {
        NO_CONTENT
    } else {
        SERVER_ERROR
    }
}

} // verus!
