//! Ingestion of time-tracking backups: the submission model, the text each
//! submission is stored as, the name of the file that holds it, and the
//! decisions of the endpoint that receives it.

mod model;
mod json;
mod identifier;
mod endpoint;
mod text_laws;

pub use model::{BackupSubmission, Project, TimeInterval};
pub use json::{
    bool_text, decimal, encode_submission, escape_byte, escaped, hex_digit, interval_text,
    intervals_text, project_text, projects_text, string_text, submission_text,
};
pub use identifier::{
    canonical_text, file_name_text, hex_char, is_hyphen_position, is_random_version,
    lemma_file_name_injective, nibble, nibble_position, Identifier,
};
pub use endpoint::{
    failure_status, plan_submission, prepare_artifact, written_status, Artifact, DecodeFailure,
    Step, NO_CONTENT, SERVER_ERROR,
};
pub use text_laws::{
    is_digit, lemma_stored_text_determines_submission, same_project, same_submission,
};
