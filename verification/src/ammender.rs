//! The amender: the rewrite script kept as a sequence-editor file.

use crate::extractor::{record_views, CommitData};
use crate::sequencer::{build_script, is_artifact_of, ScriptArtifact, SequenceError};
use vstd::prelude::*;

verus! {

/// The path at which the amender's script is kept.
pub open spec fn sequence_editor_path() -> Seq<char> {
    "./data/sequence_editor.sh"@
}

/// Plans the rewrite of a whole history and says what is to be persisted:
/// the complete script at the amender's fixed path.
///
/// Where a record has no plan the outcome names that record and holds no
/// part of a script, so whatever is at the path stays as it is.
pub fn sequence_builder(commits: &[CommitData], new_author: &str, new_email: &str) -> (outcome:
    Result<ScriptArtifact, SequenceError>)
    ensures
        is_artifact_of(
            record_views(commits@),
            new_author@,
            new_email@,
            sequence_editor_path(),
            outcome,
        ),
{
    match build_script(commits, new_author, new_email) {
        Ok(content) => Ok(
            ScriptArtifact { path: String::from_str("./data/sequence_editor.sh"), content },
        ),
        Err(fault) => Err(fault),
    }
}

} // verus!
