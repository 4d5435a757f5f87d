//! What the editor area offers when no document is open.

use vstd::prelude::*;
use crate::file::{FileError, spec_file_error_message};
use crate::i18n::{Language, LocalizedMessage};

verus! {

/// What the editor area says when no document is open.
#[derive(Clone, Debug, PartialEq, Eq)]
pub enum EmptyHint {
    /// The workspace is still being scanned.
    LoadingWorkspace,
    /// The last scan of the workspace failed; the message says why.
    ScanFailed(String),
    /// The workspace holds no Markdown file.
    NoMarkdownFiles,
    /// The workspace has Markdown files, none of which is open.
    NoDocumentSelected,
    /// No workspace is open.
    Welcome,
}

/// The button the empty editor area offers.
#[derive(Clone, Copy, Debug, PartialEq, Eq, Structural)]
pub enum EmptyAction {
    /// Start a new document (a workspace is open).
    NewDocument,
    /// Open a file or folder (no workspace yet).
    Open,
}

/// The empty editor area: while the workspace loads it says so and offers
/// nothing; otherwise it names a failed scan, else what the workspace
/// holds, else welcomes, and offers a new document when a workspace is
/// open and opening one otherwise.
pub fn empty_state(
    language: Language,
    loading: bool,
    scan_error: Option<&FileError>,
    workspace_open: bool,
    tree_empty: bool,
) -> (r: (EmptyHint, Option<EmptyAction>))
    ensures
        loading ==> r.0 == EmptyHint::LoadingWorkspace && r.1 is None,
        !loading ==> r.1 == Some(if workspace_open { EmptyAction::NewDocument } else { EmptyAction::Open }),
        !loading && scan_error is Some ==> (r.0 matches EmptyHint::ScanFailed(m)
            && m@ == spec_file_error_message(*scan_error.unwrap(), language)),
        !loading && scan_error is None && workspace_open && tree_empty ==> r.0 == EmptyHint::NoMarkdownFiles,
        !loading && scan_error is None && workspace_open && !tree_empty ==> r.0 == EmptyHint::NoDocumentSelected,
        !loading && scan_error is None && !workspace_open ==> r.0 == EmptyHint::Welcome,
{
    if loading {
        return (EmptyHint::LoadingWorkspace, None);
    }
    let action = if workspace_open { EmptyAction::NewDocument } else { EmptyAction::Open };
    let hint = match scan_error {
        Some(error) => EmptyHint::ScanFailed(error.localized_message(language)),
        None => if !workspace_open {
            EmptyHint::Welcome
        } else if tree_empty {
            EmptyHint::NoMarkdownFiles
        } else {
            EmptyHint::NoDocumentSelected
        },
    };
    (hint, Some(action))
}

} // verus!
