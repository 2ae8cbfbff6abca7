//! The failures a backup run or a configuration change can end in.

use vstd::prelude::*;

verus! {

/// Why an operation failed.
#[derive(Debug, PartialEq, Eq)]
pub enum BackupError {
    /// The stored configuration could not be read, or is not a JSON array
    /// of `{"src", "dst"}` objects with non-empty string values.
    ConfigCorrupt,
    /// The configuration could not be written.
    ConfigWriteFailed,
    /// A folder pair is unusable: a path is empty, or the destination lies
    /// at or below the source.
    ConfigInvalid { source: String, destination: String },
    /// The directory at `path` could not be listed.
    SourceUnreadable { path: String },
    /// The file or directory at `path` could not be created or written.
    DestinationWriteFailed { path: String },
}

/// The mathematical value of a [`BackupError`]: paths as character sequences.
pub enum ErrorView {
    ConfigCorrupt,
    ConfigWriteFailed,
    ConfigInvalid { source: Seq<char>, destination: Seq<char> },
    SourceUnreadable { path: Seq<char> },
    DestinationWriteFailed { path: Seq<char> },
}

impl View for BackupError {
    type V = ErrorView;

    open spec fn view(&self) -> ErrorView {
        match self {
            BackupError::ConfigCorrupt => ErrorView::ConfigCorrupt,
            BackupError::ConfigWriteFailed => ErrorView::ConfigWriteFailed,
            BackupError::ConfigInvalid { source, destination } => ErrorView::ConfigInvalid {
                source: source@,
                destination: destination@,
            },
            BackupError::SourceUnreadable { path } => ErrorView::SourceUnreadable { path: path@ },
            BackupError::DestinationWriteFailed { path } => ErrorView::DestinationWriteFailed {
                path: path@,
            },
        }
    }
}

/// The message that tells an operator of the failure.
pub open spec fn message_of(error: ErrorView) -> Seq<char> {
    match error {
        ErrorView::ConfigCorrupt => {
            "the configuration cannot be read as a JSON list of folder pairs"@
        },
        ErrorView::ConfigWriteFailed => "the configuration could not be written"@,
        ErrorView::ConfigInvalid { source, destination } => "unusable folder pair: "@ + source
            + " -> "@ + destination,
        ErrorView::SourceUnreadable { path } => "cannot read the source directory: "@ + path,
        ErrorView::DestinationWriteFailed { path } => "cannot write to the destination: "@ + path,
    }
}

impl BackupError {
    /// The message that tells an operator of the failure; it names the path
    /// or the pair concerned.
    pub fn message(&self) -> (out: String)
        ensures
            out@ == message_of(self@),
    {
        match self {
            BackupError::ConfigCorrupt => {
                "the configuration cannot be read as a JSON list of folder pairs".to_owned()
            },
            BackupError::ConfigWriteFailed => "the configuration could not be written".to_owned(),
            BackupError::ConfigInvalid { source, destination } => {
                let mut out = "unusable folder pair: ".to_owned();
                out.append(source.as_str());
                out.append(" -> ");
                out.append(destination.as_str());
                out
            },
            BackupError::SourceUnreadable { path } => {
                let mut out = "cannot read the source directory: ".to_owned();
                out.append(path.as_str());
                out
            },
            BackupError::DestinationWriteFailed { path } => {
                let mut out = "cannot write to the destination: ".to_owned();
                out.append(path.as_str());
                out
            },
        }
    }

}

impl Clone for BackupError {
    fn clone(&self) -> (out: BackupError)
        ensures
            out@ == self@,
    {
        match self {
            BackupError::ConfigCorrupt => BackupError::ConfigCorrupt,
            BackupError::ConfigWriteFailed => BackupError::ConfigWriteFailed,
            BackupError::ConfigInvalid { source, destination } => BackupError::ConfigInvalid {
                source: source.clone(),
                destination: destination.clone(),
            },
            BackupError::SourceUnreadable { path } => BackupError::SourceUnreadable {
                path: path.clone(),
            },
            BackupError::DestinationWriteFailed { path } => BackupError::DestinationWriteFailed {
                path: path.clone(),
            },
        }
    }
}

} // verus!
