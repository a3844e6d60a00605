//! What can go wrong in a run, and how it is reported.

use vstd::prelude::*;
use vstd::string::StringExecFns;

verus! {

/// A failure of the run or of one of its units. But for a missing version,
/// a failure belongs to one manifest and names its path.
#[derive(Debug)]
pub enum Error {
    /// No version was given. Nothing has been done.
    Usage,
    /// A reference leads to no manifest: the path does not exist.
    NotFound { path: String },
    /// A manifest could not be looked up, read or written.
    Io { path: String, message: String },
    /// The text of a manifest is not a well-formed document.
    Parse { path: String, message: String },
}

impl Error {
    /// The report of this failure: for a manifest its path, a colon and
    /// what happened.
    pub open spec fn text(self) -> Seq<char> {
        match self {
            Error::Usage => "Must specify a version"@,
            Error::NotFound { path } => path@ + ": no such file or directory"@,
            Error::Io { path, message } => path@ + ": "@ + message@,
            Error::Parse { path, message } => path@ + ": "@ + message@,
        }
    }

    /// The path of the manifest that the failure belongs to.
    pub open spec fn place(self) -> Option<Seq<char>> {
        match self {
            Error::Usage => None,
            Error::NotFound { path } => Some(path@),
            Error::Io { path, .. } => Some(path@),
            Error::Parse { path, .. } => Some(path@),
        }
    }

    /// The report of this failure, to be shown to the user.
    pub fn describe(&self) -> (text: String)
        ensures
            text@ == self.text(),
    {
        match self {
            Error::Usage => String::from_str("Must specify a version"),
            Error::NotFound { path } => {
                let mut text: String = path.clone();
                text.append(": no such file or directory");
                text
            },
            Error::Io { path, message } => {
                let mut text: String = path.clone();
                text.append(": ");
                text.append(message.as_str());
                text
            },
            Error::Parse { path, message } => {
                let mut text: String = path.clone();
                text.append(": ");
                text.append(message.as_str());
                text
            },
        }
    }

    /// The path of the manifest that the failure belongs to, if it belongs
    /// to one.
    pub fn path(&self) -> (path: Option<String>)
        ensures
            match path {
                Some(p) => self.place() == Some(p@),
                None => self.place() is None,
            },
    {
        match self {
            Error::Usage => None,
            Error::NotFound { path } => Some(path.clone()),
            Error::Io { path, .. } => Some(path.clone()),
            Error::Parse { path, .. } => Some(path.clone()),
        }
    }
}

} // verus!
