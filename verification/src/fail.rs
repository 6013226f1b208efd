//! What can go wrong.

use vstd::prelude::*;
use vstd::string::StringExecFns;
use std::path::PathBuf;

verus! {

/// A directory or a file's metadata could not be had.
#[derive(Debug)]
pub enum FileError {
    /// The metadata has been asked for but is not there yet.
    MetaPending,
    /// The directory could not be opened, for the reason given.
    OpenDir(String),
    /// The directory was opened but could not be listed.
    ReadFiles(String),
}

/// Why the media type of a file is unknown.
#[derive(Debug)]
pub enum MimeError {
    /// Nothing could be made of the file of this name.
    Panic(String),
}

/// Every failure of the library.
#[derive(Debug)]
pub enum HError {
    /// Something that should have been there was not.
    NoneError,
    /// The work was called off.
    StaleError,
    /// The tags have not been read yet.
    TagsNotLoadedYetError,
    /// A path does not lie in the directory that was asked for it.
    WrongDirectoryError { path: PathBuf, dir: PathBuf },
    FileError(FileError),
    Mime(MimeError),
}

impl Clone for FileError {
    fn clone(&self) -> (res: FileError)
        ensures
            res == *self,
    {
        match self {
            FileError::MetaPending => FileError::MetaPending,
            FileError::OpenDir(reason) => FileError::OpenDir(reason.clone()),
            FileError::ReadFiles(reason) => FileError::ReadFiles(reason.clone()),
        }
    }
}

pub type HResult<T> = Result<T, HError>;

impl FileError {
    /// The text that [`FileError::message`] returns.
    pub open spec fn text(self) -> Seq<char> {
        match self {
            FileError::MetaPending => "Metadata still pending!"@,
            FileError::OpenDir(reason) => "Couldn't open directory! Error: "@ + reason@,
            FileError::ReadFiles(reason) => "Couldn't read files! Error: "@ + reason@,
        }
    }

    /// The error as a sentence.
    pub fn message(&self) -> (res: String)
        ensures
            res@ == self.text(),
    {
        match self {
            FileError::MetaPending => "Metadata still pending!".to_owned(),
            FileError::OpenDir(reason) => {
                "Couldn't open directory! Error: ".to_owned().concat(reason.as_str())
            },
            FileError::ReadFiles(reason) => {
                "Couldn't read files! Error: ".to_owned().concat(reason.as_str())
            },
        }
    }
}

/// A message says what failed, and ends with the reason if there is one. Which
/// of the failures it was can be told from it.
pub proof fn messages_end_with_their_reason(error: FileError)
    ensures
        error is MetaPending ==> error.text() == "Metadata still pending!"@,
        error matches FileError::OpenDir(reason) ==> error.text().len() == 32 + reason@.len()
            && error.text().take(32) == "Couldn't open directory! Error: "@ && error.text().skip(32)
            == reason@,
        error matches FileError::ReadFiles(reason) ==> error.text().len() == 28 + reason@.len()
            && error.text().take(28) == "Couldn't read files! Error: "@ && error.text().skip(28)
            == reason@,
{
    reveal_strlit("Couldn't open directory! Error: ");
    reveal_strlit("Couldn't read files! Error: ");
    match error {
        FileError::MetaPending => {},
        FileError::OpenDir(reason) => {
            assert(error.text().skip(32) =~= reason@);
            assert(error.text().take(32) =~= "Couldn't open directory! Error: "@);
        },
        FileError::ReadFiles(reason) => {
            assert(error.text().skip(28) =~= reason@);
            assert(error.text().take(28) =~= "Couldn't read files! Error: "@);
        },
    }
}

} // verus!
