//! The media type of a file.

use vstd::prelude::*;
use crate::fail::{HError, HResult, MimeError};
use crate::file::File;
use crate::pathname::{extension_bytes, extension_of_path, lossy_text, path_bytes, text_lossy};

verus! {

/// The media type that `mime_guess::from_ext` finds first for an extension.
pub uninterp spec fn mime_of_extension(extension: Seq<char>) -> Option<Seq<char>>;

/// The media type that `Mime::from_str` reads in a text.
pub uninterp spec fn parsed_mime(text: Seq<char>) -> Option<Seq<char>>;

/// Calls `mime_guess::from_ext` and takes the first guess. An empty extension
/// has none.
#[verifier::external_body]
pub(crate) fn guess_from_extension(extension: &str) -> (res: Option<String>)
    ensures
        match res {
            Some(mime) => mime_of_extension(extension@) == Some(mime@),
            None => mime_of_extension(extension@) is None,
        },
        extension@.len() == 0 ==> res is None,
{
    mime_guess::from_ext(extension).first().map(|mime| mime.to_string())
}

/// Calls `Mime::from_str`.
#[verifier::external_body]
pub(crate) fn parse_mime(text: &str) -> (res: Option<String>)
    ensures
        match res {
            Some(mime) => parsed_mime(text@) == Some(mime@),
            None => parsed_mime(text@) is None,
        },
{
    text.parse::<mime::Mime>().ok().map(|mime| mime.to_string())
}

impl File {
    /// The media type that the extension of a file's path tells.
    pub open spec fn mime_by_path(&self) -> Option<Seq<char>> {
        match extension_bytes(path_bytes(self.path)) {
            Some(extension) => mime_of_extension(lossy_text(extension)),
            None => None,
        }
    }

    /// The media type of a file whose contents gave something, or nothing.
    pub open spec fn media_type(&self, sniffed: Option<String>) -> Option<Seq<char>> {
        match self.mime_by_path() {
            Some(guess) => Some(guess),
            None => match sniffed {
                Some(text) => parsed_mime(text@),
                None => None,
            },
        }
    }

    /// The media type that the file's extension tells, if it tells one.
    pub fn guess_mime(&self) -> (res: Option<String>)
        ensures
            match res {
                Some(mime) => self.mime_by_path() == Some(mime@),
                None => self.mime_by_path() is None,
            },
    {
        match extension_of_path(&self.path) {
            Some(extension) => guess_from_extension(text_lossy(extension.as_slice()).as_str()),
            None => None,
        }
    }

    /// The media type of the file: the one that its extension tells, or else
    /// the one that its contents gave. `sniffed` is what was made of the
    /// contents, and nothing where that failed; it need not be looked for if
    /// [`File::guess_mime`] finds something.
    pub fn get_mime(&self, sniffed: Option<String>) -> (res: HResult<String>)
        ensures
            match self.media_type(sniffed) {
                Some(found) => res matches Ok(mime) && mime@ == found,
                None => res == Err::<String, HError>(HError::Mime(MimeError::Panic(self.name))),
            },
    {
        if let Some(mime) = self.guess_mime() {
            return Ok(mime);
        }
        let read = match sniffed {
            Some(text) => parse_mime(text.as_str()),
            None => None,
        };
        match read {
            Some(mime) => Ok(mime),
            None => Err(HError::Mime(MimeError::Panic(self.name.clone()))),
        }
    }
}

/// Where the extension tells a media type, the contents do not matter; where it
/// does not, they alone do. The extension is what stands behind the last dot of
/// the file name.
pub proof fn extensions_come_before_contents(file: &File, a: Option<String>, b: Option<String>)
    ensures
        file.mime_by_path() is Some ==> file.media_type(a) == file.mime_by_path()
            && file.media_type(a) == file.media_type(b),
        file.mime_by_path() is None ==> (a matches Some(text) ==> file.media_type(a) == parsed_mime(
            text@,
        )),
        file.mime_by_path() is None && a is None ==> file.media_type(a) is None,
        extension_bytes(path_bytes(file.path)) is None ==> file.mime_by_path() is None,
        extension_bytes(path_bytes(file.path)) matches Some(extension) ==> file.mime_by_path()
            == mime_of_extension(lossy_text(extension)),
{
}

} // verus!
