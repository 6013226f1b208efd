//! Where a file is: its parents, and its path as seen from elsewhere.

use vstd::prelude::*;
use std::path::PathBuf;
use pathbuftools::PathBufTools;
use crate::fail::{HError, HResult};
use crate::file::{named_file, File};
use crate::pathname::{components, is_named_by, lossy_text, name_of_path, parent_bytes,
    parent_of_path, path_bytes, path_from_text, same_path, strip_prefix_of_path, stripped_bytes};

verus! {

/// What is left of a path behind the home directory, with `~` in front of it;
/// an absolute rest stands alone.
pub open spec fn behind_tilde(rest: Seq<u8>) -> Seq<u8> {
    if rest.len() > 0 && rest[0] == 47u8 {
        rest
    } else {
        seq![126u8, 47u8] + rest
    }
}

/// A path as it is, or with what may be the home directory written as `~`.
pub open spec fn is_short_form(path: Seq<u8>, short: Seq<u8>) -> bool {
    ||| short == path
    ||| exists|home: Seq<u8>|
        #![trigger stripped_bytes(path, home)]
        stripped_bytes(path, home) matches Some(rest) && short == behind_tilde(rest)
}

/// The text of such a path.
pub open spec fn is_short_text(path: Seq<u8>, text: Seq<char>) -> bool {
    exists|short: Seq<u8>| is_short_form(path, short) && text == #[trigger] lossy_text(short)
}

/// Calls `PathBufTools::short_path` of pathbuftools. Where the home directory
/// is a prefix of the path, `~` takes its place. Which directory that is the
/// environment decides.
#[verifier::external_body]
pub(crate) fn shorten(path: &PathBuf) -> (res: PathBuf)
    ensures
        is_short_form(path_bytes(*path), path_bytes(res)),
{
    path.short_path()
}

/// Calls `PathBufTools::short_string` of pathbuftools, the text of the short
/// path.
#[verifier::external_body]
pub(crate) fn shorten_to_text(path: &PathBuf) -> (res: String)
    ensures
        is_short_text(path_bytes(*path), res@),
{
    path.short_string()
}

/// The directory two levels up is that which holds the directory that holds the
/// file, and there is none unless both are there.
pub proof fn grand_parents_are_parents_of_parents(file: File, parent: File)
    ensures
        parent_bytes(path_bytes(file.path)) is None ==> file.grand_parent_bytes() is None,
        parent_bytes(path_bytes(file.path)) == Some(path_bytes(parent.path))
            ==> file.grand_parent_bytes() == parent_bytes(path_bytes(parent.path)),
{
}

impl File {
    /// The directory that holds the file: its path without the last component.
    /// The root has none, nor has the empty path.
    pub fn parent(&self) -> (res: Option<PathBuf>)
        ensures
            match res {
                Some(parent) => {
                    &&& parent_bytes(path_bytes(self.path)) == Some(path_bytes(parent))
                    &&& components(parent) == components(self.path).drop_last()
                },
                None => parent_bytes(path_bytes(self.path)) is None,
            },
            res is None == (components(self.path).len() == 0 || components(self.path).last()
                == seq![47u8]),
    {
        parent_of_path(&self.path)
    }

    /// The directory that holds the file, as a file. `is_dir` tells whether a
    /// directory stands at that path.
    pub fn parent_as_file(&self, is_dir: bool) -> (res: HResult<File>)
        ensures
            match res {
                Ok(file) => {
                    &&& parent_bytes(path_bytes(self.path)) == Some(path_bytes(file.path))
                    &&& components(file.path) == components(self.path).drop_last()
                    &&& file@ == named_file(name_of_path(file.path), file.path, is_dir)
                    &&& is_named_by(file.name@, file.path)
                },
                Err(e) => e == HError::NoneError && parent_bytes(path_bytes(self.path)) is None,
            },
    {
        match self.parent() {
            Some(parent) => File::new_from_path(&parent, is_dir),
            None => Err(HError::NoneError),
        }
    }

    /// The bytes of the path of the directory two levels up.
    pub open spec fn grand_parent_bytes(&self) -> Option<Seq<u8>> {
        match parent_bytes(path_bytes(self.path)) {
            Some(parent) => parent_bytes(parent),
            None => None,
        }
    }

    /// The directory two levels up.
    pub fn grand_parent(&self) -> (res: Option<PathBuf>)
        ensures
            match res {
                Some(path) => {
                    &&& self.grand_parent_bytes() == Some(path_bytes(path))
                    &&& components(path) == components(self.path).drop_last().drop_last()
                },
                None => self.grand_parent_bytes() is None,
            },
    {
        match self.parent() {
            Some(parent) => parent_of_path(&parent),
            None => None,
        }
    }

    /// The directory two levels up, as a file. `is_dir` tells whether a
    /// directory stands at that path.
    pub fn grand_parent_as_file(&self, is_dir: bool) -> (res: HResult<File>)
        ensures
            match res {
                Ok(file) => {
                    &&& self.grand_parent_bytes() == Some(path_bytes(file.path))
                    &&& components(file.path) == components(self.path).drop_last().drop_last()
                    &&& file@ == named_file(name_of_path(file.path), file.path, is_dir)
                    &&& is_named_by(file.name@, file.path)
                },
                Err(e) => e == HError::NoneError && self.grand_parent_bytes() is None,
            },
    {
        match self.grand_parent() {
            Some(path) => File::new_from_path(&path, is_dir),
            None => Err(HError::NoneError),
        }
    }

    /// The path of the file as seen from another: what is left behind the
    /// other's path, or the whole path if the file does not lie below it, which
    /// it does where its path begins with the other's components.
    pub fn strip_prefix(&self, base: &File) -> (res: PathBuf)
        ensures
            path_bytes(res) == if same_path(self.path, base.path) {
                seq![46u8, 47u8]
            } else {
                match stripped_bytes(path_bytes(self.path), path_bytes(base.path)) {
                    Some(rest) => rest,
                    None => path_bytes(self.path),
                }
            },
            !same_path(self.path, base.path) ==> stripped_bytes(
                path_bytes(self.path),
                path_bytes(base.path),
            ) is Some == components(base.path).is_prefix_of(components(self.path)),
            !same_path(self.path, base.path) && components(base.path).is_prefix_of(
                components(self.path),
            ) ==> components(res) == components(self.path).skip(
                components(base.path).len() as int,
            ),
    {
        if *self == *base {
            proof {
                reveal_strlit("./");
                assert("./"@ =~= seq!['.', '/']);
                vstd::utf8::is_ascii_chars_encode_utf8("./"@);
                assert(vstd::utf8::encode_utf8("./"@) =~= seq![46u8, 47u8]);
            }
            return path_from_text("./");
        }
        match strip_prefix_of_path(&self.path, &base.path) {
            Some(path) => path,
            None => self.path.clone(),
        }
    }

    /// The path of the file.
    pub fn path(&self) -> (res: PathBuf)
        ensures
            res == self.path,
    {
        self.path.clone()
    }

    /// The path with the home directory written as `~`.
    pub fn short_path(&self) -> (res: PathBuf)
        ensures
            is_short_form(path_bytes(self.path), path_bytes(res)),
    {
        shorten(&self.path)
    }

    /// The text of the path with the home directory written as `~`.
    pub fn short_string(&self) -> (res: String)
        ensures
            is_short_text(path_bytes(self.path), res@),
    {
        shorten_to_text(&self.path)
    }
}

} // verus!
