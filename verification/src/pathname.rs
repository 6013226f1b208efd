//! What the library takes from `std::path`.
//!
//! A path is a sequence of bytes, as on every Unix. How bytes split into
//! components, what a parent is and what remains behind a prefix is the
//! business of `std::path`, which the functions below call.

use vstd::prelude::*;
use vstd::utf8::{decode_utf8, encode_utf8, valid_utf8};
use std::path::PathBuf;

verus! {

/// `std::path::PathBuf`. What it holds is [`path_bytes`].
#[verifier::external_type_specification]
#[verifier::external_body]
pub struct ExPathBuf(PathBuf);

/// The bytes that a path buffer holds, in order.
pub uninterp spec fn path_bytes(path: PathBuf) -> Seq<u8>;

/// The bytes of what `Path::parent` returns.
pub uninterp spec fn parent_bytes(bytes: Seq<u8>) -> Option<Seq<u8>>;

/// The bytes of what `Path::strip_prefix` returns for a path and a base;
/// nothing where the base is no prefix.
pub uninterp spec fn stripped_bytes(bytes: Seq<u8>, base: Seq<u8>) -> Option<Seq<u8>>;

/// The text that `String::from_utf8_lossy` makes of bytes.
pub uninterp spec fn lossy_text(bytes: Seq<u8>) -> Seq<char>;

/// What stands between the slashes of a path, empty pieces included.
pub open spec fn pieces(bytes: Seq<u8>) -> Seq<Seq<u8>>
    decreases bytes.len(),
{
    if bytes.len() == 0 {
        seq![seq![]]
    } else {
        let before = pieces(bytes.drop_last());
        if bytes.last() == 47u8 {
            before.push(seq![])
        } else {
            before.drop_last().push(before.last().push(bytes.last()))
        }
    }
}

/// A piece that counts wherever it stands: it is not empty and no single dot.
pub open spec fn counts() -> spec_fn(Seq<u8>) -> bool {
    |piece: Seq<u8>| piece.len() > 0 && piece != seq![46u8]
}

/// The components of a path, as `Path::components` lists them, each by its
/// bytes: `/` for the root, then what stands between the slashes. Empty pieces
/// and single dots are left out, but for a dot at the very beginning.
pub open spec fn path_components(bytes: Seq<u8>) -> Seq<Seq<u8>> {
    let front: Seq<Seq<u8>> = if bytes.len() > 0 && bytes[0] == 47u8 {
        seq![seq![47u8]]
    } else if pieces(bytes)[0] == seq![46u8] {
        seq![seq![46u8]]
    } else {
        seq![]
    };
    front + pieces(bytes).filter(counts())
}

/// The components of a path buffer.
pub open spec fn components(path: PathBuf) -> Seq<Seq<u8>> {
    path_components(path_bytes(path))
}

/// Two paths are the same when their components are.
pub open spec fn same_path(a: PathBuf, b: PathBuf) -> bool {
    components(a) == components(b)
}

/// A component that names a file or a directory: neither the root nor `.`
/// nor `..`.
pub open spec fn is_normal(component: Seq<u8>) -> bool {
    &&& component != seq![47u8]
    &&& component != seq![46u8]
    &&& component != seq![46u8, 46u8]
}

/// The last component, where it names something.
pub open spec fn file_name_bytes(bytes: Seq<u8>) -> Option<Seq<u8>> {
    let all = path_components(bytes);
    if all.len() > 0 && is_normal(all.last()) {
        Some(all.last())
    } else {
        None
    }
}

/// What stands behind the last dot of a file name, unless that dot is its
/// first byte or there is none.
pub open spec fn extension_of(name: Seq<u8>) -> Option<Seq<u8>> {
    match name.index_of_last(46u8) {
        Some(dot) => if dot > 0 {
            Some(name.skip(dot + 1))
        } else {
            None
        },
        None => None,
    }
}

/// The extension of the file name of a path.
pub open spec fn extension_bytes(bytes: Seq<u8>) -> Option<Seq<u8>> {
    match file_name_bytes(bytes) {
        Some(name) => extension_of(name),
        None => None,
    }
}

/// The name that a file gets from its path: the last component, or `/` where
/// that component names nothing.
pub open spec fn name_of_path(path: PathBuf) -> Seq<char> {
    match file_name_bytes(path_bytes(path)) {
        Some(name) => lossy_text(name),
        None => seq!['/'],
    }
}

/// A text is what bytes hold, where they hold one in UTF-8. Where they do not,
/// it still begins as they do: an ASCII byte stays, and of any other comes a
/// character that is not ASCII.
pub open spec fn reads_as(bytes: Seq<u8>, text: Seq<char>) -> bool {
    &&& valid_utf8(bytes) ==> text == decode_utf8(bytes)
    &&& bytes.len() > 0 ==> text.len() > 0 && if bytes[0] < 128 {
        text[0] as int == bytes[0]
    } else {
        text[0] as int >= 128
    }
}

/// A name is the last component of a path, read as a text.
pub open spec fn is_named_by(name: Seq<char>, path: PathBuf) -> bool {
    file_name_bytes(path_bytes(path)) matches Some(bytes) ==> reads_as(bytes, name)
}

/// `PathBuf::clone` gives the same path again.
pub assume_specification[ <PathBuf as Clone>::clone ](path: &PathBuf) -> (res: PathBuf)
    ensures
        res == *path,
;

/// Calls `==` of `PathBuf`, which compares two paths component by component.
#[verifier::external_body]
pub(crate) fn paths_equal(a: &PathBuf, b: &PathBuf) -> (res: bool)
    ensures
        res == (path_components(path_bytes(*a)) == path_components(path_bytes(*b))),
{
    a == b
}

/// Calls `PathBuf::from` on a text: the path holds the text's UTF-8 bytes.
#[verifier::external_body]
pub(crate) fn path_from_text(text: &str) -> (res: PathBuf)
    ensures
        path_bytes(res) == encode_utf8(text@),
{
    PathBuf::from(text)
}

/// Calls `OsStr::as_encoded_bytes`, which on Unix hands out a path's bytes as
/// they are.
#[verifier::external_body]
pub(crate) fn bytes_of_path(path: &PathBuf) -> (res: Vec<u8>)
    ensures
        res@ == path_bytes(*path),
{
    path.as_os_str().as_encoded_bytes().to_vec()
}

/// Calls `Path::file_name`: the last component, and nothing where the path is
/// empty or ends in the root, in `.` or in `..`.
#[verifier::external_body]
pub(crate) fn file_name_of_path(path: &PathBuf) -> (res: Option<Vec<u8>>)
    ensures
        match res {
            Some(name) => file_name_bytes(path_bytes(*path)) == Some(name@),
            None => file_name_bytes(path_bytes(*path)) is None,
        },
{
    path.file_name().map(|name| name.as_encoded_bytes().to_vec())
}

/// Calls `Path::extension`: what stands behind the last dot of the file name;
/// nothing without a file name, without a dot, or where the only dot is the
/// name's first byte.
#[verifier::external_body]
pub(crate) fn extension_of_path(path: &PathBuf) -> (res: Option<Vec<u8>>)
    ensures
        match res {
            Some(ext) => extension_bytes(path_bytes(*path)) == Some(ext@),
            None => extension_bytes(path_bytes(*path)) is None,
        },
{
    path.extension().map(|ext| ext.as_encoded_bytes().to_vec())
}

/// Calls `Path::parent`: the path without its last component, and nothing
/// where the path is empty or ends in the root.
#[verifier::external_body]
pub(crate) fn parent_of_path(path: &PathBuf) -> (res: Option<PathBuf>)
    ensures
        match res {
            Some(parent) => {
                &&& parent_bytes(path_bytes(*path)) == Some(path_bytes(parent))
                &&& components(*path).len() > 0
                &&& components(*path).last() != seq![47u8]
                &&& components(parent) == components(*path).drop_last()
            },
            None => {
                &&& parent_bytes(path_bytes(*path)) is None
                &&& (components(*path).len() == 0 || components(*path).last() == seq![47u8])
            },
        },
{
    path.parent().map(|parent| parent.to_path_buf())
}

/// Calls `Path::strip_prefix`: it succeeds when the base's components are the
/// first ones of the path, and gives a path of the others.
#[verifier::external_body]
pub(crate) fn strip_prefix_of_path(path: &PathBuf, base: &PathBuf) -> (res: Option<PathBuf>)
    ensures
        match res {
            Some(rest) => {
                &&& stripped_bytes(path_bytes(*path), path_bytes(*base)) == Some(path_bytes(rest))
                &&& components(rest) == components(*path).skip(components(*base).len() as int)
            },
            None => stripped_bytes(path_bytes(*path), path_bytes(*base)) is None,
        },
        res is Some == components(*base).is_prefix_of(components(*path)),
{
    path.strip_prefix(base).ok().map(|rest| rest.to_path_buf())
}

/// Calls `OsString::push`, which puts the bytes of one text behind those of
/// another.
#[verifier::external_body]
pub(crate) fn push_to_path(path: PathBuf, tail: &PathBuf) -> (res: PathBuf)
    ensures
        path_bytes(res) == path_bytes(path) + path_bytes(*tail),
{
    let mut whole = path.into_os_string();
    whole.push(tail.as_os_str());
    PathBuf::from(whole)
}

/// Calls `String::from_utf8_lossy`. Valid UTF-8 is decoded as it stands; what
/// is no UTF-8 is replaced by U+FFFD, so that an ASCII byte at the beginning
/// stays and no other byte there becomes one.
#[verifier::external_body]
pub(crate) fn text_lossy(bytes: &[u8]) -> (res: String)
    ensures
        res@ == lossy_text(bytes@),
        reads_as(bytes@, res@),
{
    String::from_utf8_lossy(bytes).into_owned()
}

} // verus!
