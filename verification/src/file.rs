//! One entry of a directory.

use vstd::prelude::*;
use vstd::std_specs::cmp::PartialEqSpec;
use std::path::PathBuf;
use crate::fail::{HError, HResult};
use crate::fscache::{DirSlot, MetaSlot};
use crate::pathname::{bytes_of_path, components, file_name_bytes, file_name_of_path, is_named_by,
    lossy_text, name_of_path, path_bytes, path_from_text, paths_equal, push_to_path, reads_as,
    same_path, text_lossy};
use crate::text::{begins_with_dot, starts_with_dot};

verus! {

/// What an entry is.
#[derive(Debug, Copy, Clone, PartialEq, Eq, Structural)]
pub enum Kind {
    Directory,
    File,
    /// Stands in for the entries of a directory that shows none.
    Placeholder,
}

/// The kind of node that a directory listing reports.
#[derive(Debug, Copy, Clone, PartialEq, Eq, Structural)]
pub enum EntryType {
    Fifo,
    CharacterDevice,
    Directory,
    BlockDevice,
    File,
    Symlink,
    Socket,
}

/// One line of a directory listing: the bare name and, where the file system
/// tells, the kind of node.
#[derive(Debug)]
pub struct DirEntry {
    pub name: PathBuf,
    pub file_type: Option<EntryType>,
}

/// One entry of a directory.
#[derive(Debug)]
pub struct File {
    pub name: String,
    pub path: PathBuf,
    pub hidden: bool,
    pub kind: Kind,
    /// Where the number of entries of a directory is to be found.
    pub dirsize: Option<DirSlot>,
    pub target: Option<PathBuf>,
    /// Where the metadata is to be found.
    pub meta: Option<MetaSlot>,
    pub selected: bool,
    pub tag: Option<bool>,
}

/// A [`File`] whose name is a sequence of characters.
#[verifier::ext_equal]
pub struct FileView {
    pub name: Seq<char>,
    pub path: PathBuf,
    pub hidden: bool,
    pub kind: Kind,
    pub dirsize: Option<DirSlot>,
    pub target: Option<PathBuf>,
    pub meta: Option<MetaSlot>,
    pub selected: bool,
    pub tag: Option<bool>,
}

impl View for File {
    type V = FileView;

    open spec fn view(&self) -> FileView {
        FileView {
            name: self.name@,
            path: self.path,
            hidden: self.hidden,
            kind: self.kind,
            dirsize: self.dirsize,
            target: self.target,
            meta: self.meta,
            selected: self.selected,
            tag: self.tag,
        }
    }
}

/// The views of a sequence of files.
pub open spec fn entries_of(files: Seq<File>) -> Seq<FileView> {
    Seq::new(files.len(), |i: int| files[i]@)
}

/// The entry of a file about which nothing is known but its name, its path
/// and whether it is a directory.
pub open spec fn named_file(name: Seq<char>, path: PathBuf, is_dir: bool) -> FileView {
    FileView {
        name,
        path,
        hidden: begins_with_dot(name),
        kind: if is_dir {
            Kind::Directory
        } else {
            Kind::File
        },
        dirsize: None,
        target: None,
        meta: None,
        selected: false,
        tag: None,
    }
}

/// The entry that stands in for the contents of a directory. It keeps the
/// directory's path, and is hidden where the directory is.
pub open spec fn placeholder_for(dir: PathBuf) -> FileView {
    FileView {
        name: "<empty>"@,
        kind: Kind::Placeholder,
        ..named_file(name_of_path(dir), dir, false)
    }
}

/// An entry under a new path, from which it takes its name. The name decides
/// whether it is hidden.
pub open spec fn renamed(file: FileView, new_path: PathBuf) -> FileView {
    match file_name_bytes(path_bytes(new_path)) {
        Some(name) => FileView {
            name: lossy_text(name),
            path: new_path,
            hidden: begins_with_dot(lossy_text(name)),
            ..file
        },
        None => file,
    }
}

/// The kind of an entry, from what the listing reports of it.
pub open spec fn listed_kind(file_type: Option<EntryType>) -> Kind {
    match file_type {
        Some(t) => if t == EntryType::Directory {
            Kind::Directory
        } else {
            Kind::File
        },
        None => Kind::Placeholder,
    }
}

/// The name that a file gets from its path.
pub(crate) fn name_from_path(path: &PathBuf) -> (res: String)
    ensures
        res@ == name_of_path(*path),
        is_named_by(res@, *path),
{
    match file_name_of_path(path) {
        Some(name) => text_lossy(name.as_slice()),
        None => {
            proof {
                reveal_strlit("/");
            }
            let root = "/".to_owned();
            assert(root@ =~= seq!['/']);
            root
        },
    }
}

impl Clone for File {
    fn clone(&self) -> (res: File)
        ensures
            res == *self,
    {
        File {
            name: self.name.clone(),
            path: self.path.clone(),
            hidden: self.hidden,
            kind: self.kind,
            dirsize: self.dirsize,
            target: self.target.clone(),
            meta: self.meta,
            selected: self.selected,
            tag: self.tag,
        }
    }
}

impl PartialEq for File {
    /// Two files are equal when their paths are.
    fn eq(&self, other: &File) -> (res: bool) {
        paths_equal(&self.path, &other.path)
    }
}

impl vstd::std_specs::cmp::PartialEqSpecImpl for File {
    open spec fn obeys_eq_spec() -> bool {
        true
    }

    open spec fn eq_spec(&self, other: &File) -> bool {
        same_path(self.path, other.path)
    }
}

impl Eq for File {

}

impl Default for File {
    /// The placeholder of the empty path.
    fn default() -> (res: File)
        ensures
            path_bytes(res.path) == Seq::<u8>::empty(),
            res@ == placeholder_for(res.path),
    {
        proof {
            reveal_strlit("");
            assert(""@ =~= seq![]);
        }
        File::placeholder(&path_from_text(""))
    }
}

impl File {
    /// A file of a given name and path. `is_dir` tells whether a directory
    /// stands at that path.
    pub fn new(name: &str, path: PathBuf, is_dir: bool) -> (res: File)
        ensures
            res@ == named_file(name@, path, is_dir),
    {
        let hidden = starts_with_dot(name);
        File {
            name: name.to_owned(),
            hidden,
            kind: if is_dir {
                Kind::Directory
            } else {
                Kind::File
            },
            path,
            dirsize: None,
            target: None,
            meta: None,
            selected: false,
            tag: None,
        }
    }

    /// The file that one line of the listing of the directory `path` stands
    /// for. Its own path is that of the directory, a slash and its name. A dot
    /// in front hides it.
    pub fn new_from_nixentry(direntry: &DirEntry, path: &PathBuf) -> (res: File)
        requires
            path_bytes(direntry.name).len() > 0,
        ensures
            path_bytes(res.path) == path_bytes(*path) + seq![47u8] + path_bytes(direntry.name),
            res@ == (FileView {
                kind: listed_kind(direntry.file_type),
                ..named_file(lossy_text(path_bytes(direntry.name)), res.path, false)
            }),
            reads_as(path_bytes(direntry.name), res.name@),
            res.hidden == (path_bytes(direntry.name)[0] == 46u8),
    {
        let slash = path_from_text("/");
        proof {
            reveal_strlit("/");
            assert("/"@ =~= seq!['/']);
            vstd::utf8::is_ascii_chars_encode_utf8("/"@);
            assert(path_bytes(slash) =~= seq![47u8]);
        }
        let below = push_to_path(path.clone(), &slash);
        let full = push_to_path(below, &direntry.name);

        let raw = bytes_of_path(&direntry.name);
        let name = text_lossy(raw.as_slice());
        let hidden = starts_with_dot(name.as_str());

        let kind = match direntry.file_type {
            Some(EntryType::Directory) => Kind::Directory,
            Some(_) => Kind::File,
            None => Kind::Placeholder,
        };

        File {
            name,
            hidden,
            kind,
            path: full,
            dirsize: None,
            target: None,
            meta: None,
            selected: false,
            tag: None,
        }
    }

    /// The file at a path, under the name that the path gives it.
    pub(crate) fn at_path(path: &PathBuf, is_dir: bool) -> (res: File)
        ensures
            res@ == named_file(name_of_path(*path), *path, is_dir),
            is_named_by(res.name@, *path),
    {
        let name = name_from_path(path);
        File::new(name.as_str(), path.clone(), is_dir)
    }

    /// The placeholder that an empty directory shows.
    pub(crate) fn placeholder(path: &PathBuf) -> (res: File)
        ensures
            res@ == placeholder_for(*path),
    {
        let mut file = File::at_path(path, false);
        file.name = "<empty>".to_owned();
        file.kind = Kind::Placeholder;
        file
    }

    /// The file at a path, under the name that the path gives it. Every path
    /// gives one.
    pub fn new_from_path(path: &PathBuf, is_dir: bool) -> (res: HResult<File>)
        ensures
            res matches Ok(file) && file@ == named_file(name_of_path(*path), *path, is_dir)
                && is_named_by(file.name@, *path),
    {
        Ok(File::at_path(path, is_dir))
    }

    /// The placeholder that an empty directory shows. Every path has one.
    pub fn new_placeholder(path: &PathBuf) -> (res: HResult<File>)
        ensures
            res matches Ok(file) && file@ == placeholder_for(*path),
    {
        Ok(File::placeholder(path))
    }

    /// Gives the file a new path, and the name that goes with it. A path that
    /// names nothing is refused, and the file stays as it was.
    pub fn rename(&mut self, new_path: &PathBuf) -> (res: HResult<()>)
        ensures
            final(self)@ == renamed(old(self)@, *new_path),
            res is Ok ==> is_named_by(final(self).name@, *new_path),
            match res {
                Ok(_) => file_name_bytes(path_bytes(*new_path)) is Some,
                Err(e) => e == HError::NoneError && file_name_bytes(path_bytes(*new_path)) is None
                    && *final(self) == *old(self),
            },
    {
        match file_name_of_path(new_path) {
            Some(name) => {
                self.name = text_lossy(name.as_slice());
                self.hidden = starts_with_dot(self.name.as_str());
                self.path = new_path.clone();
                Ok(())
            },
            None => Err(HError::NoneError),
        }
    }

    /// Whether the file is a directory.
    pub fn is_dir(&self) -> (res: bool)
        ensures
            res == (self.kind == Kind::Directory),
    {
        self.kind == Kind::Directory
    }

    /// Whether the file is hidden.
    pub fn is_hidden(&self) -> (res: bool)
        ensures
            res == self.hidden,
    {
        self.hidden
    }

    /// Selects the file, or takes it out of the selection.
    pub fn toggle_selection(&mut self)
        ensures
            *final(self) == (File { selected: !old(self).selected, ..*old(self) }),
    {
        self.selected = !self.selected;
    }

    /// Whether the file is selected.
    pub fn is_selected(&self) -> (res: bool)
        ensures
            res == self.selected,
    {
        self.selected
    }
}

/// Being equal is an equivalence between files.
pub proof fn file_equality_is_an_equivalence(a: File, b: File, c: File)
    ensures
        a.eq_spec(&a),
        a.eq_spec(&b) == b.eq_spec(&a),
        a.eq_spec(&b) && b.eq_spec(&c) ==> a.eq_spec(&c),
{
}

/// A file that has been renamed has the name that a new file at its path would
/// have, and is hidden where that one would be.
pub proof fn renamed_files_are_named_by_their_path(file: FileView, new_path: PathBuf)
    requires
        file_name_bytes(path_bytes(new_path)) is Some,
    ensures
        renamed(file, new_path).path == new_path,
        renamed(file, new_path).name == name_of_path(new_path),
        renamed(file, new_path).hidden == begins_with_dot(name_of_path(new_path)),
{
}

/// A new file is a directory or a file that is none, as it was said; it is
/// hidden by a dot in front of its name, and nothing else is known of it.
pub proof fn new_files_are_bare(name: Seq<char>, path: PathBuf, is_dir: bool)
    ensures
        ({
            let file = named_file(name, path, is_dir);
            &&& file.name == name
            &&& file.path == path
            &&& file.hidden <==> name.len() > 0 && name.first() == '.'
            &&& is_dir ==> file.kind == Kind::Directory
            &&& !is_dir ==> file.kind == Kind::File
            &&& file.dirsize is None && file.target is None && file.meta is None
            &&& !file.selected && file.tag is None
        }),
{
}

/// The placeholder of a directory has its path, and is hidden where a file at
/// that path would be. It is called `<empty>`, and is neither selected nor
/// tagged nor has it metadata.
pub proof fn placeholders_stand_for_their_directory(dir: PathBuf, is_dir: bool)
    ensures
        ({
            let file = placeholder_for(dir);
            &&& file.kind == Kind::Placeholder
            &&& file.name == "<empty>"@
            &&& file.path == dir
            &&& file.hidden == named_file(name_of_path(dir), dir, is_dir).hidden
            &&& file.dirsize is None && file.target is None && file.meta is None
            &&& !file.selected && file.tag is None
        }),
{
}

/// Of what a listing reports, only a directory becomes one, and only what it
/// says nothing of a placeholder.
pub proof fn listings_tell_directories_apart(file_type: Option<EntryType>)
    ensures
        listed_kind(file_type) == Kind::Directory <==> file_type == Some(EntryType::Directory),
        listed_kind(file_type) == Kind::Placeholder <==> file_type is None,
{
}

/// Renaming alters nothing but the name, the path and what follows from the
/// name: an entry stays the directory or file that it was, selected and tagged
/// as it was, with its slots. Renamed back, it is what it was, if its name was
/// that of its path.
pub proof fn renamed_files_stay_what_they_are(file: FileView, new_path: PathBuf)
    ensures
        ({
            let after = renamed(file, new_path);
            &&& after.kind == file.kind
            &&& after.selected == file.selected
            &&& after.tag == file.tag
            &&& after.target == file.target
            &&& after.meta == file.meta
            &&& after.dirsize == file.dirsize
            &&& file_name_bytes(path_bytes(new_path)) is None ==> after == file
            &&& file_name_bytes(path_bytes(new_path)) is Some ==> after.path == new_path
                && after.name == name_of_path(new_path) && (after.hidden <==> after.name.len() > 0
                && after.name.first() == '.')
            &&& file_name_bytes(path_bytes(file.path)) is Some && file.name == name_of_path(
                file.path,
            ) && (file.hidden <==> file.name.len() > 0 && file.name.first() == '.') ==> renamed(
                after,
                file.path,
            ) == file
        }),
{
}

/// An entry has all that its file has.
pub proof fn entries_have_what_their_files_have(file: File)
    ensures
        file@.name == file.name@ && file@.path == file.path,
        file@.hidden == file.hidden && file@.kind == file.kind,
        file@.dirsize == file.dirsize && file@.meta == file.meta,
        file@.target == file.target,
        file@.selected == file.selected && file@.tag == file.tag,
{
}

/// A file is named by the last component of its path, and by `/` where the path
/// ends in none that names something.
pub proof fn files_are_named_by_the_end_of_their_path(path: PathBuf)
    ensures
        file_name_bytes(path_bytes(path)) matches Some(name) ==> name_of_path(path) == lossy_text(
            name,
        ),
        file_name_bytes(path_bytes(path)) is None ==> name_of_path(path).len() == 1 && name_of_path(
            path,
        )[0] == '/',
{
}

/// Files are equal exactly where their paths have the same components, whatever
/// else is known of them.
pub proof fn equal_files_have_the_same_path(a: File, b: File)
    ensures
        a.eq_spec(&b) <==> components(a.path) == components(b.path),
{
}

} // verus!
