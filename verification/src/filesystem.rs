//! A read-only file system over a tar archive held in memory.
//!
//! Paths are taken in any spelling and brought into canonical form before
//! they are looked up, so `/dir/file`, `dir/file` and `./dir//file` name the
//! same entry, and the empty path, `.` and `/` all name the root directory.

pub mod backends;
pub mod error;
pub mod path;
pub mod tar;

use vstd::prelude::*;
use crate::filesystem::backends::tar::{
    children,
    find,
    indexed,
    names_canonical,
    IndexEntry,
    IndexedEntry,
};
use crate::filesystem::backends::FsBackendImpl;
use crate::filesystem::error::Error;
use crate::filesystem::path::{canonical, last_component, name_of, CanonPathString};
use crate::filesystem::tar::{has_magic, listable, read_bytes, read_count, tar_listing, EntryKind};

verus! {

/// The kinds of entries that the file system shows.
#[derive(Debug, Clone, Copy, PartialEq, Eq, Structural)]
pub enum FileType {
    File,
    HardLink,
    SymLink,
    Dir,
}

/// What is known of an entry without reading it.
pub struct FileMetadata {
    /// The canonical path of the entry.
    pub path: String,
    /// Size of the contents in bytes.
    pub size: usize,
    pub file_type: FileType,
}

/// The metadata of an entry as plain values.
pub struct MetadataView {
    pub path: Seq<char>,
    pub size: usize,
    pub file_type: FileType,
}

impl View for FileMetadata {
    type V = MetadataView;

    open spec fn view(&self) -> MetadataView {
        MetadataView { path: self.path@, size: self.size, file_type: self.file_type }
    }
}

/// The file type that an archive entry of the given kind is shown as.
/// Devices are not shown.
pub open spec fn file_type_of(kind: EntryKind) -> Option<FileType> {
    match kind {
        EntryKind::File => Some(FileType::File),
        EntryKind::HardLink => Some(FileType::HardLink),
        EntryKind::SymbLink => Some(FileType::SymLink),
        EntryKind::Dir => Some(FileType::Dir),
        EntryKind::ChrDev => None,
        EntryKind::BlkDev => None,
    }
}

/// The metadata of an index entry, if its kind is one that is shown.
pub open spec fn metadata_of(entry: IndexedEntry) -> Option<MetadataView> {
    match file_type_of(entry.kind) {
        Some(file_type) => Some(MetadataView { path: entry.path, size: entry.size, file_type }),
        None => None,
    }
}

/// The entries as plain values.
pub open spec fn metadata_views(entries: Seq<FileMetadata>) -> Seq<MetadataView> {
    Seq::new(entries.len(), |i: int| entries[i]@)
}

/// What `read_dir` returns for a path: the metadata of the entries
/// directly inside the directory, in the order of their paths, or the error
/// of the first step that fails.
pub open spec fn dir_listing(entries: Seq<IndexedEntry>, path: Seq<char>) -> Result<
    Seq<MetadataView>,
    Error,
> {
    match canonical(path) {
        None => Err(Error::InvalidPathTraversal),
        Some(canon) => {
            let found = children(entries, canon, entries.len() as int);
            if all_supported(found) {
                Ok(Seq::new(found.len(), |i: int| metadata_of(found[i]).unwrap()))
            } else {
                Err(Error::UnexpectedFileType)
            }
        },
    }
}

/// What `read_to_string` returns for a path: the text that the contents of
/// the entry encode, or the error of the first step that fails.
pub open spec fn text_result(image: Seq<u8>, entries: Seq<IndexedEntry>, path: Seq<char>) -> Result<
    Seq<char>,
    Error,
> {
    match read_result(image, entries, path) {
        Ok(bytes) => if vstd::utf8::valid_utf8(bytes) {
            Ok(vstd::utf8::decode_utf8(bytes))
        } else {
            Err(Error::InvalidData)
        },
        Err(e) => Err(e),
    }
}

/// Whether all the entries are of a kind that is shown.
pub open spec fn all_supported(entries: Seq<IndexedEntry>) -> bool {
    forall|i: int| 0 <= i < entries.len() ==> metadata_of(#[trigger] entries[i]) is Some
}

impl FileType {
    /// The file type that an archive entry of the given kind is shown as.
    /// `UnexpectedFileType` for the devices.
    pub fn from_kind(kind: EntryKind) -> (res: Result<FileType, Error>)
        ensures
            match file_type_of(kind) {
                Some(file_type) => res == Ok::<FileType, Error>(file_type),
                None => res == Err::<FileType, Error>(Error::UnexpectedFileType),
            },
    {
        match kind {
            EntryKind::File => Ok(FileType::File),
            EntryKind::HardLink => Ok(FileType::HardLink),
            EntryKind::SymbLink => Ok(FileType::SymLink),
            EntryKind::Dir => Ok(FileType::Dir),
            _ => Err(Error::UnexpectedFileType),
        }
    }
}

impl FileMetadata {
    /// The metadata of an index entry. `UnexpectedFileType` where the entry
    /// is a device.
    pub fn from_entry(entry: &IndexEntry) -> (res: Result<FileMetadata, Error>)
        ensures
            match metadata_of(entry@) {
                Some(metadata) => res matches Ok(m) && m@ == metadata,
                None => res == Err::<FileMetadata, Error>(Error::UnexpectedFileType),
            },
    {
        let file_type = match FileType::from_kind(entry.kind) {
            Ok(file_type) => file_type,
            Err(e) => {
                return Err(e);
            },
        };
        Ok(FileMetadata { path: entry.path.as_str().to_owned(), size: entry.size, file_type })
    }

    /// The name of the entry: the last component of its path.
    pub fn name(&self) -> (name: &str)
        ensures
            name@ == name_of(self.path@),
    {
        last_component(self.path.as_str())
    }
}

/// `String::from_utf8`: the text that the bytes encode, if they are valid
/// UTF-8.
#[verifier::external_body]
pub(crate) fn string_from_utf8(bytes: Vec<u8>) -> (text: Option<String>)
    ensures
        text is Some <==> vstd::utf8::valid_utf8(bytes@),
        text matches Some(t) ==> t@ == vstd::utf8::decode_utf8(bytes@),
{
    String::from_utf8(bytes).ok()
}

/// `count` zero bytes.
fn zeroes(count: usize) -> (bytes: Vec<u8>)
    ensures
        bytes@.len() == count,
{
    let mut bytes: Vec<u8> = Vec::new();
    while bytes.len() < count
        invariant
            bytes@.len() <= count,
        decreases count - bytes.len(),
    {
        bytes.push(0);
    }
    bytes
}

/// What reading the whole of an entry yields: the bytes of the image that
/// follow the entry's header, as many as the entry's size says and as the
/// image holds.
pub open spec fn contents(image: Seq<u8>, entry: IndexedEntry) -> Seq<u8> {
    read_bytes(image, entry.position, 0, entry.size as nat)
}

/// What `read` returns for a path: the error of the first step that fails,
/// or the contents of the entry.
pub open spec fn read_result(image: Seq<u8>, entries: Seq<IndexedEntry>, path: Seq<char>) -> Result<
    Seq<u8>,
    Error,
> {
    match canonical(path) {
        None => Err(Error::InvalidPathTraversal),
        Some(canon) => match find(entries, canon) {
            None => Err(Error::NotFound),
            Some(entry) => if metadata_of(entry) is None {
                Err(Error::UnexpectedFileType)
            } else if entry.position + 512 > usize::MAX {
                Err(Error::InvalidInput)
            } else {
                Ok(contents(image, entry))
            },
        },
    }
}

/// A read-only file system.
pub struct FileSystem {
    backend: FsBackendImpl,
}

impl FileSystem {
    /// The bytes of the archive that the file system reads from.
    pub closed spec fn image(self) -> Seq<u8> {
        self.backend.image()
    }

    /// The index of the entries, in the order of their paths.
    pub closed spec fn entries(self) -> Seq<IndexedEntry> {
        self.backend.entries()
    }

    /// The file system of the tar archive in `buffer`.
    ///
    /// Fails with `MountFailed` where the archive does not start with a
    /// header that carries the signature, with `InvalidData` where the
    /// reader cannot list it, and with `InvalidPathTraversal` where the
    /// name of an entry has a `..` component.
    pub fn from_tar(buffer: Vec<u8>) -> (res: Result<FileSystem, Error>)
        ensures
            match res {
                Ok(fs) => {
                    &&& has_magic(buffer@, 0)
                    &&& listable(buffer@, 0)
                    &&& names_canonical(tar_listing(buffer@))
                    &&& fs.image() == buffer@
                    &&& fs.entries() == indexed(tar_listing(buffer@))
                },
                Err(e) => {
                    &&& e == Error::MountFailed || e == Error::InvalidData || e
                        == Error::InvalidPathTraversal
                    &&& e == Error::MountFailed <==> !has_magic(buffer@, 0)
                    &&& e == Error::InvalidData <==> has_magic(buffer@, 0) && !listable(buffer@, 0)
                    &&& e == Error::InvalidPathTraversal ==> !names_canonical(tar_listing(buffer@))
                },
            },
    {
        match FsBackendImpl::from_tar(buffer) {
            Ok(backend) => Ok(FileSystem { backend }),
            Err(e) => Err(e),
        }
    }

    /// The contents of the file at `path`.
    pub fn read(&mut self, path: &str) -> (res: Result<Vec<u8>, Error>)
        ensures
            final(self).image() == old(self).image(),
            final(self).entries() == old(self).entries(),
            match read_result(old(self).image(), old(self).entries(), path@) {
                Ok(bytes) => res matches Ok(b) && b@ == bytes,
                Err(e) => res matches Err(f) && f == e,
            },
    {
        let canon = match CanonPathString::try_from(path) {
            Ok(canon) => canon,
            Err(e) => {
                return Err(e);
            },
        };
        let metadata = match self.backend.file_metadata(&canon) {
            Ok(metadata) => metadata,
            Err(e) => {
                return Err(e);
            },
        };
        let mut buffer = zeroes(metadata.size);
        let ghost image = self.image();
        let ghost entry = find(self.entries(), canon@).unwrap();
        let count = match self.read_into_buffer(&canon, 0, buffer.as_mut_slice()) {
            Ok(count) => count,
            Err(e) => {
                return Err(e);
            },
        };
        buffer.truncate(count);
        assert(buffer@ =~= contents(image, entry));
        Ok(buffer)
    }

    /// The contents of the file at `path` as text. `InvalidData` where they
    /// are not valid UTF-8.
    pub fn read_to_string(&mut self, path: &str) -> (res: Result<String, Error>)
        ensures
            final(self).image() == old(self).image(),
            final(self).entries() == old(self).entries(),
            match text_result(old(self).image(), old(self).entries(), path@) {
                Ok(text) => res matches Ok(t) && t@ == text,
                Err(e) => res matches Err(f) && f == e,
            },
    {
        let bytes = match self.read(path) {
            Ok(bytes) => bytes,
            Err(e) => {
                return Err(e);
            },
        };
        match string_from_utf8(bytes) {
            Some(text) => Ok(text),
            None => Err(Error::InvalidData),
        }
    }

    /// Reads the contents of the file at `path` from byte `position` on into
    /// `buffer`, as many bytes as there are in the archive from there and as
    /// `buffer` has room for, and returns their number.
    pub fn read_into(&mut self, path: &str, position: usize, buffer: &mut [u8]) -> (res: Result<
        usize,
        Error,
    >)
        ensures
            final(self).image() == old(self).image(),
            final(self).entries() == old(self).entries(),
            match canonical(path@) {
                None => res == Err::<usize, Error>(Error::InvalidPathTraversal) && final(buffer)@
                    == old(buffer)@,
                Some(canon) => match find(old(self).entries(), canon) {
                    None => res == Err::<usize, Error>(Error::NotFound) && final(buffer)@ == old(
                        buffer,
                    )@,
                    Some(entry) => if entry.position + 512 + position > usize::MAX {
                        res == Err::<usize, Error>(Error::InvalidInput) && final(buffer)@ == old(
                            buffer,
                        )@
                    } else {
                        &&& res == Ok::<usize, Error>(
                            read_count(
                                old(self).image(),
                                entry.position,
                                position,
                                old(buffer)@.len(),
                            ) as usize,
                        )
                        &&& final(buffer)@ == read_bytes(old(self).image(), entry.position, position, old(buffer)@.len()) + old(buffer)@.subrange(
                            read_count(
                                old(self).image(),
                                entry.position,
                                position,
                                old(buffer)@.len(),
                            ) as int,
                            old(buffer)@.len() as int,
                        )
                    },
                },
            },
    {
        let canon = match CanonPathString::try_from(path) {
            Ok(canon) => canon,
            Err(e) => {
                return Err(e);
            },
        };
        self.read_into_buffer(&canon, position, buffer)
    }

    /// The entries directly inside the directory at `path`, in the order of
    /// their paths. A path that names a file, or nothing, has no entries
    /// inside it.
    pub fn read_dir(&self, path: &str) -> (res: Result<Vec<FileMetadata>, Error>)
        ensures
            match dir_listing(self.entries(), path@) {
                Ok(listing) => res matches Ok(listed) && metadata_views(listed@) == listing,
                Err(e) => res matches Err(f) && f == e,
            },
    {
        let canon = match CanonPathString::try_from(path) {
            Ok(canon) => canon,
            Err(e) => {
                return Err(e);
            },
        };
        let res = self.backend.read_dir(&canon);
        proof {
            if res is Ok {
                assert(metadata_views(res.unwrap()@) =~= dir_listing(
                    self.entries(),
                    path@,
                ).unwrap());
            }
        }
        res
    }

    /// Reads from the entry at a path that is canonical already.
    fn read_into_buffer(&mut self, path: &CanonPathString, position: usize, buffer: &mut [u8]) -> (res:
        Result<usize, Error>)
        ensures
            final(self).image() == old(self).image(),
            final(self).entries() == old(self).entries(),
            match find(old(self).entries(), path@) {
                None => res == Err::<usize, Error>(Error::NotFound) && final(buffer)@ == old(
                    buffer,
                )@,
                Some(entry) => if entry.position + 512 + position > usize::MAX {
                    res == Err::<usize, Error>(Error::InvalidInput) && final(buffer)@ == old(
                        buffer,
                    )@
                } else {
                    &&& res == Ok::<usize, Error>(
                        read_count(
                            old(self).image(),
                            entry.position,
                            position,
                            old(buffer)@.len(),
                        ) as usize,
                    )
                    &&& final(buffer)@ == read_bytes(old(self).image(), entry.position, position, old(buffer)@.len()) + old(buffer)@.subrange(
                        read_count(
                            old(self).image(),
                            entry.position,
                            position,
                            old(buffer)@.len(),
                        ) as int,
                        old(buffer)@.len() as int,
                    )
                },
            },
    {
        self.backend.read_into(path, position, buffer)
    }
}

} // verus!
