//! What a file system can stand on.

pub mod tar;

use vstd::prelude::*;
use crate::filesystem::backends::tar::{children, find, indexed, names_canonical, IndexedEntry, TarBackend};
use crate::filesystem::error::Error;
use crate::filesystem::path::CanonPathString;
use crate::filesystem::tar::{has_magic, listable, read_bytes, read_count, tar_listing};
use crate::filesystem::{all_supported, metadata_of, FileMetadata};

verus! {

/// The backend of a file system.
pub enum FsBackendImpl {
    Tar(TarBackend),
}

impl FsBackendImpl {
    /// The bytes that the backend reads from.
    pub open spec fn image(self) -> Seq<u8> {
        match self {
            FsBackendImpl::Tar(b) => b.image(),
        }
    }

    /// The index of the backend's entries, in the order of their paths.
    pub open spec fn entries(self) -> Seq<IndexedEntry> {
        match self {
            FsBackendImpl::Tar(b) => b.entries(),
        }
    }

    /// A backend over the tar archive in `buffer`: see `TarBackend::new`.
    pub fn from_tar(buffer: Vec<u8>) -> (res: Result<FsBackendImpl, Error>)
        ensures
            match res {
                Ok(backend) => {
                    &&& has_magic(buffer@, 0)
                    &&& listable(buffer@, 0)
                    &&& names_canonical(tar_listing(buffer@))
                    &&& backend.image() == buffer@
                    &&& backend.entries() == indexed(tar_listing(buffer@))
                },
                Err(e) => {
                    &&& e == Error::MountFailed || e == Error::InvalidData || e
                        == Error::InvalidPathTraversal
                    &&& e == Error::MountFailed <==> !has_magic(buffer@, 0)
                    &&& e == Error::InvalidData <==> has_magic(buffer@, 0) && !listable(buffer@, 0)
                    &&& e == Error::InvalidPathTraversal ==> !names_canonical(tar_listing(buffer@))
                },
            },
    {
        match TarBackend::new(buffer) {
            Ok(backend) => Ok(FsBackendImpl::Tar(backend)),
            Err(e) => Err(e),
        }
    }

    /// Reads from the entry at `path`: see `TarBackend::read_into`.
    pub fn read_into(&mut self, path: &CanonPathString, position: usize, buffer: &mut [u8]) -> (res:
        Result<usize, Error>)
        ensures
            final(self).image() == old(self).image(),
            final(self).entries() == old(self).entries(),
            match find(old(self).entries(), path@) {
                None => res == Err::<usize, Error>(Error::NotFound) && final(buffer)@ == old(
                    buffer,
                )@,
                Some(entry) => if entry.position + 512 + position > usize::MAX {
                    res == Err::<usize, Error>(Error::InvalidInput) && final(buffer)@ == old(
                        buffer,
                    )@
                } else {
                    &&& res == Ok::<usize, Error>(
                        read_count(
                            old(self).image(),
                            entry.position,
                            position,
                            old(buffer)@.len(),
                        ) as usize,
                    )
                    &&& final(buffer)@ == read_bytes(old(self).image(), entry.position, position, old(buffer)@.len()) + old(buffer)@.subrange(
                        read_count(
                            old(self).image(),
                            entry.position,
                            position,
                            old(buffer)@.len(),
                        ) as int,
                        old(buffer)@.len() as int,
                    )
                },
            },
    {
        match self {
            FsBackendImpl::Tar(b) => b.read_into(path, position, buffer),
        }
    }

    /// What is known of the entry at `path`: see `TarBackend::file_metadata`.
    pub fn file_metadata(&self, path: &CanonPathString) -> (res: Result<FileMetadata, Error>)
        ensures
            match find(self.entries(), path@) {
                None => res == Err::<FileMetadata, Error>(Error::NotFound),
                Some(entry) => match metadata_of(entry) {
                    None => res == Err::<FileMetadata, Error>(Error::UnexpectedFileType),
                    Some(metadata) => res matches Ok(m) && m@ == metadata,
                },
            },
    {
        match self {
            FsBackendImpl::Tar(b) => b.file_metadata(path),
        }
    }

    /// The entries directly inside the directory at `path`: see
    /// `TarBackend::read_dir`.
    pub fn read_dir(&self, path: &CanonPathString) -> (res: Result<Vec<FileMetadata>, Error>)
        ensures
            match res {
                Ok(listed) => {
                    let found = children(self.entries(), path@, self.entries().len() as int);
                    &&& all_supported(found)
                    &&& listed@.len() == found.len()
                    &&& forall|i: int|
                        0 <= i < listed@.len() ==> Some((#[trigger] listed@[i])@) == metadata_of(
                            found[i],
                        )
                },
                Err(e) => e == Error::UnexpectedFileType && !all_supported(
                    children(self.entries(), path@, self.entries().len() as int),
                ),
            },
    {
        match self {
            FsBackendImpl::Tar(b) => b.read_dir(path),
        }
    }
}

} // verus!
