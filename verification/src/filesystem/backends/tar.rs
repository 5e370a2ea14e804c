//! The tar backend: an index of the archive's entries by canonical path, in
//! the order of the paths, and the reader that their contents come from.
//!
//! Two entries whose names have the same canonical path are one entry: the
//! later one replaces the earlier.

use tarfs::TarFS;
use vstd::prelude::*;
use crate::filesystem::error::Error;
use crate::filesystem::{all_supported, metadata_of, FileMetadata, MetadataView};
use crate::filesystem::path::{
    canonical,
    immediate_child,
    is_immediate_child,
    lemma_precedes_asymmetric,
    lemma_precedes_total,
    lemma_precedes_transitive,
    precedence,
    precedes,
    CanonPathString,
    Precedence,
};
use crate::filesystem::tar::{
    archive_listable,
    has_magic,
    listable,
    magic_at,
    read_bytes,
    read_count,
    tar_image,
    tar_list,
    tar_listing,
    tar_mount,
    tar_read,
    EntryKind,
    ListedEntry,
    RawEntry,
};

verus! {

/// An entry of the index.
pub struct IndexEntry {
    pub path: CanonPathString,
    pub size: usize,
    pub kind: EntryKind,
    /// Offset of the entry's header in the image.
    pub position: usize,
}

/// An entry of the index as plain values.
pub struct IndexedEntry {
    pub path: Seq<char>,
    pub size: usize,
    pub kind: EntryKind,
    pub position: usize,
}

impl View for IndexEntry {
    type V = IndexedEntry;

    open spec fn view(&self) -> IndexedEntry {
        IndexedEntry { path: self.path@, size: self.size, kind: self.kind, position: self.position }
    }
}

/// The entries as plain values.
pub open spec fn views(entries: Seq<IndexEntry>) -> Seq<IndexedEntry> {
    Seq::new(entries.len(), |i: int| entries[i]@)
}

/// Index of the first entry, from `i` on, whose path does not come before
/// `path`.
pub open spec fn rank_from(entries: Seq<IndexedEntry>, path: Seq<char>, i: int) -> int
    decreases entries.len() - i,
{
    if 0 <= i < entries.len() && precedes(entries[i].path, path) {
        rank_from(entries, path, i + 1)
    } else {
        i
    }
}

/// The index with `entry` put in: in place of the entry of the same path,
/// or, where there is none, before the first entry whose path comes after.
pub open spec fn inserted(entries: Seq<IndexedEntry>, entry: IndexedEntry) -> Seq<IndexedEntry> {
    let i = rank_from(entries, entry.path, 0);
    if i < entries.len() && entries[i].path == entry.path {
        entries.update(i, entry)
    } else {
        entries.insert(i, entry)
    }
}

/// Whether the names of all listed entries have a canonical form.
pub open spec fn names_canonical(listing: Seq<ListedEntry>) -> bool {
    forall|i: int| 0 <= i < listing.len() ==> canonical(#[trigger] listing[i].name) is Some
}

/// The index of a listing: its entries put in one after the other, each
/// under the canonical form of its name.
pub open spec fn indexed(listing: Seq<ListedEntry>) -> Seq<IndexedEntry>
    decreases listing.len(),
{
    if listing.len() == 0 {
        Seq::empty()
    } else {
        let e = listing.last();
        inserted(
            indexed(listing.drop_last()),
            IndexedEntry {
                path: canonical(e.name).unwrap(),
                size: e.size,
                kind: e.kind,
                position: e.position,
            },
        )
    }
}

/// Index of the first entry with the given path, from `i` on; the length of
/// the index where there is none.
pub open spec fn find_from(entries: Seq<IndexedEntry>, path: Seq<char>, i: int) -> int
    decreases entries.len() - i,
{
    if 0 <= i < entries.len() && entries[i].path != path {
        find_from(entries, path, i + 1)
    } else {
        i
    }
}

/// The entry with the given path, if there is one.
pub open spec fn find(entries: Seq<IndexedEntry>, path: Seq<char>) -> Option<IndexedEntry> {
    let i = find_from(entries, path, 0);
    if 0 <= i < entries.len() {
        Some(entries[i])
    } else {
        None
    }
}

/// The entries among the first `n` that lie directly inside the directory
/// `dir`, in their order.
pub open spec fn children(entries: Seq<IndexedEntry>, dir: Seq<char>, n: int) -> Seq<IndexedEntry>
    decreases n,
{
    if n <= 0 {
        Seq::empty()
    } else if immediate_child(dir, entries[n - 1].path) {
        children(entries, dir, n - 1).push(entries[n - 1])
    } else {
        children(entries, dir, n - 1)
    }
}

/// The paths of the index stand in order: each comes before all that follow.
pub open spec fn paths_in_order(entries: Seq<IndexedEntry>) -> bool {
    forall|i: int, j: int|
        0 <= i < j < entries.len() ==> precedes(
            (#[trigger] entries[i]).path,
            (#[trigger] entries[j]).path,
        )
}

/// The index of an archive together with the reader of its contents.
pub struct TarBackend {
    tarfs: TarFS,
    entries: Vec<IndexEntry>,
}

/// Puts `entry` into the index: see `inserted`.
fn insert_entry(entries: &mut Vec<IndexEntry>, entry: IndexEntry)
    ensures
        views(final(entries)@) == inserted(views(old(entries)@), entry@),
{
    let ghost before = views(entries@);
    let mut i: usize = 0;
    while i < entries.len()
        invariant
            entries@ == old(entries)@,
            before == views(entries@),
            i <= entries.len(),
            rank_from(before, entry@.path, 0) == rank_from(before, entry@.path, i as int),
        decreases entries.len() - i,
    {
        assert(before[i as int] == entries@[i as int]@);
        match precedence(entries[i].path.as_str(), entry.path.as_str()) {
            Precedence::Before => {},
            Precedence::Same => {
                proof {
                    crate::filesystem::path::lemma_precedes_asymmetric(
                        before[i as int].path,
                        entry@.path,
                    );
                }
                let ghost e = entry@;
                entries.set(i, entry);
                assert(views(entries@) =~= before.update(i as int, e));
                return ;
            },
            Precedence::After => {
                proof {
                    crate::filesystem::path::lemma_precedes_asymmetric(
                        before[i as int].path,
                        entry@.path,
                    );
                }
                let ghost e = entry@;
                entries.insert(i, entry);
                assert(views(entries@) =~= before.insert(i as int, e));
                return ;
            },
        }
        i = i + 1;
    }
    let ghost e = entry@;
    entries.push(entry);
    assert(views(entries@) =~= before.insert(i as int, e));
}

impl TarBackend {
    /// The bytes of the archive.
    pub closed spec fn image(self) -> Seq<u8> {
        tar_image(self.tarfs)
    }

    /// The index, in the order of the paths.
    pub closed spec fn entries(self) -> Seq<IndexedEntry> {
        views(self.entries@)
    }

    /// Opens the archive in `buffer` and indexes its entries.
    ///
    /// Fails with `MountFailed` where the archive does not start with a
    /// header that carries the signature, with `InvalidData` where the
    /// reader cannot list it, and with `InvalidPathTraversal` where the
    /// name of an entry has a `..` component.
    pub fn new(buffer: Vec<u8>) -> (res: Result<TarBackend, Error>)
        ensures
            match res {
                Ok(backend) => {
                    &&& has_magic(buffer@, 0)
                    &&& listable(buffer@, 0)
                    &&& names_canonical(tar_listing(buffer@))
                    &&& backend.image() == buffer@
                    &&& backend.entries() == indexed(tar_listing(buffer@))
                },
                Err(e) => {
                    &&& e == Error::MountFailed || e == Error::InvalidData || e
                        == Error::InvalidPathTraversal
                    &&& e == Error::MountFailed <==> !has_magic(buffer@, 0)
                    &&& e == Error::InvalidData <==> has_magic(buffer@, 0) && !listable(buffer@, 0)
                    &&& e == Error::InvalidPathTraversal ==> !names_canonical(tar_listing(buffer@))
                },
            },
    {
        if !magic_at(&buffer, 0) {
            return Err(Error::MountFailed);
        }
        if !archive_listable(&buffer) {
            return Err(Error::InvalidData);
        }
        let ghost image = buffer@;
        let mut tarfs = match tar_mount(buffer) {
            Some(tarfs) => tarfs,
            None => {
                return Err(Error::MountFailed);
            },
        };
        let listed = tar_list(&mut tarfs);
        let ghost listing = tar_listing(image);
        let mut entries: Vec<IndexEntry> = Vec::new();
        let mut i: usize = 0;
        assert(listing.subrange(0, 0) =~= Seq::<ListedEntry>::empty());
        assert(views(entries@) =~= Seq::<IndexedEntry>::empty());
        while i < listed.len()
            invariant
                i <= listed.len(),
                image == buffer@,
                has_magic(image, 0),
                listable(image, 0),
                listing == tar_listing(image),
                listed@.len() == listing.len(),
                forall|j: int| 0 <= j < listed@.len() ==> (#[trigger] listed@[j])@ == listing[j],
                names_canonical(listing.subrange(0, i as int)),
                views(entries@) == indexed(listing.subrange(0, i as int)),
            decreases listed.len() - i,
        {
            let ghost done = listing.subrange(0, i as int);
            let ghost more = listing.subrange(0, i as int + 1);
            assert(more.drop_last() =~= done);
            assert(more.last() == listing[i as int]);
            assert(listed@[i as int]@ == listing[i as int]);
            let path = match CanonPathString::try_from(listed[i].name.as_str()) {
                Ok(path) => path,
                Err(e) => {
                    assert(canonical(listing[i as int].name) is None);
                    return Err(e);
                },
            };
            let entry = IndexEntry {
                path,
                size: listed[i].size,
                kind: listed[i].kind,
                position: listed[i].position,
            };
            insert_entry(&mut entries, entry);
            assert forall|j: int| 0 <= j < more.len() implies canonical(
                #[trigger] more[j].name,
            ) is Some by {
                if j < i {
                    assert(more[j] == done[j]);
                }
            }
            i = i + 1;
        }
        assert(listing.subrange(0, i as int) =~= listing);
        Ok(TarBackend { tarfs, entries })
    }

    /// Position of the entry with the given path in the index.
    fn position_of(&self, path: &CanonPathString) -> (at: Option<usize>)
        ensures
            match at {
                Some(i) => i < self.entries().len() && find(self.entries(), path@) == Some(
                    self.entries()[i as int],
                ) && self.entries()[i as int] == self.entries@[i as int]@,
                None => find(self.entries(), path@) is None,
            },
    {
        let ghost all = views(self.entries@);
        let mut i: usize = 0;
        while i < self.entries.len()
            invariant
                i <= self.entries.len(),
                all == views(self.entries@),
                find_from(all, path@, 0) == find_from(all, path@, i as int),
            decreases self.entries.len() - i,
        {
            assert(all[i as int] == self.entries@[i as int]@);
            match precedence(self.entries[i].path.as_str(), path.as_str()) {
                Precedence::Same => {
                    return Some(i);
                },
                Precedence::Before => {
                    proof {
                        crate::filesystem::path::lemma_precedes_asymmetric(
                            all[i as int].path,
                            path@,
                        );
                    }
                },
                Precedence::After => {
                    proof {
                        crate::filesystem::path::lemma_precedes_asymmetric(
                            all[i as int].path,
                            path@,
                        );
                    }
                },
            }
            i = i + 1;
        }
        None
    }

    /// The entry with the given path. `NotFound` where there is none.
    pub fn entry(&self, path: &CanonPathString) -> (res: Result<&IndexEntry, Error>)
        ensures
            match res {
                Ok(entry) => find(self.entries(), path@) == Some(entry@),
                Err(e) => e == Error::NotFound && find(self.entries(), path@) is None,
            },
    {
        match self.position_of(path) {
            Some(i) => Ok(&self.entries[i]),
            None => Err(Error::NotFound),
        }
    }

    /// Reads the contents of the entry at `path` from byte `position` on into
    /// `buffer`, as many bytes as there are in the archive from there and as
    /// `buffer` has room for, and returns their number.
    ///
    /// `NotFound` where there is no such entry, `InvalidInput` where the
    /// place to read from lies beyond the address space.
    pub fn read_into(&mut self, path: &CanonPathString, position: usize, buffer: &mut [u8]) -> (res:
        Result<usize, Error>)
        ensures
            final(self).image() == old(self).image(),
            final(self).entries() == old(self).entries(),
            match find(old(self).entries(), path@) {
                None => res == Err::<usize, Error>(Error::NotFound) && final(buffer)@ == old(
                    buffer,
                )@,
                Some(entry) => if entry.position + 512 + position > usize::MAX {
                    res == Err::<usize, Error>(Error::InvalidInput) && final(buffer)@ == old(
                        buffer,
                    )@
                } else {
                    &&& res == Ok::<usize, Error>(
                        read_count(
                            old(self).image(),
                            entry.position,
                            position,
                            old(buffer)@.len(),
                        ) as usize,
                    )
                    &&& final(buffer)@ == read_bytes(old(self).image(), entry.position, position, old(buffer)@.len()) + old(buffer)@.subrange(
                        read_count(
                            old(self).image(),
                            entry.position,
                            position,
                            old(buffer)@.len(),
                        ) as int,
                        old(buffer)@.len() as int,
                    )
                },
            },
    {
        let at = match self.position_of(path) {
            Some(i) => self.entries[i].position,
            None => {
                return Err(Error::NotFound);
            },
        };
        if at > usize::MAX - 512 || position > usize::MAX - 512 - at {
            return Err(Error::InvalidInput);
        }
        Ok(tar_read(&mut self.tarfs, at, position, buffer))
    }

    /// What the index says of the entry at `path`. `NotFound` where there is
    /// no such entry, `UnexpectedFileType` where it is a device.
    pub fn file_metadata(&self, path: &CanonPathString) -> (res: Result<FileMetadata, Error>)
        ensures
            match find(self.entries(), path@) {
                None => res == Err::<FileMetadata, Error>(Error::NotFound),
                Some(entry) => match metadata_of(entry) {
                    None => res == Err::<FileMetadata, Error>(Error::UnexpectedFileType),
                    Some(metadata) => res matches Ok(m) && m@ == metadata,
                },
            },
    {
        match self.entry(path) {
            Ok(entry) => FileMetadata::from_entry(entry),
            Err(e) => Err(e),
        }
    }

    /// What the index says of the entries directly inside the directory at
    /// `path`, in the order of their paths. `UnexpectedFileType` where one
    /// of them is a device.
    pub fn read_dir(&self, path: &CanonPathString) -> (res: Result<Vec<FileMetadata>, Error>)
        ensures
            match res {
                Ok(listed) => {
                    let found = children(self.entries(), path@, self.entries().len() as int);
                    &&& all_supported(found)
                    &&& listed@.len() == found.len()
                    &&& forall|i: int|
                        0 <= i < listed@.len() ==> Some((#[trigger] listed@[i])@) == metadata_of(
                            found[i],
                        )
                },
                Err(e) => e == Error::UnexpectedFileType && !all_supported(
                    children(self.entries(), path@, self.entries().len() as int),
                ),
            },
    {
        let found = self.children_of(path);
        let ghost expected = children(self.entries(), path@, self.entries().len() as int);
        let mut listed: Vec<FileMetadata> = Vec::new();
        let mut i: usize = 0;
        while i < found.len()
            invariant
                i <= found.len(),
                found@.len() == expected.len(),
                forall|j: int| 0 <= j < found@.len() ==> (#[trigger] found@[j])@ == expected[j],
                expected == children(self.entries(), path@, self.entries().len() as int),
                listed@.len() == i,
                forall|j: int| 0 <= j < i ==> metadata_of(#[trigger] expected[j]) is Some,
                forall|j: int|
                    0 <= j < i ==> Some((#[trigger] listed@[j])@) == metadata_of(expected[j]),
            decreases found.len() - i,
        {
            assert(found@[i as int]@ == expected[i as int]);
            match FileMetadata::from_entry(found[i]) {
                Ok(metadata) => {
                    listed.push(metadata);
                },
                Err(e) => {
                    assert(metadata_of(expected[i as int]) is None);
                    return Err(e);
                },
            }
            i = i + 1;
        }
        Ok(listed)
    }

    /// The entries that lie directly inside the directory at `path`, in the
    /// order of their paths.
    pub fn children_of(&self, path: &CanonPathString) -> (found: Vec<&IndexEntry>)
        ensures
            found@.len() == children(self.entries(), path@, self.entries().len() as int).len(),
            forall|i: int|
                0 <= i < found@.len() ==> (#[trigger] found@[i])@ == children(
                    self.entries(),
                    path@,
                    self.entries().len() as int,
                )[i],
    {
        let ghost all = views(self.entries@);
        let mut found: Vec<&IndexEntry> = Vec::new();
        let mut i: usize = 0;
        while i < self.entries.len()
            invariant
                i <= self.entries.len(),
                all == views(self.entries@),
                found@.len() == children(all, path@, i as int).len(),
                forall|j: int|
                    0 <= j < found@.len() ==> (#[trigger] found@[j])@ == children(
                        all,
                        path@,
                        i as int,
                    )[j],
            decreases self.entries.len() - i,
        {
            assert(all[i as int] == self.entries@[i as int]@);
            if is_immediate_child(path.as_str(), self.entries[i].path.as_str()) {
                found.push(&self.entries[i]);
            }
            i = i + 1;
        }
        found
    }
}

/// Where the search for the place of a path ends: every entry before it
/// comes before the path, and the entry there, if there is one, does not.
proof fn lemma_rank(entries: Seq<IndexedEntry>, path: Seq<char>, i: int)
    requires
        0 <= i <= entries.len(),
    ensures
        ({
            let r = rank_from(entries, path, i);
            &&& i <= r <= entries.len()
            &&& forall|j: int| i <= j < r ==> precedes(#[trigger] entries[j].path, path)
            &&& r < entries.len() ==> !precedes(entries[r].path, path)
        }),
    decreases entries.len() - i,
{
    if i < entries.len() && precedes(entries[i].path, path) {
        lemma_rank(entries, path, i + 1);
    }
}

/// In an index whose paths stand in order, the entries from the place of a
/// path on come after the path, but for one of that very path at the place
/// itself.
proof fn lemma_after_rank(entries: Seq<IndexedEntry>, path: Seq<char>, j: int)
    requires
        paths_in_order(entries),
        rank_from(entries, path, 0) <= j < entries.len(),
        j > rank_from(entries, path, 0) || entries[j].path != path,
    ensures
        precedes(path, entries[j].path),
{
    let r = rank_from(entries, path, 0);
    lemma_rank(entries, path, 0);
    lemma_precedes_total(entries[r].path, path);
    if j > r {
        assert(precedes(entries[r].path, entries[j].path));
        if entries[r].path != path {
            lemma_precedes_transitive(path, entries[r].path, entries[j].path);
        }
    }
}

/// Putting an entry into an index whose paths stand in order leaves them in
/// order: no path occurs twice.
pub proof fn lemma_inserted_in_order(entries: Seq<IndexedEntry>, entry: IndexedEntry)
    requires
        paths_in_order(entries),
    ensures
        paths_in_order(inserted(entries, entry)),
{
    let r = rank_from(entries, entry.path, 0);
    let after = inserted(entries, entry);
    lemma_rank(entries, entry.path, 0);
    if r < entries.len() && entries[r].path == entry.path {
        assert forall|i: int, j: int| 0 <= i < j < after.len() implies precedes(
            (#[trigger] after[i]).path,
            (#[trigger] after[j]).path,
        ) by {
            assert(precedes(entries[i].path, entries[j].path));
        }
    } else {
        entries.insert_ensures(r, entry);
        assert forall|i: int, j: int| 0 <= i < j < after.len() implies precedes(
            (#[trigger] after[i]).path,
            (#[trigger] after[j]).path,
        ) by {
            let si = if i > r { i - 1 } else { i };
            let sj = if j > r { j - 1 } else { j };
            if i != r {
                assert(after[i] == entries[si]);
            }
            if j != r {
                assert(after[j] == entries[sj]);
            }
            if i != r && j != r {
                assert(precedes(entries[si].path, entries[sj].path));
            } else if i == r {
                lemma_after_rank(entries, entry.path, sj);
            } else {
                assert(precedes(entries[si].path, entry.path));
            }
        }
    }
}

/// The paths of the index of a listing stand in order.
pub proof fn lemma_indexed_in_order(listing: Seq<ListedEntry>)
    ensures
        paths_in_order(indexed(listing)),
    decreases listing.len(),
{
    if listing.len() > 0 {
        lemma_indexed_in_order(listing.drop_last());
        let e = listing.last();
        lemma_inserted_in_order(
            indexed(listing.drop_last()),
            IndexedEntry {
                path: canonical(e.name).unwrap(),
                size: e.size,
                kind: e.kind,
                position: e.position,
            },
        );
    }
}

/// Where the search for a path ends: at the first entry of that path.
proof fn lemma_find(entries: Seq<IndexedEntry>, path: Seq<char>, i: int)
    requires
        0 <= i <= entries.len(),
    ensures
        ({
            let f = find_from(entries, path, i);
            &&& i <= f <= entries.len()
            &&& forall|j: int| i <= j < f ==> (#[trigger] entries[j]).path != path
            &&& f < entries.len() ==> entries[f].path == path
        }),
    decreases entries.len() - i,
{
    if i < entries.len() && entries[i].path != path {
        lemma_find(entries, path, i + 1);
    }
}

/// An index whose paths stand in order works as a map from paths to
/// entries: after an entry was put in, its path finds it, and every other
/// path finds what it found before.
#[verifier::rlimit(30)]
pub proof fn lemma_inserted_find(entries: Seq<IndexedEntry>, entry: IndexedEntry, path: Seq<char>)
    requires
        paths_in_order(entries),
    ensures
        find(inserted(entries, entry), path) == if path == entry.path {
            Some(entry)
        } else {
            find(entries, path)
        },
{
    let r = rank_from(entries, entry.path, 0);
    let after = inserted(entries, entry);
    let replaces = r < entries.len() && entries[r].path == entry.path;
    lemma_rank(entries, entry.path, 0);
    lemma_inserted_in_order(entries, entry);
    lemma_find(entries, path, 0);
    lemma_find(after, path, 0);
    let f = find_from(entries, path, 0);
    let g = find_from(after, path, 0);
    if !replaces {
        entries.insert_ensures(r, entry);
    }
    // Where an entry of the old index stands in the new one, and back.
    assert forall|j: int| 0 <= j < entries.len() && !(replaces && j == r) implies ({
        let k = if !replaces && j >= r { j + 1 } else { j };
        0 <= k < after.len() && after[k] == #[trigger] entries[j]
    }) by {}
    assert(after[r] == entry);
    // No path occurs twice in either index.
    assert forall|i: int, j: int| 0 <= i < j < after.len() implies (#[trigger] after[i]).path != (
    #[trigger] after[j]).path by {
        lemma_precedes_asymmetric(after[i].path, after[j].path);
    }
    assert forall|i: int, j: int| 0 <= i < j < entries.len() implies (#[trigger] entries[i]).path
        != (#[trigger] entries[j]).path by {
        lemma_precedes_asymmetric(entries[i].path, entries[j].path);
    }
    if path == entry.path {
        if g < after.len() && g != r {
            assert(after[g].path == after[r].path);
        }
        assert(g == r);
    } else if f < entries.len() {
        let k = if !replaces && f >= r { f + 1 } else { f };
        assert(after[k] == entries[f]);
        if g < after.len() && g != k {
            assert(after[g].path == after[k].path);
        }
        if g == after.len() {
            assert(after[k].path != path);
        }
        assert(g == k);
    } else {
        if g < after.len() {
            if g == r {
                assert(after[g].path == entry.path);
            } else {
                let j = if !replaces && g > r { g - 1 } else { g };
                assert(after[g] == entries[j]);
                assert(entries[j].path != path);
            }
        }
    }
}

} // verus!
