//! The archive reader that the file system stands on.
//!
//! Reading the archive is the work of the `tarfs` crate, which walks the
//! chain of 512-byte headers of a tar image. It gives up on a header whose
//! size field or type byte it cannot make sense of, so an image is checked
//! here before it is handed over: `listable` says which images the reader
//! can list, and `archive_listable` decides it.

use no_std_io::io::Cursor;
use no_std_io::io::Error as IoError;
use no_std_io::io::SeekFrom;
use tarfs::Entity;
use tarfs::TarFS;
use tarfs::Type;
use vstd::prelude::*;
use crate::filesystem::error::Error;

verus! {

/// `tarfs::TarFS`: the reader of an archive. Nothing of its inside is known.
#[verifier::external_type_specification]
#[verifier::external_body]
pub struct ExTarFS(TarFS);

/// `no_std_io::io::Cursor`: a buffer with a position to read from.
#[verifier::external_type_specification]
#[verifier::external_body]
#[verifier::reject_recursive_types(T)]
pub struct ExCursor<T>(Cursor<T>);

/// `no_std_io::io::Error`: why a device could not be read.
#[verifier::external_type_specification]
#[verifier::external_body]
pub struct ExIoError(IoError);

/// `no_std_io::io::SeekFrom`: a position to move a device to.
#[verifier::external_type_specification]
#[verifier::external_body]
pub struct ExSeekFrom(SeekFrom);

/// What kind of thing an archive entry is.
#[derive(Clone, Copy, Debug, PartialEq, Eq, Structural)]
pub enum EntryKind {
    File,
    HardLink,
    SymbLink,
    ChrDev,
    BlkDev,
    Dir,
}

/// An entry of the archive as the reader lists it.
pub struct RawEntry {
    /// The name as it stands in the header.
    pub name: String,
    /// Size of the contents in bytes.
    pub size: usize,
    pub kind: EntryKind,
    /// Offset of the entry's header in the image.
    pub position: usize,
}

/// A listed entry as plain values.
pub struct ListedEntry {
    pub name: Seq<char>,
    pub size: usize,
    pub kind: EntryKind,
    pub position: usize,
}

impl View for RawEntry {
    type V = ListedEntry;

    open spec fn view(&self) -> ListedEntry {
        ListedEntry { name: self.name@, size: self.size, kind: self.kind, position: self.position }
    }
}

/// The archive as a device for the reader: a cursor over its bytes.
pub struct TarFsDevice {
    cursor: Cursor<Vec<u8>>,
}

impl no_std_io::io::Read for TarFsDevice {
    /// `no_std_io::io::Cursor::read`: the device reads from its cursor.
    #[verifier::external_body]
    fn read(&mut self, buf: &mut [u8]) -> (res: Result<usize, IoError>) {
        self.cursor.read(buf)
    }
}

impl no_std_io::io::Seek for TarFsDevice {
    /// `no_std_io::io::Cursor::seek`: the device moves its cursor.
    #[verifier::external_body]
    fn seek(&mut self, pos: SeekFrom) -> (res: Result<u64, IoError>) {
        self.cursor.seek(pos)
    }
}

impl tarfs::Device for TarFsDevice {

}

/// The bytes of the image that a reader reads from.
pub uninterp spec fn tar_image(fs: TarFS) -> Seq<u8>;

/// The entries that the reader lists for an image, in the order of their
/// headers.
pub uninterp spec fn tar_listing(image: Seq<u8>) -> Seq<ListedEntry>;

/// Byte `i` of the header read at `pos`: a header is 512 bytes, and what lies
/// beyond the end of the image reads as zero.
pub open spec fn header_byte(image: Seq<u8>, pos: int, i: int) -> u8 {
    if 0 <= pos + i < image.len() {
        image[pos + i]
    } else {
        0
    }
}

/// Whether the header at `pos` carries the signature `ustar`.
pub open spec fn has_magic(image: Seq<u8>, pos: int) -> bool {
    &&& header_byte(image, pos, 257) == 117
    &&& header_byte(image, pos, 258) == 115
    &&& header_byte(image, pos, 259) == 116
    &&& header_byte(image, pos, 260) == 97
    &&& header_byte(image, pos, 261) == 114
}

/// An ASCII digit of base eight.
pub open spec fn is_octal_digit(b: u8) -> bool {
    48 <= b <= 55
}

/// Number of octal digits that the size field of the header at `pos` starts
/// with, among its first `i` bytes.
pub open spec fn leading_digits(image: Seq<u8>, pos: int, i: nat) -> nat
    decreases i,
{
    if i == 0 {
        0
    } else {
        let before = leading_digits(image, pos, (i - 1) as nat);
        if before == i - 1 && is_octal_digit(header_byte(image, pos, 124 + i - 1)) {
            i
        } else {
            before
        }
    }
}

/// The number that the first `k` bytes of the size field spell in base eight.
pub open spec fn field_value(image: Seq<u8>, pos: int, k: nat) -> nat
    decreases k,
{
    if k == 0 {
        0
    } else {
        (field_value(image, pos, (k - 1) as nat) * 8 + (header_byte(image, pos, 124 + k - 1)
            - 48)) as nat
    }
}

/// The size field of the header at `pos` is octal digits followed by
/// nothing but zero bytes.
pub open spec fn size_field_ok(image: Seq<u8>, pos: int) -> bool {
    forall|i: int|
        leading_digits(image, pos, 12) <= i < 12 ==> #[trigger] header_byte(image, pos, 124 + i)
            == 0
}

/// The size that the header at `pos` gives.
pub open spec fn entry_size(image: Seq<u8>, pos: int) -> nat {
    field_value(image, pos, leading_digits(image, pos, 12))
}

/// The type byte of the header at `pos` is one that the reader knows.
pub open spec fn type_ok(image: Seq<u8>, pos: int) -> bool {
    48 <= header_byte(image, pos, 156) <= 53
}

/// A size rounded up to whole blocks of 512 bytes.
pub open spec fn padded(size: nat) -> nat {
    if size % 512 == 0 {
        size
    } else {
        (size + 512 - size % 512) as nat
    }
}

/// Whether the reader can list the image from the header at `pos` on: every
/// header up to the first without signature has a size field and a type
/// byte that it understands, and the offsets stay in range.
pub open spec fn listable(image: Seq<u8>, pos: nat) -> bool
    decreases
            (if pos < image.len() {
                image.len() - pos
            } else {
                0
            }),
{
    if !has_magic(image, pos as int) {
        true
    } else if !(size_field_ok(image, pos as int) && type_ok(image, pos as int) && pos + entry_size(
        image,
        pos as int,
    ) + 1024 <= usize::MAX) {
        false
    } else {
        listable(image, pos + 512 + padded(entry_size(image, pos as int)))
    }
}

/// Where the contents of an entry start that is read from `offset` on.
pub open spec fn read_start(position: usize, offset: usize) -> int {
    position + 512 + offset
}

/// Number of bytes that a read into a buffer of `room` bytes yields.
pub open spec fn read_count(image: Seq<u8>, position: usize, offset: usize, room: nat) -> nat {
    let from = read_start(position, offset);
    if from >= image.len() {
        0
    } else if image.len() - from < room {
        (image.len() - from) as nat
    } else {
        room
    }
}

/// The bytes that a read into a buffer of `room` bytes yields.
pub open spec fn read_bytes(image: Seq<u8>, position: usize, offset: usize, room: nat) -> Seq<u8> {
    let from = read_start(position, offset);
    if from >= image.len() {
        Seq::empty()
    } else {
        image.subrange(from, from + read_count(image, position, offset, room))
    }
}

/// `tarfs::TarFS::from_device` on a cursor over `image`: the reader comes
/// about exactly if the first header carries the signature, and reads from
/// `image` from then on.
#[verifier::external_body]
pub(crate) fn tar_mount(image: Vec<u8>) -> (fs: Option<TarFS>)
    ensures
        fs is Some <==> has_magic(image@, 0),
        fs matches Some(f) ==> tar_image(f) == image@,
{
    TarFS::from_device(TarFsDevice { cursor: Cursor::new(image) })
}

/// A reader for the archive in `buffer`. `MountFailed` where the archive
/// does not start with a header that carries the signature.
pub fn create_tar_fs(buffer: Vec<u8>) -> (res: Result<TarFS, Error>)
    ensures
        match res {
            Ok(fs) => has_magic(buffer@, 0) && tar_image(fs) == buffer@,
            Err(e) => e == Error::MountFailed && !has_magic(buffer@, 0),
        },
{
    match tar_mount(buffer) {
        Some(fs) => Ok(fs),
        None => Err(Error::MountFailed),
    }
}

/// `tarfs::TarFS::list`, run to its end: the entries of the image in the
/// order of their headers, each with its fields as they are and its type
/// by the name that it has here. The reader panics on a size field that is
/// no octal number and on a type byte that it does not know, which
/// `listable` rules out. The device is a cursor over memory and never
/// fails.
#[verifier::external_body]
pub(crate) fn tar_list(fs: &mut TarFS) -> (entries: Vec<RawEntry>)
    requires
        listable(tar_image(*old(fs)), 0),
    ensures
        tar_image(*final(fs)) == tar_image(*old(fs)),
        entries@.len() == tar_listing(tar_image(*old(fs))).len(),
        forall|i: int|
            0 <= i < entries@.len() ==> (#[trigger] entries@[i])@ == tar_listing(
                tar_image(*old(fs)),
            )[i],
{
    fs.list().filter_map(|e| e.ok()).map(
        |e| {
            let kind = match e._type {
                Type::File => EntryKind::File,
                Type::HardLink => EntryKind::HardLink,
                Type::SymbLink => EntryKind::SymbLink,
                Type::ChrDev => EntryKind::ChrDev,
                Type::BlkDev => EntryKind::BlkDev,
                Type::Dir => EntryKind::Dir,
            };
            RawEntry { name: e.name, size: e.size, kind, position: e.position }
        },
    ).collect()
}

/// `tarfs::TarFS::read_file_by_entity` for the entry whose header stands at
/// `position`: copies the bytes of the image from `position + 512 + offset`
/// on into `output`, as many as there are and as `output` has room for, and
/// returns their number. The rest of `output` stays as it is.
#[verifier::external_body]
pub(crate) fn tar_read(fs: &mut TarFS, position: usize, offset: usize, output: &mut [u8]) -> (count: usize)
    requires
        position + 512 + offset <= usize::MAX,
    ensures
        tar_image(*final(fs)) == tar_image(*old(fs)),
        count == read_count(tar_image(*old(fs)), position, offset, old(output)@.len()),
        final(output)@ == read_bytes(tar_image(*old(fs)), position, offset, old(output)@.len())
            + old(output)@.subrange(count as int, old(output)@.len() as int),
{
    let entity = Entity { name: String::new(), size: 0, _type: Type::File, position };
    fs.read_file_by_entity(&entity, offset, output).unwrap_or(0)
}

/// `8` to the power of `k`.
spec fn pow8(k: nat) -> nat
    decreases k,
{
    if k == 0 {
        1
    } else {
        8 * pow8((k - 1) as nat)
    }
}

proof fn lemma_pow8_bound(k: nat)
    requires
        k <= 12,
    ensures
        pow8(k) <= 0x10_0000_0000,
{
    reveal_with_fuel(pow8, 13);
}

/// Once a byte of the size field is no digit, the digits have ended.
proof fn lemma_digits_end(image: Seq<u8>, pos: int, k: nat, i: nat)
    requires
        leading_digits(image, pos, k) == k,
        k < i,
        !is_octal_digit(header_byte(image, pos, 124 + k as int)),
    ensures
        leading_digits(image, pos, i) == k,
    decreases i,
{
    if i > k + 1 {
        lemma_digits_end(image, pos, k, (i - 1) as nat);
    }
}

/// Byte `i` of the header read at `pos`.
fn byte_at(image: &Vec<u8>, pos: usize, i: usize) -> (b: u8)
    requires
        i < 512,
    ensures
        b == header_byte(image@, pos as int, i as int),
{
    if pos < image.len() && i < image.len() - pos {
        image[pos + i]
    } else {
        0
    }
}

/// Whether the header at `pos` carries the signature `ustar`.
pub fn magic_at(image: &Vec<u8>, pos: usize) -> (found: bool)
    ensures
        found == has_magic(image@, pos as int),
{
    byte_at(image, pos, 257) == 117 && byte_at(image, pos, 258) == 115 && byte_at(image, pos, 259)
        == 116 && byte_at(image, pos, 260) == 97 && byte_at(image, pos, 261) == 114
}

/// The size that the header at `pos` gives, if its size field is well formed.
fn size_at(image: &Vec<u8>, pos: usize) -> (size: Option<u64>)
    ensures
        size is Some <==> size_field_ok(image@, pos as int),
        size matches Some(s) ==> s == entry_size(image@, pos as int) && s < 0x10_0000_0000,
{
    let mut k: usize = 0;
    let mut value: u64 = 0;
    while k < 12 && byte_at(image, pos, 124 + k) >= 48 && byte_at(image, pos, 124 + k) <= 55
        invariant
            k <= 12,
            leading_digits(image@, pos as int, k as nat) == k,
            value == field_value(image@, pos as int, k as nat),
            value < pow8(k as nat),
        decreases 12 - k,
    {
        proof {
            lemma_pow8_bound(k as nat);
        }
        value = value * 8 + (byte_at(image, pos, 124 + k) - 48) as u64;
        k = k + 1;
    }
    proof {
        lemma_pow8_bound(k as nat);
        if k < 12 {
            lemma_digits_end(image@, pos as int, k as nat, 12);
        }
    }
    let digits = k;
    while k < 12
        invariant
            digits <= k <= 12,
            leading_digits(image@, pos as int, 12) == digits,
            forall|i: int| digits <= i < k ==> #[trigger] header_byte(image@, pos as int, 124 + i) == 0,
        decreases 12 - k,
    {
        if byte_at(image, pos, 124 + k) != 0 {
            return None;
        }
        k = k + 1;
    }
    Some(value)
}

/// Whether the reader can list the image: see `listable`.
pub fn archive_listable(image: &Vec<u8>) -> (ok: bool)
    ensures
        ok == listable(image@, 0),
{
    let mut pos: usize = 0;
    loop
        invariant
            listable(image@, 0) == listable(image@, pos as nat),
        decreases
                (if pos < image.len() {
                    image.len() - pos
                } else {
                    0
                }),
    {
        if !magic_at(image, pos) {
            return true;
        }
        assert(pos + 261 < image.len());
        let size = match size_at(image, pos) {
            Some(size) => size,
            None => {
                return false;
            },
        };
        let kind = byte_at(image, pos, 156);
        if kind < 48 || kind > 53 {
            return false;
        }
        if pos > usize::MAX - 1024 || size > (usize::MAX - 1024 - pos) as u64 {
            return false;
        }
        let rem: u64 = size % 512;
        let padded_size: u64 = if rem == 0 {
            size
        } else {
            size + (512 - rem)
        };
        pos = pos + 512 + padded_size as usize;
    }
}

} // verus!
