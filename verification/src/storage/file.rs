//! The header of a storage file, and the bounds checks on reads and writes
//! of its mapped data.
//!
//! A storage file starts with a fixed-size header, in little-endian byte
//! order: the magic bytes `CALVINDB`, the format version and flags (32 bits
//! each), the region count, data size, metadata offset and metadata size
//! (64 bits each), and eight reserved bytes.

use vstd::prelude::*;
use vstd::bytes::{spec_u32_to_le_bytes, spec_u32_from_le_bytes, spec_u64_to_le_bytes,
    spec_u64_from_le_bytes, u32_to_le_bytes, u32_from_le_bytes, u64_to_le_bytes, u64_from_le_bytes,
    lemma_auto_spec_u32_to_from_le_bytes, lemma_auto_spec_u64_to_from_le_bytes};
use super::StorageError;
use vstd::slice::slice_subrange;
use crate::text::{owned, push_decimal, decimal};

verus! {

/// The magic number for Calvin storage files: the bytes of `CALVINDB`.
pub const MAGIC: [u8; 8] = [67, 65, 76, 86, 73, 78, 68, 66];

/// The current file format version.
pub const FORMAT_VERSION: u32 = 1;

/// Header size in bytes.
pub const HEADER_SIZE: usize = 56;

/// The magic bytes, as a sequence.
pub open spec fn magic_bytes() -> Seq<u8> {
    seq![67u8, 65u8, 76u8, 86u8, 73u8, 78u8, 68u8, 66u8]
}

/// A file header for Calvin storage files.
#[derive(Debug, Clone, Copy)]
pub struct FileHeader {
    /// Magic number to identify the file format.
    pub magic: [u8; 8],
    /// File format version.
    pub version: u32,
    /// Flags (reserved for future use).
    pub flags: u32,
    /// The number of data regions in the file.
    pub region_count: u64,
    /// The total data size in bytes.
    pub data_size: u64,
    /// The offset to the metadata section.
    pub metadata_offset: u64,
    /// The metadata section size.
    pub metadata_size: u64,
    /// Reserved padding.
    pub reserved: [u8; 8],
}

/// The bytes of a header, in file order.
pub open spec fn header_bytes(h: FileHeader) -> Seq<u8> {
    h.magic@ + spec_u32_to_le_bytes(h.version) + spec_u32_to_le_bytes(h.flags)
        + spec_u64_to_le_bytes(h.region_count) + spec_u64_to_le_bytes(h.data_size)
        + spec_u64_to_le_bytes(h.metadata_offset) + spec_u64_to_le_bytes(h.metadata_size)
        + h.reserved@
}

/// The message of the error a header with these magic bytes and version
/// is refused with, if any.
pub open spec fn header_problem(magic: Seq<u8>, version: u32) -> Option<Seq<char>> {
    if magic != magic_bytes() {
        Some("Invalid magic number"@)
    } else if version > 1 {
        Some("Unsupported version: "@ + decimal(version as nat))
    } else {
        None
    }
}

/// The header whose bytes start `data` has the fields these bytes encode.
pub open spec fn decodes_to(data: Seq<u8>, h: FileHeader) -> bool {
    &&& h.magic@ == data.subrange(0, 8)
    &&& h.version == spec_u32_from_le_bytes(data.subrange(8, 12))
    &&& h.flags == spec_u32_from_le_bytes(data.subrange(12, 16))
    &&& h.region_count == spec_u64_from_le_bytes(data.subrange(16, 24))
    &&& h.data_size == spec_u64_from_le_bytes(data.subrange(24, 32))
    &&& h.metadata_offset == spec_u64_from_le_bytes(data.subrange(32, 40))
    &&& h.metadata_size == spec_u64_from_le_bytes(data.subrange(40, 48))
    &&& h.reserved@ == data.subrange(48, 56)
}

/// An error carrying the message `m`.
fn format_error(m: String) -> (e: StorageError)
    ensures
        e matches StorageError::Format(t) && t@ == m@,
{
    StorageError::Format(m)
}

/// The eight bytes of `data` from `start`.
fn eight_bytes(data: &[u8], start: usize) -> (r: [u8; 8])
    requires
        start + 8 <= data@.len(),
    ensures
        r@ == data@.subrange(start as int, start + 8),
{
    let mut r = [0u8; 8];
    let n: usize = data.len();
    let mut i: usize = 0;
    while i < 8
        invariant
            i <= 8,
            n == data@.len(),
            start + 8 <= n,
            forall|j: int| 0 <= j < i ==> r@[j] == data@[start + j],
        decreases 8 - i,
    {
        r[i] = data[start + i];
        i += 1;
    }
    assert(r@ =~= data@.subrange(start as int, start + 8));
    r
}

/// Appends the bytes of `src` to `buf`.
pub(crate) fn append(buf: &mut Vec<u8>, src: &[u8])
    ensures
        final(buf)@ == old(buf)@ + src@,
{
    let mut i: usize = 0;
    while i < src.len()
        invariant
            i <= src@.len(),
            buf@ == old(buf)@ + src@.subrange(0, i as int),
        decreases src.len() - i,
    {
        buf.push(src[i]);
        i += 1;
        assert(buf@ =~= old(buf)@ + src@.subrange(0, i as int));
    }
    assert(src@.subrange(0, i as int) =~= src@);
}

impl FileHeader {
    /// A header for an empty file in the current format.
    pub fn new() -> (r: Self)
        ensures
            r.magic@ == magic_bytes(),
            r.version == FORMAT_VERSION,
            r.flags == 0,
            r.region_count == 0,
            r.data_size == 0,
            r.metadata_offset == HEADER_SIZE,
            r.metadata_size == 0,
            r.reserved@ == seq![0u8, 0u8, 0u8, 0u8, 0u8, 0u8, 0u8, 0u8],
    {
        let r = FileHeader {
            magic: MAGIC,
            version: FORMAT_VERSION,
            flags: 0,
            region_count: 0,
            data_size: 0,
            metadata_offset: HEADER_SIZE as u64,
            metadata_size: 0,
            reserved: [0u8; 8],
        };
        assert(r.magic@ =~= magic_bytes());
        assert(r.reserved@ =~= seq![0u8, 0u8, 0u8, 0u8, 0u8, 0u8, 0u8, 0u8]);
        r
    }

    /// Checks the magic number and that the version is one this format
    /// reads.
    pub fn validate(&self) -> (r: Result<(), StorageError>)
        ensures
            r is Ok <==> header_problem(self.magic@, self.version) is None,
            r matches Err(e) ==> e matches StorageError::Format(m)
                && header_problem(self.magic@, self.version) == Some(m@),
    {
        let mut i: usize = 0;
        while i < 8
            invariant
                i <= 8,
                forall|j: int| 0 <= j < i ==> self.magic@[j] == magic_bytes()[j],
            decreases 8 - i,
        {
            if self.magic[i] != MAGIC[i] {
                assert(self.magic@[i as int] != magic_bytes()[i as int]);
                return Err(format_error(owned("Invalid magic number")));
            }
            i += 1;
        }
        assert(self.magic@ =~= magic_bytes());
        if self.version > FORMAT_VERSION {
            let mut m = owned("Unsupported version: ");
            push_decimal(&mut m, self.version as u64);
            return Err(format_error(m));
        }
        Ok(())
    }

    /// The bytes of this header, in file order.
    pub fn to_bytes(&self) -> (r: Vec<u8>)
        ensures
            r@ == header_bytes(*self),
            r@.len() == HEADER_SIZE,
    {
        proof {
            lemma_auto_spec_u32_to_from_le_bytes();
            lemma_auto_spec_u64_to_from_le_bytes();
        }
        let mut buf: Vec<u8> = Vec::new();
        append(&mut buf, self.magic.as_slice());
        append(&mut buf, u32_to_le_bytes(self.version).as_slice());
        append(&mut buf, u32_to_le_bytes(self.flags).as_slice());
        append(&mut buf, u64_to_le_bytes(self.region_count).as_slice());
        append(&mut buf, u64_to_le_bytes(self.data_size).as_slice());
        append(&mut buf, u64_to_le_bytes(self.metadata_offset).as_slice());
        append(&mut buf, u64_to_le_bytes(self.metadata_size).as_slice());
        append(&mut buf, self.reserved.as_slice());
        buf
    }

    /// The header at the start of `data`, if it is long enough and passes
    /// `validate`.
    pub fn from_bytes(data: &[u8]) -> (r: Result<Self, StorageError>)
        ensures
            data@.len() < HEADER_SIZE ==> (r matches Err(StorageError::Format(m)) && m@ == "Header too short"@),
            data@.len() >= HEADER_SIZE ==> match header_problem(data@.subrange(0, 8), spec_u32_from_le_bytes(data@.subrange(8, 12))) {
                None => r matches Ok(h) && decodes_to(data@, h),
                Some(m) => r matches Err(StorageError::Format(t)) && t@ == m,
            },
    {
        if data.len() < HEADER_SIZE {
            return Err(format_error(owned("Header too short")));
        }
        let header = FileHeader {
            magic: eight_bytes(data, 0),
            version: u32_from_le_bytes(slice_subrange(data, 8, 12)),
            flags: u32_from_le_bytes(slice_subrange(data, 12, 16)),
            region_count: u64_from_le_bytes(slice_subrange(data, 16, 24)),
            data_size: u64_from_le_bytes(slice_subrange(data, 24, 32)),
            metadata_offset: u64_from_le_bytes(slice_subrange(data, 32, 40)),
            metadata_size: u64_from_le_bytes(slice_subrange(data, 40, 48)),
            reserved: eight_bytes(data, 48),
        };
        match header.validate() {
            Ok(()) => Ok(header),
            Err(e) => Err(e),
        }
    }
}

impl Default for FileHeader {
    fn default() -> (r: Self)
        ensures
            r.magic@ == magic_bytes(),
            r.version == FORMAT_VERSION,
            r.flags == 0,
            r.region_count == 0,
            r.data_size == 0,
            r.metadata_offset == HEADER_SIZE,
            r.metadata_size == 0,
    {
        Self::new()
    }
}

/// A valid header read back from its own bytes has the same fields.
pub proof fn law_header_roundtrip(h: FileHeader)
    ensures
        header_bytes(h).len() == HEADER_SIZE,
        decodes_to(header_bytes(h), h),
        header_problem(header_bytes(h).subrange(0, 8), spec_u32_from_le_bytes(header_bytes(h).subrange(8, 12)))
            == header_problem(h.magic@, h.version),
{
    lemma_auto_spec_u32_to_from_le_bytes();
    lemma_auto_spec_u64_to_from_le_bytes();
    let b = header_bytes(h);
    assert(b.subrange(0, 8) =~= h.magic@);
    assert(b.subrange(8, 12) =~= spec_u32_to_le_bytes(h.version));
    assert(b.subrange(12, 16) =~= spec_u32_to_le_bytes(h.flags));
    assert(b.subrange(16, 24) =~= spec_u64_to_le_bytes(h.region_count));
    assert(b.subrange(24, 32) =~= spec_u64_to_le_bytes(h.data_size));
    assert(b.subrange(32, 40) =~= spec_u64_to_le_bytes(h.metadata_offset));
    assert(b.subrange(40, 48) =~= spec_u64_to_le_bytes(h.metadata_size));
    assert(b.subrange(48, 56) =~= h.reserved@);
}

/// Where a write of `len` bytes at `offset` lands in a mapped region of
/// `size` bytes: the byte range, or `StorageFull` when it does not fit.
pub fn write_span(offset: u64, len: usize, size: usize) -> (r: Result<(usize, usize), StorageError>)
    requires
        offset <= usize::MAX,
        offset + len <= usize::MAX,
    ensures
        offset + len <= size ==> r == Ok::<(usize, usize), StorageError>((offset as usize, (offset + len) as usize)),
        offset + len > size ==> r matches Err(StorageError::StorageFull),
{
    let start = offset as usize;
    let end = start + len;
    if end > size {
        return Err(StorageError::StorageFull);
    }
    Ok((start, end))
}

/// Where a read of `len` bytes at `offset` lies in a mapped region of
/// `size` bytes: the byte range, or a format error when it runs past the
/// end.
pub fn read_span(offset: u64, len: usize, size: usize) -> (r: Result<(usize, usize), StorageError>)
    requires
        offset <= usize::MAX,
        offset + len <= usize::MAX,
    ensures
        offset + len <= size ==> r == Ok::<(usize, usize), StorageError>((offset as usize, (offset + len) as usize)),
        offset + len > size ==> (r matches Err(StorageError::Format(m)) && m@ == "Read beyond file end"@),
{
    let start = offset as usize;
    let end = start + len;
    if end > size {
        return Err(format_error(owned("Read beyond file end")));
    }
    Ok((start, end))
}

} // verus!
