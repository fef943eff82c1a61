//! Data series: typed sequences of values appended to a buffer and read
//! back from one.
//!
//! Values are stored little-endian: integers in their width, booleans and
//! bytes as one byte, strings as a 64-bit byte length followed by their
//! UTF-8 bytes, and doubles as the 64 bits of their IEEE 754 encoding.

use vstd::prelude::*;
use vstd::bytes::{spec_u32_to_le_bytes, spec_u32_from_le_bytes, spec_u64_to_le_bytes,
    spec_u64_from_le_bytes, lemma_auto_spec_u32_to_from_le_bytes, lemma_auto_spec_u64_to_from_le_bytes};
use vstd::utf8::{valid_utf8, decode_utf8, encode_utf8, encode_utf8_valid_utf8, encode_utf8_decode_utf8};
use vstd::slice::slice_subrange;
use byteorder::{LittleEndian, ReadBytesExt, WriteBytesExt};
use super::{SeriesMetadata, StorageError, StorageType};
use super::file::append;
use crate::text::owned;

verus! {

/// `WriteBytesExt::write_i32::<LittleEndian>` on a `Vec<u8>`: appends the
/// four little-endian bytes of `v`; writing to a vector does not fail.
#[verifier::external_body]
fn write_i32_le(buf: &mut Vec<u8>, v: i32) -> (r: Result<(), std::io::Error>)
    ensures
        r is Ok,
        final(buf)@ == old(buf)@ + spec_u32_to_le_bytes(v as u32),
{
    buf.write_i32::<LittleEndian>(v)
}

/// `WriteBytesExt::write_i64::<LittleEndian>` on a `Vec<u8>`: appends the
/// eight little-endian bytes of `v`; writing to a vector does not fail.
#[verifier::external_body]
fn write_i64_le(buf: &mut Vec<u8>, v: i64) -> (r: Result<(), std::io::Error>)
    ensures
        r is Ok,
        final(buf)@ == old(buf)@ + spec_u64_to_le_bytes(v as u64),
{
    buf.write_i64::<LittleEndian>(v)
}

/// `WriteBytesExt::write_u64::<LittleEndian>` on a `Vec<u8>`: appends the
/// eight little-endian bytes of `v`; writing to a vector does not fail.
#[verifier::external_body]
fn write_u64_le(buf: &mut Vec<u8>, v: u64) -> (r: Result<(), std::io::Error>)
    ensures
        r is Ok,
        final(buf)@ == old(buf)@ + spec_u64_to_le_bytes(v),
{
    buf.write_u64::<LittleEndian>(v)
}

/// `ReadBytesExt::read_i32::<LittleEndian>` on the bytes of `data` from
/// `pos`: the value of the next four bytes, or an error when fewer remain.
#[verifier::external_body]
fn read_i32_le(data: &[u8], pos: usize) -> (r: Result<i32, std::io::Error>)
    requires
        pos <= data@.len(),
    ensures
        r is Ok <==> pos + 4 <= data@.len(),
        r matches Ok(v) ==> v == spec_u32_from_le_bytes(data@.subrange(pos as int, pos + 4)) as i32,
{
    let mut rest: &[u8] = &data[pos..];
    rest.read_i32::<LittleEndian>()
}

/// `ReadBytesExt::read_i64::<LittleEndian>` on the bytes of `data` from
/// `pos`: the value of the next eight bytes, or an error when fewer remain.
#[verifier::external_body]
fn read_i64_le(data: &[u8], pos: usize) -> (r: Result<i64, std::io::Error>)
    requires
        pos <= data@.len(),
    ensures
        r is Ok <==> pos + 8 <= data@.len(),
        r matches Ok(v) ==> v == spec_u64_from_le_bytes(data@.subrange(pos as int, pos + 8)) as i64,
{
    let mut rest: &[u8] = &data[pos..];
    rest.read_i64::<LittleEndian>()
}

/// `ReadBytesExt::read_u64::<LittleEndian>` on the bytes of `data` from
/// `pos`: the value of the next eight bytes, or an error when fewer remain.
#[verifier::external_body]
fn read_u64_le(data: &[u8], pos: usize) -> (r: Result<u64, std::io::Error>)
    requires
        pos <= data@.len(),
    ensures
        r is Ok <==> pos + 8 <= data@.len(),
        r matches Ok(v) ==> v == spec_u64_from_le_bytes(data@.subrange(pos as int, pos + 8)),
{
    let mut rest: &[u8] = &data[pos..];
    rest.read_u64::<LittleEndian>()
}

/// `ReadBytesExt::read_u8` on the bytes of `data` from `pos`: the next
/// byte, or an error when none remains.
#[verifier::external_body]
fn read_u8_at(data: &[u8], pos: usize) -> (r: Result<u8, std::io::Error>)
    requires
        pos <= data@.len(),
    ensures
        r is Ok <==> pos < data@.len(),
        r matches Ok(v) ==> v == data@[pos as int],
{
    let mut rest: &[u8] = &data[pos..];
    rest.read_u8()
}

/// The message `String::from_utf8` gives for bytes that are not UTF-8.
pub uninterp spec fn utf8_error_message(bytes: Seq<u8>) -> Seq<char>;

/// `String::from_utf8`: the string the bytes encode when they are valid
/// UTF-8, else the text of the error.
#[verifier::external_body]
fn string_from_utf8(bytes: Vec<u8>) -> (r: Result<String, String>)
    ensures
        r is Ok <==> valid_utf8(bytes@),
        r matches Ok(s) ==> s@ == decode_utf8(bytes@),
        r matches Err(m) ==> m@ == utf8_error_message(bytes@),
{
    match String::from_utf8(bytes) {
        Ok(s) => Ok(s),
        Err(e) => Err(format!("{}", e)),
    }
}

/// The bytes an `i32` is stored as.
pub open spec fn encode_i32(v: i32) -> Seq<u8> {
    spec_u32_to_le_bytes(v as u32)
}

/// The bytes an `i64` is stored as.
pub open spec fn encode_i64(v: i64) -> Seq<u8> {
    spec_u64_to_le_bytes(v as u64)
}

/// The bytes a string is stored as: its byte length, then its UTF-8 bytes.
pub open spec fn encode_string(s: Seq<char>) -> Seq<u8> {
    spec_u64_to_le_bytes(encode_utf8(s).len() as u64) + encode_utf8(s)
}

/// The bytes a boolean is stored as.
pub open spec fn encode_bool(b: bool) -> Seq<u8> {
    seq![if b { 1u8 } else { 0u8 }]
}

/// The `i32` stored at `pos` in `data`, if four bytes remain there.
pub open spec fn decode_i32_at(data: Seq<u8>, pos: int) -> Option<i32> {
    if pos + 4 <= data.len() {
        Some(spec_u32_from_le_bytes(data.subrange(pos, pos + 4)) as i32)
    } else {
        None
    }
}

/// The `i64` stored at `pos` in `data`, if eight bytes remain there.
pub open spec fn decode_i64_at(data: Seq<u8>, pos: int) -> Option<i64> {
    if pos + 8 <= data.len() {
        Some(spec_u64_from_le_bytes(data.subrange(pos, pos + 8)) as i64)
    } else {
        None
    }
}

/// The 64 bits stored at `pos` in `data`, if eight bytes remain there.
pub open spec fn decode_u64_at(data: Seq<u8>, pos: int) -> Option<u64> {
    if pos + 8 <= data.len() {
        Some(spec_u64_from_le_bytes(data.subrange(pos, pos + 8)))
    } else {
        None
    }
}

/// The length prefix of a string stored at `pos`, as `usize` (where it
/// is present).
pub open spec fn string_len_at(data: Seq<u8>, pos: int) -> usize {
    spec_u64_from_le_bytes(data.subrange(pos, pos + 8)) as usize
}

/// Where the string stored at `pos` is complete, the bytes of its text.
pub open spec fn string_bytes_at(data: Seq<u8>, pos: int) -> Option<Seq<u8>> {
    if pos + 8 <= data.len() && pos + 8 + string_len_at(data, pos) <= data.len() {
        Some(data.subrange(pos + 8, pos + 8 + string_len_at(data, pos)))
    } else {
        None
    }
}

/// A writer appending values to a data series.
pub struct SeriesWriter {
    metadata: SeriesMetadata,
    buffer: Vec<u8>,
    count: u64,
}

impl SeriesWriter {
    /// Each counted value took at least one byte.
    pub closed spec fn wf(self) -> bool {
        self.count <= self.buffer@.len()
    }

    /// The bytes written so far.
    pub closed spec fn bytes(self) -> Seq<u8> {
        self.buffer@
    }

    /// The number of values written so far.
    pub closed spec fn written(self) -> u64 {
        self.count
    }

    /// The metadata the writer was created with.
    pub closed spec fn meta(self) -> SeriesMetadata {
        self.metadata
    }

    /// Counts one more value, which took at least one of the bytes.
    fn count_value(&mut self)
        requires
            old(self).count < old(self).buffer@.len(),
        ensures
            final(self).count == old(self).count + 1,
            final(self).buffer == old(self).buffer,
            final(self).metadata == old(self).metadata,
    {
        let n: usize = self.buffer.len();
        assert(n as int <= u64::MAX);
        self.count = self.count + 1;
    }

    /// A writer for the series `name` of elements of type `element_type`,
    /// with nothing written yet.
    pub fn new(name: &str, element_type: StorageType) -> (r: Self)
        ensures
            r.wf(),
            r.bytes() == Seq::<u8>::empty(),
            r.written() == 0,
            r.meta().name@ == name@,
            r.meta().element_type == element_type,
            r.meta().count == 0,
            r.meta().offset == 0,
            r.meta().length == 0,
    {
        SeriesWriter {
            metadata: SeriesMetadata { name: owned(name), element_type, count: 0, offset: 0, length: 0 },
            buffer: Vec::new(),
            count: 0,
        }
    }

    /// Appends a 32-bit integer.
    pub fn write_int(&mut self, value: i32) -> (r: Result<(), StorageError>)
        requires
            old(self).wf(),
        ensures
            r is Ok,
            final(self).wf(),
            final(self).bytes() == old(self).bytes() + encode_i32(value),
            final(self).written() == old(self).written() + 1,
            final(self).meta() == old(self).meta(),
    {
        proof {
            lemma_auto_spec_u32_to_from_le_bytes();
        }
        match write_i32_le(&mut self.buffer, value) {
            Ok(()) => {}
            Err(e) => {
                return Err(StorageError::Io(e));
            }
        }
        self.count_value();
        Ok(())
    }

    /// Appends a 64-bit integer.
    pub fn write_long(&mut self, value: i64) -> (r: Result<(), StorageError>)
        requires
            old(self).wf(),
        ensures
            r is Ok,
            final(self).wf(),
            final(self).bytes() == old(self).bytes() + encode_i64(value),
            final(self).written() == old(self).written() + 1,
            final(self).meta() == old(self).meta(),
    {
        proof {
            lemma_auto_spec_u64_to_from_le_bytes();
        }
        match write_i64_le(&mut self.buffer, value) {
            Ok(()) => {}
            Err(e) => {
                return Err(StorageError::Io(e));
            }
        }
        self.count_value();
        Ok(())
    }

    /// Appends a double, given as the 64 bits of its IEEE 754 encoding
    /// (`f64::to_bits`).
    pub fn write_double_bits(&mut self, bits: u64) -> (r: Result<(), StorageError>)
        requires
            old(self).wf(),
        ensures
            r is Ok,
            final(self).wf(),
            final(self).bytes() == old(self).bytes() + spec_u64_to_le_bytes(bits),
            final(self).written() == old(self).written() + 1,
            final(self).meta() == old(self).meta(),
    {
        proof {
            lemma_auto_spec_u64_to_from_le_bytes();
        }
        match write_u64_le(&mut self.buffer, bits) {
            Ok(()) => {}
            Err(e) => {
                return Err(StorageError::Io(e));
            }
        }
        self.count_value();
        Ok(())
    }

    /// Appends a boolean, as one byte: 1 for true, 0 for false.
    pub fn write_bool(&mut self, value: bool) -> (r: Result<(), StorageError>)
        requires
            old(self).wf(),
        ensures
            r is Ok,
            final(self).wf(),
            final(self).bytes() == old(self).bytes() + encode_bool(value),
            final(self).written() == old(self).written() + 1,
            final(self).meta() == old(self).meta(),
    {
        self.buffer.push(if value { 1 } else { 0 });
        self.count_value();
        assert(self.buffer@ =~= old(self).bytes() + encode_bool(value));
        Ok(())
    }

    /// Appends a byte.
    pub fn write_byte(&mut self, value: u8) -> (r: Result<(), StorageError>)
        requires
            old(self).wf(),
        ensures
            r is Ok,
            final(self).wf(),
            final(self).bytes() == old(self).bytes().push(value),
            final(self).written() == old(self).written() + 1,
            final(self).meta() == old(self).meta(),
    {
        self.buffer.push(value);
        self.count_value();
        Ok(())
    }

    /// Appends a string: its byte length, then its UTF-8 bytes.
    pub fn write_string(&mut self, value: &str) -> (r: Result<(), StorageError>)
        requires
            old(self).wf(),
        ensures
            r is Ok,
            final(self).wf(),
            final(self).bytes() == old(self).bytes() + encode_string(value@),
            final(self).written() == old(self).written() + 1,
            final(self).meta() == old(self).meta(),
    {
        proof {
            lemma_auto_spec_u64_to_from_le_bytes();
        }
        let bytes = value.as_bytes();
        match write_u64_le(&mut self.buffer, bytes.len() as u64) {
            Ok(()) => {}
            Err(e) => {
                return Err(StorageError::Io(e));
            }
        }
        append(&mut self.buffer, bytes);
        self.count_value();
        assert(self.buffer@ =~= old(self).bytes() + encode_string(value@));
        Ok(())
    }

    /// Appends raw bytes, which do not count as a value.
    pub fn write_bytes(&mut self, data: &[u8]) -> (r: Result<(), StorageError>)
        requires
            old(self).wf(),
        ensures
            r is Ok,
            final(self).wf(),
            final(self).bytes() == old(self).bytes() + data@,
            final(self).written() == old(self).written(),
            final(self).meta() == old(self).meta(),
    {
        append(&mut self.buffer, data);
        Ok(())
    }

    /// The bytes written so far.
    pub fn buffer(&self) -> (r: &[u8])
        ensures
            r@ == self.bytes(),
    {
        self.buffer.as_slice()
    }

    /// The number of values written so far.
    pub fn count(&self) -> (r: u64)
        ensures
            r == self.written(),
    {
        self.count
    }

    /// The metadata of the series.
    pub fn metadata(&self) -> (r: &SeriesMetadata)
        ensures
            *r == self.meta(),
    {
        &self.metadata
    }

    /// Ends the writing: the bytes written, and the metadata recording
    /// their number of values, their offset `offset` in the file and their
    /// length.
    pub fn finalize(self, offset: u64) -> (r: (Vec<u8>, SeriesMetadata))
        ensures
            r.0@ == self.bytes(),
            r.1.name == self.meta().name,
            r.1.element_type == self.meta().element_type,
            r.1.count == self.written(),
            r.1.offset == offset,
            r.1.length == self.bytes().len(),
    {
        let mut metadata = self.metadata;
        metadata.count = self.count;
        metadata.offset = offset;
        metadata.length = self.buffer.len() as u64;
        (self.buffer, metadata)
    }
}

/// A reader of the values of a data series, from the start of its bytes.
pub struct SeriesReader<'a> {
    metadata: &'a SeriesMetadata,
    data: &'a [u8],
    pos: usize,
    read_count: u64,
}

impl<'a> SeriesReader<'a> {
    /// Each value read took at least one byte, and the position is within
    /// the data.
    pub closed spec fn wf(self) -> bool {
        self.read_count <= self.pos <= self.data@.len() <= usize::MAX
    }

    /// The bytes of the series.
    pub closed spec fn bytes(self) -> Seq<u8> {
        self.data@
    }

    /// Where the next value starts.
    pub closed spec fn position(self) -> int {
        self.pos as int
    }

    /// The number of values read so far.
    pub closed spec fn reads(self) -> u64 {
        self.read_count
    }

    /// The metadata of the series.
    pub closed spec fn meta(self) -> SeriesMetadata {
        *self.metadata
    }

    /// Whether a string can be read at the current position without its
    /// end overflowing the address space.
    pub open spec fn string_fits(self) -> bool {
        self.position() + 8 <= self.bytes().len() ==>
            self.position() + 8 + string_len_at(self.bytes(), self.position()) <= usize::MAX
    }

    /// A reader of `data`, the bytes of the series `metadata` describes.
    pub fn new(metadata: &'a SeriesMetadata, data: &'a [u8]) -> (r: Self)
        ensures
            r.wf(),
            r.bytes() == data@,
            r.position() == 0,
            r.reads() == 0,
            r.meta() == *metadata,
    {
        // A slice's length is a `usize`.
        let len: usize = data.len();
        assert(data@.len() == len);
        SeriesReader { metadata, data, pos: 0, read_count: 0 }
    }

    /// Reads a 32-bit integer. When fewer than four bytes remain, fails
    /// with an I/O error and moves to the end of the data.
    pub fn read_int(&mut self) -> (r: Result<i32, StorageError>)
        requires
            old(self).wf(),
        ensures
            final(self).wf(),
            final(self).bytes() == old(self).bytes(),
            final(self).meta() == old(self).meta(),
            match decode_i32_at(old(self).bytes(), old(self).position()) {
                Some(v) => r == Ok::<i32, StorageError>(v) && final(self).position() == old(self).position() + 4
                    && final(self).reads() == old(self).reads() + 1,
                None => r matches Err(StorageError::Io(_)) && final(self).position() == old(self).bytes().len()
                    && final(self).reads() == old(self).reads(),
            },
    {
        match read_i32_le(self.data, self.pos) {
            Ok(v) => {
                self.pos = self.pos + 4;
                self.read_count += 1;
                Ok(v)
            }
            Err(e) => {
                self.pos = self.data.len();
                Err(StorageError::Io(e))
            }
        }
    }

    /// Reads a 64-bit integer. When fewer than eight bytes remain, fails
    /// with an I/O error and moves to the end of the data.
    pub fn read_long(&mut self) -> (r: Result<i64, StorageError>)
        requires
            old(self).wf(),
        ensures
            final(self).wf(),
            final(self).bytes() == old(self).bytes(),
            final(self).meta() == old(self).meta(),
            match decode_i64_at(old(self).bytes(), old(self).position()) {
                Some(v) => r == Ok::<i64, StorageError>(v) && final(self).position() == old(self).position() + 8
                    && final(self).reads() == old(self).reads() + 1,
                None => r matches Err(StorageError::Io(_)) && final(self).position() == old(self).bytes().len()
                    && final(self).reads() == old(self).reads(),
            },
    {
        match read_i64_le(self.data, self.pos) {
            Ok(v) => {
                self.pos = self.pos + 8;
                self.read_count += 1;
                Ok(v)
            }
            Err(e) => {
                self.pos = self.data.len();
                Err(StorageError::Io(e))
            }
        }
    }

    /// Reads a double, as the 64 bits of its IEEE 754 encoding (for
    /// `f64::from_bits`). When fewer than eight bytes remain, fails with an
    /// I/O error and moves to the end of the data.
    pub fn read_double_bits(&mut self) -> (r: Result<u64, StorageError>)
        requires
            old(self).wf(),
        ensures
            final(self).wf(),
            final(self).bytes() == old(self).bytes(),
            final(self).meta() == old(self).meta(),
            match decode_u64_at(old(self).bytes(), old(self).position()) {
                Some(v) => r == Ok::<u64, StorageError>(v) && final(self).position() == old(self).position() + 8
                    && final(self).reads() == old(self).reads() + 1,
                None => r matches Err(StorageError::Io(_)) && final(self).position() == old(self).bytes().len()
                    && final(self).reads() == old(self).reads(),
            },
    {
        match read_u64_le(self.data, self.pos) {
            Ok(v) => {
                self.pos = self.pos + 8;
                self.read_count += 1;
                Ok(v)
            }
            Err(e) => {
                self.pos = self.data.len();
                Err(StorageError::Io(e))
            }
        }
    }

    /// Reads a boolean: any byte other than 0 is true. When no byte
    /// remains, fails with an I/O error.
    pub fn read_bool(&mut self) -> (r: Result<bool, StorageError>)
        requires
            old(self).wf(),
        ensures
            final(self).wf(),
            final(self).bytes() == old(self).bytes(),
            final(self).meta() == old(self).meta(),
            if old(self).position() < old(self).bytes().len() {
                r == Ok::<bool, StorageError>(old(self).bytes()[old(self).position()] != 0)
                    && final(self).position() == old(self).position() + 1
                    && final(self).reads() == old(self).reads() + 1
            } else {
                r matches Err(StorageError::Io(_)) && final(self).position() == old(self).bytes().len()
                    && final(self).reads() == old(self).reads()
            },
    {
        match read_u8_at(self.data, self.pos) {
            Ok(v) => {
                self.pos = self.pos + 1;
                self.read_count += 1;
                Ok(v != 0)
            }
            Err(e) => {
                self.pos = self.data.len();
                Err(StorageError::Io(e))
            }
        }
    }

    /// Reads a string: its byte length, then that many bytes of UTF-8.
    /// Fails with an I/O error when the length is cut off, with a format
    /// error when the text is cut off ("String extends beyond data") or is
    /// not UTF-8 (the decoder's message); only a successful read moves past
    /// the text.
    pub fn read_string(&mut self) -> (r: Result<String, StorageError>)
        requires
            old(self).wf(),
            old(self).string_fits(),
        ensures
            final(self).wf(),
            final(self).bytes() == old(self).bytes(),
            final(self).meta() == old(self).meta(),
            ({
                let data = old(self).bytes();
                let p = old(self).position();
                if p + 8 > data.len() {
                    r matches Err(StorageError::Io(_)) && final(self).position() == data.len()
                        && final(self).reads() == old(self).reads()
                } else {
                    match string_bytes_at(data, p) {
                        None => (r matches Err(StorageError::Format(m)) && m@ == "String extends beyond data"@)
                            && final(self).position() == p + 8 && final(self).reads() == old(self).reads(),
                        Some(b) => if valid_utf8(b) {
                            (r matches Ok(s) && s@ == decode_utf8(b))
                                && final(self).position() == p + 8 + b.len()
                                && final(self).reads() == old(self).reads() + 1
                        } else {
                            (r matches Err(StorageError::Format(m)) && m@ == utf8_error_message(b))
                                && final(self).position() == p + 8 && final(self).reads() == old(self).reads()
                        },
                    }
                }
            }),
    {
        let len = match read_u64_le(self.data, self.pos) {
            Ok(v) => v as usize,
            Err(e) => {
                self.pos = self.data.len();
                return Err(StorageError::Io(e));
            }
        };
        self.pos = self.pos + 8;
        let pos = self.pos;
        if pos + len > self.data.len() {
            return Err(StorageError::Format(owned("String extends beyond data")));
        }
        let bytes = vstd::slice::slice_to_vec(slice_subrange(self.data, pos, pos + len));
        match string_from_utf8(bytes) {
            Ok(s) => {
                self.pos = pos + len;
                self.read_count += 1;
                Ok(s)
            }
            Err(m) => Err(StorageError::Format(m)),
        }
    }

    /// Whether fewer values have been read than the series holds.
    pub fn has_next(&self) -> (r: bool)
        ensures
            r == (self.reads() < self.meta().count),
    {
        self.read_count < self.metadata.count
    }

    /// The number of values read so far.
    pub fn read_count(&self) -> (r: u64)
        ensures
            r == self.reads(),
    {
        self.read_count
    }

    /// The number of values the series holds.
    pub fn total_count(&self) -> (r: u64)
        ensures
            r == self.meta().count,
    {
        self.metadata.count
    }
}

/// A 32-bit integer written to a series is read back from where it was
/// written.
pub proof fn law_int_roundtrip(before: Seq<u8>, v: i32, after: Seq<u8>)
    ensures
        decode_i32_at(before + encode_i32(v) + after, before.len() as int) == Some(v),
{
    lemma_auto_spec_u32_to_from_le_bytes();
    let data = before + encode_i32(v) + after;
    assert(data.subrange(before.len() as int, before.len() + 4int) =~= encode_i32(v));
    assert((v as u32) as i32 == v) by (bit_vector);
}

/// A 64-bit integer written to a series is read back from where it was
/// written.
pub proof fn law_long_roundtrip(before: Seq<u8>, v: i64, after: Seq<u8>)
    ensures
        decode_i64_at(before + encode_i64(v) + after, before.len() as int) == Some(v),
{
    lemma_auto_spec_u64_to_from_le_bytes();
    let data = before + encode_i64(v) + after;
    assert(data.subrange(before.len() as int, before.len() + 8int) =~= encode_i64(v));
    assert((v as u64) as i64 == v) by (bit_vector);
}

/// The bits of a double written to a series are read back from where they
/// were written.
pub proof fn law_double_bits_roundtrip(before: Seq<u8>, bits: u64, after: Seq<u8>)
    ensures
        decode_u64_at(before + spec_u64_to_le_bytes(bits) + after, before.len() as int) == Some(bits),
{
    lemma_auto_spec_u64_to_from_le_bytes();
    let data = before + spec_u64_to_le_bytes(bits) + after;
    assert(data.subrange(before.len() as int, before.len() + 8int) =~= spec_u64_to_le_bytes(bits));
}

/// A boolean written to a series is read back from where it was written.
pub proof fn law_bool_roundtrip(before: Seq<u8>, b: bool, after: Seq<u8>)
    ensures
        ({
            let data = before + encode_bool(b) + after;
            before.len() < data.len() && (data[before.len() as int] != 0) == b
        }),
{
    let data = before + encode_bool(b) + after;
    assert(data[before.len() as int] == encode_bool(b)[0]);
}

/// The bytes of booleans written one after another to an empty series.
pub open spec fn encode_bools(bs: Seq<bool>) -> Seq<u8>
    decreases bs.len(),
{
    if bs.len() == 0 {
        Seq::empty()
    } else {
        encode_bools(bs.drop_last()) + encode_bool(bs.last())
    }
}

/// Booleans written one after another to an empty series are read back one
/// after another: one more boolean appends its byte, the series holds one
/// byte per boolean, and the `i`-th byte reads as the `i`-th boolean.
pub proof fn law_bools_roundtrip(bs: Seq<bool>, b: bool)
    ensures
        encode_bools(bs.push(b)) == encode_bools(bs) + encode_bool(b),
        encode_bools(bs).len() == bs.len(),
        forall|i: int| 0 <= i < bs.len() ==> (#[trigger] encode_bools(bs)[i] != 0) == bs[i],
    decreases bs.len(),
{
    assert(bs.push(b).drop_last() =~= bs);
    if bs.len() > 0 {
        let front = bs.drop_last();
        law_bools_roundtrip(front, bs.last());
        assert forall|i: int| 0 <= i < bs.len() implies (#[trigger] encode_bools(bs)[i] != 0) == bs[i] by {
            if i < front.len() {
                assert(encode_bools(bs)[i] == encode_bools(front)[i]);
                assert(front[i] == bs[i]);
            } else {
                assert(encode_bools(bs)[i] == encode_bool(bs.last())[0]);
            }
        }
    }
}

/// Booleans written one after another to a new series are read back from
/// its start one after another, in order: with `i` of them read, the next
/// read finds the `i`-th, and values are left; with all of them read,
/// none is left and the position is at the end, where a read fails.
pub proof fn law_bools_read_in_order<'a>(bs: Seq<bool>, r: SeriesReader<'a>, i: int)
    requires
        r.bytes() == encode_bools(bs),
        r.meta().count == bs.len(),
        r.position() == i,
        r.reads() == i,
        0 <= i <= bs.len(),
    ensures
        i < bs.len() ==> {
            &&& r.position() < r.bytes().len()
            &&& (r.bytes()[r.position()] != 0) == bs[i]
            &&& r.reads() < r.meta().count
        },
        i == bs.len() ==> r.position() == r.bytes().len() && !(r.reads() < r.meta().count),
{
    law_bools_roundtrip(bs, true);
}

/// A string written to a series is read back, whole and valid, from where
/// it was written.
pub proof fn law_string_roundtrip(before: Seq<u8>, s: Seq<char>, after: Seq<u8>)
    requires
        encode_utf8(s).len() <= u64::MAX,
        encode_utf8(s).len() <= usize::MAX,
    ensures
        ({
            let data = before + encode_string(s) + after;
            &&& string_bytes_at(data, before.len() as int) == Some(encode_utf8(s))
            &&& valid_utf8(encode_utf8(s))
            &&& decode_utf8(encode_utf8(s)) == s
        }),
{
    lemma_auto_spec_u64_to_from_le_bytes();
    encode_utf8_valid_utf8(s);
    encode_utf8_decode_utf8(s);
    let n = encode_utf8(s).len();
    let data = before + encode_string(s) + after;
    let p = before.len() as int;
    assert(data.subrange(p, p + 8) =~= spec_u64_to_le_bytes(n as u64));
    assert(string_len_at(data, p) == n);
    assert(data.subrange(p + 8, p + 8 + n) =~= encode_utf8(s));
}

/// What the series writer appends for one value is as long as the fixed
/// size of the value's storage type: an int, a long, a double (by its
/// bits) and a boolean.
pub proof fn law_written_widths(i: i32, l: i64, bits: u64, b: bool)
    ensures
        super::storage_size(super::SStorage::Int) == Some(encode_i32(i).len()),
        super::storage_size(super::SStorage::Long) == Some(encode_i64(l).len()),
        super::storage_size(super::SStorage::Double) == Some(spec_u64_to_le_bytes(bits).len()),
        super::storage_size(super::SStorage::Bool) == Some(encode_bool(b).len()),
{
    lemma_auto_spec_u32_to_from_le_bytes();
    lemma_auto_spec_u64_to_from_le_bytes();
}

} // verus!
