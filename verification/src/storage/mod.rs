//! Structured data storage: type descriptors for stored data, the metadata
//! of storage files and their data series, and storage groups.
//!
//! Reading and writing files is left to the caller; this module computes
//! what is written and checks what is read.

pub mod file;
pub mod series;

use vstd::prelude::*;
use crate::name_map::NameMap;
use crate::text::{push_str, owned, push_decimal, decimal, chars_of, string_from_chars};

verus! {

#[verifier::external_type_specification]
#[verifier::external_body]
pub struct ExIoError(std::io::Error);

/// The text `std::io::Error` displays for `e`.
#[verifier::external_body]
pub(crate) fn io_error_text(e: &std::io::Error) -> String {
    format!("{}", e)
}

/// Errors that can occur during storage operations.
#[derive(Debug)]
pub enum StorageError {
    Io(std::io::Error),
    Format(String),
    TypeMismatch { expected: String, found: String },
    RegionNotFound(String),
    SeriesNotFound(String),
    StorageFull,
}

impl StorageError {
    /// The message of this error (what `{}` prints). For an I/O error it
    /// is `"I/O error: "` followed by the error's own text.
    pub fn to_string(&self) -> (r: String)
        ensures
            self matches StorageError::Format(m) ==> r@ == "File format error: "@ + m@,
            self matches StorageError::TypeMismatch { expected, found } ==>
                r@ == "Type mismatch: expected "@ + expected@ + ", found "@ + found@,
            self matches StorageError::RegionNotFound(n) ==> r@ == "Region not found: "@ + n@,
            self matches StorageError::SeriesNotFound(n) ==> r@ == "Series not found: "@ + n@,
            self is StorageFull ==> r@ == "Storage full"@,
            self is Io ==> exists|t: Seq<char>| r@ == "I/O error: "@ + t,
    {
        let mut out = String::new();
        match self {
            StorageError::Io(e) => {
                push_str(&mut out, "I/O error: ");
                let t = io_error_text(e);
                push_str(&mut out, t.as_str());
                assert(out@ == "I/O error: "@ + t@);
            }
            StorageError::Format(m) => {
                push_str(&mut out, "File format error: ");
                push_str(&mut out, m.as_str());
            }
            StorageError::TypeMismatch { expected, found } => {
                push_str(&mut out, "Type mismatch: expected ");
                push_str(&mut out, expected.as_str());
                push_str(&mut out, ", found ");
                push_str(&mut out, found.as_str());
            }
            StorageError::RegionNotFound(n) => {
                push_str(&mut out, "Region not found: ");
                push_str(&mut out, n.as_str());
            }
            StorageError::SeriesNotFound(n) => {
                push_str(&mut out, "Series not found: ");
                push_str(&mut out, n.as_str());
            }
            StorageError::StorageFull => {
                push_str(&mut out, "Storage full");
            }
        }
        out
    }
}

/// The type descriptor for stored data.
#[derive(Debug, PartialEq)]
pub enum StorageType {
    Unit,
    Bool,
    Byte,
    Short,
    Int,
    Long,
    Float,
    Double,
    String,
    Array(Box<StorageType>),
    FixedArray(Box<StorageType>, usize),
    Record(NameMap<StorageType>),
    Variant(NameMap<StorageType>),
}

/// The model of a storage type.
pub enum SStorage {
    Unit,
    Bool,
    Byte,
    Short,
    Int,
    Long,
    Float,
    Double,
    String,
    Array(Box<SStorage>),
    FixedArray(Box<SStorage>, usize),
    Record(Seq<(Seq<char>, SStorage)>),
    Variant(Seq<(Seq<char>, SStorage)>),
}

impl StorageType {
    /// The model of this type.
    pub open spec fn model(&self) -> SStorage
        decreases self,
    {
        match self {
            StorageType::Unit => SStorage::Unit,
            StorageType::Bool => SStorage::Bool,
            StorageType::Byte => SStorage::Byte,
            StorageType::Short => SStorage::Short,
            StorageType::Int => SStorage::Int,
            StorageType::Long => SStorage::Long,
            StorageType::Float => SStorage::Float,
            StorageType::Double => SStorage::Double,
            StorageType::String => SStorage::String,
            StorageType::Array(e) => SStorage::Array(Box::new(e.model())),
            StorageType::FixedArray(e, n) => SStorage::FixedArray(Box::new(e.model()), *n),
            StorageType::Record(m) => SStorage::Record(
                Seq::new(
                    m.entries@.len(),
                    |i: int|
                        if 0 <= i < m.entries@.len() {
                            proof {
                                assert(decreases_to!(m.entries => m.entries@));
                            }
                            (m.entries@[i].0@, m.entries@[i].1.model())
                        } else {
                            (Seq::empty(), SStorage::Unit)
                        },
                ),
            ),
            StorageType::Variant(m) => SStorage::Variant(
                Seq::new(
                    m.entries@.len(),
                    |i: int|
                        if 0 <= i < m.entries@.len() {
                            proof {
                                assert(decreases_to!(m.entries => m.entries@));
                            }
                            (m.entries@[i].0@, m.entries@[i].1.model())
                        } else {
                            (Seq::empty(), SStorage::Unit)
                        },
                ),
            ),
        }
    }
}

impl View for StorageType {
    type V = SStorage;

    open spec fn view(&self) -> SStorage {
        self.model()
    }
}

impl StorageType {
    /// A copy of this type with the same model.
    pub fn copy(&self) -> (r: StorageType)
        ensures
            r@ == self@,
        decreases self,
    {
        match self {
            StorageType::Unit => StorageType::Unit,
            StorageType::Bool => StorageType::Bool,
            StorageType::Byte => StorageType::Byte,
            StorageType::Short => StorageType::Short,
            StorageType::Int => StorageType::Int,
            StorageType::Long => StorageType::Long,
            StorageType::Float => StorageType::Float,
            StorageType::Double => StorageType::Double,
            StorageType::String => StorageType::String,
            StorageType::Array(e) => StorageType::Array(Box::new(e.copy())),
            StorageType::FixedArray(e, n) => StorageType::FixedArray(Box::new(e.copy()), *n),
            StorageType::Record(m) => {
                let r = StorageType::Record(copy_storage_fields(m));
                proof {
                    lemma_views_record(*self);
                    lemma_views_record(r);
                    assert(storage_fields(r->Record_0) =~= storage_fields(*m));
                }
                r
            }
            StorageType::Variant(m) => {
                let r = StorageType::Variant(copy_storage_fields(m));
                proof {
                    lemma_views_variant(*self);
                    lemma_views_variant(r);
                    assert(storage_fields(r->Variant_0) =~= storage_fields(*m));
                }
                r
            }
        }
    }
}

impl Clone for StorageType {
    fn clone(&self) -> (r: Self)
        ensures
            r@ == self@,
    {
        self.copy()
    }
}

/// Copies of each field of `m`, with the same names and models.
fn copy_storage_fields(m: &NameMap<StorageType>) -> (r: NameMap<StorageType>)
    ensures
        storage_fields(r) == storage_fields(*m),
    decreases m,
{
    let mut entries: Vec<(String, StorageType)> = Vec::new();
    let mut i: usize = 0;
    while i < m.entries.len()
        invariant
            i <= m.entries@.len(),
            entries@.len() == i,
            forall|j: int| 0 <= j < i ==> (#[trigger] entries@[j]).0@ == m.entries@[j].0@
                && entries@[j].1@ == m.entries@[j].1@,
        decreases m.entries.len() - i,
    {
        proof {
            assert(decreases_to!(m => m.entries));
            assert(decreases_to!(m.entries => m.entries@));
        }
        entries.push((m.entries[i].0.clone(), m.entries[i].1.copy()));
        i += 1;
    }
    let r = NameMap { entries };
    assert(storage_fields(r) =~= storage_fields(*m));
    r
}

proof fn lemma_views_variant(t: StorageType)
    requires
        t is Variant,
    ensures
        t@ == SStorage::Variant(storage_fields(t->Variant_0)),
{
    assert(t@->Variant_0 =~= storage_fields(t->Variant_0));
}

impl Clone for SeriesMetadata {
    fn clone(&self) -> (r: Self)
        ensures
            r.name@ == self.name@,
            r.element_type@ == self.element_type@,
            r.count == self.count,
            r.offset == self.offset,
            r.length == self.length,
    {
        SeriesMetadata {
            name: self.name.clone(),
            element_type: self.element_type.copy(),
            count: self.count,
            offset: self.offset,
            length: self.length,
        }
    }
}

/// The size in bytes of every value of type `t`, where it is fixed: the
/// primitive sizes, an element size times the length for a fixed array, the
/// sum of the field sizes for a record.
pub open spec fn storage_size(t: SStorage) -> Option<nat>
    decreases t, 0nat,
{
    match t {
        SStorage::Unit => Some(0),
        SStorage::Bool => Some(1),
        SStorage::Byte => Some(1),
        SStorage::Short => Some(2),
        SStorage::Int => Some(4),
        SStorage::Long => Some(8),
        SStorage::Float => Some(4),
        SStorage::Double => Some(8),
        SStorage::FixedArray(e, n) => match storage_size(*e) {
            Some(s) => Some(s * (n as nat)),
            None => None,
        },
        SStorage::Record(fs) => fields_size(fs),
        _ => None,
    }
}

/// The sum of the sizes of the fields, where every one is fixed.
pub open spec fn fields_size(fs: Seq<(Seq<char>, SStorage)>) -> Option<nat>
    decreases fs, 1nat,
{
    if fs.len() == 0 {
        Some(0)
    } else {
        match (fields_size(fs.drop_last()), storage_size(fs.last().1)) {
            (Some(a), Some(b)) => Some(a + b),
            _ => None,
        }
    }
}

/// Every product and partial sum computed on the way to `storage_size(t)`
/// fits in a `usize` (fields are summed in order, and a field is sized only
/// when every field before it is fixed).
pub open spec fn size_computable(t: SStorage) -> bool
    decreases t, 0nat,
{
    match t {
        SStorage::FixedArray(e, n) => size_computable(*e) && match storage_size(*e) {
            Some(s) => s * n <= usize::MAX,
            None => true,
        },
        SStorage::Record(fs) => fields_computable(fs),
        _ => true,
    }
}

/// Every partial sum computed on the way to `fields_size(fs)` fits in a
/// `usize`.
pub open spec fn fields_computable(fs: Seq<(Seq<char>, SStorage)>) -> bool
    decreases fs, 1nat,
{
    if fs.len() == 0 {
        true
    } else {
        fields_computable(fs.drop_last()) && match fields_size(fs.drop_last()) {
            Some(a) => size_computable(fs.last().1) && match storage_size(fs.last().1) {
                Some(b) => a + b <= usize::MAX,
                None => true,
            },
            None => true,
        }
    }
}

/// The models of the fields of a record or variant.
pub open spec fn storage_fields(m: NameMap<StorageType>) -> Seq<(Seq<char>, SStorage)> {
    Seq::new(m.entries@.len(), |i: int| (m.entries@[i].0@, m.entries@[i].1@))
}

proof fn lemma_views_record(t: StorageType)
    requires
        t is Record,
    ensures
        t@ == SStorage::Record(storage_fields(t->Record_0)),
{
    assert(t@->Record_0 =~= storage_fields(t->Record_0));
}

impl StorageType {
    /// The size in bytes of every value of this type, where it is fixed.
    pub fn fixed_size(&self) -> (r: Option<usize>)
        requires
            size_computable(self@),
        ensures
            r matches Some(n) ==> storage_size(self@) == Some(n as nat),
            r is None <==> storage_size(self@) is None,
        decreases self,
    {
        match self {
            StorageType::Unit => Some(0),
            StorageType::Bool => Some(1),
            StorageType::Byte => Some(1),
            StorageType::Short => Some(2),
            StorageType::Int => Some(4),
            StorageType::Long => Some(8),
            StorageType::Float => Some(4),
            StorageType::Double => Some(8),
            StorageType::FixedArray(elem, n) => match elem.fixed_size() {
                Some(s) => {
                    assert(s * (*n as nat) <= usize::MAX);
                    Some(s * *n)
                }
                None => None,
            },
            StorageType::Record(fields) => {
                proof {
                    lemma_views_record(*self);
                }
                let ghost fs = storage_fields(*fields);
                let mut total: usize = 0;
                let mut i: usize = 0;
                while i < fields.entries.len()
                    invariant
                        i <= fields.entries@.len(),
                        fs == storage_fields(*fields),
                        self@ == SStorage::Record(fs),
                        decreases_to!(*self => *fields),
                        fields_computable(fs),
                        fields_size(fs.take(i as int)) == Some(total as nat),
                    decreases fields.entries.len() - i,
                {
                    proof {
                        assert(decreases_to!(fields => fields.entries));
                        assert(decreases_to!(fields.entries => fields.entries@));
                        assert(fs.take(i + 1).drop_last() =~= fs.take(i as int));
                        assert(fs.take(i + 1).last() == fs[i as int]);
                        lemma_fields_computable_prefix(fs, i + 1);
                    }
                    match fields.entries[i].1.fixed_size() {
                        Some(s) => {
                            total = total + s;
                        }
                        None => {
                            proof {
                                assert(fs[i as int].1 == fields.entries@[i as int].1@);
                                assert(fields_size(fs.take(i + 1)) is None);
                                lemma_fields_size_none_extends(fs, i + 1);
                                assert(fields_size(fs.take(fs.len() as int)) is None);
                                assert(fs.take(fs.len() as int) =~= fs);
                            }
                            return None;
                        }
                    }
                    i += 1;
                }
                proof {
                    assert(fs.take(i as int) =~= fs);
                }
                Some(total)
            }
            _ => None,
        }
    }

    /// Whether every value of this type has the same, known size.
    pub fn is_fixed_size(&self) -> (r: bool)
        ensures
            r == storage_size(self@) is Some,
        decreases self,
    {
        match self {
            StorageType::Unit | StorageType::Bool | StorageType::Byte | StorageType::Short
            | StorageType::Int | StorageType::Long | StorageType::Float | StorageType::Double => true,
            StorageType::FixedArray(elem, _) => elem.is_fixed_size(),
            StorageType::Record(fields) => {
                proof {
                    lemma_views_record(*self);
                }
                let ghost fs = storage_fields(*fields);
                let mut i: usize = 0;
                while i < fields.entries.len()
                    invariant
                        i <= fields.entries@.len(),
                        fs == storage_fields(*fields),
                        self@ == SStorage::Record(fs),
                        decreases_to!(*self => *fields),
                        fields_size(fs.take(i as int)) is Some,
                    decreases fields.entries.len() - i,
                {
                    proof {
                        assert(decreases_to!(fields => fields.entries));
                        assert(decreases_to!(fields.entries => fields.entries@));
                        assert(fs.take(i + 1).drop_last() =~= fs.take(i as int));
                        assert(fs.take(i + 1).last() == fs[i as int]);
                    }
                    if !fields.entries[i].1.is_fixed_size() {
                        proof {
                            assert(fs[i as int].1 == fields.entries@[i as int].1@);
                            assert(fields_size(fs.take(i + 1)) is None);
                            lemma_fields_size_none_extends(fs, i + 1);
                            assert(fields_size(fs.take(fs.len() as int)) is None);
                            assert(fs.take(fs.len() as int) =~= fs);
                        }
                        return false;
                    }
                    i += 1;
                }
                proof {
                    assert(fs.take(i as int) =~= fs);
                }
                true
            }
            _ => false,
        }
    }
}

/// The computability of the sums of the fields carries over to each
/// prefix of the fields.
proof fn lemma_fields_computable_prefix(fs: Seq<(Seq<char>, SStorage)>, k: int)
    requires
        fields_computable(fs),
        0 <= k <= fs.len(),
    ensures
        fields_computable(fs.take(k)),
    decreases fs.len() - k,
{
    if k < fs.len() {
        lemma_fields_computable_prefix(fs, k + 1);
        assert(fs.take(k + 1).drop_last() =~= fs.take(k));
    } else {
        assert(fs.take(k) =~= fs);
    }
}

/// Once a prefix of the fields has no fixed size, no longer prefix has.
proof fn lemma_fields_size_none_extends(fs: Seq<(Seq<char>, SStorage)>, k: int)
    requires
        0 <= k <= fs.len(),
        fields_size(fs.take(k)) is None,
    ensures
        forall|j: int| k <= j <= fs.len() ==> #[trigger] fields_size(fs.take(j)) is None,
    decreases fs.len() - k,
{
    if k < fs.len() {
        assert(fs.take(k + 1).drop_last() =~= fs.take(k));
        lemma_fields_size_none_extends(fs, k + 1);
    }
}

/// Metadata for a data series within a storage file.
#[derive(Debug)]
pub struct SeriesMetadata {
    /// The name of the series.
    pub name: String,
    /// The type of each element in the series.
    pub element_type: StorageType,
    /// The number of elements stored.
    pub count: u64,
    /// The byte offset of the series data in the file.
    pub offset: u64,
    /// The byte length of the series data.
    pub length: u64,
}

/// Metadata for a storage file.
#[derive(Debug)]
pub struct FileMetadata {
    /// The file format version.
    pub version: u32,
    /// The creation timestamp (Unix epoch seconds).
    pub created_at: u64,
    /// The last modified timestamp.
    pub modified_at: u64,
    /// Custom metadata key-value pairs.
    pub properties: NameMap<String>,
    /// The data series stored in this file, by name.
    pub series: NameMap<SeriesMetadata>,
}

/// A storage group that manages multiple series.
#[derive(Debug)]
pub struct StorageGroup {
    /// The name of this storage group.
    pub name: String,
    /// The directory where data files are stored.
    pub directory: String,
    /// The metadata for the current file.
    pub metadata: FileMetadata,
}

/// The path of `file` inside `dir`, as joining paths does on Unix: an
/// absolute `file` stands alone, an empty `dir` adds nothing, and a
/// separator goes between the two unless `dir` already ends with one.
pub open spec fn join_path(dir: Seq<char>, file: Seq<char>) -> Seq<char> {
    if file.len() > 0 && file[0] == '/' {
        file
    } else if dir.len() == 0 {
        file
    } else if dir.last() == '/' {
        dir + file
    } else {
        dir + "/"@ + file
    }
}

/// `file` inside `dir` (see `join_path`).
pub fn join(dir: &str, file: &str) -> (r: String)
    ensures
        r@ == join_path(dir@, file@),
{
    let fc = crate::text::chars_of(file);
    let dc = crate::text::chars_of(dir);
    if fc.len() > 0 && fc[0] == '/' {
        return owned(file);
    }
    let mut out = owned(dir);
    if dc.len() > 0 && dc[dc.len() - 1] != '/' {
        push_str(&mut out, "/");
    }
    push_str(&mut out, file);
    out
}

impl StorageGroup {
    /// A new, empty storage group in `directory`, created at `created_at`
    /// (Unix epoch seconds).
    pub fn new(name: &str, directory: &str, created_at: u64) -> (r: Self)
        ensures
            r.name@ == name@,
            r.directory@ == directory@,
            r.metadata.version == 1,
            r.metadata.created_at == created_at,
            r.metadata.modified_at == 0,
            r.metadata.properties@ == Map::<Seq<char>, String>::empty(),
            r.metadata.series@ == Map::<Seq<char>, SeriesMetadata>::empty(),
            r.metadata.properties.wf(),
            r.metadata.series.wf(),
    {
        let r = StorageGroup {
            name: owned(name),
            directory: owned(directory),
            metadata: FileMetadata {
                version: 1,
                created_at,
                modified_at: 0,
                properties: NameMap::new(),
                series: NameMap::new(),
            },
        };
        proof {
            assert(r.metadata.properties@ =~= Map::<Seq<char>, String>::empty());
            assert(r.metadata.series@ =~= Map::<Seq<char>, SeriesMetadata>::empty());
        }
        r
    }

    /// The path of this group's data file: `<name>.calvin` in its directory.
    pub fn data_file_path(&self) -> (r: String)
        ensures
            r@ == join_path(self.directory@, self.name@ + ".calvin"@),
    {
        let mut file = self.name.clone();
        push_str(&mut file, ".calvin");
        join(self.directory.as_str(), file.as_str())
    }

    /// The path of this group's metadata file: `<name>.meta.json` in its
    /// directory.
    pub fn metadata_file_path(&self) -> (r: String)
        ensures
            r@ == join_path(self.directory@, self.name@ + ".meta.json"@),
    {
        let mut file = self.name.clone();
        push_str(&mut file, ".meta.json");
        join(self.directory.as_str(), file.as_str())
    }

    /// The series of this group, in name order.
    pub fn list_series(&self) -> (r: Vec<&SeriesMetadata>)
        ensures
            r@.len() == self.metadata.series.entries@.len(),
            forall|i: int| 0 <= i < r@.len() ==> *r@[i] == self.metadata.series.entries@[i].1,
    {
        let mut r: Vec<&SeriesMetadata> = Vec::new();
        let mut i: usize = 0;
        while i < self.metadata.series.entries.len()
            invariant
                i <= self.metadata.series.entries@.len(),
                r@.len() == i,
                forall|j: int| 0 <= j < i ==> *r@[j] == self.metadata.series.entries@[j].1,
            decreases self.metadata.series.entries.len() - i,
        {
            r.push(&self.metadata.series.entries[i].1);
            i += 1;
        }
        r
    }
}

impl SeriesMetadata {
    /// One line about this series: `<name> - <count> elements (<length>
    /// bytes)`.
    pub fn summary(&self) -> (r: String)
        ensures
            r@ == self.name@ + " - "@ + decimal(self.count as nat) + " elements ("@ + decimal(self.length as nat)
                + " bytes)"@,
    {
        let mut r = self.name.clone();
        push_str(&mut r, " - ");
        push_decimal(&mut r, self.count);
        push_str(&mut r, " elements (");
        push_decimal(&mut r, self.length);
        push_str(&mut r, " bytes)");
        r
    }
}

/// The name of the storage group whose metadata file is named `file`:
/// what comes before `.meta.json`; none for other files.
pub fn stored_group_name(file: &str) -> (r: Option<String>)
    ensures
        file@.len() >= 10 && file@.subrange(file@.len() - 10, file@.len() as int) == ".meta.json"@
            ==> (r matches Some(n) && n@ == file@.subrange(0, file@.len() - 10)),
        !(file@.len() >= 10 && file@.subrange(file@.len() - 10, file@.len() as int) == ".meta.json"@)
            ==> r is None,
{
    let cs = chars_of(file);
    let suffix = chars_of(".meta.json");
    proof {
        reveal_strlit(".meta.json");
    }
    if cs.len() < 10 {
        return None;
    }
    let start = cs.len() - 10;
    let mut i: usize = 0;
    while i < 10
        invariant
            i <= 10,
            cs@ == file@,
            start + 10 == cs@.len(),
            cs@.len() <= usize::MAX,
            suffix@ == ".meta.json"@,
            suffix@.len() == 10,
            forall|j: int| 0 <= j < i ==> cs@[start + j] == suffix@[j],
        decreases 10 - i,
    {
        if cs[start + i] != suffix[i] {
            assert(cs@.subrange(start as int, cs@.len() as int)[i as int] != ".meta.json"@[i as int]);
            return None;
        }
        i += 1;
    }
    assert(cs@.subrange(start as int, cs@.len() as int) =~= ".meta.json"@);
    Some(string_from_chars(&cs, 0, start))
}

/// Each primitive storage type takes as many bytes as the machine value it
/// stores: unit none, a boolean and a byte one, a short two, an int four,
/// a long eight, a float the four bytes of its 32-bit IEEE encoding and a
/// double the eight of its 64-bit one; strings and arrays have no fixed
/// size.
pub proof fn law_primitive_sizes()
    ensures
        storage_size(SStorage::Unit) == Some(vstd::layout::size_of::<()>()),
        storage_size(SStorage::Bool) == Some(vstd::layout::size_of::<bool>()),
        storage_size(SStorage::Byte) == Some(vstd::layout::size_of::<u8>()),
        storage_size(SStorage::Short) == Some(vstd::layout::size_of::<i16>()),
        storage_size(SStorage::Int) == Some(vstd::layout::size_of::<i32>()),
        storage_size(SStorage::Long) == Some(vstd::layout::size_of::<i64>()),
        storage_size(SStorage::Float) == Some(vstd::layout::size_of::<u32>()),
        storage_size(SStorage::Double) == Some(vstd::layout::size_of::<u64>()),
        storage_size(SStorage::String) is None,
        forall|e: SStorage| #[trigger] storage_size(SStorage::Array(Box::new(e))) is None,
{
    broadcast use vstd::layout::layout_of_primitives, vstd::layout::layout_of_unit_tuple;
}

/// A fixed array of `n` elements takes `n` times its element's size, and a
/// record one field longer takes that field's size more; a record or array
/// with a part of no fixed size has none.
pub proof fn law_composite_sizes(e: SStorage, n: usize, fs: Seq<(Seq<char>, SStorage)>, name: Seq<char>, f: SStorage)
    ensures
        storage_size(SStorage::FixedArray(Box::new(e), n)) == match storage_size(e) {
            Some(s) => Some(s * (n as nat)),
            None => None::<nat>,
        },
        storage_size(SStorage::Record(Seq::empty())) == Some(0nat),
        storage_size(SStorage::Record(fs.push((name, f)))) == match (storage_size(SStorage::Record(fs)), storage_size(f)) {
            (Some(a), Some(b)) => Some(a + b),
            _ => None::<nat>,
        },
{
    let g = fs.push((name, f));
    assert(g.drop_last() =~= fs);
    assert(g.last() == (name, f));
    assert(storage_size(SStorage::Record(g)) == fields_size(g));
    assert(storage_size(SStorage::Record(fs)) == fields_size(fs));
    assert(fields_size(Seq::<(Seq<char>, SStorage)>::empty()) == Some(0nat));
    assert(storage_size(SStorage::Record(Seq::empty())) == fields_size(Seq::empty()));
}

} // verus!
