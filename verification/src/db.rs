//! The index: what it holds, the statements that read and change it, and when its
//! images have to go because the model is another one.

use vstd::hash_map::StringHashMap;
use vstd::prelude::*;

use crate::config;
use crate::outside;
use crate::outside::format_rfc3339;
use crate::paths;
use crate::paths::parent_path;
use crate::text;
use crate::text::{clone_opt, same_text};

verus! {

// ---------------------------------------------------------------------------
// Records
// ---------------------------------------------------------------------------

/// What the index knows of an image file: its path, when it was last changed and how large it
/// was then.
#[derive(Clone, Debug)]
pub struct IndexedImageSnapshot {
    pub path: String,
    pub mtime_ms: i64,
    pub size_bytes: i64,
}

/// An image that goes into the index. Each component of the vector is given by the bits of its
/// IEEE 754 single.
#[derive(Clone, Debug)]
pub struct NewImageRecord {
    pub path: String,
    pub file_name: String,
    pub mtime_ms: i64,
    pub size_bytes: i64,
    pub dims: usize,
    pub vector: Vec<u32>,
}

/// An image of the index that is searched. Each component of the vector is given by the bits of
/// its IEEE 754 single.
#[derive(Clone, Debug)]
pub struct SearchImageRecord {
    pub id: i64,
    pub file_name: String,
    pub path: String,
    pub dims: usize,
    pub vector: Vec<u32>,
}

/// Why something could not be written to the index or read from it.
#[derive(Clone, Debug, PartialEq, Eq)]
pub enum DbError {
    /// The directory of the database could not be made.
    CreateDir(String),
    /// The database could not be opened.
    Open(String),
    /// The number of images is no number of items.
    ImageCount,
    /// The number of components of a vector is too large to be stored.
    Dims,
    /// The time could not be written down.
    Timestamp,
    /// The bytes of a vector are not whole components.
    BlobLength,
    /// A stored number of components is negative.
    StoredDims,
    /// The bytes of a stored vector are not whole components.
    StoredVector,
}

impl DbError {
    /// The message of the error.
    pub open spec fn text(&self) -> Seq<char> {
        match self {
            DbError::CreateDir(dir) => "failed to create database parent directory "@ + dir@,
            DbError::Open(path) => "failed to open database at "@ + path@,
            DbError::ImageCount => "image count does not fit into usize"@,
            DbError::Dims => "embedding dimension does not fit into i64"@,
            DbError::Timestamp => "failed to format timestamp"@,
            DbError::BlobLength => "vector blob length must be divisible by 4"@,
            DbError::StoredDims =>
                "Conversion error from type Integer at index: 3, stored dims is negative"@,
            DbError::StoredVector =>
                "Conversion error from type Blob at index: 4, vector blob length must be divisible by 4"@,
        }
    }

    /// The message of the error.
    pub fn message(&self) -> (r: String)
        ensures
            r@ == self.text(),
    {
        match self {
            DbError::CreateDir(dir) => {
                let head = "failed to create database parent directory ".to_owned();
                head.concat(dir.as_str())
            },
            DbError::Open(path) => {
                let head = "failed to open database at ".to_owned();
                head.concat(path.as_str())
            },
            DbError::ImageCount => "image count does not fit into usize".to_owned(),
            DbError::Dims => "embedding dimension does not fit into i64".to_owned(),
            DbError::Timestamp => "failed to format timestamp".to_owned(),
            DbError::BlobLength => "vector blob length must be divisible by 4".to_owned(),
            DbError::StoredDims =>
                "Conversion error from type Integer at index: 3, stored dims is negative".to_owned(),
            DbError::StoredVector =>
                "Conversion error from type Blob at index: 4, vector blob length must be divisible by 4".to_owned(),
        }
    }
}

// ---------------------------------------------------------------------------
// Vectors as bytes
// ---------------------------------------------------------------------------

/// The byte `k` of `v`, counted from the lowest.
pub open spec fn byte_of(v: u32, k: int) -> u8 {
    if k == 0 {
        (v % 256) as u8
    } else if k == 1 {
        (v / 256 % 256) as u8
    } else if k == 2 {
        (v / 65536 % 256) as u8
    } else {
        (v / 16777216) as u8
    }
}

/// The bytes of a vector: four for each component, the lowest first.
pub open spec fn encoded(values: Seq<u32>) -> Seq<u8> {
    Seq::new(4 * values.len(), |i: int| byte_of(values[i / 4], i % 4))
}

/// The component whose lowest byte stands at `i`.
pub open spec fn word_at(blob: Seq<u8>, i: int) -> u32 {
    (blob[i] + 256 * blob[i + 1] + 65536 * blob[i + 2] + 16777216 * blob[i + 3]) as u32
}

/// The vector whose bytes are `blob`.
pub open spec fn decoded(blob: Seq<u8>) -> Seq<u32> {
    Seq::new(blob.len() / 4, |i: int| word_at(blob, 4 * i))
}

/// The bytes of a vector.
pub fn encode_vector(values: &[u32]) -> (r: Vec<u8>)
    ensures
        r@ == encoded(values@),
{
    let mut bytes: Vec<u8> = Vec::new();
    let mut i: usize = 0;
    while i < values.len()
        invariant
            i <= values@.len(),
            bytes@ == encoded(values@.take(i as int)),
        decreases values@.len() - i,
    {
        let v: u32 = values[i];
        bytes.push((v % 256) as u8);
        bytes.push((v / 256 % 256) as u8);
        bytes.push((v / 65536 % 256) as u8);
        bytes.push((v / 16777216) as u8);
        i += 1;
        assert(bytes@ =~= encoded(values@.take(i as int)));
    }
    assert(values@.take(i as int) =~= values@);
    bytes
}

/// The vector whose bytes are `blob`.
pub fn decode_vector(blob: &[u8]) -> (r: Result<Vec<u32>, DbError>)
    ensures
        match r {
            Ok(v) => blob@.len() % 4 == 0 && v@ == decoded(blob@),
            Err(e) => blob@.len() % 4 != 0 && e == DbError::BlobLength,
        },
{
    if blob.len() % 4 != 0 {
        return Err(DbError::BlobLength);
    }
    let mut values: Vec<u32> = Vec::new();
    let mut i: usize = 0;
    while i < blob.len() / 4
        invariant
            i <= blob@.len() / 4,
            values@ == decoded(blob@).take(i as int),
        decreases blob@.len() / 4 - i,
    {
        let k: usize = 4 * i;
        let v: u32 = blob[k] as u32 + 256 * (blob[k + 1] as u32) + 65536 * (blob[k + 2] as u32)
            + 16777216 * (blob[k + 3] as u32);
        values.push(v);
        i += 1;
        assert(values@ =~= decoded(blob@).take(i as int));
    }
    assert(decoded(blob@).take(i as int) =~= decoded(blob@));
    Ok(values)
}

/// A vector that was turned into bytes comes back from them as it was.
pub proof fn law_vector_round_trip(values: Seq<u32>)
    ensures
        encoded(values).len() % 4 == 0,
        decoded(encoded(values)) == values,
{
    assert forall|i: int| 0 <= i < values.len() implies decoded(encoded(values))[i]
        == values[i] by {
        let blob = encoded(values);
        let v = values[i];
        assert(blob[4 * i] == byte_of(v, 0));
        assert(blob[4 * i + 1] == byte_of(v, 1));
        assert(blob[4 * i + 2] == byte_of(v, 2));
        assert(blob[4 * i + 3] == byte_of(v, 3));
    }
    assert(decoded(encoded(values)) =~= values);
}

/// Whole components come back from the vector that they were turned into.
pub proof fn law_blob_round_trip(blob: Seq<u8>)
    requires
        blob.len() % 4 == 0,
    ensures
        encoded(decoded(blob)) == blob,
{
    assert forall|i: int| 0 <= i < blob.len() implies encoded(decoded(blob))[i] == blob[i] by {
        let k = 4 * (i / 4);
        let v = word_at(blob, k);
        assert(v == blob[k] + 256 * blob[k + 1] + 65536 * blob[k + 2] + 16777216 * blob[k + 3]);
        assert(byte_of(v, 0) == blob[k]);
        assert(byte_of(v, 1) == blob[k + 1]);
        assert(byte_of(v, 2) == blob[k + 2]);
        assert(byte_of(v, 3) == blob[k + 3]);
    }
    assert(encoded(decoded(blob)) =~= blob);
}

// ---------------------------------------------------------------------------
// Statements
// ---------------------------------------------------------------------------

/// A parameter of a statement.
#[derive(Debug)]
pub enum SqlValue {
    Text(String),
    Integer(i64),
    Blob(Vec<u8>),
}

/// What a parameter of a statement holds.
pub enum Value {
    Text(Seq<char>),
    Integer(i64),
    Blob(Seq<u8>),
}

impl View for SqlValue {
    type V = Value;

    open spec fn view(&self) -> Value {
        match self {
            SqlValue::Text(s) => Value::Text(s@),
            SqlValue::Integer(n) => Value::Integer(*n),
            SqlValue::Blob(b) => Value::Blob(b@),
        }
    }
}

/// What the parameters of a statement hold.
pub open spec fn values_of(v: Seq<SqlValue>) -> Seq<Value> {
    v.map_values(|x: SqlValue| x@)
}

/// A statement and its parameters.
#[derive(Debug)]
pub struct Statement {
    pub sql: &'static str,
    pub params: Vec<SqlValue>,
}

pub const SCHEMA_SQL: &'static str = "PRAGMA journal_mode = WAL;
PRAGMA synchronous = NORMAL;

CREATE TABLE IF NOT EXISTS images (
    id INTEGER PRIMARY KEY,
    path TEXT NOT NULL UNIQUE,
    file_name TEXT NOT NULL,
    mtime_ms INTEGER NOT NULL,
    size_bytes INTEGER NOT NULL,
    dims INTEGER NOT NULL,
    vector_blob BLOB NOT NULL,
    created_at TEXT NOT NULL,
    updated_at TEXT NOT NULL
);

CREATE TABLE IF NOT EXISTS app_meta (
    key TEXT PRIMARY KEY,
    value TEXT NOT NULL
);";

pub const CLEAR_IMAGES_SQL: &'static str = "DELETE FROM images";

pub const COUNT_IMAGES_SQL: &'static str = "SELECT COUNT(*) FROM images";

pub const GET_META_SQL: &'static str = "SELECT value FROM app_meta WHERE key = ?1";

pub const SET_META_SQL: &'static str = "INSERT INTO app_meta (key, value)
VALUES (?1, ?2)
ON CONFLICT(key) DO UPDATE SET value = excluded.value";

pub const DELETE_META_SQL: &'static str = "DELETE FROM app_meta WHERE key = ?1";

pub const LIST_INDEXED_SQL: &'static str =
    "SELECT path, mtime_ms, size_bytes FROM images ORDER BY id";

pub const UPSERT_IMAGE_SQL: &'static str = "INSERT INTO images (
    path, file_name, mtime_ms, size_bytes, dims, vector_blob, created_at, updated_at
)
VALUES (?1, ?2, ?3, ?4, ?5, ?6, ?7, ?7)
ON CONFLICT(path) DO UPDATE SET
    file_name = excluded.file_name,
    mtime_ms = excluded.mtime_ms,
    size_bytes = excluded.size_bytes,
    dims = excluded.dims,
    vector_blob = excluded.vector_blob,
    updated_at = excluded.updated_at";

pub const DELETE_IMAGE_SQL: &'static str = "DELETE FROM images WHERE path = ?1";

pub const LIST_SEARCH_SQL: &'static str =
    "SELECT id, file_name, path, dims, vector_blob FROM images ORDER BY updated_at DESC, id DESC";

pub const IMAGE_PATH_SQL: &'static str = "SELECT path FROM images WHERE id = ?1";

pub const SIGNATURE_KEY: &'static str = "index_model_signature";

// ---------------------------------------------------------------------------
// Changes
// ---------------------------------------------------------------------------

/// A row of the table of images, at the time `now`.
#[derive(Debug)]
pub struct ImageRow {
    pub path: String,
    pub file_name: String,
    pub mtime_ms: i64,
    pub size_bytes: i64,
    pub dims: i64,
    pub vector_blob: Vec<u8>,
    pub now: String,
}

/// A change of the index.
#[derive(Debug)]
pub enum DbChange {
    /// All images go.
    ClearImages,
    /// The images belong to the model with this signature.
    SetSignature(String),
    /// The images belong to no known model.
    ClearSignature,
    /// The image comes in, in place of the one at its path.
    Upsert(ImageRow),
    /// The image at this path goes.
    DeleteImage(String),
}

/// What the index holds of an image besides its path.
pub struct Row {
    pub id: i64,
    pub file_name: Seq<char>,
    pub mtime_ms: i64,
    pub size_bytes: i64,
    pub dims: i64,
    pub vector_blob: Seq<u8>,
    pub created_at: Seq<char>,
    pub updated_at: Seq<char>,
}

/// What the index holds: images by their paths, and the signature of the model that they were
/// embedded with.
#[verifier::ext_equal]
pub struct Index {
    pub images: Map<Seq<char>, Row>,
    pub signature: Option<Seq<char>>,
}

impl ImageRow {
    /// What the index holds of the image once the row is in it.
    pub open spec fn row(&self, id: i64, created_at: Seq<char>) -> Row {
        Row {
            id,
            file_name: self.file_name@,
            mtime_ms: self.mtime_ms,
            size_bytes: self.size_bytes,
            dims: self.dims,
            vector_blob: self.vector_blob@,
            created_at,
            updated_at: self.now@,
        }
    }
}

/// Whether an image of the index has the number `id`.
pub open spec fn has_id(index: Index, id: i64) -> bool {
    exists|p: Seq<char>| #[trigger] index.images.contains_key(p) && index.images[p].id == id
}

/// The number that an image gets when it comes into the index: one that no image has. Which of
/// them it is, is left to the database.
pub open spec fn new_id(index: Index) -> i64 {
    choose|id: i64| !has_id(index, id)
}

impl DbChange {
    /// The index after the change. This is what `sql` asks of the database; that the database
    /// does it is not proved here.
    pub open spec fn effect(&self, index: Index) -> Index {
        match self {
            DbChange::ClearImages => Index { images: Map::empty(), signature: index.signature },
            DbChange::SetSignature(s) => Index { images: index.images, signature: Some(s@) },
            DbChange::ClearSignature => Index { images: index.images, signature: None },
            DbChange::Upsert(row) => {
                let stored = if index.images.contains_key(row.path@) {
                    row.row(index.images[row.path@].id, index.images[row.path@].created_at)
                } else {
                    row.row(new_id(index), row.now@)
                };
                Index {
                    images: index.images.insert(row.path@, stored),
                    signature: index.signature,
                }
            },
            DbChange::DeleteImage(path) => Index {
                images: index.images.remove(path@),
                signature: index.signature,
            },
        }
    }

    /// The text of the statement that makes the change.
    pub open spec fn sql(&self) -> Seq<char> {
        match self {
            DbChange::ClearImages => CLEAR_IMAGES_SQL@,
            DbChange::SetSignature(_) => SET_META_SQL@,
            DbChange::ClearSignature => DELETE_META_SQL@,
            DbChange::Upsert(_) => UPSERT_IMAGE_SQL@,
            DbChange::DeleteImage(_) => DELETE_IMAGE_SQL@,
        }
    }

    /// The parameters of the statement that makes the change.
    pub open spec fn params(&self) -> Seq<Value> {
        match self {
            DbChange::ClearImages => Seq::empty(),
            DbChange::SetSignature(s) => seq![Value::Text(SIGNATURE_KEY@), Value::Text(s@)],
            DbChange::ClearSignature => seq![Value::Text(SIGNATURE_KEY@)],
            DbChange::Upsert(row) => seq![
                Value::Text(row.path@),
                Value::Text(row.file_name@),
                Value::Integer(row.mtime_ms),
                Value::Integer(row.size_bytes),
                Value::Integer(row.dims),
                Value::Blob(row.vector_blob@),
                Value::Text(row.now@),
            ],
            DbChange::DeleteImage(path) => seq![Value::Text(path@)],
        }
    }

    /// The statement that makes the change.
    pub fn statement(self) -> (r: Statement)
        ensures
            r.sql@ == self.sql(),
            values_of(r.params@) == self.params(),
    {
        let ghost params = self.params();
        let mut v: Vec<SqlValue> = Vec::new();
        let sql = match self {
            DbChange::ClearImages => CLEAR_IMAGES_SQL,
            DbChange::SetSignature(s) => {
                v.push(SqlValue::Text(SIGNATURE_KEY.to_owned()));
                v.push(SqlValue::Text(s));
                SET_META_SQL
            },
            DbChange::ClearSignature => {
                v.push(SqlValue::Text(SIGNATURE_KEY.to_owned()));
                DELETE_META_SQL
            },
            DbChange::Upsert(row) => {
                v.push(SqlValue::Text(row.path));
                v.push(SqlValue::Text(row.file_name));
                v.push(SqlValue::Integer(row.mtime_ms));
                v.push(SqlValue::Integer(row.size_bytes));
                v.push(SqlValue::Integer(row.dims));
                v.push(SqlValue::Blob(row.vector_blob));
                v.push(SqlValue::Text(row.now));
                UPSERT_IMAGE_SQL
            },
            DbChange::DeleteImage(path) => {
                v.push(SqlValue::Text(path));
                DELETE_IMAGE_SQL
            },
        };
        assert(values_of(v@) =~= params);
        Statement { sql, params: v }
    }
}

/// The index after all of the changes.
pub open spec fn applied(changes: Seq<DbChange>, index: Index) -> Index
    decreases changes.len(),
{
    if changes.len() == 0 {
        index
    } else {
        changes.last().effect(applied(changes.drop_last(), index))
    }
}

/// What is to be done to open a database: make a directory, and open a file.
#[derive(Debug)]
pub struct Opening {
    pub create_dir: Option<String>,
    pub path: String,
}

/// How the database at `db_path` is opened: the directory that holds it is made first.
pub fn open_connection(db_path: &str) -> (r: Opening)
    ensures
        r.path@ == db_path@,
        text::of_string(r.create_dir) == config::holding_dir(db_path@),
{
    let create_dir = match parent_path(db_path) {
        Some(p) => if p.as_str().is_empty() {
            None
        } else {
            Some(p)
        },
        None => None,
    };
    Opening { create_dir, path: db_path.to_owned() }
}

/// How the database at `db_path` is opened for the first time, and what it then has to be told.
pub fn init(db_path: &str) -> (r: (Opening, &'static str))
    ensures
        r.0.path@ == db_path@,
        text::of_string(r.0.create_dir) == config::holding_dir(db_path@),
        r.1@ == SCHEMA_SQL@,
{
    (open_connection(db_path), SCHEMA_SQL)
}

/// Takes all images out of the index.
pub fn clear_images() -> (r: DbChange)
    ensures
        r is ClearImages,
{
    DbChange::ClearImages
}

/// Asks for the number of images.
pub fn count_images_query() -> (r: Statement)
    ensures
        r.sql@ == COUNT_IMAGES_SQL@,
        r.params@.len() == 0,
{
    Statement { sql: COUNT_IMAGES_SQL, params: Vec::new() }
}

/// The number of images, from the number that the database gave.
pub fn count_images(count: i64) -> (r: Result<usize, DbError>)
    ensures
        match r {
            Ok(n) => n == count,
            Err(e) => !(0 <= count <= usize::MAX) && e == DbError::ImageCount,
        },
{
    if count < 0 || count as u64 > usize::MAX as u64 {
        return Err(DbError::ImageCount);
    }
    Ok(count as usize)
}

/// Asks for the signature of the model that the images were embedded with.
pub fn get_index_model_signature() -> (r: Statement)
    ensures
        r.sql@ == GET_META_SQL@,
        values_of(r.params@) == seq![Value::Text(SIGNATURE_KEY@)],
{
    let mut params: Vec<SqlValue> = Vec::new();
    params.push(SqlValue::Text(SIGNATURE_KEY.to_owned()));
    assert(values_of(params@) =~= seq![Value::Text(SIGNATURE_KEY@)]);
    Statement { sql: GET_META_SQL, params }
}

/// Notes the signature of the model that the images belong to.
pub fn set_index_model_signature(signature: Option<&str>) -> (r: DbChange)
    ensures
        match signature {
            Some(s) => r matches DbChange::SetSignature(t) && t@ == s@,
            None => r is ClearSignature,
        },
        forall|index: Index|
            (#[trigger] r.effect(index)).images == index.images && r.effect(index).signature
                == match signature {
                Some(s) => Some(s@),
                None => None,
            },
{
    match signature {
        Some(s) => DbChange::SetSignature(s.to_owned()),
        None => DbChange::ClearSignature,
    }
}

/// Asks for the path of the image with the number `id`.
pub fn get_image_path(id: i64) -> (r: Statement)
    ensures
        r.sql@ == IMAGE_PATH_SQL@,
        values_of(r.params@) == seq![Value::Integer(id)],
{
    let mut params: Vec<SqlValue> = Vec::new();
    params.push(SqlValue::Integer(id));
    assert(values_of(params@) =~= seq![Value::Integer(id)]);
    Statement { sql: IMAGE_PATH_SQL, params }
}

/// Whether `row` is what is written for `record` at the time `now`.
pub open spec fn is_row_for(row: ImageRow, record: NewImageRecord, now: Seq<char>) -> bool {
    &&& row.path@ == record.path@
    &&& row.file_name@ == record.file_name@
    &&& row.mtime_ms == record.mtime_ms
    &&& row.size_bytes == record.size_bytes
    &&& row.dims == record.dims
    &&& row.vector_blob@ == encoded(record.vector@)
    &&& row.now@ == now
}

/// The change that puts an image into the index at the time `now`.
pub fn upsert_row(record: &NewImageRecord, now: String) -> (r: Result<DbChange, DbError>)
    ensures
        match r {
            Ok(change) => change matches DbChange::Upsert(row) && is_row_for(row, *record, now@),
            Err(e) => record.dims > i64::MAX && e == DbError::Dims,
        },
{
    if record.dims as u64 > 0x7fff_ffff_ffff_ffffu64 {
        return Err(DbError::Dims);
    }
    Ok(
        DbChange::Upsert(
            ImageRow {
                path: record.path.clone(),
                file_name: record.file_name.clone(),
                mtime_ms: record.mtime_ms,
                size_bytes: record.size_bytes,
                dims: record.dims as i64,
                vector_blob: encode_vector(record.vector.as_slice()),
                now,
            },
        ),
    )
}

/// The change that puts an image into the index, `nanos` nanoseconds after the beginning of the
/// Unix epoch.
pub fn upsert_image(record: &NewImageRecord, nanos: i128) -> (r: Result<DbChange, DbError>)
    ensures
        match outside::rfc3339(nanos) {
            None => r matches Err(e) && e == DbError::Timestamp,
            Some(now) => match r {
                Ok(change) => change matches DbChange::Upsert(row) && is_row_for(
                    row,
                    *record,
                    now,
                ),
                Err(e) => record.dims > i64::MAX && e == DbError::Dims,
            },
        },
{
    match format_rfc3339(nanos) {
        Some(now) => upsert_row(record, now),
        None => Err(DbError::Timestamp),
    }
}

/// The changes that take the images at `paths` out of the index.
pub fn delete_images_by_paths(paths: &Vec<String>) -> (r: Vec<DbChange>)
    ensures
        r@.len() == paths@.len(),
        forall|i: int|
            0 <= i < r@.len() ==> (#[trigger] r@[i] matches DbChange::DeleteImage(p) && p@
                == paths@[i]@),
        forall|index: Index|
            #[trigger] applied(r@, index) == (Index {
                images: index.images.remove_keys(paths::strings(paths@).to_set()),
                signature: index.signature,
            }),
{
    let mut changes: Vec<DbChange> = Vec::new();
    let mut i: usize = 0;
    while i < paths.len()
        invariant
            i <= paths@.len(),
            changes@.len() == i,
            forall|j: int|
                0 <= j < i ==> (#[trigger] changes@[j] matches DbChange::DeleteImage(p) && p@
                    == paths@[j]@),
        decreases paths@.len() - i,
    {
        changes.push(DbChange::DeleteImage(paths[i].clone()));
        i += 1;
    }
    proof {
        assert forall|index: Index| #[trigger] applied(changes@, index) == (Index {
            images: index.images.remove_keys(paths::strings(paths@).to_set()),
            signature: index.signature,
        }) by {
            lemma_deletes(changes@, paths::strings(paths@), index);
        }
    }
    changes
}

proof fn lemma_deletes(changes: Seq<DbChange>, gone: Seq<Seq<char>>, index: Index)
    requires
        changes.len() == gone.len(),
        forall|i: int|
            0 <= i < changes.len() ==> (#[trigger] changes[i] matches DbChange::DeleteImage(p)
                && p@ == gone[i]),
    ensures
        applied(changes, index) == (Index {
            images: index.images.remove_keys(gone.to_set()),
            signature: index.signature,
        }),
    decreases changes.len(),
{
    if changes.len() == 0 {
        assert(index.images.remove_keys(gone.to_set()) =~= index.images);
    } else {
        lemma_deletes(changes.drop_last(), gone.drop_last(), index);
        let rest = gone.drop_last();
        let last = gone.last();
        assert(changes.last() matches DbChange::DeleteImage(p) && p@ == last);
        assert forall|p: Seq<char>| #[trigger] gone.to_set().contains(p) == (
        rest.to_set().contains(p) || p == last) by {
            if gone.contains(p) {
                let k = choose|k: int| 0 <= k < gone.len() && gone[k] == p;
                if k < rest.len() {
                    assert(rest[k] == p);
                }
            }
            if rest.contains(p) {
                let k = choose|k: int| 0 <= k < rest.len() && rest[k] == p;
                assert(gone[k] == p);
            }
            if p == last {
                assert(gone[gone.len() - 1] == p);
            }
        }
        assert(index.images.remove_keys(rest.to_set()).remove(last) =~= index.images.remove_keys(
            gone.to_set(),
        ));
    }
}

// ---------------------------------------------------------------------------
// Reading
// ---------------------------------------------------------------------------

/// A row as the database gives it to the search.
#[derive(Debug)]
pub struct SearchRow {
    pub id: i64,
    pub file_name: String,
    pub path: String,
    pub dims: i64,
    pub vector_blob: Vec<u8>,
}

/// What is wrong with a row, if anything is.
pub open spec fn row_error(row: SearchRow) -> Option<DbError> {
    if !(0 <= row.dims <= usize::MAX) {
        Some(DbError::StoredDims)
    } else if row.vector_blob@.len() % 4 != 0 {
        Some(DbError::StoredVector)
    } else {
        None
    }
}

/// Whether `record` is the image that `row` holds.
pub open spec fn is_image_of(record: SearchImageRecord, row: SearchRow) -> bool {
    &&& record.id == row.id
    &&& record.file_name@ == row.file_name@
    &&& record.path@ == row.path@
    &&& record.dims == row.dims
    &&& record.vector@ == decoded(row.vector_blob@)
}

/// The image that a row holds.
pub fn read_search_row(row: &SearchRow) -> (r: Result<SearchImageRecord, DbError>)
    ensures
        match r {
            Ok(record) => row_error(*row) is None && is_image_of(record, *row),
            Err(e) => row_error(*row) == Some(e),
        },
{
    if row.dims < 0 || row.dims as u64 > usize::MAX as u64 {
        return Err(DbError::StoredDims);
    }
    match decode_vector(row.vector_blob.as_slice()) {
        Ok(vector) => Ok(
            SearchImageRecord {
                id: row.id,
                file_name: row.file_name.clone(),
                path: row.path.clone(),
                dims: row.dims as usize,
                vector,
            },
        ),
        Err(_) => Err(DbError::StoredVector),
    }
}

/// Asks for the images that are searched.
pub fn list_search_images_query() -> (r: Statement)
    ensures
        r.sql@ == LIST_SEARCH_SQL@,
        r.params@.len() == 0,
{
    Statement { sql: LIST_SEARCH_SQL, params: Vec::new() }
}

/// The images that the rows hold. The first row that cannot be read decides.
pub fn list_search_images(rows: &Vec<SearchRow>) -> (r: Result<Vec<SearchImageRecord>, DbError>)
    ensures
        match r {
            Ok(images) => {
                &&& images@.len() == rows@.len()
                &&& forall|i: int|
                    0 <= i < rows@.len() ==> row_error(#[trigger] rows@[i]) is None
                &&& forall|i: int|
                    0 <= i < rows@.len() ==> is_image_of(#[trigger] images@[i], rows@[i])
            },
            Err(e) => exists|i: int|
                {
                    &&& 0 <= i < rows@.len()
                    &&& row_error(#[trigger] rows@[i]) == Some(e)
                    &&& forall|j: int| 0 <= j < i ==> row_error(#[trigger] rows@[j]) is None
                },
        },
{
    let mut images: Vec<SearchImageRecord> = Vec::new();
    let mut i: usize = 0;
    while i < rows.len()
        invariant
            i <= rows@.len(),
            images@.len() == i,
            forall|j: int| 0 <= j < i ==> row_error(#[trigger] rows@[j]) is None,
            forall|j: int| 0 <= j < i ==> is_image_of(#[trigger] images@[j], rows@[j]),
        decreases rows@.len() - i,
    {
        match read_search_row(&rows[i]) {
            Ok(record) => images.push(record),
            Err(e) => {
                assert(row_error(rows@[i as int]) == Some(e));
                return Err(e);
            },
        }
        i += 1;
    }
    Ok(images)
}

/// Asks for what the index knows of the image files.
pub fn list_indexed_images_query() -> (r: Statement)
    ensures
        r.sql@ == LIST_INDEXED_SQL@,
        r.params@.len() == 0,
{
    Statement { sql: LIST_INDEXED_SQL, params: Vec::new() }
}

/// What the index knows of an image file besides its path.
pub struct Snapshot {
    pub mtime_ms: i64,
    pub size_bytes: i64,
}

impl IndexedImageSnapshot {
    /// What it says besides the path.
    pub open spec fn snapshot(&self) -> Snapshot {
        Snapshot { mtime_ms: self.mtime_ms, size_bytes: self.size_bytes }
    }
}

/// What the rows say of each path. Of two rows for one path the later one counts.
pub open spec fn latest(rows: Seq<IndexedImageSnapshot>) -> Map<Seq<char>, Snapshot>
    decreases rows.len(),
{
    if rows.len() == 0 {
        Map::empty()
    } else {
        latest(rows.drop_last()).insert(rows.last().path@, rows.last().snapshot())
    }
}

/// What the index knows of the image files, by their paths.
pub struct IndexedImages {
    rows: Vec<IndexedImageSnapshot>,
    places: StringHashMap<usize>,
}

impl View for IndexedImages {
    type V = Map<Seq<char>, Snapshot>;

    closed spec fn view(&self) -> Map<Seq<char>, Snapshot> {
        latest(self.rows@)
    }
}

/// Where the row that counts for each path stands.
spec fn latest_places(rows: Seq<IndexedImageSnapshot>) -> Map<Seq<char>, usize>
    decreases rows.len(),
{
    if rows.len() == 0 {
        Map::empty()
    } else {
        latest_places(rows.drop_last()).insert(rows.last().path@, (rows.len() - 1) as usize)
    }
}

proof fn lemma_latest_places(rows: Seq<IndexedImageSnapshot>, path: Seq<char>)
    requires
        rows.len() <= usize::MAX,
    ensures
        latest_places(rows).contains_key(path) == latest(rows).contains_key(path),
        latest(rows).contains_key(path) ==> {
            let k = latest_places(rows)[path];
            &&& k < rows.len()
            &&& rows[k as int].path@ == path
            &&& latest(rows)[path] == rows[k as int].snapshot()
        },
    decreases rows.len(),
{
    if rows.len() > 0 {
        lemma_latest_places(rows.drop_last(), path);
    }
}

proof fn lemma_latest_holds(rows: Seq<IndexedImageSnapshot>, i: int)
    requires
        0 <= i < rows.len(),
    ensures
        latest(rows).contains_key(rows[i].path@),
    decreases rows.len(),
{
    if i < rows.len() - 1 {
        lemma_latest_holds(rows.drop_last(), i);
    }
}

impl IndexedImages {
    /// Each path is found where the row that counts for it stands.
    pub closed spec fn well_formed(&self) -> bool {
        self.places@ == latest_places(self.rows@)
    }

    /// What the index knows of the image at `path`.
    pub fn get(&self, path: &str) -> (r: Option<&IndexedImageSnapshot>)
        requires
            self.well_formed(),
        ensures
            match r {
                Some(image) => {
                    &&& image.path@ == path@
                    &&& self@.contains_key(path@)
                    &&& self@[path@] == image.snapshot()
                },
                None => !self@.contains_key(path@),
            },
    {
        proof {
            assert(self.rows.len() <= usize::MAX);
            lemma_latest_places(self.rows@, path@);
        }
        match self.places.get(path) {
            Some(k) => Some(&self.rows[*k]),
            None => None,
        }
    }

    /// The paths of all images, each of them once.
    pub fn paths(&self) -> (r: Vec<String>)
        requires
            self.well_formed(),
        ensures
            paths::strings(r@).no_duplicates(),
            forall|p: Seq<char>|
                #[trigger] paths::strings(r@).contains(p) == self@.contains_key(p),
    {
        let mut out: Vec<String> = Vec::new();
        let mut i: usize = 0;
        while i < self.rows.len()
            invariant
                self.well_formed(),
                i <= self.rows@.len(),
                paths::strings(out@).no_duplicates(),
                forall|p: Seq<char>|
                    #[trigger] paths::strings(out@).contains(p) == (latest_places(
                        self.rows@,
                    ).contains_key(p) && latest_places(self.rows@)[p] < i),
            decreases self.rows@.len() - i,
        {
            let ghost all = latest_places(self.rows@);
            let ghost path = self.rows@[i as int].path@;
            proof {
                lemma_latest_places(self.rows@, path);
                lemma_latest_holds(self.rows@, i as int);
            }
            let ghost done = paths::strings(out@);
            let is_latest = match self.places.get(self.rows[i].path.as_str()) {
                Some(k) => *k == i,
                None => false,
            };
            if is_latest {
                assert(!done.contains(path));
                out.push(self.rows[i].path.clone());
                assert(paths::strings(out@) =~= done.push(path));
            }
            proof {
                assert forall|p: Seq<char>| #[trigger] paths::strings(out@).contains(p) == (
                all.contains_key(p) && all[p] < i + 1) by {
                    lemma_latest_places(self.rows@, p);
                    assert(done.contains(p) == (all.contains_key(p) && all[p] < i));
                    if is_latest {
                        lemma_contains_push(done, path, p);
                    }
                }
            }
            i += 1;
        }
        proof {
            assert forall|p: Seq<char>|
                #[trigger] paths::strings(out@).contains(p) == self@.contains_key(p) by {
                lemma_latest_places(self.rows@, p);
            }
        }
        out
    }
}

pub proof fn lemma_contains_push(s: Seq<Seq<char>>, x: Seq<char>, p: Seq<char>)
    ensures
        s.push(x).contains(p) == (s.contains(p) || p == x),
{
    if s.contains(p) {
        let k = choose|k: int| 0 <= k < s.len() && s[k] == p;
        assert(s.push(x)[k] == p);
    }
    if p == x {
        assert(s.push(x)[s.len() as int] == p);
    }
    if s.push(x).contains(p) {
        let k = choose|k: int| 0 <= k < s.push(x).len() && s.push(x)[k] == p;
        if k < s.len() {
            assert(s[k] == p);
        }
    }
}

/// What the index knows of the image files, from the rows that the database gave.
pub fn list_indexed_images(rows: Vec<IndexedImageSnapshot>) -> (r: IndexedImages)
    ensures
        r.well_formed(),
        r@ == latest(rows@),
{
    let mut places: StringHashMap<usize> = StringHashMap::new();
    let mut i: usize = 0;
    assert(rows@.take(0) =~= Seq::empty());
    while i < rows.len()
        invariant
            i <= rows@.len(),
            places@ == latest_places(rows@.take(i as int)),
        decreases rows@.len() - i,
    {
        places.insert(rows[i].path.clone(), i);
        assert(rows@.take(i + 1).drop_last() =~= rows@.take(i as int));
        assert(rows@.take(i + 1).last() == rows@[i as int]);
        i += 1;
    }
    assert(rows@.take(i as int) =~= rows@);
    IndexedImages { rows, places }
}

/// What goes into the index with an image is what the search reads out of it: its vector, its
/// number of components, its name and its path, under the number that the image has.
pub proof fn law_stored_image_is_read_back(
    index: Index,
    row: ImageRow,
    vector: Seq<u32>,
    read: SearchRow,
)
    requires
        row.vector_blob@ == encoded(vector),
        0 <= row.dims <= usize::MAX,
        ({
            let stored = DbChange::Upsert(row).effect(index).images[row.path@];
            &&& read.id == stored.id
            &&& read.path@ == row.path@
            &&& read.file_name@ == stored.file_name
            &&& read.dims == stored.dims
            &&& read.vector_blob@ == stored.vector_blob
        }),
    ensures
        row_error(read) is None,
        forall|record: SearchImageRecord| #[trigger]
            is_image_of(record, read) ==> record.vector@ == vector && record.dims == row.dims
                && record.file_name@ == row.file_name@ && record.path@ == row.path@ && record.id
                == DbChange::Upsert(row).effect(index).images[row.path@].id,
{
    law_vector_round_trip(vector);
}

/// Putting an image into the index leaves every other image and the signature alone. An image
/// that was there before keeps its number and the time at which it came, and the index holds as
/// many images as before; a new one gets the time at which it comes, and the index holds one
/// more.
pub proof fn law_upsert_touches_one_image(index: Index, row: ImageRow)
    ensures
        ({
            let after = DbChange::Upsert(row).effect(index);
            &&& after.signature == index.signature
            &&& after.images.contains_key(row.path@)
            &&& forall|p: Seq<char>|
                p != row.path@ ==> #[trigger] after.images.contains_key(p)
                    == index.images.contains_key(p)
            &&& forall|p: Seq<char>|
                p != row.path@ && #[trigger] index.images.contains_key(p) ==> after.images[p]
                    == index.images[p]
            &&& index.images.contains_key(row.path@) ==> after.images[row.path@] == row.row(
                index.images[row.path@].id,
                index.images[row.path@].created_at,
            )
            &&& !index.images.contains_key(row.path@) ==> after.images[row.path@] == row.row(
                new_id(index),
                row.now@,
            )
            &&& index.images.dom().finite() ==> after.images.dom().finite() && after.images.len()
                == index.images.len() + if index.images.contains_key(row.path@) {
                0int
            } else {
                1int
            }
        }),
{
    let after = DbChange::Upsert(row).effect(index);
    assert(after.images.dom() =~= index.images.dom().insert(row.path@));
}

/// Whether no two images of the index have the same number.
pub open spec fn has_distinct_ids(index: Index) -> bool {
    forall|p: Seq<char>, q: Seq<char>|
        #[trigger] index.images.contains_key(p) && #[trigger] index.images.contains_key(q)
            && index.images[p].id == index.images[q].id ==> p == q
}

/// A change leaves each image that stays its number, and different images different numbers,
/// as long as there is a number that no image has.
pub proof fn law_changes_keep_ids(index: Index, change: DbChange)
    requires
        has_distinct_ids(index),
        exists|id: i64| !has_id(index, id),
    ensures
        has_distinct_ids(change.effect(index)),
        forall|p: Seq<char>| #[trigger]
            index.images.contains_key(p) && change.effect(index).images.contains_key(p)
                ==> change.effect(index).images[p].id == index.images[p].id,
{
    let after = change.effect(index);
    let fresh = new_id(index);
    assert(!has_id(index, fresh));
    assert forall|p: Seq<char>, q: Seq<char>|
        #[trigger] after.images.contains_key(p) && #[trigger] after.images.contains_key(q)
            && after.images[p].id == after.images[q].id implies p == q by {
        assert(index.images.contains_key(p) ==> index.images[p].id != fresh);
        assert(index.images.contains_key(q) ==> index.images[q].id != fresh);
    }
}

// ---------------------------------------------------------------------------
// The model that the images belong to
// ---------------------------------------------------------------------------

/// What a look at the model that the images belong to came to.
#[derive(Clone, Debug, PartialEq, Eq)]
pub struct IndexModelSync {
    pub stored_signature: Option<String>,
    pub current_signature: Option<String>,
    pub index_cleared: bool,
}

/// A look at the model that the images belong to, and the changes of the index that it asks
/// for.
#[derive(Debug)]
pub struct SyncPlan {
    pub changes: Vec<DbChange>,
    pub sync: IndexModelSync,
}

/// Whether the images have to go: they belong to another model, or nobody knows to which.
pub open spec fn needs_reset(
    stored: Option<Seq<char>>,
    image_count: nat,
    current: Option<Seq<char>>,
) -> bool {
    match (stored, current) {
        (Some(s), Some(c)) => s != c,
        (None, Some(_)) => image_count > 0,
        _ => false,
    }
}

/// The index once it was brought in line with the model whose signature is `current`.
pub open spec fn synced(index: Index, current: Option<Seq<char>>) -> Index {
    Index {
        images: if needs_reset(index.signature, index.images.len(), current) {
            Map::empty()
        } else {
            index.images
        },
        signature: match current {
            Some(c) => Some(c),
            None => index.signature,
        },
    }
}

/// Brings the index in line with the model whose signature is `current_signature`, where the
/// index holds `image_count` images of the model whose signature is `stored_signature`.
pub fn sync_index_model_signature(
    stored_signature: Option<String>,
    image_count: usize,
    current_signature: Option<&str>,
) -> (r: SyncPlan)
    ensures
        text::of_string(r.sync.stored_signature) == text::of_string(stored_signature),
        text::of_string(r.sync.current_signature) == text::of_str(current_signature),
        r.sync.index_cleared == (needs_reset(
            text::of_string(stored_signature),
            image_count as nat,
            text::of_str(current_signature),
        ) && image_count > 0),
        forall|index: Index|
            index.signature == text::of_string(stored_signature) && index.images.len()
                == image_count ==> #[trigger] applied(r.changes@, index) == synced(
                index,
                text::of_str(current_signature),
            ),
        r.changes@.len() == 0 <==> (current_signature is None || text::of_string(
            stored_signature,
        ) == text::of_str(current_signature)),
{
    let mut changes: Vec<DbChange> = Vec::new();
    let is_same = match (&stored_signature, current_signature) {
        (Some(s), Some(c)) => same_text(s.as_str(), c),
        _ => false,
    };
    let reset = match (&stored_signature, current_signature) {
        (Some(_), Some(_)) => !is_same,
        (None, Some(_)) => image_count > 0,
        _ => false,
    };
    if reset {
        changes.push(DbChange::ClearImages);
    }
    let current = match current_signature {
        Some(c) => Some(c.to_owned()),
        None => None,
    };
    let ghost cleared = changes@;
    if let Some(c) = &current {
        if !is_same {
            changes.push(DbChange::SetSignature(c.clone()));
        }
    }
    proof {
        assert forall|index: Index|
            index.signature == text::of_string(stored_signature) && index.images.len()
                == image_count implies #[trigger] applied(changes@, index) == synced(
            index,
            text::of_str(current_signature),
        ) by {
            reveal_with_fuel(applied, 3);
            assert(cleared.len() == 1 ==> cleared.drop_last() =~= Seq::empty());
            assert(changes@.len() > cleared.len() ==> changes@.drop_last() =~= cleared);
        }
    }
    SyncPlan {
        changes,
        sync: IndexModelSync {
            stored_signature: clone_opt(&stored_signature),
            current_signature: current,
            index_cleared: reset && image_count > 0,
        },
    }
}

/// Once the index was brought in line with a model, its images belong to that model, whatever
/// it held before.
pub proof fn law_sync_sets_signature(index: Index, current: Seq<char>)
    ensures
        synced(index, Some(current)).signature == Some(current),
        index.signature != Some(current) ==> synced(index, Some(current)).images.len() == 0,
        index.signature == Some(current) ==> synced(index, Some(current)) == index,
{
}

/// Bringing the index in line with a model a second time changes nothing and clears nothing.
pub proof fn law_sync_settles(index: Index, current: Option<Seq<char>>)
    ensures
        synced(synced(index, current), current) == synced(index, current),
        !needs_reset(
            synced(index, current).signature,
            synced(index, current).images.len(),
            current,
        ),
{
}

/// Without a model the index stays as it is.
pub proof fn law_no_model_changes_nothing(index: Index)
    ensures
        synced(index, None) == index,
{
}

} // verus!
