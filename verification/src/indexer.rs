//! Indexing: which files are images, which of them have to be embedded again, which
//! images have to leave the index, and how a run goes.

use vstd::hash_set::StringHashSet;
use vstd::prelude::*;

use crate::app_state::IndexStatus;
#[allow(unused_imports)]
use crate::app_state::Status;
use crate::db;
#[allow(unused_imports)]
use crate::db::{DbChange, ImageRow, Index};
use crate::db::{IndexedImages, NewImageRecord};
use crate::order;
use crate::order::{stable_order, SortKey};
use crate::paths;
use crate::paths::{path_extension, path_parts, path_to_string, parts_before, EntryKind, PathPart};
use crate::text;
use crate::text::{decimal_text, is_text, to_chars, to_lower};

verus! {

// ---------------------------------------------------------------------------
// Which files are images
// ---------------------------------------------------------------------------

/// How many bytes of a file are looked at.
pub const IMAGE_SIGNATURE_BYTES: usize = 32;

/// Whether the four bytes at `i` are a brand of AVIF.
pub open spec fn is_brand_at(header: Seq<u8>, i: int) -> bool {
    &&& header[i] == 0x61
    &&& header[i + 1] == 0x76
    &&& header[i + 2] == 0x69
    &&& (header[i + 3] == 0x66 || header[i + 3] == 0x73)
}

/// Whether a file that begins with `header` is an AVIF image: its first box is a file type box
/// whose major brand, or one of whose compatible brands, is one of AVIF.
pub open spec fn is_avif(header: Seq<u8>) -> bool {
    &&& header.len() >= 12
    &&& header[4] == 0x66 && header[5] == 0x74 && header[6] == 0x79 && header[7] == 0x70
    &&& is_brand_at(header, 8) || exists|k: int|
        4 <= k && 4 * k + 4 <= header.len() && #[trigger] is_brand_at(header, 4 * k)
}

fn has_brand_at(header: &[u8], i: usize) -> (r: bool)
    requires
        i + 4 <= header@.len(),
    ensures
        r == is_brand_at(header@, i as int),
{
    header[i] == 0x61 && header[i + 1] == 0x76 && header[i + 2] == 0x69 && (header[i + 3] == 0x66
        || header[i + 3] == 0x73)
}

/// Whether a file that begins with `header` is an AVIF image.
pub fn is_avif_header(header: &[u8]) -> (r: bool)
    ensures
        r == is_avif(header@),
{
    let n = header.len();
    if n < 12 || header[4] != 0x66 || header[5] != 0x74 || header[6] != 0x79 || header[7]
        != 0x70 {
        return false;
    }
    if has_brand_at(header, 8) {
        return true;
    }
    let mut k: usize = 4;
    while k < n / 4
        invariant
            4 <= k,
            n == header@.len(),
            forall|j: int|
                4 <= j < k && 4 * j + 4 <= header@.len() ==> !#[trigger] is_brand_at(
                    header@,
                    4 * j,
                ),
            header@.len() >= 12,
            header@[4] == 0x66 && header@[5] == 0x74 && header@[6] == 0x79 && header@[7] == 0x70,
        decreases n - k,
    {
        if has_brand_at(header, 4 * k) {
            assert(is_brand_at(header@, 4 * (k as int)));
            return true;
        }
        k += 1;
    }
    false
}

/// Whether `ext`, in small letters, is an extension of the images that can be embedded.
pub open spec fn is_image_extension(ext: Seq<char>) -> bool {
    ext == "jpg"@ || ext == "jpeg"@ || ext == "png"@ || ext == "webp"@ || ext == "bmp"@
}

/// Whether the name of a file is that of an image that can be embedded.
pub open spec fn is_image_name(path: Seq<char>) -> bool {
    match paths::extension(path) {
        Some(ext) => is_image_extension(text::lowered(ext)),
        None => false,
    }
}

/// Whether the name of a file is that of an image that can be embedded.
pub fn has_supported_image_extension(path: &str) -> (r: bool)
    ensures
        r == is_image_name(path@),
{
    match path_extension(path) {
        Some(ext) => {
            let e = to_lower(ext.as_slice());
            let s = e.as_slice();
            is_text(s, "jpg") || is_text(s, "jpeg") || is_text(s, "png") || is_text(s, "webp")
                || is_text(s, "bmp")
        },
        None => false,
    }
}

/// Whether a file can be embedded, by its name and by the bytes that it begins with. A file
/// that cannot be read begins with none.
pub fn is_supported_image(path: &str, header: &[u8]) -> (r: bool)
    ensures
        r == (is_image_name(path@) && !is_avif(header@)),
{
    has_supported_image_extension(path) && !is_avif_header(header)
}

// ---------------------------------------------------------------------------
// The files of a directory
// ---------------------------------------------------------------------------

/// Why the images of a directory could not be indexed.
#[derive(Clone, Debug, PartialEq, Eq)]
pub enum IndexError {
    /// The directory does not exist.
    DirMissing(String),
    /// What has the name of the directory is none.
    DirNotDirectory(String),
    /// Nothing could be found out about a file.
    Metadata(String),
    /// When a file was last changed could not be found out.
    Mtime(String),
    /// A file is too large for its size to be stored.
    FileSize,
    /// No image could be embedded. It holds what is said of that.
    AllFailed(String),
}

impl IndexError {
    /// The message of the error.
    pub open spec fn text(&self) -> Seq<char> {
        match self {
            IndexError::DirMissing(dir) => "素材目录不存在: "@ + dir@,
            IndexError::DirNotDirectory(dir) => "素材目录不是目录: "@ + dir@,
            IndexError::Metadata(path) => "failed to read metadata for "@ + path@,
            IndexError::Mtime(path) => "failed to read mtime for "@ + path@,
            IndexError::FileSize => "file size does not fit into i64"@,
            IndexError::AllFailed(message) => message@,
        }
    }

    /// The message of the error.
    pub fn message(&self) -> (r: String)
        ensures
            r@ == self.text(),
    {
        match self {
            IndexError::DirMissing(dir) => {
                let head = "素材目录不存在: ".to_owned();
                head.concat(dir.as_str())
            },
            IndexError::DirNotDirectory(dir) => {
                let head = "素材目录不是目录: ".to_owned();
                head.concat(dir.as_str())
            },
            IndexError::Metadata(path) => {
                let head = "failed to read metadata for ".to_owned();
                head.concat(path.as_str())
            },
            IndexError::Mtime(path) => {
                let head = "failed to read mtime for ".to_owned();
                head.concat(path.as_str())
            },
            IndexError::FileSize => "file size does not fit into i64".to_owned(),
            IndexError::AllFailed(message) => message.clone(),
        }
    }
}

/// What could be found out about a file.
#[derive(Clone, Copy, Debug)]
pub enum FileFacts {
    /// Nothing.
    NoMetadata,
    /// Not when it was last changed.
    NoMtime,
    /// When it was last changed, in milliseconds after the beginning of the Unix epoch unless
    /// that was before it, and its size.
    Known(Option<u128>, u64),
}

/// What a walk through a directory finds.
#[derive(Debug)]
pub struct WalkEntry {
    /// By which what was found is found again.
    pub number: usize,
    pub path: String,
    pub file_name: String,
    pub is_file: bool,
    /// The bytes that the file begins with.
    pub header: Vec<u8>,
    pub facts: FileFacts,
}

/// An image file.
#[derive(Debug)]
pub struct FileEntry {
    /// The number that it was found under.
    pub number: usize,
    pub path: String,
    pub file_name: String,
    pub mtime_ms: i64,
    pub size_bytes: i64,
}

/// Whether what was found is an image that can be embedded.
pub open spec fn is_wanted(e: WalkEntry) -> bool {
    e.is_file && is_image_name(e.path@) && !is_avif(e.header@)
}

/// Whether what was found is an image that can be embedded.
pub fn is_indexable(e: &WalkEntry) -> (r: bool)
    ensures
        r == is_wanted(*e),
        r == (e.is_file && is_image_name(e.path@) && !is_avif(e.header@)),
{
    e.is_file && is_supported_image(e.path.as_str(), e.header.as_slice())
}

/// The images among what was found.
pub open spec fn wanted(entries: Seq<WalkEntry>) -> Seq<WalkEntry>
    decreases entries.len(),
{
    if entries.len() == 0 {
        Seq::empty()
    } else if is_wanted(entries.last()) {
        wanted(entries.drop_last()).push(entries.last())
    } else {
        wanted(entries.drop_last())
    }
}

/// What is wrong with a directory of images that is `kind` on disk.
pub open spec fn dir_problem(dir: Seq<char>, kind: EntryKind) -> Option<Seq<char>> {
    match kind {
        EntryKind::Directory => None,
        EntryKind::Missing => Some("素材目录不存在: "@ + dir),
        _ => Some("素材目录不是目录: "@ + dir),
    }
}

fn check_image_dir(dir: &str, kind: EntryKind) -> (r: Result<(), IndexError>)
    ensures
        match r {
            Ok(()) => dir_problem(dir@, kind) is None,
            Err(e) => dir_problem(dir@, kind) == Some(e.text()),
        },
{
    match kind {
        EntryKind::Directory => Ok(()),
        EntryKind::Missing => Err(IndexError::DirMissing(dir.to_owned())),
        _ => Err(IndexError::DirNotDirectory(dir.to_owned())),
    }
}

/// The number of images in the directory `image_dir`, which is `kind` on disk, where `entries`
/// is what a walk through it found.
pub fn count_indexable_images(image_dir: &str, kind: EntryKind, entries: &Vec<WalkEntry>) -> (r:
    Result<usize, IndexError>)
    ensures
        match r {
            Ok(n) => dir_problem(image_dir@, kind) is None && n == wanted(entries@).len(),
            Err(e) => dir_problem(image_dir@, kind) == Some(e.text()),
        },
{
    match check_image_dir(image_dir, kind) {
        Ok(()) => {},
        Err(e) => return Err(e),
    }
    let mut count: usize = 0;
    let mut i: usize = 0;
    while i < entries.len()
        invariant
            i <= entries@.len(),
            count <= i,
            count == wanted(entries@.take(i as int)).len(),
        decreases entries@.len() - i,
    {
        assert(entries@.take(i + 1).drop_last() =~= entries@.take(i as int));
        assert(entries@.take(i + 1).last() == entries@[i as int]);
        if is_indexable(&entries[i]) {
            count += 1;
        }
        i += 1;
    }
    assert(entries@.take(i as int) =~= entries@);
    Ok(count)
}

/// What is wrong with an image file.
pub open spec fn file_problem(e: WalkEntry) -> Option<Seq<char>> {
    match e.facts {
        FileFacts::NoMetadata => Some("failed to read metadata for "@ + e.path@),
        FileFacts::NoMtime => Some("failed to read mtime for "@ + e.path@),
        FileFacts::Known(_, size) => if size > i64::MAX {
            Some("file size does not fit into i64"@)
        } else {
            None
        },
    }
}

/// When a file was last changed, as the index notes it.
pub open spec fn mtime_of(modified_ms: Option<u128>) -> i64 {
    match modified_ms {
        Some(ms) => ms as i64,
        None => 0,
    }
}

/// Whether `file` is the image file that was found as `e`.
pub open spec fn is_file_of(file: FileEntry, e: WalkEntry) -> bool {
    &&& file.number == e.number
    &&& file.path@ == e.path@
    &&& file.file_name@ == e.file_name@
    &&& e.facts matches FileFacts::Known(modified_ms, size) && file.mtime_ms == mtime_of(
        modified_ms,
    ) && file.size_bytes == size
}

fn file_entry(e: &WalkEntry) -> (r: Result<FileEntry, IndexError>)
    ensures
        match r {
            Ok(file) => file_problem(*e) is None && is_file_of(file, *e),
            Err(error) => file_problem(*e) == Some(error.text()),
        },
        r matches Ok(file) ==> (e.facts matches FileFacts::Known(modified_ms, _) ==> (
        modified_ms matches Some(ms) ==> (ms <= i64::MAX ==> file.mtime_ms == ms))),
{
    match e.facts {
        FileFacts::NoMetadata => Err(IndexError::Metadata(e.path.clone())),
        FileFacts::NoMtime => Err(IndexError::Mtime(e.path.clone())),
        FileFacts::Known(modified_ms, size) => {
            let mtime_ms: i64 = match modified_ms {
                Some(ms) => #[verifier::truncate]
                (ms as i64),
                None => 0,
            };
            if size > 0x7fff_ffff_ffff_ffffu64 {
                return Err(IndexError::FileSize);
            }
            Ok(
                FileEntry {
                    number: e.number,
                    path: e.path.clone(),
                    file_name: e.file_name.clone(),
                    mtime_ms,
                    size_bytes: size as i64,
                },
            )
        },
    }
}

/// The path of a file, by which files are sorted.
struct PathKey {
    parts: Vec<PathPart>,
}

impl SortKey for PathKey {
    closed spec fn lt(&self, other: &Self) -> bool {
        paths::path_lt(paths::parts_view(self.parts@), paths::parts_view(other.parts@))
    }

    proof fn is_order(a: &Self, b: &Self, c: &Self) {
        let x = paths::parts_view(a.parts@);
        let y = paths::parts_view(b.parts@);
        let z = paths::parts_view(c.parts@);
        paths::lemma_path_order(x, y, z);
        paths::lemma_path_order(x, z, y);
        paths::lemma_path_order(y, x, z);
        paths::lemma_path_order(y, z, x);
        paths::lemma_path_order(z, x, y);
        paths::lemma_path_order(z, y, x);
    }

    fn is_before(&self, other: &Self) -> (r: bool) {
        parts_before(&self.parts, &other.parts)
    }
}

/// Whether the file `a` stands before the file `b` once they are sorted by their paths. Files
/// whose paths have the same components keep their order.
pub open spec fn file_before(entries: Seq<WalkEntry>, a: int, b: int) -> bool {
    let x = paths::components(entries[a].path@);
    let y = paths::components(entries[b].path@);
    paths::path_lt(x, y) || (x == y && a < b)
}

/// Whether `order` holds the indices of `entries`, each of them once, sorted by their paths.
pub open spec fn is_path_order(entries: Seq<WalkEntry>, order: Seq<usize>) -> bool {
    &&& order.len() == entries.len()
    &&& forall|i: int| 0 <= i < order.len() ==> #[trigger] order[i] < entries.len()
    &&& forall|k: int| 0 <= k < entries.len() ==> #[trigger] order.contains(k as usize)
    &&& forall|i: int, j: int|
        0 <= i < j < order.len() ==> file_before(entries, order[i] as int, order[j] as int)
}

/// Whether `files` are the image files `entries`, sorted by their paths.
pub open spec fn are_sorted_files(files: Seq<FileEntry>, entries: Seq<WalkEntry>) -> bool {
    exists|order: Seq<usize>|
        #![trigger is_path_order(entries, order)]
        {
            &&& is_path_order(entries, order)
            &&& files.len() == entries.len()
            &&& forall|k: int|
                0 <= k < files.len() ==> is_file_of(#[trigger] files[k], entries[order[k] as int])
        }
}

/// The image files in the directory `image_dir`, which is `kind` on disk, where `entries` is
/// what a walk through it found: sorted by their paths. The first file that something is wrong
/// with decides.
pub fn collect_image_files(image_dir: &str, kind: EntryKind, entries: &Vec<WalkEntry>) -> (r:
    Result<Vec<FileEntry>, IndexError>)
    ensures
        match r {
            Ok(files) => {
                &&& dir_problem(image_dir@, kind) is None
                &&& forall|i: int|
                    0 <= i < wanted(entries@).len() ==> file_problem(
                        #[trigger] wanted(entries@)[i],
                    ) is None
                &&& are_sorted_files(files@, wanted(entries@))
            },
            Err(e) => dir_problem(image_dir@, kind) == Some(e.text()) || (dir_problem(
                image_dir@,
                kind,
            ) is None && exists|i: int|
                {
                    &&& 0 <= i < wanted(entries@).len()
                    &&& file_problem(#[trigger] wanted(entries@)[i]) == Some(e.text())
                    &&& forall|j: int|
                        0 <= j < i ==> file_problem(#[trigger] wanted(entries@)[j]) is None
                }),
        },
{
    match check_image_dir(image_dir, kind) {
        Ok(()) => {},
        Err(e) => return Err(e),
    }
    let mut found: Vec<FileEntry> = Vec::new();
    let mut keys: Vec<PathKey> = Vec::new();
    let ghost all = wanted(entries@);
    let mut i: usize = 0;
    while i < entries.len()
        invariant
            i <= entries@.len(),
            dir_problem(image_dir@, kind) is None,
            all == wanted(entries@),
            found@.len() == keys@.len(),
            found@.len() == wanted(entries@.take(i as int)).len(),
            forall|k: int|
                0 <= k < found@.len() ==> is_file_of(
                    #[trigger] found@[k],
                    wanted(entries@.take(i as int))[k],
                ) && file_problem(wanted(entries@.take(i as int))[k]) is None,
            forall|k: int|
                0 <= k < keys@.len() ==> paths::parts_view((#[trigger] keys@[k]).parts@)
                    == paths::components(wanted(entries@.take(i as int))[k].path@),
        decreases entries@.len() - i,
    {
        let ghost before = wanted(entries@.take(i as int));
        assert(entries@.take(i + 1).drop_last() =~= entries@.take(i as int));
        assert(entries@.take(i + 1).last() == entries@[i as int]);
        if is_indexable(&entries[i]) {
            assert(wanted(entries@.take(i + 1)) == before.push(entries@[i as int]));
            match file_entry(&entries[i]) {
                Ok(file) => {
                    let cs = to_chars(file.path.as_str());
                    let ghost earlier = found@;
                    keys.push(PathKey { parts: path_parts(cs.as_slice()) });
                    found.push(file);
                    proof {
                        let after = wanted(entries@.take(i + 1));
                        assert forall|k: int| 0 <= k < found@.len() implies is_file_of(
                            #[trigger] found@[k],
                            after[k],
                        ) && file_problem(after[k]) is None by {
                            if k < earlier.len() {
                                assert(is_file_of(earlier[k], before[k]));
                            }
                        }
                    }
                },
                Err(e) => {
                    proof {
                        lemma_wanted_prefix(entries@, i + 1);
                        let n = before.len() as int;
                        assert(all[n] == entries@[i as int]);
                        assert forall|j: int| 0 <= j < n implies file_problem(
                            #[trigger] all[j],
                        ) is None by {
                            assert(all[j] == before[j]);
                            assert(is_file_of(found@[j], before[j]));
                        }
                    }
                    return Err(e);
                },
            }
        }
        i += 1;
    }
    assert(entries@.take(i as int) =~= entries@);
    let order = stable_order(&keys);
    let mut files: Vec<FileEntry> = Vec::new();
    let mut k: usize = 0;
    while k < order.len()
        invariant
            k <= order@.len(),
            order@.len() == all.len(),
            found@.len() == all.len(),
            forall|j: int| 0 <= j < order@.len() ==> #[trigger] order@[j] < all.len(),
            forall|j: int| 0 <= j < found@.len() ==> is_file_of(#[trigger] found@[j], all[j]),
            files@.len() == k,
            forall|j: int|
                0 <= j < k ==> is_file_of(#[trigger] files@[j], all[order@[j] as int]),
        decreases order@.len() - k,
    {
        let f = &found[order[k]];
        files.push(
            FileEntry {
                number: f.number,
                path: f.path.clone(),
                file_name: f.file_name.clone(),
                mtime_ms: f.mtime_ms,
                size_bytes: f.size_bytes,
            },
        );
        k += 1;
    }
    proof {
        assert(is_path_order(all, order@)) by {
            assert forall|a: int, b: int| 0 <= a < b < order@.len() implies file_before(
                all,
                order@[a] as int,
                order@[b] as int,
            ) by {
                let x = order@[a] as int;
                let y = order@[b] as int;
                assert(order::before(keys@, x, y));
                paths::lemma_path_order(
                    paths::components(all[x].path@),
                    paths::components(all[y].path@),
                    paths::components(all[x].path@),
                );
            }
        }
        assert forall|j: int| 0 <= j < all.len() implies file_problem(
            #[trigger] all[j],
        ) is None by {
            assert(is_file_of(found@[j], all[j]));
        }
    }
    Ok(files)
}

proof fn lemma_wanted_prefix(entries: Seq<WalkEntry>, n: int)
    requires
        0 <= n <= entries.len(),
    ensures
        wanted(entries.take(n)).len() <= wanted(entries).len(),
        forall|j: int|
            0 <= j < wanted(entries.take(n)).len() ==> #[trigger] wanted(entries)[j] == wanted(
                entries.take(n),
            )[j],
    decreases entries.len() - n,
{
    if n < entries.len() {
        lemma_wanted_prefix(entries, n + 1);
        assert(entries.take(n + 1).drop_last() =~= entries.take(n));
    } else {
        assert(entries.take(n) =~= entries);
    }
}

/// The files that are indexed are the images that were found, all of them: in particular none
/// of them is an AVIF image, whatever its name says.
pub proof fn law_indexed_files_are_images(entries: Seq<WalkEntry>, e: WalkEntry)
    ensures
        wanted(entries).contains(e) == (entries.contains(e) && is_wanted(e)),
        is_avif(e.header@) ==> !wanted(entries).contains(e),
    decreases entries.len(),
{
    if entries.len() > 0 {
        let rest = entries.drop_last();
        let last = entries.last();
        law_indexed_files_are_images(rest, e);
        if entries.contains(e) {
            let i = choose|i: int| 0 <= i < entries.len() && entries[i] == e;
            if i < rest.len() {
                assert(rest[i] == e);
            }
        }
        if rest.contains(e) {
            let i = choose|i: int| 0 <= i < rest.len() && rest[i] == e;
            assert(entries[i] == e);
        }
        assert(entries[entries.len() - 1] == last);
        if is_wanted(last) {
            let w = wanted(rest);
            assert(w.push(last)[w.len() as int] == last);
            if w.contains(e) {
                let i = choose|i: int| 0 <= i < w.len() && w[i] == e;
                assert(w.push(last)[i] == e);
            }
            if w.push(last).contains(e) && e != last {
                let i = choose|i: int| 0 <= i < w.push(last).len() && w.push(last)[i] == e;
                assert(w[i] == e);
            }
        }
    }
}

/// As many files are collected as are counted.
pub proof fn law_counted_are_collected(files: Seq<FileEntry>, entries: Seq<WalkEntry>)
    requires
        are_sorted_files(files, wanted(entries)),
    ensures
        files.len() == wanted(entries).len(),
{
}

// ---------------------------------------------------------------------------
// A run
// ---------------------------------------------------------------------------

/// The path by which the index knows the file at `path`.
pub open spec fn index_key(path: Seq<char>) -> Seq<char> {
    text::replaced(path, '\\', '/')
}

/// The paths by which the index knows the files.
pub open spec fn index_keys(files: Seq<FileEntry>) -> Set<Seq<char>> {
    Set::new(
        |p: Seq<char>| exists|i: int| 0 <= i < files.len() && #[trigger] index_key(files[i].path@) == p,
    )
}

/// Whether a file is as the index knows it.
pub open spec fn is_unchanged(known: Map<Seq<char>, db::Snapshot>, file: FileEntry) -> bool {
    let key = index_key(file.path@);
    known.contains_key(key) && known[key].mtime_ms == file.mtime_ms && known[key].size_bytes
        == file.size_bytes
}

/// The paths of the images in `existing` whose files are not among `files`, each of them once.
pub fn collect_removed_paths(existing: &IndexedImages, files: &Vec<FileEntry>) -> (r: Vec<String>)
    requires
        existing.well_formed(),
    ensures
        paths::strings(r@).no_duplicates(),
        forall|p: Seq<char>|
            #[trigger] paths::strings(r@).contains(p) == (existing@.contains_key(p)
                && !index_keys(files@).contains(p)),
{
    let mut keep_paths = StringHashSet::new();
    let mut i: usize = 0;
    while i < files.len()
        invariant
            i <= files@.len(),
            forall|p: Seq<char>|
                #[trigger] keep_paths@.contains(p) == (exists|j: int|
                    0 <= j < i && #[trigger] index_key(files@[j].path@) == p),
        decreases files@.len() - i,
    {
        let ghost before = keep_paths@;
        let key = path_to_string(files[i].path.as_str());
        keep_paths.insert(key);
        proof {
            assert forall|p: Seq<char>| #[trigger] keep_paths@.contains(p) == (exists|j: int|
                0 <= j < i + 1 && #[trigger] index_key(files@[j].path@) == p) by {
                assert(index_key(files@[i as int].path@) == key@);
                assert(before.contains(p) == (exists|j: int|
                    0 <= j < i && #[trigger] index_key(files@[j].path@) == p));
                if keep_paths@.contains(p) && p != key@ {
                    let j = choose|j: int| 0 <= j < i && #[trigger] index_key(files@[j].path@) == p;
                    assert(0 <= j < i + 1);
                }
            }
        }
        i += 1;
    }
    let known = existing.paths();
    let ghost all = paths::strings(known@);
    let mut out: Vec<String> = Vec::new();
    let mut k: usize = 0;
    while k < known.len()
        invariant
            k <= known@.len(),
            all == paths::strings(known@),
            all.no_duplicates(),
            forall|p: Seq<char>|
                #[trigger] keep_paths@.contains(p) == index_keys(files@).contains(p),
            paths::strings(out@).no_duplicates(),
            forall|p: Seq<char>|
                #[trigger] paths::strings(out@).contains(p) == (all.take(k as int).contains(p)
                    && !index_keys(files@).contains(p)),
        decreases known@.len() - k,
    {
        let ghost done = paths::strings(out@);
        let ghost path = known@[k as int]@;
        assert(all[k as int] == path);
        assert(all.take(k + 1) =~= all.take(k as int).push(path));
        assert(!all.take(k as int).contains(path));
        if !keep_paths.contains(known[k].as_str()) {
            assert(!done.contains(path));
            out.push(known[k].clone());
            assert(paths::strings(out@) =~= done.push(path));
        }
        proof {
            assert forall|p: Seq<char>| #[trigger] paths::strings(out@).contains(p) == (all.take(
                k + 1,
            ).contains(p) && !index_keys(files@).contains(p)) by {
                db::lemma_contains_push(all.take(k as int), path, p);
                db::lemma_contains_push(done, path, p);
                assert(keep_paths@.contains(path) == index_keys(files@).contains(path));
                assert(done.contains(p) == (all.take(k as int).contains(p) && !index_keys(
                    files@,
                ).contains(p)));
            }
        }
        k += 1;
    }
    assert(all.take(k as int) =~= all);
    out
}

/// What is to be done next in a run.
#[derive(Clone, Copy, Debug, PartialEq, Eq, Structural)]
pub enum IndexAction {
    /// The file is to be embedded and put into the index.
    Embed,
    /// The file is as the index knows it.
    Skip,
    /// All files have been dealt with.
    Finish,
}

/// A run: the files, what the index knew when it started, how many files have been dealt with,
/// and how many of those could not be embedded, with what is said of the first three.
pub struct IndexRun {
    pub files: Vec<FileEntry>,
    pub existing: IndexedImages,
    pub next: usize,
    pub failed_count: usize,
    pub failure_samples: Vec<String>,
}

/// Whether `record` is that of `file`, which was embedded as `vector`.
pub open spec fn is_record_of(record: NewImageRecord, file: FileEntry, vector: Seq<u32>) -> bool {
    &&& record.path@ == index_key(file.path@)
    &&& record.file_name@ == file.file_name@
    &&& record.mtime_ms == file.mtime_ms
    &&& record.size_bytes == file.size_bytes
    &&& record.dims == vector.len()
    &&& record.vector@ == vector
}

/// One more than `n`, or `n` where there is no larger number.
pub open spec fn one_more(n: usize) -> usize {
    if n < usize::MAX {
        (n + 1) as usize
    } else {
        n
    }
}

/// The failures that are reported once one more has come.
pub open spec fn with_failure(
    samples: Seq<Seq<char>>,
    key: Seq<char>,
    error: Seq<char>,
) -> Seq<Seq<char>> {
    if samples.len() < 3 {
        samples.push(key + ": "@ + error)
    } else {
        samples
    }
}

impl IndexRun {
    /// The invariant of a run.
    pub open spec fn well_formed(&self) -> bool {
        &&& self.existing.well_formed()
        &&& self.failed_count <= self.next <= self.files@.len()
        &&& self.failure_samples@.len() == if self.failed_count < 3 {
            self.failed_count as int
        } else {
            3
        }
    }

    /// The path by which the index knows the file that the run is at.
    pub open spec fn key(&self) -> Seq<char> {
        index_key(self.files@[self.next as int].path@)
    }

    /// What is to be done next.
    pub open spec fn next_action(&self) -> IndexAction {
        if self.next == self.files@.len() {
            IndexAction::Finish
        } else if is_unchanged(self.existing@, self.files@[self.next as int]) {
            IndexAction::Skip
        } else {
            IndexAction::Embed
        }
    }

    /// Whether the run has just begun.
    pub open spec fn is_new(&self) -> bool {
        self.next == 0 && self.failed_count == 0 && self.failure_samples@.len() == 0
    }

    /// Whether `self` is the run `before` after the file that it was at, for which `failure`
    /// was said, if it could not be embedded.
    pub open spec fn follows(&self, before: IndexRun, failure: Option<Seq<char>>) -> bool {
        &&& self.files == before.files
        &&& self.existing == before.existing
        &&& self.next == before.next + 1
        &&& match failure {
            None => self.failed_count == before.failed_count && self.failure_samples
                == before.failure_samples,
            Some(error) => self.failed_count == before.failed_count + 1 && paths::strings(
                self.failure_samples@,
            ) == with_failure(paths::strings(before.failure_samples@), before.key(), error),
        }
    }

    /// A run on `files`, where `existing` is what the index knows.
    pub fn new(files: Vec<FileEntry>, existing: IndexedImages) -> (r: Self)
        requires
            existing.well_formed(),
        ensures
            r.well_formed(),
            r.files@ == files@,
            r.existing == existing,
            r.is_new(),
    {
        IndexRun { files, existing, next: 0, failed_count: 0, failure_samples: Vec::new() }
    }

    /// Tells `status` how many files there are.
    pub fn announce(&self, status: &mut IndexStatus)
        ensures
            final(status)@ == (Status {
                total: self.files@.len() as usize,
                processed: 0,
                current_file: None,
                error: None,
                ..old(status)@
            }),
    {
        status.total = self.files.len();
        status.processed = 0;
        status.current_file = None;
        status.error = None;
    }

    /// What is to be done next.
    pub fn action(&self) -> (r: IndexAction)
        requires
            self.well_formed(),
        ensures
            r == self.next_action(),
    {
        if self.next == self.files.len() {
            return IndexAction::Finish;
        }
        let file = &self.files[self.next];
        let key = path_to_string(file.path.as_str());
        match self.existing.get(key.as_str()) {
            Some(stored) => if stored.mtime_ms == file.mtime_ms && stored.size_bytes
                == file.size_bytes {
                IndexAction::Skip
            } else {
                IndexAction::Embed
            },
            None => IndexAction::Embed,
        }
    }

    /// Tells `status` which file the run is at.
    pub fn open_file(&self, status: &mut IndexStatus)
        requires
            self.next < self.files@.len(),
        ensures
            final(status)@ == (Status { current_file: Some(self.key()), ..old(status)@ }),
    {
        status.current_file = Some(path_to_string(self.files[self.next].path.as_str()));
    }

    /// The record of the file that the run is at, which was embedded as `vector`.
    pub fn record(&self, vector: Vec<u32>) -> (r: NewImageRecord)
        requires
            self.next < self.files@.len(),
        ensures
            is_record_of(r, self.files@[self.next as int], vector@),
    {
        let file = &self.files[self.next];
        let dims: usize = vector.len();
        NewImageRecord {
            path: path_to_string(file.path.as_str()),
            file_name: file.file_name.clone(),
            mtime_ms: file.mtime_ms,
            size_bytes: file.size_bytes,
            dims,
            vector,
        }
    }

    /// Goes on to the next file. `failure` says why the file that the run is at could not be
    /// embedded, if it could not.
    pub fn finish_file(&mut self, status: &mut IndexStatus, failure: Option<&str>)
        requires
            old(self).well_formed(),
            old(self).next < old(self).files@.len(),
        ensures
            final(self).well_formed(),
            final(self).follows(*old(self), text::of_str(failure)),
            final(status)@ == (Status {
                processed: one_more(old(status).processed),
                ..old(status)@
            }),
    {
        assert(self.files.len() <= usize::MAX);
        if let Some(error) = failure {
            self.failed_count += 1;
            if self.failure_samples.len() < 3 {
                let ghost before = paths::strings(self.failure_samples@);
                let ghost key = self.key();
                let path = path_to_string(self.files[self.next].path.as_str());
                let sample = path.concat(": ").concat(error);
                self.failure_samples.push(sample);
                assert(paths::strings(self.failure_samples@) =~= before.push(
                    key + ": "@ + error@,
                ));
            }
        }
        self.next += 1;
        if status.processed < usize::MAX {
            status.processed += 1;
        }
    }

    /// The images that have to leave the index at the end of the run.
    pub fn removed_paths(&self) -> (r: Vec<String>)
        requires
            self.well_formed(),
        ensures
            paths::strings(r@).no_duplicates(),
            forall|p: Seq<char>|
                #[trigger] paths::strings(r@).contains(p) == (self.existing@.contains_key(p)
                    && !index_keys(self.files@).contains(p)),
    {
        collect_removed_paths(&self.existing, &self.files)
    }

    /// Ends the run, when the index holds `indexed` images: gives a warning, or the error that
    /// nothing could be embedded.
    pub fn conclude(&self, status: &mut IndexStatus, indexed: usize) -> (r: Result<
        Option<String>,
        IndexError,
    >)
        ensures
            final(status)@ == (Status { indexed, ..old(status)@ }),
            is_summary(
                r,
                self.files@.len() as usize,
                indexed,
                self.failed_count,
                paths::strings(self.failure_samples@),
            ),
    {
        status.indexed = indexed;
        summarize_indexing_failures(
            self.files.len(),
            indexed,
            self.failed_count,
            self.failure_samples.as_slice(),
        )
    }
}

/// The samples in one line.
pub open spec fn joined_samples(samples: Seq<Seq<char>>) -> Seq<char>
    decreases samples.len(),
{
    if samples.len() == 0 {
        Seq::empty()
    } else if samples.len() == 1 {
        samples[0]
    } else {
        joined_samples(samples.drop_last()) + "；"@ + samples.last()
    }
}

/// What is said of a run in which no image could be embedded.
pub open spec fn all_failed_text(
    total_files: usize,
    failed_count: usize,
    samples: Seq<Seq<char>>,
) -> Seq<char> {
    "索引失败：共扫描 "@ + text::decimal(total_files as nat) + " 张图片，"@ + text::decimal(
        failed_count as nat,
    ) + " 张嵌入失败。示例："@ + joined_samples(samples)
}

/// What is said of a run in which some images could not be embedded.
pub open spec fn some_failed_text(
    total_files: usize,
    indexed: usize,
    failed_count: usize,
    samples: Seq<Seq<char>>,
) -> Seq<char> {
    "索引完成，但有 "@ + text::decimal(failed_count as nat) + "/"@ + text::decimal(
        total_files as nat,
    ) + " 张图片处理失败，当前已写入 "@ + text::decimal(indexed as nat) + " 条。示例："@
        + joined_samples(samples)
}

/// Whether `r` is what a run on `total_files` files comes to, of which `failed_count` could not
/// be embedded.
pub open spec fn is_summary(
    r: Result<Option<String>, IndexError>,
    total_files: usize,
    indexed: usize,
    failed_count: usize,
    samples: Seq<Seq<char>>,
) -> bool {
    if failed_count == 0 {
        r matches Ok(w) && w is None
    } else if indexed == 0 {
        r matches Err(IndexError::AllFailed(m)) && m@ == all_failed_text(
            total_files,
            failed_count,
            samples,
        )
    } else {
        r matches Ok(Some(m)) && m@ == some_failed_text(
            total_files,
            indexed,
            failed_count,
            samples,
        )
    }
}

fn join_samples(samples: &[String]) -> (r: String)
    ensures
        r@ == joined_samples(paths::strings(samples@)),
{
    let ghost all = paths::strings(samples@);
    let mut out = "".to_owned();
    proof {
        reveal_strlit("");
    }
    assert(out@ =~= Seq::<char>::empty());
    let mut i: usize = 0;
    while i < samples.len()
        invariant
            i <= samples@.len(),
            all == paths::strings(samples@),
            out@ == joined_samples(all.take(i as int)),
        decreases samples@.len() - i,
    {
        assert(all.take(i + 1).drop_last() =~= all.take(i as int));
        assert(all.take(i + 1).last() == samples@[i as int]@);
        if i > 0 {
            out.append("；");
            out.append(samples[i].as_str());
        } else {
            out = samples[i].clone();
        }
        i += 1;
    }
    assert(all.take(i as int) =~= all);
    out
}

/// What a run on `total_files` files comes to, of which `failed_count` could not be embedded,
/// when the index then holds `indexed` images.
pub fn summarize_indexing_failures(
    total_files: usize,
    indexed: usize,
    failed_count: usize,
    failure_samples: &[String],
) -> (r: Result<Option<String>, IndexError>)
    ensures
        is_summary(r, total_files, indexed, failed_count, paths::strings(failure_samples@)),
{
    if failed_count == 0 {
        return Ok(None);
    }
    let sample_text = join_samples(failure_samples);
    let total = decimal_text(total_files);
    let failed = decimal_text(failed_count);
    if indexed == 0 {
        let mut m = "索引失败：共扫描 ".to_owned();
        m.append(total.as_str());
        m.append(" 张图片，");
        m.append(failed.as_str());
        m.append(" 张嵌入失败。示例：");
        m.append(sample_text.as_str());
        return Err(IndexError::AllFailed(m));
    }
    let written = decimal_text(indexed);
    let mut m = "索引完成，但有 ".to_owned();
    m.append(failed.as_str());
    m.append("/");
    m.append(total.as_str());
    m.append(" 张图片处理失败，当前已写入 ");
    m.append(written.as_str());
    m.append(" 条。示例：");
    m.append(sample_text.as_str());
    Ok(Some(m))
}

/// What the index status says at the end of a run that came to `outcome`.
pub fn final_error(outcome: Result<Option<String>, String>) -> (r: Option<String>)
    ensures
        text::of_string(r) == match outcome {
            Ok(warning) => text::of_string(warning),
            Err(message) => Some(message@),
        },
{
    match outcome {
        Ok(warning) => warning,
        Err(message) => Some(message),
    }
}

// ---------------------------------------------------------------------------
// What a run does to the index
// ---------------------------------------------------------------------------

/// Whether `known` is what the index says of its images.
pub open spec fn is_snapshot_of(known: Map<Seq<char>, db::Snapshot>, index: Index) -> bool {
    &&& forall|p: Seq<char>|
        #[trigger] known.contains_key(p) == index.images.contains_key(p)
    &&& forall|p: Seq<char>| #[trigger]
        known.contains_key(p) ==> known[p].mtime_ms == index.images[p].mtime_ms
            && known[p].size_bytes == index.images[p].size_bytes
}

/// Whether `row` is one for `file`.
pub open spec fn is_row_of(row: ImageRow, file: FileEntry) -> bool {
    &&& row.path@ == index_key(file.path@)
    &&& row.mtime_ms == file.mtime_ms
    &&& row.size_bytes == file.size_bytes
}

/// Whether `rows` are what a run writes for `files`: nothing where a file could not be
/// embedded.
pub open spec fn are_rows_of(rows: Seq<Option<ImageRow>>, files: Seq<FileEntry>) -> bool {
    &&& rows.len() == files.len()
    &&& forall|i: int|
        0 <= i < rows.len() && (#[trigger] rows[i]) is Some ==> is_row_of(rows[i]->0, files[i])
}

/// Whether every file that is not as the index knows it could be embedded.
pub open spec fn all_embedded(
    known: Map<Seq<char>, db::Snapshot>,
    files: Seq<FileEntry>,
    rows: Seq<Option<ImageRow>>,
) -> bool {
    forall|i: int|
        0 <= i < files.len() ==> is_unchanged(known, #[trigger] files[i]) || rows[i] is Some
}

/// The index after the files have been dealt with: each that is not as the index knows it is
/// put in, unless it could not be embedded.
pub open spec fn written(
    index: Index,
    known: Map<Seq<char>, db::Snapshot>,
    files: Seq<FileEntry>,
    rows: Seq<Option<ImageRow>>,
) -> Index
    decreases files.len(),
{
    if files.len() == 0 {
        index
    } else {
        let before = written(index, known, files.drop_last(), rows.drop_last());
        if is_unchanged(known, files.last()) {
            before
        } else {
            match rows.last() {
                Some(row) => DbChange::Upsert(row).effect(before),
                None => before,
            }
        }
    }
}

/// The index after a run: the images whose files are gone have left it.
pub open spec fn after_run(
    index: Index,
    known: Map<Seq<char>, db::Snapshot>,
    files: Seq<FileEntry>,
    rows: Seq<Option<ImageRow>>,
) -> Index {
    let filled = written(index, known, files, rows);
    Index {
        images: filled.images.remove_keys(known.dom().difference(index_keys(files))),
        signature: filled.signature,
    }
}

/// Once the files have been dealt with, taking out the images whose files are gone completes
/// the run.
pub proof fn law_removals_complete_run(
    index: Index,
    known: Map<Seq<char>, db::Snapshot>,
    files: Seq<FileEntry>,
    rows: Seq<Option<ImageRow>>,
    removed: Seq<Seq<char>>,
)
    requires
        forall|p: Seq<char>|
            #[trigger] removed.contains(p) == (known.contains_key(p) && !index_keys(
                files,
            ).contains(p)),
    ensures
        ({
            let filled = written(index, known, files, rows);
            (Index {
                images: filled.images.remove_keys(removed.to_set()),
                signature: filled.signature,
            }) == after_run(index, known, files, rows)
        }),
{
    let gone = known.dom().difference(index_keys(files));
    assert forall|p: Seq<char>| removed.to_set().contains(p) == gone.contains(p) by {
        assert(removed.contains(p) == (known.contains_key(p) && !index_keys(files).contains(p)));
    }
    assert(removed.to_set() =~= gone);
}

proof fn lemma_index_keys_push(files: Seq<FileEntry>, p: Seq<char>)
    requires
        files.len() > 0,
    ensures
        index_keys(files).contains(p) == (index_keys(files.drop_last()).contains(p) || p
            == index_key(files.last().path@)),
{
    let rest = files.drop_last();
    if index_keys(files).contains(p) {
        let i = choose|i: int| 0 <= i < files.len() && #[trigger] index_key(files[i].path@) == p;
        if i < rest.len() {
            assert(index_key(rest[i].path@) == p);
        }
    }
    if index_keys(rest).contains(p) {
        let i = choose|i: int| 0 <= i < rest.len() && #[trigger] index_key(rest[i].path@) == p;
        assert(index_key(files[i].path@) == p);
    }
    if p == index_key(files.last().path@) {
        assert(index_key(files[files.len() - 1].path@) == p);
    }
}

/// Which images are in the index after the files have been dealt with, and which of them are
/// as they were.
proof fn lemma_written(
    index: Index,
    known: Map<Seq<char>, db::Snapshot>,
    files: Seq<FileEntry>,
    rows: Seq<Option<ImageRow>>,
    p: Seq<char>,
)
    requires
        is_snapshot_of(known, index),
        are_rows_of(rows, files),
    ensures
        ({
            let after = written(index, known, files, rows).images;
            &&& index.images.contains_key(p) ==> after.contains_key(p)
            &&& after.contains_key(p) ==> index.images.contains_key(p) || index_keys(
                files,
            ).contains(p)
            &&& all_embedded(known, files, rows) && index_keys(files).contains(p)
                ==> after.contains_key(p)
            &&& index.images.contains_key(p) && (forall|i: int|
                0 <= i < files.len() && index_key(#[trigger] files[i].path@) == p
                    ==> is_unchanged(known, files[i])) ==> after[p] == index.images[p]
        }),
        written(index, known, files, rows).signature == index.signature,
    decreases files.len(),
{
    if files.len() > 0 {
        let rest = files.drop_last();
        assert forall|i: int| 0 <= i < rest.len() && (#[trigger] rows.drop_last()[i]) is Some implies
            is_row_of(rows.drop_last()[i]->0, rest[i]) by {
            assert(rows[i] is Some);
        }
        lemma_written(index, known, rest, rows.drop_last(), p);
        lemma_index_keys_push(files, p);
        let last = files.last();
        assert(rows.last() is Some ==> is_row_of(rows[rows.len() - 1]->0, last));
        if all_embedded(known, files, rows) {
            assert(all_embedded(known, rest, rows.drop_last())) by {
                assert forall|i: int| 0 <= i < rest.len() implies is_unchanged(
                    known,
                    #[trigger] rest[i],
                ) || rows.drop_last()[i] is Some by {
                    assert(files[i] == rest[i]);
                }
            }
            assert(files[files.len() - 1] == last);
            if is_unchanged(known, last) {
                assert(known.contains_key(index_key(last.path@)));
            }
        }
        if forall|i: int|
            0 <= i < files.len() && index_key(#[trigger] files[i].path@) == p ==> is_unchanged(
                known,
                files[i],
            ) {
            assert forall|i: int|
                0 <= i < rest.len() && index_key(#[trigger] rest[i].path@) == p implies is_unchanged(
                known,
                rest[i],
            ) by {
                assert(files[i].path@ == rest[i].path@);
            }
            assert(files[files.len() - 1].path@ == last.path@);
        }
    }
}

/// After a run the index holds no image whose file is gone.
pub proof fn law_run_drops_missing_files(
    index: Index,
    known: Map<Seq<char>, db::Snapshot>,
    files: Seq<FileEntry>,
    rows: Seq<Option<ImageRow>>,
    p: Seq<char>,
)
    requires
        is_snapshot_of(known, index),
        are_rows_of(rows, files),
    ensures
        after_run(index, known, files, rows).images.contains_key(p) ==> index_keys(
            files,
        ).contains(p),
{
    lemma_written(index, known, files, rows, p);
    assert(known.contains_key(p) == index.images.contains_key(p));
}

/// After a run in which every file that had to be embedded could be, the index holds the image
/// files that there are and nothing else.
pub proof fn law_run_mirrors_directory(
    index: Index,
    known: Map<Seq<char>, db::Snapshot>,
    files: Seq<FileEntry>,
    rows: Seq<Option<ImageRow>>,
)
    requires
        is_snapshot_of(known, index),
        are_rows_of(rows, files),
        all_embedded(known, files, rows),
    ensures
        after_run(index, known, files, rows).images.dom() == index_keys(files),
        after_run(index, known, files, rows).signature == index.signature,
{
    let after = after_run(index, known, files, rows).images;
    assert forall|p: Seq<char>| after.dom().contains(p) == index_keys(files).contains(p) by {
        lemma_written(index, known, files, rows, p);
        assert(known.contains_key(p) == index.images.contains_key(p));
    }
    assert(after.dom() =~= index_keys(files));
    lemma_written(index, known, files, rows, Seq::empty());
}

/// Whether a file that the index knows as `p` was embedded in a run.
pub open spec fn was_embedded(
    known: Map<Seq<char>, db::Snapshot>,
    files: Seq<FileEntry>,
    rows: Seq<Option<ImageRow>>,
    p: Seq<char>,
) -> bool {
    exists|i: int|
        0 <= i < files.len() && index_key(#[trigger] files[i].path@) == p && !is_unchanged(
            known,
            files[i],
        ) && rows[i] is Some
}

proof fn lemma_written_keys(
    index: Index,
    known: Map<Seq<char>, db::Snapshot>,
    files: Seq<FileEntry>,
    rows: Seq<Option<ImageRow>>,
    p: Seq<char>,
)
    requires
        are_rows_of(rows, files),
    ensures
        ({
            let after = written(index, known, files, rows).images;
            &&& after.contains_key(p) == (index.images.contains_key(p) || was_embedded(
                known,
                files,
                rows,
                p,
            ))
            &&& !was_embedded(known, files, rows, p) && index.images.contains_key(p) ==> after[p]
                == index.images[p]
        }),
    decreases files.len(),
{
    if files.len() > 0 {
        let rest = files.drop_last();
        let early = rows.drop_last();
        let n = files.len() - 1;
        assert forall|i: int| 0 <= i < rest.len() && (#[trigger] early[i]) is Some implies is_row_of(
            early[i]->0,
            rest[i],
        ) by {
            assert(rows[i] is Some);
        }
        lemma_written_keys(index, known, rest, early, p);
        assert(rows[n] is Some ==> is_row_of(rows[n]->0, files[n]));
        if was_embedded(known, rest, early, p) {
            let i = choose|i: int|
                0 <= i < rest.len() && index_key(#[trigger] rest[i].path@) == p && !is_unchanged(
                    known,
                    rest[i],
                ) && early[i] is Some;
            assert(index_key(files[i].path@) == p && rows[i] is Some);
        }
        if was_embedded(known, files, rows, p) {
            let i = choose|i: int|
                0 <= i < files.len() && index_key(#[trigger] files[i].path@) == p && !is_unchanged(
                    known,
                    files[i],
                ) && rows[i] is Some;
            if i < n {
                assert(index_key(rest[i].path@) == p && early[i] is Some);
            }
        }
        if index_key(files[n].path@) == p && !is_unchanged(known, files[n]) && rows[n] is Some {
            assert(was_embedded(known, files, rows, p));
        }
    }
}

/// After a run, whether or not every file could be embedded, the index holds the image files
/// that it held before or that were embedded, and nothing else.
pub proof fn law_run_holds_known_and_embedded(
    index: Index,
    known: Map<Seq<char>, db::Snapshot>,
    files: Seq<FileEntry>,
    rows: Seq<Option<ImageRow>>,
    p: Seq<char>,
)
    requires
        is_snapshot_of(known, index),
        are_rows_of(rows, files),
    ensures
        after_run(index, known, files, rows).images.contains_key(p) == (index_keys(
            files,
        ).contains(p) && (index.images.contains_key(p) || was_embedded(known, files, rows, p))),
{
    lemma_written_keys(index, known, files, rows, p);
    assert(known.contains_key(p) == index.images.contains_key(p));
    if was_embedded(known, files, rows, p) {
        let i = choose|i: int|
            0 <= i < files.len() && index_key(#[trigger] files[i].path@) == p && !is_unchanged(
                known,
                files[i],
            ) && rows[i] is Some;
        assert(index_key(files[i].path@) == p);
        assert(index_keys(files).contains(p));
    }
}

/// A file that the index knew keeps its image in a run in which it was not embedded: in
/// particular one that has changed and could not be embedded.
pub proof fn law_failed_file_keeps_old_image(
    index: Index,
    known: Map<Seq<char>, db::Snapshot>,
    files: Seq<FileEntry>,
    rows: Seq<Option<ImageRow>>,
    p: Seq<char>,
)
    requires
        is_snapshot_of(known, index),
        are_rows_of(rows, files),
        index.images.contains_key(p),
        index_keys(files).contains(p),
        !was_embedded(known, files, rows, p),
    ensures
        after_run(index, known, files, rows).images.contains_key(p),
        after_run(index, known, files, rows).images[p] == index.images[p],
{
    lemma_written_keys(index, known, files, rows, p);
}

/// A run leaves the image of a file that has not changed as it was.
pub proof fn law_run_keeps_unchanged_images(
    index: Index,
    known: Map<Seq<char>, db::Snapshot>,
    files: Seq<FileEntry>,
    rows: Seq<Option<ImageRow>>,
    p: Seq<char>,
)
    requires
        is_snapshot_of(known, index),
        are_rows_of(rows, files),
        index_keys(files).contains(p),
        forall|i: int|
            0 <= i < files.len() && index_key(#[trigger] files[i].path@) == p ==> is_unchanged(
                known,
                files[i],
            ),
    ensures
        index.images.contains_key(p),
        after_run(index, known, files, rows).images.contains_key(p),
        after_run(index, known, files, rows).images[p] == index.images[p],
{
    lemma_written(index, known, files, rows, p);
    let i = choose|i: int| 0 <= i < files.len() && #[trigger] index_key(files[i].path@) == p;
    assert(index_key(files[i].path@) == p);
    assert(is_unchanged(known, files[i]));
    assert(known.contains_key(p) == index.images.contains_key(p));
}

/// An image that the index knew and whose file is still there keeps its number in a run,
/// whether or not it was embedded again.
pub proof fn law_run_keeps_ids(
    index: Index,
    known: Map<Seq<char>, db::Snapshot>,
    files: Seq<FileEntry>,
    rows: Seq<Option<ImageRow>>,
    p: Seq<char>,
)
    requires
        index.images.contains_key(p),
        index_keys(files).contains(p),
    ensures
        after_run(index, known, files, rows).images.contains_key(p),
        after_run(index, known, files, rows).images[p].id == index.images[p].id,
{
    lemma_written_ids(index, known, files, rows, p);
}

proof fn lemma_written_ids(
    index: Index,
    known: Map<Seq<char>, db::Snapshot>,
    files: Seq<FileEntry>,
    rows: Seq<Option<ImageRow>>,
    p: Seq<char>,
)
    requires
        index.images.contains_key(p),
    ensures
        written(index, known, files, rows).images.contains_key(p),
        written(index, known, files, rows).images[p].id == index.images[p].id,
    decreases files.len(),
{
    if files.len() > 0 {
        lemma_written_ids(index, known, files.drop_last(), rows.drop_last(), p);
    }
}

/// Whether the index knows the files by different paths.
pub open spec fn have_distinct_keys(files: Seq<FileEntry>) -> bool {
    forall|i: int, j: int|
        0 <= i < j < files.len() ==> index_key(#[trigger] files[i].path@) != index_key(
            #[trigger] files[j].path@,
        )
}

proof fn lemma_written_is_current(
    index: Index,
    known: Map<Seq<char>, db::Snapshot>,
    files: Seq<FileEntry>,
    rows: Seq<Option<ImageRow>>,
    k: int,
)
    requires
        is_snapshot_of(known, index),
        are_rows_of(rows, files),
        have_distinct_keys(files),
        0 <= k < files.len(),
        is_unchanged(known, files[k]) || rows[k] is Some,
    ensures
        ({
            let after = written(index, known, files, rows).images;
            let key = index_key(files[k].path@);
            &&& after.contains_key(key)
            &&& after[key].mtime_ms == files[k].mtime_ms
            &&& after[key].size_bytes == files[k].size_bytes
        }),
    decreases files.len(),
{
    let rest = files.drop_last();
    let early = rows.drop_last();
    let key = index_key(files[k].path@);
    assert forall|i: int| 0 <= i < rest.len() && (#[trigger] early[i]) is Some implies is_row_of(
        early[i]->0,
        rest[i],
    ) by {
        assert(rows[i] is Some);
    }
    if k < rest.len() {
        assert(have_distinct_keys(rest)) by {
            assert forall|i: int, j: int| 0 <= i < j < rest.len() implies index_key(
                #[trigger] rest[i].path@,
            ) != index_key(#[trigger] rest[j].path@) by {
                assert(index_key(files[i].path@) != index_key(files[j].path@));
            }
        }
        lemma_written_is_current(index, known, rest, early, k);
        assert(rest[k] == files[k]);
        assert(index_key(files[k].path@) != index_key(files[files.len() - 1].path@));
        if rows.last() is Some {
            assert(is_row_of(rows[rows.len() - 1]->0, files[files.len() - 1]));
        }
    } else {
        assert(rows[k] is Some ==> is_row_of(rows[k]->0, files[k]));
        if is_unchanged(known, files.last()) {
            assert forall|i: int|
                0 <= i < files.len() && index_key(#[trigger] files[i].path@) == key implies is_unchanged(
                known,
                files[i],
            ) by {
                if i < k {
                    assert(index_key(files[i].path@) != index_key(files[k].path@));
                }
            }
            lemma_written(index, known, files, rows, key);
            assert(known.contains_key(key) == index.images.contains_key(key));
        }
    }
}

/// A second run on the same files, right after one in which every file that had to be embedded
/// could be, finds every file as the index knows it and changes nothing.
pub proof fn law_second_run_changes_nothing(
    index: Index,
    known: Map<Seq<char>, db::Snapshot>,
    files: Seq<FileEntry>,
    rows: Seq<Option<ImageRow>>,
    known_after: Map<Seq<char>, db::Snapshot>,
    rows_after: Seq<Option<ImageRow>>,
)
    requires
        is_snapshot_of(known, index),
        are_rows_of(rows, files),
        all_embedded(known, files, rows),
        have_distinct_keys(files),
        is_snapshot_of(known_after, after_run(index, known, files, rows)),
    ensures
        forall|i: int| 0 <= i < files.len() ==> is_unchanged(known_after, #[trigger] files[i]),
        after_run(after_run(index, known, files, rows), known_after, files, rows_after)
            == after_run(index, known, files, rows),
{
    let after = after_run(index, known, files, rows);
    law_run_mirrors_directory(index, known, files, rows);
    assert forall|i: int| 0 <= i < files.len() implies is_unchanged(
        known_after,
        #[trigger] files[i],
    ) by {
        let key = index_key(files[i].path@);
        assert(is_unchanged(known, files[i]) || rows[i] is Some);
        lemma_written_is_current(index, known, files, rows, i);
        assert(index_keys(files).contains(key));
        assert(after.images.dom().contains(key));
        assert(known_after.contains_key(key));
    }
    lemma_nothing_written(after, known_after, files, rows_after);
    assert(known_after.dom().difference(index_keys(files)) =~= Set::empty()) by {
        assert forall|p: Seq<char>| known_after.dom().contains(p) implies index_keys(
            files,
        ).contains(p) by {
            assert(known_after.contains_key(p));
            assert(after.images.dom().contains(p));
        }
    }
    assert(after.images.remove_keys(known_after.dom().difference(index_keys(files)))
        =~= after.images);
}

proof fn lemma_nothing_written(
    index: Index,
    known: Map<Seq<char>, db::Snapshot>,
    files: Seq<FileEntry>,
    rows: Seq<Option<ImageRow>>,
)
    requires
        forall|i: int| 0 <= i < files.len() ==> is_unchanged(known, #[trigger] files[i]),
    ensures
        written(index, known, files, rows) == index,
    decreases files.len(),
{
    if files.len() > 0 {
        let rest = files.drop_last();
        assert forall|i: int| 0 <= i < rest.len() implies is_unchanged(
            known,
            #[trigger] rest[i],
        ) by {
            assert(rest[i] == files[i]);
        }
        lemma_nothing_written(index, known, rest, rows.drop_last());
        assert(files.last() == files[files.len() - 1]);
    }
}

} // verus!
