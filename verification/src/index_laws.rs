//! What an index is made of, told by what a walk through the directory finds.

use vstd::prelude::*;

use crate::db;
#[allow(unused_imports)]
use crate::db::NewImageRecord;
use crate::indexer;
#[allow(unused_imports)]
use crate::indexer::{
    FileEntry, FileFacts, IndexAction, IndexError, IndexRun, WalkEntry,
};
use crate::path_laws;
use crate::paths;
#[allow(unused_imports)]
use crate::paths::EntryKind;
use crate::text;

verus! {

// ---------------------------------------------------------------------------
// Which files are images
// ---------------------------------------------------------------------------

/// A file is an AVIF image exactly if `ftyp` stands at the fifth byte, and `avif` or `avis` at
/// the ninth or at any fourth byte from the seventeenth on.
pub proof fn law_avif_headers(header: Seq<u8>)
    ensures
        indexer::is_avif(header) <==> {
            &&& header.len() >= 12
            &&& header.subrange(4, 8) == seq![0x66u8, 0x74, 0x79, 0x70]
            &&& exists|i: int|
                (i == 8 || (i >= 16 && i % 4 == 0)) && i + 4 <= header.len() && {
                    let brand = #[trigger] header.subrange(i, i + 4);
                    brand == seq![0x61u8, 0x76, 0x69, 0x66] || brand == seq![0x61u8, 0x76, 0x69, 0x73]
                }
        },
{
    let avif = seq![0x61u8, 0x76, 0x69, 0x66];
    let avis = seq![0x61u8, 0x76, 0x69, 0x73];
    if header.len() >= 12 {
        let ftyp = seq![0x66u8, 0x74, 0x79, 0x70];
        let box_type = header.subrange(4, 8);
        if box_type == ftyp {
            assert(box_type[0] == 0x66 && box_type[1] == 0x74 && box_type[2] == 0x79 && box_type[3]
                == 0x70);
        }
        if header[4] == 0x66 && header[5] == 0x74 && header[6] == 0x79 && header[7] == 0x70 {
            assert(box_type =~= ftyp);
        }
    }
    assert forall|i: int| 0 <= i && i + 4 <= header.len() implies ({
        let brand = #[trigger] header.subrange(i, i + 4);
        brand == avif || brand == avis
    } <==> indexer::is_brand_at(header, i)) by {
        let brand = header.subrange(i, i + 4);
        assert(brand[0] == header[i] && brand[1] == header[i + 1] && brand[2] == header[i + 2]
            && brand[3] == header[i + 3]);
        if indexer::is_brand_at(header, i) {
            if header[i + 3] == 0x66 {
                assert(brand =~= avif);
            } else {
                assert(brand =~= avis);
            }
        }
    }
    if indexer::is_avif(header) {
        if indexer::is_brand_at(header, 8) {
            let i: int = 8;
            let brand = header.subrange(i, i + 4);
            assert(brand == avif || brand == avis);
        } else {
            let k = choose|k: int|
                4 <= k && 4 * k + 4 <= header.len() && #[trigger] indexer::is_brand_at(
                    header,
                    4 * k,
                );
            let i = 4 * k;
            let brand = header.subrange(i, i + 4);
            assert(brand == avif || brand == avis);
        }
    }
    if exists|i: int|
        (i == 8 || (i >= 16 && i % 4 == 0)) && i + 4 <= header.len() && {
            let brand = #[trigger] header.subrange(i, i + 4);
            brand == avif || brand == avis
        } {
        let i = choose|i: int|
            (i == 8 || (i >= 16 && i % 4 == 0)) && i + 4 <= header.len() && {
                let brand = #[trigger] header.subrange(i, i + 4);
                brand == avif || brand == avis
            };
        assert(indexer::is_brand_at(header, i));
        if i != 8 {
            let k = i / 4;
            assert(indexer::is_brand_at(header, 4 * k));
        }
    }
}

/// What was found is an image exactly if it is a file, its extension is one of five, in capital
/// or small letters, and it does not begin as an AVIF image does. Nothing else counts.
pub proof fn law_which_files_are_images(e: WalkEntry)
    ensures
        indexer::is_wanted(e) <==> {
            &&& e.is_file
            &&& paths::extension(e.path@) matches Some(ext) && {
                let small = text::lowered(ext);
                small == "jpg"@ || small == "jpeg"@ || small == "png"@ || small == "webp"@ || small
                    == "bmp"@
            }
            &&& !({
                &&& e.header@.len() >= 12
                &&& e.header@.subrange(4, 8) == seq![0x66u8, 0x74, 0x79, 0x70]
                &&& exists|i: int|
                    (i == 8 || (i >= 16 && i % 4 == 0)) && i + 4 <= e.header@.len() && {
                        let brand = #[trigger] e.header@.subrange(i, i + 4);
                        brand == seq![0x61u8, 0x76, 0x69, 0x66] || brand == seq![
                            0x61u8,
                            0x76,
                            0x69,
                            0x73,
                        ]
                    }
            })
        },
{
    law_avif_headers(e.header@);
}

/// A file named like an image is one unless `ftyp` stands at the fifth byte, however many bytes
/// of it were read.
pub proof fn law_files_named_like_images(
    e: WalkEntry,
    dir: Seq<char>,
    stem: Seq<char>,
    ext: Seq<char>,
)
    requires
        e.is_file,
        e.path@ == dir + seq!['/'] + (stem + seq!['.'] + ext),
        dir.len() > 0,
        stem.len() > 0,
        !stem.contains('/'),
        text::lowered(ext) == "jpg"@ || text::lowered(ext) == "jpeg"@ || text::lowered(ext)
            == "png"@ || text::lowered(ext) == "webp"@ || text::lowered(ext) == "bmp"@,
        e.header@.len() < 8 || e.header@[4] != 0x66 || e.header@[5] != 0x74 || e.header@[6] != 0x79
            || e.header@[7] != 0x70,
    ensures
        indexer::is_wanted(e),
{
    let name = stem + seq!['.'] + ext;
    let small = text::lowered(ext);
    reveal_strlit("jpg");
    reveal_strlit("jpeg");
    reveal_strlit("png");
    reveal_strlit("webp");
    reveal_strlit("bmp");
    assert(forall|i: int| 0 <= i < small.len() ==> 'a' <= #[trigger] small[i] <= 'z');
    assert forall|i: int| 0 <= i < ext.len() implies #[trigger] ext[i] != '.' && ext[i]
        != '/' by {
        text::law_lower_case(ext, i);
        assert('a' <= small[i] <= 'z');
    }
    assert(!ext.contains('.'));
    assert(path_laws::is_name(name)) by {
        if name.contains('/') {
            let i = choose|i: int| 0 <= i < name.len() && name[i] == '/';
            if i < stem.len() {
                assert(stem[i] == '/');
            } else if i > stem.len() {
                assert(name[i] == ext[i - stem.len() - 1]);
            }
        }
        assert(small.len() == ext.len());
        assert(name.len() >= 5);
    }
    path_laws::law_extensions(dir, stem, ext);
}

// ---------------------------------------------------------------------------
// Which files are collected
// ---------------------------------------------------------------------------

/// Every image that was found is collected, with what was found out about it. The time of the
/// last change is noted in milliseconds, one before the epoch as zero.
pub proof fn law_images_are_collected(
    files: Seq<FileEntry>,
    entries: Seq<WalkEntry>,
    e: WalkEntry,
) -> (i: int)
    requires
        entries.len() <= usize::MAX,
        indexer::are_sorted_files(files, indexer::wanted(entries)),
        entries.contains(e),
        indexer::is_wanted(e),
    ensures
        0 <= i < files.len(),
        files[i].number == e.number,
        files[i].path@ == e.path@,
        files[i].file_name@ == e.file_name@,
        e.facts matches FileFacts::Known(modified_ms, size) && {
            &&& files[i].size_bytes == size
            &&& modified_ms matches Some(ms) ==> (ms <= i64::MAX ==> files[i].mtime_ms == ms)
            &&& modified_ms is None ==> files[i].mtime_ms == 0
        },
{
    let all = indexer::wanted(entries);
    indexer::law_indexed_files_are_images(entries, e);
    lemma_wanted_len(entries);
    let k = choose|k: int| 0 <= k < all.len() && all[k] == e;
    let order = choose|order: Seq<usize>|
        #![trigger indexer::is_path_order(all, order)]
        {
            &&& indexer::is_path_order(all, order)
            &&& files.len() == all.len()
            &&& forall|k: int|
                0 <= k < files.len() ==> indexer::is_file_of(
                    #[trigger] files[k],
                    all[order[k] as int],
                )
        };
    assert(order.contains(k as usize));
    let i = choose|i: int| 0 <= i < order.len() && order[i] == k as usize;
    assert(indexer::is_file_of(files[i], all[order[i] as int]));
    i
}

/// Every file that is collected was found, and is an image.
pub proof fn law_collected_are_images(
    files: Seq<FileEntry>,
    entries: Seq<WalkEntry>,
    i: int,
) -> (e: WalkEntry)
    requires
        indexer::are_sorted_files(files, indexer::wanted(entries)),
        0 <= i < files.len(),
    ensures
        entries.contains(e),
        indexer::is_wanted(e),
        files[i].number == e.number,
        files[i].path@ == e.path@,
        files[i].file_name@ == e.file_name@,
        e.facts matches FileFacts::Known(modified_ms, size) && {
            &&& files[i].size_bytes == size
            &&& modified_ms matches Some(ms) ==> (ms <= i64::MAX ==> files[i].mtime_ms == ms)
            &&& modified_ms is None ==> files[i].mtime_ms == 0
        },
{
    let all = indexer::wanted(entries);
    let order = choose|order: Seq<usize>|
        #![trigger indexer::is_path_order(all, order)]
        {
            &&& indexer::is_path_order(all, order)
            &&& files.len() == all.len()
            &&& forall|k: int|
                0 <= k < files.len() ==> indexer::is_file_of(
                    #[trigger] files[k],
                    all[order[k] as int],
                )
        };
    let e = all[order[i] as int];
    assert(order[i] < all.len());
    assert(indexer::is_file_of(files[i], e));
    assert(all.contains(e));
    indexer::law_indexed_files_are_images(entries, e);
    e
}

proof fn lemma_wanted_len(entries: Seq<WalkEntry>)
    ensures
        indexer::wanted(entries).len() <= entries.len(),
    decreases entries.len(),
{
    if entries.len() > 0 {
        lemma_wanted_len(entries.drop_last());
    }
}

/// The images are counted one by one: what was found counts for one exactly if it is a file with
/// one of the five extensions that does not begin as an AVIF image does.
pub proof fn law_images_are_counted(entries: Seq<WalkEntry>, e: WalkEntry)
    ensures
        indexer::wanted(Seq::empty()).len() == 0,
        indexer::wanted(entries.push(e)) == if e.is_file && !indexer::is_avif(e.header@) && (
        paths::extension(e.path@) matches Some(ext) && (text::lowered(ext) == "jpg"@
            || text::lowered(ext) == "jpeg"@ || text::lowered(ext) == "png"@ || text::lowered(ext)
            == "webp"@ || text::lowered(ext) == "bmp"@)) {
            indexer::wanted(entries).push(e)
        } else {
            indexer::wanted(entries)
        },
{
    assert(entries.push(e).drop_last() =~= entries);
}

/// The files are collected in the order of their paths: component by component, a directory
/// before what lies in it.
pub proof fn law_collected_are_sorted(
    files: Seq<FileEntry>,
    entries: Seq<WalkEntry>,
    i: int,
    j: int,
)
    requires
        indexer::are_sorted_files(files, entries),
        0 <= i < j < files.len(),
    ensures
        !paths::path_lt(
            paths::components(files[j].path@),
            paths::components(files[i].path@),
        ),
{
    let order = choose|order: Seq<usize>|
        #![trigger indexer::is_path_order(entries, order)]
        {
            &&& indexer::is_path_order(entries, order)
            &&& files.len() == entries.len()
            &&& forall|k: int|
                0 <= k < files.len() ==> indexer::is_file_of(
                    #[trigger] files[k],
                    entries[order[k] as int],
                )
        };
    assert(indexer::is_file_of(files[i], entries[order[i] as int]));
    assert(indexer::is_file_of(files[j], entries[order[j] as int]));
    assert(indexer::file_before(entries, order[i] as int, order[j] as int));
    let x = paths::components(files[i].path@);
    let y = paths::components(files[j].path@);
    paths::lemma_path_order(x, y, x);
    paths::lemma_path_order(y, x, y);
}

/// A directory of images is in order exactly if it is a directory, and a file exactly if its
/// size and the time of its last change could be found out and the size can be stored.
pub proof fn law_what_stops_an_index(dir: Seq<char>, kind: EntryKind, e: WalkEntry)
    ensures
        indexer::dir_problem(dir, kind) is None <==> kind == EntryKind::Directory,
        kind == EntryKind::Missing ==> indexer::dir_problem(dir, kind) == Some(
            "素材目录不存在: "@ + dir,
        ),
        kind != EntryKind::Missing && kind != EntryKind::Directory ==> indexer::dir_problem(
            dir,
            kind,
        ) == Some("素材目录不是目录: "@ + dir),
        indexer::file_problem(e) is None <==> (e.facts matches FileFacts::Known(_, size) && size
            <= 9223372036854775807),
        e.facts is NoMetadata ==> indexer::file_problem(e) == Some(
            "failed to read metadata for "@ + e.path@,
        ),
        e.facts is NoMtime ==> indexer::file_problem(e) == Some(
            "failed to read mtime for "@ + e.path@,
        ),
        e.facts is Known && indexer::file_problem(e) is Some ==> indexer::file_problem(e) == Some(
            "file size does not fit into i64"@,
        ),
{
}

// ---------------------------------------------------------------------------
// Which files are embedded
// ---------------------------------------------------------------------------

/// A run is at its end once it has been at every file. A file is passed over exactly if the index
/// knows one with its path, with `/` for every backslash, its size and its time.
pub proof fn law_what_a_run_does_next(run: IndexRun)
    requires
        run.next <= run.files@.len(),
    ensures
        run.next_action() == IndexAction::Finish <==> run.next == run.files@.len(),
        run.next_action() == IndexAction::Skip <==> run.next < run.files@.len() && {
            let file = run.files@[run.next as int];
            let path = text::replaced(file.path@, '\\', '/');
            &&& run.existing@.contains_key(path)
            &&& run.existing@[path].mtime_ms == file.mtime_ms
            &&& run.existing@[path].size_bytes == file.size_bytes
        },
{
}

/// Two files that were last changed at different times are noted with different times, so that
/// one that was changed after the index noted it is embedded again.
pub proof fn law_changed_files_are_embedded(
    run: IndexRun,
    earlier: FileEntry,
    before: WalkEntry,
    now: WalkEntry,
    ms_before: u128,
    ms_now: u128,
)
    requires
        run.next < run.files@.len(),
        indexer::is_file_of(earlier, before),
        indexer::is_file_of(run.files@[run.next as int], now),
        before.facts matches FileFacts::Known(Some(ms), _) && ms == ms_before,
        now.facts matches FileFacts::Known(Some(ms), _) && ms == ms_now,
        ms_before <= i64::MAX,
        ms_now <= i64::MAX,
        ms_before != ms_now,
        run.existing@.contains_key(run.key()) ==> run.existing@[run.key()].mtime_ms
            == earlier.mtime_ms,
    ensures
        earlier.mtime_ms == ms_before,
        run.files@[run.next as int].mtime_ms == ms_now,
        run.next_action() == IndexAction::Embed,
{
}

/// The index knows the files by their paths with `/` for every backslash, and by nothing else.
pub proof fn law_files_in_the_index(files: Seq<FileEntry>, p: Seq<char>)
    ensures
        indexer::index_keys(files).contains(p) <==> exists|i: int|
            0 <= i < files.len() && text::replaced((#[trigger] files[i]).path@, '\\', '/') == p,
{
    if indexer::index_keys(files).contains(p) {
        let i = choose|i: int|
            0 <= i < files.len() && #[trigger] indexer::index_key(files[i].path@) == p;
        assert(text::replaced(files[i].path@, '\\', '/') == p);
    }
    if exists|i: int|
        0 <= i < files.len() && text::replaced((#[trigger] files[i]).path@, '\\', '/') == p {
        let i = choose|i: int|
            0 <= i < files.len() && text::replaced((#[trigger] files[i]).path@, '\\', '/') == p;
        assert(indexer::index_key(files[i].path@) == p);
    }
}

/// Of a time that does not fit, the lowest sixty-four bits are noted.
pub proof fn law_times_are_cut(ms: u128)
    ensures
        indexer::mtime_of(Some(ms)) as u64 == (ms % 0x1_0000_0000_0000_0000) as u64,
        ms <= i64::MAX ==> indexer::mtime_of(Some(ms)) == ms,
        indexer::mtime_of(None) == 0,
{
    assert((ms as i64) as u64 == (ms % 0x1_0000_0000_0000_0000u128) as u64) by (bit_vector);
}

/// The record of a file says of it what was found out, under its path with `/` for every
/// backslash.
pub proof fn law_records_of_files(record: NewImageRecord, file: FileEntry, vector: Seq<u32>)
    ensures
        indexer::is_record_of(record, file, vector) <==> record.path@ == text::replaced(
            file.path@,
            '\\',
            '/',
        ) && record.file_name@ == file.file_name@ && record.mtime_ms == file.mtime_ms
            && record.size_bytes == file.size_bytes && record.dims == record.vector@.len()
            && record.vector@ == vector,
{
}

/// Going on to the next file counts it as failed exactly if it was, and keeps what is said of the
/// first three that failed.
pub proof fn law_failures_are_kept(run: IndexRun, before: IndexRun, failure: Option<Seq<char>>)
    requires
        before.well_formed(),
        before.next < before.files@.len(),
        run.follows(before, failure),
    ensures
        run.next == before.next + 1,
        run.files == before.files,
        run.existing == before.existing,
        failure is None ==> run.failed_count == before.failed_count && run.failure_samples
            == before.failure_samples,
        failure is Some ==> run.failed_count == before.failed_count + 1,
        failure is Some && before.failed_count >= 3 ==> paths::strings(run.failure_samples@)
            == paths::strings(before.failure_samples@),
        failure is Some && before.failed_count < 3 ==> paths::strings(run.failure_samples@)
            == paths::strings(before.failure_samples@).push(
            text::replaced(before.files@[before.next as int].path@, '\\', '/') + seq![':', ' ']
                + failure->0,
        ),
{
    reveal_strlit(": ");
    assert(": "@ =~= seq![':', ' ']);
    assert(paths::strings(before.failure_samples@).len() == before.failure_samples@.len());
}

// ---------------------------------------------------------------------------
// What is said of a run
// ---------------------------------------------------------------------------

/// Samples stand in one line, one after another.
pub proof fn law_samples_in_a_line(samples: Seq<Seq<char>>, last: Seq<char>)
    ensures
        indexer::joined_samples(Seq::empty()).len() == 0,
        indexer::joined_samples(seq![last]) == last,
        samples.len() > 0 ==> indexer::joined_samples(samples.push(last))
            == indexer::joined_samples(samples) + seq!['；'] + last,
{
    reveal_strlit("；");
    assert("；"@ =~= seq!['；']);
    assert(samples.push(last).drop_last() =~= samples);
}

/// A run in which every file could be embedded comes to nothing that has to be said. One in which
/// some could not fails exactly if the index is left empty. What is said gives the numbers and
/// the samples.
pub proof fn law_what_is_said_of_a_run(
    r: Result<Option<String>, IndexError>,
    total: usize,
    indexed: usize,
    failed: usize,
    samples: Seq<Seq<char>>,
)
    requires
        indexer::is_summary(r, total, indexed, failed, samples),
    ensures
        failed == 0 ==> r is Ok && r->Ok_0 is None,
        r is Err <==> failed > 0 && indexed == 0,
        r is Ok && r->Ok_0 is Some <==> failed > 0 && indexed > 0,
        r matches Err(e) ==> e.text() == "索引失败：共扫描 "@ + text::decimal(total as nat)
            + " 张图片，"@ + text::decimal(failed as nat) + " 张嵌入失败。示例："@
            + indexer::joined_samples(samples),
        r matches Ok(Some(m)) ==> m@ == "索引完成，但有 "@ + text::decimal(failed as nat) + "/"@
            + text::decimal(total as nat) + " 张图片处理失败，当前已写入 "@ + text::decimal(
            indexed as nat,
        ) + " 条。示例："@ + indexer::joined_samples(samples),
{
}

} // verus!
