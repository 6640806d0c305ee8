use puppy_find::app_state::{AppState, IndexStatus};
use puppy_find::config::AppSettings;
use puppy_find::db::{
    clear_images, count_images, count_images_query, decode_vector, delete_images_by_paths,
    encode_vector, get_image_path, get_index_model_signature, init, list_indexed_images,
    list_indexed_images_query, list_search_images, list_search_images_query,
    set_index_model_signature, sync_index_model_signature, upsert_image, upsert_row, DbChange,
    DbError, IndexModelSync, IndexedImageSnapshot, NewImageRecord, SearchRow, SqlValue, Statement,
};
use puppy_find::indexer::{
    collect_image_files, collect_removed_paths, count_indexable_images, final_error,
    has_supported_image_extension, is_avif_header, is_supported_image,
    summarize_indexing_failures, FileEntry, FileFacts, IndexAction, IndexError, IndexRun,
    WalkEntry,
};
use puppy_find::paths::EntryKind;
use rusqlite::types::Value;
use rusqlite::{params_from_iter, Connection, OptionalExtension};

fn values(statement: &Statement) -> Vec<Value> {
    statement
        .params
        .iter()
        .map(|p| match p {
            SqlValue::Text(s) => Value::Text(s.clone()),
            SqlValue::Integer(n) => Value::Integer(*n),
            SqlValue::Blob(b) => Value::Blob(b.clone()),
        })
        .collect()
}

fn open() -> Connection {
    let connection = Connection::open_in_memory().unwrap();
    let (opening, schema) = init("/w/config/puppy_find.db");
    assert_eq!(opening.create_dir, Some("/w/config".to_owned()));
    assert_eq!(opening.path, "/w/config/puppy_find.db");
    connection.execute_batch(schema).unwrap();
    connection
}

fn apply(connection: &Connection, change: DbChange) {
    let statement = change.statement();
    connection.execute(statement.sql, params_from_iter(values(&statement))).unwrap();
}

fn stored_count(connection: &Connection) -> usize {
    let statement = count_images_query();
    let n: i64 = connection.query_row(statement.sql, [], |row| row.get(0)).unwrap();
    count_images(n).unwrap()
}

fn signature(connection: &Connection) -> Option<String> {
    let statement = get_index_model_signature();
    connection
        .query_row(statement.sql, params_from_iter(values(&statement)), |row| row.get(0))
        .optional()
        .unwrap()
}

fn sync(connection: &Connection, current: Option<&str>) -> IndexModelSync {
    let plan = sync_index_model_signature(signature(connection), stored_count(connection), current);
    for change in plan.changes {
        apply(connection, change);
    }
    plan.sync
}

fn known(connection: &Connection) -> Vec<IndexedImageSnapshot> {
    let statement = list_indexed_images_query();
    let mut prepared = connection.prepare(statement.sql).unwrap();
    let rows = prepared
        .query_map([], |row| {
            Ok(IndexedImageSnapshot {
                path: row.get(0)?,
                mtime_ms: row.get(1)?,
                size_bytes: row.get(2)?,
            })
        })
        .unwrap();
    rows.map(|row| row.unwrap()).collect()
}

fn searched(connection: &Connection) -> Vec<SearchRow> {
    let statement = list_search_images_query();
    let mut prepared = connection.prepare(statement.sql).unwrap();
    let rows = prepared
        .query_map([], |row| {
            Ok(SearchRow {
                id: row.get(0)?,
                file_name: row.get(1)?,
                path: row.get(2)?,
                dims: row.get(3)?,
                vector_blob: row.get(4)?,
            })
        })
        .unwrap();
    rows.map(|row| row.unwrap()).collect()
}

fn bits(v: &[f32]) -> Vec<u32> {
    v.iter().map(|x| x.to_bits()).collect()
}

fn record(path: &str, mtime_ms: i64, size_bytes: i64, vector: &[f32]) -> NewImageRecord {
    NewImageRecord {
        path: path.to_owned(),
        file_name: path.to_owned(),
        mtime_ms,
        size_bytes,
        dims: vector.len(),
        vector: bits(vector),
    }
}

const SECOND: i128 = 1_000_000_000;

#[test]
fn vector_roundtrip_is_lossless() {
    let values = vec![0.5_f32, -1.25, 3.0];
    let decoded = decode_vector(&encode_vector(&bits(&values))).unwrap();
    let back: Vec<f32> = decoded.iter().map(|b| f32::from_bits(*b)).collect();
    assert_eq!(back, values);
}

#[test]
fn vectors_are_stored_lowest_byte_first() {
    let mut expected: Vec<u8> = Vec::new();
    for x in [0.5_f32, -1.25, 3.0] {
        expected.extend_from_slice(&x.to_le_bytes());
    }
    assert_eq!(encode_vector(&bits(&[0.5, -1.25, 3.0])), expected);
    assert_eq!(encode_vector(&decode_vector(&expected).unwrap()), expected);
    assert_eq!(decode_vector(&[1, 2, 3]), Err(DbError::BlobLength));
    assert_eq!(DbError::BlobLength.message(), "vector blob length must be divisible by 4");
}

#[test]
fn count_images_tracks_stored_rows() {
    let connection = open();
    assert_eq!(stored_count(&connection), 0);

    apply(&connection, upsert_image(&record("a.png", 1, 10, &[0.1, 0.2]), SECOND).unwrap());
    apply(&connection, upsert_image(&record("b.png", 2, 20, &[0.3, 0.4]), SECOND).unwrap());

    assert_eq!(stored_count(&connection), 2);

    apply(&connection, clear_images());
    assert_eq!(stored_count(&connection), 0);
}

#[test]
fn counts_that_are_no_numbers_of_items_are_refused() {
    assert_eq!(count_images(-1), Err(DbError::ImageCount));
    assert_eq!(DbError::ImageCount.message(), "image count does not fit into usize");
    assert_eq!(count_images(7), Ok(7));
}

#[test]
fn init_creates_database_file_and_missing_parent_directories() {
    let (opening, schema) = init("/tmp/x/config/puppy_find.db");
    assert_eq!(opening.path, "/tmp/x/config/puppy_find.db");
    assert_eq!(opening.create_dir, Some("/tmp/x/config".to_owned()));
    assert!(schema.contains("CREATE TABLE IF NOT EXISTS images"));
    assert!(schema.contains("CREATE TABLE IF NOT EXISTS app_meta"));
    assert_eq!(init("x.db").0.create_dir, None);
    assert_eq!(
        DbError::CreateDir("/d".to_owned()).message(),
        "failed to create database parent directory /d"
    );
    assert_eq!(DbError::Open("/d/x".to_owned()).message(), "failed to open database at /d/x");
}

#[test]
fn sync_index_model_signature_resets_old_vectors_when_signature_changes() {
    let connection = open();
    apply(&connection, upsert_image(&record("a.png", 1, 10, &[0.1, 0.2]), SECOND).unwrap());

    let first_sync = sync(&connection, Some("sig-a"));
    assert!(first_sync.index_cleared);
    assert_eq!(stored_count(&connection), 0);
    assert_eq!(signature(&connection).as_deref(), Some("sig-a"));

    apply(&connection, upsert_image(&record("b.png", 2, 20, &[0.3, 0.4]), SECOND).unwrap());

    let second_sync = sync(&connection, Some("sig-a"));
    assert!(!second_sync.index_cleared);
    assert_eq!(stored_count(&connection), 1);

    let third_sync = sync(&connection, Some("sig-b"));
    assert!(third_sync.index_cleared);
    assert_eq!(third_sync.stored_signature.as_deref(), Some("sig-a"));
    assert_eq!(third_sync.current_signature.as_deref(), Some("sig-b"));
    assert_eq!(stored_count(&connection), 0);
    assert_eq!(signature(&connection).as_deref(), Some("sig-b"));

    let idle = sync(&connection, None);
    assert!(!idle.index_cleared);
    assert_eq!(signature(&connection).as_deref(), Some("sig-b"));
}

#[test]
fn set_index_model_signature_can_clear_metadata() {
    let connection = open();

    apply(&connection, set_index_model_signature(Some("sig-a")));
    assert_eq!(signature(&connection).as_deref(), Some("sig-a"));

    apply(&connection, set_index_model_signature(None));
    assert_eq!(signature(&connection), None);
}

#[test]
fn a_changed_signature_clears_nothing_where_nothing_is() {
    let plan = sync_index_model_signature(Some("a".to_owned()), 0, Some("b"));
    assert!(!plan.sync.index_cleared);
    assert_eq!(plan.changes.len(), 2);
    let first = sync_index_model_signature(None, 0, Some("b"));
    assert_eq!(first.changes.len(), 1);
    assert!(sync_index_model_signature(Some("b".to_owned()), 9, Some("b")).changes.is_empty());
}

#[test]
fn upsert_replaces_the_image_at_its_path() {
    let connection = open();
    apply(&connection, upsert_image(&record("a.png", 1, 10, &[1.0]), 0).unwrap());
    apply(&connection, upsert_image(&record("b.png", 1, 10, &[1.0]), 0).unwrap());
    let first = searched(&connection);
    let id = first.iter().find(|r| r.path == "a.png").unwrap().id;
    assert!(first.iter().all(|r| r.path == "a.png" || r.id != id));
    apply(&connection, upsert_image(&record("a.png", 5, 50, &[2.0, 3.0]), SECOND).unwrap());
    for change in delete_images_by_paths(&vec!["b.png".to_owned()]) {
        apply(&connection, change);
    }
    let rows = searched(&connection);
    let images = list_search_images(&rows).unwrap();
    assert_eq!(images.len(), 1);
    assert_eq!(images[0].id, id);
    assert_eq!(images[0].dims, 2);
    assert_eq!(images[0].vector, bits(&[2.0, 3.0]));
    let times: (String, String) = connection
        .query_row("SELECT created_at, updated_at FROM images", [], |row| {
            Ok((row.get(0)?, row.get(1)?))
        })
        .unwrap();
    assert_eq!(times.0, "1970-01-01T00:00:00Z");
    assert_eq!(times.1, "1970-01-01T00:00:01Z");
    let indexed = list_indexed_images(known(&connection));
    assert_eq!(indexed.get("a.png").unwrap().mtime_ms, 5);
    assert_eq!(indexed.get("a.png").unwrap().size_bytes, 50);
    assert!(indexed.get("b.png").is_none());
    assert_eq!(indexed.paths(), vec!["a.png".to_owned()]);
}

#[test]
fn images_that_cannot_be_written_are_refused() {
    let far = upsert_image(&record("a.png", 1, 1, &[]), i128::MAX);
    assert_eq!(far.unwrap_err().message(), "failed to format timestamp");
    let mut large = record("a.png", 1, 1, &[]);
    large.dims = usize::MAX;
    assert_eq!(
        upsert_row(&large, "now".to_owned()).unwrap_err().message(),
        "embedding dimension does not fit into i64"
    );
}

#[test]
fn images_are_found_by_number_and_deleted_by_path() {
    let connection = open();
    for (i, path) in ["a", "b", "c"].iter().enumerate() {
        let nanos = SECOND * (i as i128);
        apply(&connection, upsert_image(&record(path, 1, 1, &[1.0]), nanos).unwrap());
    }
    let rows = searched(&connection);
    let order: Vec<&str> = rows.iter().map(|r| r.path.as_str()).collect();
    assert_eq!(order, vec!["c", "b", "a"]);
    let statement = get_image_path(rows[1].id);
    let path: Option<String> = connection
        .query_row(statement.sql, params_from_iter(values(&statement)), |row| row.get(0))
        .optional()
        .unwrap();
    assert_eq!(path.as_deref(), Some("b"));
    for change in delete_images_by_paths(&vec!["a".to_owned(), "c".to_owned(), "x".to_owned()]) {
        apply(&connection, change);
    }
    assert_eq!(list_indexed_images(known(&connection)).paths(), vec!["b".to_owned()]);
    assert!(delete_images_by_paths(&Vec::new()).is_empty());
}

#[test]
fn rows_that_cannot_be_read_are_refused() {
    let good = SearchRow {
        id: 1,
        file_name: "a".to_owned(),
        path: "a".to_owned(),
        dims: 1,
        vector_blob: vec![0, 0, 0, 0],
    };
    let odd = SearchRow {
        id: 2,
        file_name: "b".to_owned(),
        path: "b".to_owned(),
        dims: 1,
        vector_blob: vec![0, 0, 0],
    };
    let negative = SearchRow {
        id: 3,
        file_name: "c".to_owned(),
        path: "c".to_owned(),
        dims: -1,
        vector_blob: vec![0],
    };
    let first = list_search_images(&vec![good, odd]).unwrap_err();
    assert_eq!(
        first.message(),
        "Conversion error from type Blob at index: 4, vector blob length must be divisible by 4"
    );
    let second = list_search_images(&vec![negative]).unwrap_err();
    assert_eq!(
        second.message(),
        "Conversion error from type Integer at index: 3, stored dims is negative"
    );
}

#[test]
fn later_rows_for_a_path_count() {
    let row = |path: &str, mtime_ms: i64| IndexedImageSnapshot {
        path: path.to_owned(),
        mtime_ms,
        size_bytes: 0,
    };
    let images = list_indexed_images(vec![row("a", 1), row("b", 2), row("a", 3)]);
    assert_eq!(images.get("a").unwrap().mtime_ms, 3);
    assert_eq!(images.paths(), vec!["b".to_owned(), "a".to_owned()]);
}

// ---------------------------------------------------------------------------

fn avif_header_bytes() -> Vec<u8> {
    vec![
        0, 0, 0, 24, b'f', b't', b'y', b'p', b'a', b'v', b'i', b'f', 0, 0, 0, 0, b'm', b'i', b'f',
        b'1',
    ]
}

fn entry(path: &str, header: &[u8]) -> WalkEntry {
    let file_name = path.rsplit('/').next().unwrap().to_owned();
    WalkEntry {
        number: 0,
        path: path.to_owned(),
        file_name,
        is_file: true,
        header: header.to_vec(),
        facts: FileFacts::Known(Some(5), 9),
    }
}

#[test]
fn summarize_indexing_failures_returns_error_when_everything_failed() {
    let error = summarize_indexing_failures(3, 0, 3, &["a.png: boom".to_owned()]).unwrap_err();

    assert!(error.message().contains("索引失败"));
    assert!(error.message().contains("a.png: boom"));
    assert_eq!(
        error.message(),
        "索引失败：共扫描 3 张图片，3 张嵌入失败。示例：a.png: boom"
    );
}

#[test]
fn summarize_indexing_failures_returns_warning_when_partial_success_exists() {
    let warning = summarize_indexing_failures(5, 2, 3, &["a.png: boom".to_owned()]).unwrap();

    assert!(warning.as_ref().unwrap().contains("处理失败"));
    assert_eq!(
        warning.unwrap(),
        "索引完成，但有 3/5 张图片处理失败，当前已写入 2 条。示例：a.png: boom"
    );
}

#[test]
fn runs_without_failures_say_nothing() {
    assert_eq!(summarize_indexing_failures(5, 0, 0, &[]), Ok(None));
    assert_eq!(final_error(Ok(None)), None);
    assert_eq!(final_error(Ok(Some("w".to_owned()))), Some("w".to_owned()));
    assert_eq!(final_error(Err("e".to_owned())), Some("e".to_owned()));
}

#[test]
fn count_indexable_images_skips_avif_disguised_as_png() {
    let entries =
        vec![entry("/w/photo.jpg", b"plain-jpg"), entry("/w/fake.png", &avif_header_bytes())];

    let count = count_indexable_images("/w", EntryKind::Directory, &entries).unwrap();

    assert_eq!(count, 1);
}

#[test]
fn collect_image_files_skips_avif_disguised_as_png() {
    let entries =
        vec![entry("/w/photo.jpg", b"plain-jpg"), entry("/w/fake.png", &avif_header_bytes())];

    let files = collect_image_files("/w", EntryKind::Directory, &entries).unwrap();

    assert_eq!(files.len(), 1);
    assert_eq!(files[0].file_name, "photo.jpg");
}

#[test]
fn is_avif_header_matches_compatible_brand() {
    let header = [
        0, 0, 0, 24, b'f', b't', b'y', b'p', b'm', b'i', b'f', b'1', 0, 0, 0, 0, b'a', b'v', b'i',
        b'f',
    ];

    assert!(is_avif_header(&header));
    assert!(!is_avif_header(&header[..19]));
}

#[test]
fn avif_headers_are_told_apart() {
    assert!(is_avif_header(&avif_header_bytes()));
    assert!(!is_avif_header(b"plain-jpg-plain-jpg-plain"));
    let mut animated = avif_header_bytes();
    animated[11] = b's';
    assert!(is_avif_header(&animated));
    animated[10] = b'x';
    assert!(!is_avif_header(&animated));
    animated.extend_from_slice(b"heicavis");
    assert!(is_avif_header(&animated));
    assert!(!is_avif_header(&[]));
}

#[test]
fn images_are_known_by_their_extensions() {
    for name in ["a.jpg", "a.JPEG", "x/a.png", "a.WebP", "a.b.bmp"] {
        assert!(has_supported_image_extension(name));
        assert!(is_supported_image(name, &[]));
        assert!(!is_supported_image(name, &avif_header_bytes()));
    }
    for name in ["a.gif", "jpg", ".jpg", "a.jpg/", "a.jpg/b", "a.jpg.", ""] {
        assert_eq!(
            has_supported_image_extension(name),
            name == "a.jpg/",
            "{name}"
        );
    }
}

#[test]
fn files_are_sorted_by_their_paths() {
    let entries = vec![
        entry("/w/b.png", b""),
        entry("/w/a.png", b""),
        entry("/w/a/z.png", b""),
        entry("/w/notes.txt", b""),
    ];
    let entries: Vec<WalkEntry> = entries
        .into_iter()
        .enumerate()
        .map(|(number, e)| WalkEntry { number, ..e })
        .collect();
    let files = collect_image_files("/w", EntryKind::Directory, &entries).unwrap();
    let numbers: Vec<usize> = files.iter().map(|f| f.number).collect();
    assert_eq!(numbers, vec![2, 1, 0]);
    let paths: Vec<&str> = files.iter().map(|f| f.path.as_str()).collect();
    assert_eq!(paths, vec!["/w/a/z.png", "/w/a.png", "/w/b.png"]);
    assert_eq!(files[0].mtime_ms, 5);
    assert_eq!(files[0].size_bytes, 9);
}

#[test]
fn directories_and_files_are_refused_with_a_reason() {
    let with = |facts: FileFacts| {
        let mut e = entry("/w/a.png", b"");
        e.facts = facts;
        collect_image_files("/w", EntryKind::Directory, &vec![e])
    };
    assert_eq!(
        with(FileFacts::NoMetadata).unwrap_err().message(),
        "failed to read metadata for /w/a.png"
    );
    assert_eq!(
        with(FileFacts::NoMtime).unwrap_err().message(),
        "failed to read mtime for /w/a.png"
    );
    assert_eq!(
        with(FileFacts::Known(None, u64::MAX)).unwrap_err().message(),
        "file size does not fit into i64"
    );
    let odd = u128::from(u64::MAX) + 8;
    assert_eq!(with(FileFacts::Known(Some(odd), 1)).unwrap()[0].mtime_ms, odd as i64);
    assert_eq!(with(FileFacts::Known(None, 1)).unwrap()[0].mtime_ms, 0);
    let none = Vec::new();
    assert_eq!(
        collect_image_files("/w", EntryKind::Missing, &none).unwrap_err().message(),
        "素材目录不存在: /w"
    );
    assert_eq!(
        count_indexable_images("/w", EntryKind::File, &none).unwrap_err().message(),
        "素材目录不是目录: /w"
    );
    assert_eq!(IndexError::AllFailed("x".to_owned()).message(), "x");
}

fn file(path: &str, mtime_ms: i64) -> FileEntry {
    FileEntry {
        number: 0,
        path: path.to_owned(),
        file_name: path.to_owned(),
        mtime_ms,
        size_bytes: 1,
    }
}

fn snapshot(path: &str, mtime_ms: i64) -> IndexedImageSnapshot {
    IndexedImageSnapshot { path: path.to_owned(), mtime_ms, size_bytes: 1 }
}

#[test]
fn removed_paths_are_those_without_a_file() {
    let existing = list_indexed_images(vec![snapshot("a", 1), snapshot("b", 1), snapshot("c/d", 1)]);
    let removed = collect_removed_paths(&existing, &vec![file("b", 9), file("c\\d", 1)]);
    assert_eq!(removed, vec!["a".to_owned()]);
}

#[test]
fn a_run_embeds_what_changed_and_reports_the_rest() {
    let mut status = IndexStatus::default();
    status.running = true;
    let files = vec![file("a", 1), file("b", 2), file("c", 3), file("d", 4), file("e", 5), file("f", 6)];
    let existing = list_indexed_images(vec![snapshot("a", 1), snapshot("b", 1), snapshot("gone", 1)]);
    let mut run = IndexRun::new(files, existing);
    run.announce(&mut status);
    assert_eq!(status.total, 6);

    run.open_file(&mut status);
    assert_eq!(status.current_file.as_deref(), Some("a"));
    assert_eq!(run.action(), IndexAction::Skip);
    run.finish_file(&mut status, None);

    assert_eq!(run.action(), IndexAction::Embed);
    let record = run.record(bits(&[1.0, 2.0]));
    assert_eq!(record.path, "b");
    assert_eq!(record.mtime_ms, 2);
    assert_eq!(record.dims, 2);
    run.finish_file(&mut status, None);

    for _ in 0..4 {
        assert_eq!(run.action(), IndexAction::Embed);
        run.finish_file(&mut status, Some("boom"));
    }
    assert_eq!(run.action(), IndexAction::Finish);
    assert_eq!(status.processed, 6);
    assert_eq!(run.removed_paths(), vec!["gone".to_owned()]);
    let warning = run.conclude(&mut status, 2).unwrap().unwrap();
    assert_eq!(status.indexed, 2);
    assert_eq!(
        warning,
        "索引完成，但有 4/6 张图片处理失败，当前已写入 2 条。示例：c: boom；d: boom；e: boom"
    );
}

#[test]
fn a_second_run_finds_nothing_to_do() {
    let connection = open();
    let files = || vec![file("a", 1), file("b", 2)];
    for round in 0..2 {
        let mut status = IndexStatus::default();
        let mut run = IndexRun::new(files(), list_indexed_images(known(&connection)));
        let mut embedded = 0;
        while run.action() != IndexAction::Finish {
            run.open_file(&mut status);
            if run.action() == IndexAction::Embed {
                let record = run.record(bits(&[1.0]));
                apply(&connection, upsert_image(&record, SECOND).unwrap());
                embedded += 1;
            }
            run.finish_file(&mut status, None);
        }
        for change in delete_images_by_paths(&run.removed_paths()) {
            apply(&connection, change);
        }
        assert_eq!(embedded, if round == 0 { 2 } else { 0 });
        assert_eq!(stored_count(&connection), 2);
    }
}

#[test]
fn a_file_that_fails_keeps_its_old_image() {
    let connection = open();
    for path in ["kept", "failing", "gone"] {
        apply(&connection, upsert_image(&record(path, 1, 1, &[1.0]), 0).unwrap());
    }
    let files = vec![file("failing", 2), file("kept", 1), file("new", 1), file("new-failing", 1)];
    let mut status = IndexStatus::default();
    let mut run = IndexRun::new(files, list_indexed_images(known(&connection)));
    while run.action() != IndexAction::Finish {
        let path = run.files[run.next].path.clone();
        let fails = path.contains("failing");
        if run.action() == IndexAction::Embed && !fails {
            apply(&connection, upsert_image(&run.record(bits(&[2.0])), SECOND).unwrap());
        }
        run.finish_file(&mut status, if fails { Some("boom") } else { None });
    }
    for change in delete_images_by_paths(&run.removed_paths()) {
        apply(&connection, change);
    }
    let after = list_indexed_images(known(&connection));
    let mut paths = after.paths();
    paths.sort();
    assert_eq!(paths, vec!["failing".to_owned(), "kept".to_owned(), "new".to_owned()]);
    assert_eq!(after.get("failing").unwrap().mtime_ms, 1);
}

#[test]
fn progress_is_counted_from_what_the_status_holds() {
    let mut run = IndexRun::new(vec![file("a", 1), file("b", 1)], list_indexed_images(Vec::new()));
    let mut status = IndexStatus::default();
    status.processed = 5;
    run.finish_file(&mut status, None);
    assert_eq!(status.processed, 6);
    status.processed = usize::MAX;
    run.finish_file(&mut status, None);
    assert_eq!(status.processed, usize::MAX);
}

#[test]
fn only_one_run_goes_at_a_time() {
    let settings = AppSettings::defaults_with("/pics".to_owned());
    let mut state = AppState::new("/w".to_owned(), settings, 4);
    assert_eq!(state.workspace_dir(), "/w");
    assert_eq!(state.db_path(), "/w/config/puppy_find.db");
    assert_eq!(state.index_status().indexed, 4);
    assert!(state.try_start_indexing(9));
    assert!(!state.try_start_indexing(1));
    assert_eq!(state.index_status().total, 9);
    assert_eq!(state.index_status().indexed, 4);
    state.update_index_status(|mut s| {
        s.processed = 3;
        s.current_file = Some("x".to_owned());
        s
    });
    assert_eq!(state.index_status().processed, 3);
    state.finish_indexing(Some("e".to_owned()));
    let status = state.index_status();
    assert!(!status.running);
    assert_eq!(status.current_file, None);
    assert_eq!(status.error.as_deref(), Some("e"));
    assert_eq!(status.processed, 3);
    let mut other = state.settings();
    other.port = 1;
    state.replace_settings(other);
    assert_eq!(state.settings().port, 1);
}
