//! What the service promises: of the settings, of the index and its status, of paths in requests
//! and of what is served.

use vstd::prelude::*;

use crate::app_state;
#[allow(unused_imports)]
use crate::app_state::Status;
#[allow(unused_imports)]
use crate::config::Settings;
use crate::db;
#[allow(unused_imports)]
use crate::db::{
    DbChange, DbError, ImageRow, Index, IndexedImageSnapshot, NewImageRecord, SearchImageRecord,
    SearchRow,
};
use crate::flow;
#[allow(unused_imports)]
use crate::flow::{SaveStep, StartStep};
use crate::model;
use crate::outside;
use crate::path_laws;
use crate::paths;
#[allow(unused_imports)]
use crate::paths::{Component, EntryKind};
use crate::server;
use crate::text;
use crate::web;

verus! {

// ---------------------------------------------------------------------------
// Settings
// ---------------------------------------------------------------------------

/// Settings that name another model give the index up, whatever directory of images they name;
/// so do settings that name another directory of images, whatever model they name. Nothing else
/// does.
pub proof fn law_other_paths_clear_index(workspace: Seq<char>, a: Settings, b: Settings)
    ensures
        text::replaced(paths::resolved(workspace, a.model_path), '\\', '/') != text::replaced(
            paths::resolved(workspace, b.model_path),
            '\\',
            '/',
        ) ==> web::index_data_changed(workspace, a, b),
        text::replaced(paths::resolved(workspace, a.asset_dir), '\\', '/') != text::replaced(
            paths::resolved(workspace, b.asset_dir),
            '\\',
            '/',
        ) ==> web::index_data_changed(workspace, a, b),
        web::index_data_changed(workspace, a, b) ==> text::replaced(
            paths::resolved(workspace, a.model_path),
            '\\',
            '/',
        ) != text::replaced(paths::resolved(workspace, b.model_path), '\\', '/') || text::replaced(
            paths::resolved(workspace, a.asset_dir),
            '\\',
            '/',
        ) != text::replaced(paths::resolved(workspace, b.asset_dir), '\\', '/'),
{
}

/// A directory of images below another than before gives the index up, and so does a model with
/// another name.
pub proof fn law_other_names_clear_index(
    workspace: Seq<char>,
    a: Settings,
    b: Settings,
    dir: Seq<char>,
    x: Seq<char>,
    y: Seq<char>,
)
    requires
        paths::is_absolute(workspace),
        dir.len() > 0,
        path_laws::is_name(x),
        path_laws::is_name(y),
        !x.contains('\\'),
        !y.contains('\\'),
        x != y,
    ensures
        a.asset_dir == dir + seq!['/'] + x && b.asset_dir == dir + seq!['/'] + y
            ==> web::index_data_changed(workspace, a, b),
        a.model_path == dir + seq!['/'] + x && b.model_path == dir + seq!['/'] + y
            ==> web::index_data_changed(workspace, a, b),
{
    path_laws::law_resolving_follows_the_text(workspace, dir, x);
    path_laws::law_resolving_follows_the_text(workspace, dir, y);
    let at = paths::resolved(workspace, dir);
    let base = if at == seq!['/'] {
        at
    } else {
        at + seq!['/']
    };
    let p = dir + seq!['/'] + x;
    let q = dir + seq!['/'] + y;
    assert(paths::resolved(workspace, p) =~= base + x);
    assert(paths::resolved(workspace, q) =~= base + y);
    path_laws::law_keys_of_places(workspace, p, q);
    if paths::path_key(workspace, p) == paths::path_key(workspace, q) {
        assert forall|i: int| 0 <= i < x.len() implies x[i] == y[i] by {
            let s = paths::resolved(workspace, p);
            let t = paths::resolved(workspace, q);
            let k = base.len() + i;
            assert(s[k] == x[i] && t[k] == y[i]);
            assert(x.contains(x[i]));
            assert(y.contains(y[i]));
        }
        assert(x =~= y);
    }
}

/// The model and the directory of the images are what a request changes, and nothing else.
pub proof fn law_requests_change_two_settings(s: Settings, model: Seq<char>, dir: Seq<char>)
    ensures
        ({
            let now = flow::new_settings(s, model, dir);
            &&& now.model_path == model
            &&& now.asset_dir == dir
            &&& now.db_path == s.db_path
            &&& now.log_dir == s.log_dir
            &&& now.host == s.host
            &&& now.port == s.port
            &&& now.omni_device == s.omni_device
            &&& now.omni_provider_policy == s.omni_provider_policy
            &&& now.omni_intra_threads == s.omni_intra_threads
            &&& now.omni_fgclip_max_patches == s.omni_fgclip_max_patches
        }),
{
}

/// A request failed exactly if it was answered with an error, which carries the status and the
/// message.
pub proof fn law_failed_requests(
    start: StartStep,
    save: SaveStep,
    status: u16,
    message: Seq<char>,
)
    ensures
        flow::start_fails(start, status, message) <==> (start is Reply && start->Reply_0 is Err
            && start->Reply_0->Err_0.status == status && start->Reply_0->Err_0.message@ == message),
        flow::save_fails(save, status, message) <==> (save is Reply && save->Reply_0 is Err
            && save->Reply_0->Err_0.status == status && save->Reply_0->Err_0.message@ == message),
{
}

// ---------------------------------------------------------------------------
// Models
// ---------------------------------------------------------------------------

/// The directory of a model is absolute as it stands, or lies below the directory that the
/// process runs in. Nothing is no directory.
pub proof fn law_directories_of_models(base: &str, path: Seq<char>)
    requires
        base@.len() > 0,
        base@.last() != '/',
    ensures
        model::dir_path(Some(base), path) is None <==> path.len() == 0,
        path.len() > 0 && path[0] == '/' ==> model::dir_path(Some(base), path) == Some(path)
            && model::dir_path(None, path) == Some(path),
        path.len() > 0 && path[0] != '/' ==> model::dir_path(Some(base), path) == Some(
            base@ + seq!['/'] + path,
        ) && model::dir_path(None, path) is None,
{
}

/// Settings have the signature of a model exactly if they name one, and two have the same
/// exactly if what their models resolve to differs in nothing but the separators.
pub proof fn law_signatures_of_models(workspace: Seq<char>, a: Settings, b: Settings)
    ensures
        model::signature_of(workspace, a) is None <==> text::trimmed(a.model_path).len() == 0,
        model::signature_of(workspace, a) matches Some(s) ==> s == text::replaced(
            paths::resolved(workspace, a.model_path),
            '\\',
            '/',
        ),
        text::trimmed(a.model_path).len() > 0 && text::trimmed(b.model_path).len() > 0 ==> (
        model::signature_of(workspace, a) == model::signature_of(workspace, b)
            <==> paths::path_key(workspace, a.model_path) == paths::path_key(
            workspace,
            b.model_path,
        )),
{
}

/// The images go exactly if a model is named, it is not the one that they were embedded with,
/// and there is either a signature or an image to tell by.
pub proof fn law_when_images_go(
    stored: Option<Seq<char>>,
    image_count: nat,
    current: Option<Seq<char>>,
)
    ensures
        db::needs_reset(stored, image_count, current) <==> current is Some && stored != current && (
        stored is Some || image_count > 0),
{
}

/// An index that is brought in line with a model keeps its images exactly if they do not have to
/// go, and belongs to the model from then on.
pub proof fn law_index_in_line(index: Index, current: Option<Seq<char>>)
    ensures
        current is None || index.signature == current || (index.signature is None
            && index.images.len() == 0) ==> db::synced(index, current).images == index.images,
        current is Some && index.signature is Some && index.signature != current ==> db::synced(
            index,
            current,
        ).images.dom() =~= Set::empty(),
        current is Some && index.signature is None && index.images.len() > 0 ==> db::synced(
            index,
            current,
        ).images.dom() =~= Set::empty(),
        current is Some ==> db::synced(index, current).signature == current,
        current is None ==> db::synced(index, current).signature == index.signature,
{
}

// ---------------------------------------------------------------------------
// The index
// ---------------------------------------------------------------------------

/// A component of a vector is stored in four bytes, of which the first counts for one, the second
/// for 256, the third for 65536 and the fourth for 16777216.
pub proof fn law_bytes_of_vectors(values: Seq<u32>, blob: Seq<u8>, i: int)
    requires
        0 <= i,
    ensures
        db::encoded(values).len() == 4 * values.len(),
        i < values.len() ==> values[i] == db::encoded(values)[4 * i] + 256 * db::encoded(values)[4
            * i + 1] + 65536 * db::encoded(values)[4 * i + 2] + 16777216 * db::encoded(values)[4
            * i + 3],
        db::decoded(blob).len() == blob.len() / 4,
        4 * i + 3 < blob.len() ==> db::decoded(blob)[i] == blob[4 * i] + 256 * blob[4 * i + 1]
            + 65536 * blob[4 * i + 2] + 16777216 * blob[4 * i + 3],
{
    if i < values.len() {
        let bytes = db::encoded(values);
        let v = values[i];
        assert(bytes[4 * i] == db::byte_of(v, 0));
        assert(bytes[4 * i + 1] == db::byte_of(v, 1));
        assert(bytes[4 * i + 2] == db::byte_of(v, 2));
        assert(bytes[4 * i + 3] == db::byte_of(v, 3));
    }
    if 4 * i + 3 < blob.len() {
        assert(db::decoded(blob)[i] == db::word_at(blob, 4 * i));
    }
}

/// Each change of the index does what its name says, and leaves the rest of the index alone.
pub proof fn law_changes_of_the_index(index: Index, path: String, signature: String, p: Seq<char>)
    ensures
        ({
            let cleared = DbChange::ClearImages.effect(index);
            &&& !cleared.images.contains_key(p)
            &&& cleared.signature == index.signature
        }),
        ({
            let deleted = DbChange::DeleteImage(path).effect(index);
            &&& deleted.images.contains_key(p) <==> index.images.contains_key(p) && p != path@
            &&& deleted.images.contains_key(p) ==> deleted.images[p] == index.images[p]
            &&& deleted.signature == index.signature
        }),
        ({
            let signed = DbChange::SetSignature(signature).effect(index);
            &&& signed.images == index.images
            &&& signed.signature == Some(signature@)
        }),
        ({
            let unsigned = DbChange::ClearSignature.effect(index);
            &&& unsigned.images == index.images
            &&& unsigned.signature is None
        }),
{
}

/// An image that is put into the index has there what the row says, and the time of the row as
/// that of its last change. One that was there before keeps its number and the time when it came
/// in; any other came in at the time of the row.
pub proof fn law_images_in_the_index(index: Index, row: ImageRow)
    ensures
        ({
            let at = DbChange::Upsert(row).effect(index).images[row.path@];
            &&& at.file_name == row.file_name@
            &&& at.mtime_ms == row.mtime_ms
            &&& at.size_bytes == row.size_bytes
            &&& at.dims == row.dims
            &&& at.vector_blob == row.vector_blob@
            &&& at.updated_at == row.now@
            &&& index.images.contains_key(row.path@) ==> at.id == index.images[row.path@].id
                && at.created_at == index.images[row.path@].created_at
            &&& !index.images.contains_key(row.path@) ==> at.created_at == row.now@
        }),
{
}

/// Changes are made one after another.
pub proof fn law_changes_follow_each_other(changes: Seq<DbChange>, change: DbChange, index: Index)
    ensures
        db::applied(Seq::empty(), index) == index,
        db::applied(changes.push(change), index) == change.effect(db::applied(changes, index)),
{
    assert(changes.push(change).drop_last() =~= changes);
}

/// A row says of an image what its record says, at the time `now`.
pub proof fn law_rows_of_records(row: ImageRow, record: NewImageRecord, now: Seq<char>)
    ensures
        db::is_row_for(row, record, now) <==> row.path@ == record.path@ && row.file_name@
            == record.file_name@ && row.mtime_ms == record.mtime_ms && row.size_bytes
            == record.size_bytes && row.dims == record.dims && row.vector_blob@ == db::encoded(
            record.vector@,
        ) && row.now@ == now,
{
}

/// A row can be read exactly if the number of its components is one and its bytes are whole
/// components. The number is looked at first.
pub proof fn law_rows_that_can_be_read(row: SearchRow, record: SearchImageRecord)
    ensures
        db::row_error(row) is None <==> 0 <= row.dims <= usize::MAX && row.vector_blob@.len() % 4
            == 0,
        row.dims < 0 || row.dims > usize::MAX ==> db::row_error(row) == Some(DbError::StoredDims),
        0 <= row.dims <= usize::MAX && row.vector_blob@.len() % 4 != 0 ==> db::row_error(row)
            == Some(DbError::StoredVector),
        db::is_image_of(record, row) <==> record.id == row.id && record.file_name@
            == row.file_name@ && record.path@ == row.path@ && record.dims == row.dims
            && record.vector@ == db::decoded(row.vector_blob@),
{
}

/// What the index knows of a file is what the last row with its path says.
pub proof fn law_last_rows_count(
    rows: Seq<IndexedImageSnapshot>,
    row: IndexedImageSnapshot,
    p: Seq<char>,
)
    ensures
        !db::latest(Seq::empty()).contains_key(p),
        db::latest(rows.push(row)).contains_key(p) <==> p == row.path@ || db::latest(
            rows,
        ).contains_key(p),
        p == row.path@ ==> db::latest(rows.push(row))[p].mtime_ms == row.mtime_ms && db::latest(
            rows.push(row),
        )[p].size_bytes == row.size_bytes,
        p != row.path@ && db::latest(rows).contains_key(p) ==> db::latest(rows.push(row))[p]
            == db::latest(rows)[p],
{
    assert(rows.push(row).drop_last() =~= rows);
}

// ---------------------------------------------------------------------------
// The status of the index
// ---------------------------------------------------------------------------

/// A run that starts is under way, has dealt with no file and has met no error; the index holds
/// what it held.
pub proof fn law_status_of_a_start(before: Status, total: usize, indexed: usize)
    ensures
        ({
            let now = app_state::started(before, total);
            &&& now.running
            &&& now.total == total
            &&& now.processed == 0
            &&& now.indexed == before.indexed
            &&& now.current_file is None
            &&& now.error is None
        }),
        ({
            let idle = app_state::idle_status(indexed);
            &&& !idle.running
            &&& idle.indexed == indexed
            &&& idle.total == 0
            &&& idle.processed == 0
            &&& idle.current_file is None
            &&& idle.error is None
        }),
{
}

/// A run that ends is no longer under way and is at no file; what it came to is noted, and the
/// numbers stay.
pub proof fn law_status_of_an_end(before: Status, error: Option<Seq<char>>)
    ensures
        ({
            let now = app_state::finished(before, error);
            &&& !now.running
            &&& now.current_file is None
            &&& now.error == error
            &&& now.indexed == before.indexed
            &&& now.total == before.total
            &&& now.processed == before.processed
        }),
{
}

/// An index that was given up holds nothing, and whether a run is under way stays as it was.
pub proof fn law_status_of_a_reset(before: Status)
    ensures
        ({
            let now = web::reset(before);
            &&& now.running == before.running
            &&& now.indexed == 0
            &&& now.total == 0
            &&& now.processed == 0
            &&& now.current_file is None
            &&& now.error is None
        }),
{
}

/// An index between two runs shows as dealt with what it holds, but no more than there is. The
/// error of the last run stays.
pub proof fn law_status_between_runs(before: Status, indexed: usize, total: usize)
    ensures
        ({
            let now = web::refreshed(before, indexed, total);
            &&& now.running == before.running
            &&& now.error == before.error
            &&& now.indexed == indexed
            &&& now.total == total
            &&& now.processed <= indexed && now.processed <= total
            &&& now.processed == indexed || now.processed == total
            &&& now.current_file is None
        }),
{
}

// ---------------------------------------------------------------------------
// Paths in requests
// ---------------------------------------------------------------------------

/// A path in the workspace is shown as what comes after that of the workspace, with a dot and a
/// separator before it, the workspace itself as a dot, and any other path as it is; each with
/// `/` for every backslash.
pub proof fn law_paths_are_shown(workspace: Seq<char>, rest: Seq<char>, selected: Seq<char>)
    requires
        paths::is_absolute(workspace),
        rest.len() > 0,
        rest[0] != '/',
        !paths::starts_with_dot(rest),
        rest.last() != '/',
        !path_laws::ends_with_dot(rest),
    ensures
        web::displayed(workspace, workspace + seq!['/'] + rest) == seq!['.', '/'] + text::replaced(
            rest,
            '\\',
            '/',
        ),
        web::displayed(workspace, workspace) == seq!['.'],
        !(exists|more: Seq<Component>|
            paths::components(selected) == #[trigger] (paths::components(workspace) + more))
            ==> web::displayed(workspace, selected) == text::replaced(selected, '\\', '/'),
{
    path_laws::law_relative_paths(workspace, rest, selected);
    reveal_strlit(".");
    reveal_strlit("./");
    assert("."@ =~= seq!['.']);
    assert("./"@ =~= seq!['.', '/']);
}

/// The places where a dialog may start are what the request names and every directory above it,
/// up to the root. A request that names nothing has none.
pub proof fn law_where_a_dialog_may_start(
    workspace: Seq<char>,
    value: &str,
    below: &str,
    name: Seq<char>,
)
    requires
        paths::is_absolute(workspace),
        path_laws::is_name(name),
    ensures
        web::candidates(workspace, None).len() == 0,
        text::trimmed(value@).len() == 0 ==> web::candidates(workspace, Some(value)).len() == 0,
        text::trimmed(value@).len() > 0 ==> {
            let cs = web::candidates(workspace, Some(value));
            &&& cs.len() > 0
            &&& cs[0] == paths::resolved(workspace, text::trimmed(value@))
            &&& cs.last() == seq!['/']
        },
        text::trimmed(value@).len() > 0 && text::trimmed(below@) == text::trimmed(value@) + seq![
            '/',
        ] + name ==> web::candidates(workspace, Some(below)) == seq![
            paths::resolved(workspace, text::trimmed(below@)),
        ] + web::candidates(workspace, Some(value)),
{
    let v = text::trimmed(value@);
    let b = text::trimmed(below@);
    if v.len() > 0 {
        let j = paths::joined(workspace, v);
        let cs = paths::components(j);
        let ns = paths::normalized(cs);
        assert(paths::is_absolute(j));
        paths::lemma_components_shape(j);
        paths::lemma_normalized_is_path(cs);
        lemma_lineage(ns);
        if b == v + seq!['/'] + name {
            assert(paths::joined(workspace, b) =~= j + seq!['/'] + name);
            path_laws::law_components_follow_the_text(j, name);
            let more = cs.push(Component::Normal(name));
            assert(more.drop_last() =~= cs);
            assert(more.last() == Component::Normal(name));
            let deep = ns.push(Component::Normal(name));
            assert(paths::normalized(more) == deep);
            assert(deep.last() == Component::Normal(name));
            assert(deep.drop_last() =~= ns);
            assert(paths::parent(deep) == Some(ns));
        }
    }
}

/// The directories above a path come one after another, each with one component less than the one
/// before it, down to the root, or to nothing where the path does not start there.
pub proof fn law_directories_above(cs: Seq<Component>, k: int)
    requires
        forall|i: int| 0 < i < cs.len() ==> #[trigger] cs[i] != Component::RootDir,
    ensures
        cs.len() > 0 && cs[0] == Component::RootDir ==> paths::lineage(cs).len() == cs.len(),
        !(cs.len() > 0 && cs[0] == Component::RootDir) ==> paths::lineage(cs).len() == cs.len() + 1,
        0 <= k < paths::lineage(cs).len() ==> paths::lineage(cs)[k] == paths::rendered(
            cs.take(cs.len() - k),
        ),
    decreases cs.len(),
{
    assert(cs.take(cs.len() as int) =~= cs);
    if cs.len() > 0 && cs.last() != Component::RootDir {
        let d = cs.drop_last();
        assert forall|i: int| 0 < i < d.len() implies #[trigger] d[i] != Component::RootDir by {
            assert(d[i] == cs[i]);
        }
        if d.len() > 0 {
            assert(d[0] == cs[0]);
        }
        law_directories_above(d, k - 1);
        if 0 < k <= cs.len() {
            assert(d.take(d.len() - (k - 1)) =~= cs.take(cs.len() - k));
        }
    } else if cs.len() > 0 {
        assert(cs[cs.len() - 1] == Component::RootDir);
        assert(cs.len() == 1);
    }
}

proof fn lemma_lineage(cs: Seq<Component>)
    requires
        paths::is_path(cs),
        cs.len() > 0,
        cs[0] == Component::RootDir,
    ensures
        paths::lineage(cs).len() > 0,
        paths::lineage(cs)[0] == paths::rendered(cs),
        paths::lineage(cs).last() == seq!['/'],
    decreases cs.len(),
{
    if cs.len() == 1 {
        let none = cs.drop_last();
        assert(none =~= Seq::empty());
        assert(cs.last() == Component::RootDir);
        assert(paths::rendered(none) =~= Seq::<char>::empty());
        assert(paths::rendered(cs) =~= seq!['/']);
        assert(paths::lineage(cs) =~= seq![paths::rendered(cs)]);
    } else {
        let d = cs.drop_last();
        assert(paths::is_segment(cs[cs.len() - 1]));
        assert forall|i: int| 0 <= i < d.len() implies paths::is_segment(#[trigger] d[i]) || (i
            == 0 && d[i] == Component::RootDir) by {
            assert(d[i] == cs[i]);
        }
        assert(d[0] == cs[0]);
        lemma_lineage(d);
        assert(paths::lineage(cs) == seq![paths::rendered(cs)] + paths::lineage(d));
        assert(paths::lineage(cs).last() == paths::lineage(d).last());
    }
}

/// A dialog starts at the first place that exists, if it is a directory, and right above it if it
/// is none. Where no place exists, it starts in the workspace. A place of which nothing is known
/// does not exist.
pub proof fn law_where_a_dialog_starts(
    workspace: Seq<char>,
    cs: Seq<Seq<char>>,
    kinds: Seq<EntryKind>,
    from: int,
    i: int,
)
    requires
        0 <= from <= i <= cs.len(),
        forall|k: int|
            from <= k < i ==> k >= kinds.len() || #[trigger] kinds[k] == EntryKind::Missing,
    ensures
        i == cs.len() ==> web::initial_dir(workspace, cs, kinds, from) == workspace,
        i < cs.len() && i < kinds.len() && kinds[i] == EntryKind::Directory ==> web::initial_dir(
            workspace,
            cs,
            kinds,
            from,
        ) == cs[i],
        i + 1 < cs.len() && i < kinds.len() && kinds[i] != EntryKind::Directory && kinds[i]
            != EntryKind::Missing ==> web::initial_dir(workspace, cs, kinds, from) == cs[i + 1],
        i + 1 == cs.len() && i < kinds.len() && kinds[i] != EntryKind::Directory && kinds[i]
            != EntryKind::Missing ==> web::initial_dir(workspace, cs, kinds, from) == workspace,
    decreases i - from,
{
    if from < i {
        assert(from >= kinds.len() || kinds[from] == EntryKind::Missing);
        law_where_a_dialog_starts(workspace, cs, kinds, from + 1, i);
    }
}

// ---------------------------------------------------------------------------
// What is served
// ---------------------------------------------------------------------------

/// As many images are searched for as a request asks for, at least one and at most two hundred;
/// sixty where it does not say.
pub proof fn law_how_many_images_are_wanted(n: usize)
    ensures
        web::search_limit(None) == 60,
        1 <= n <= 200 ==> web::search_limit(Some(n)) == n,
        n > 200 ==> web::search_limit(Some(n)) == 200,
        web::search_limit(Some(0)) == 1,
{
}

/// A file is served as what its extension says, in capital or small letters, and as bytes where
/// it has none.
pub proof fn law_types_of_files(dir: Seq<char>, stem: Seq<char>, ext: Seq<char>, name: Seq<char>)
    requires
        dir.len() > 0,
        stem.len() > 0,
        ext.len() > 0,
        !ext.contains('.'),
        path_laws::is_name(stem + seq!['.'] + ext),
        path_laws::is_name(name),
        !name.skip(1).contains('.'),
    ensures
        web::served_type(dir + seq!['/'] + (stem + seq!['.'] + ext)) == outside::media_type(
            text::lowered(ext),
        ),
        web::served_type(stem + seq!['.'] + ext) == outside::media_type(text::lowered(ext)),
        web::served_type(name) == "application/octet-stream"@,
        web::served_type(dir + seq!['/'] + name) == "application/octet-stream"@,
{
    path_laws::law_extensions(dir, stem, ext);
    path_laws::law_names_without_extension(dir, name);
}

/// The address of the server is its host and its port. A host that holds a colon stands in
/// brackets, unless it already does; one that stands for every address of the machine is shown
/// as the machine itself.
pub proof fn law_addresses(host: Seq<char>, port: u16)
    ensures
        !host.contains(':') && host != "0.0.0.0"@ ==> server::base_url(host, port) == "http://"@
            + host + seq![':'] + text::decimal(port as nat),
        host.contains(':') && host[0] != '[' && host != "::"@ ==> server::base_url(host, port)
            == "http://"@ + seq!['['] + host + seq![']', ':'] + text::decimal(port as nat),
        host.contains(':') && host[0] == '[' ==> server::base_url(host, port) == "http://"@ + host
            + seq![':'] + text::decimal(port as nat),
        server::base_url("0.0.0.0"@, port) == server::base_url("127.0.0.1"@, port),
        server::base_url("::"@, port) == server::base_url("::1"@, port),
{
    reveal_strlit("0.0.0.0");
    reveal_strlit("127.0.0.1");
    reveal_strlit("::");
    reveal_strlit("::1");
    reveal_strlit("[");
    reveal_strlit("]");
    reveal_strlit(":");
    let tail = text::decimal(port as nat);
    let h = "http://"@;
    assert("::"@[0] == ':');
    assert("::"@.contains(':'));
    assert("::1"@[0] == ':');
    assert("::1"@.contains(':'));
    assert(!"0.0.0.0"@.contains(':'));
    assert("0.0.0.0"@.len() == 7 && "127.0.0.1"@.len() == 9 && "::"@.len() == 2 && "::1"@.len()
        == 3);
    assert("["@ =~= seq!['[']);
    assert("]"@ =~= seq![']']);
    assert(":"@ =~= seq![':']);
    assert(h + host + (seq![':'] + tail) =~= h + host + seq![':'] + tail);
    assert(h + (seq!['['] + host + seq![']']) + (seq![':'] + tail) =~= h + seq!['['] + host + seq![
        ']',
        ':',
    ] + tail);
}

} // verus!
