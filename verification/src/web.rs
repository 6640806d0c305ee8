//! What the server answers: the checks on requests, the changes that they make, and the
//! replies.

use vstd::prelude::*;

use crate::app_state;
use crate::app_state::{AppState, IndexStatus};
#[allow(unused_imports)]
use crate::app_state::Status;
use crate::config::{is_blank, needs_setup, trim_text, AppSettings};
#[allow(unused_imports)]
use crate::config::Settings;
use crate::db;
#[allow(unused_imports)]
use crate::db::Index;
use crate::db::{
    clear_images, set_index_model_signature, sync_index_model_signature, DbChange, IndexModelSync,
    SyncPlan,
};
use crate::outside;
use crate::outside::guess_media_type;
use crate::paths;
use crate::paths::{
    join_path, parent_path, path_extension, path_lineage, path_to_string, resolve_path,
    resolved_path_key, strip_base, EntryKind,
};
use crate::text;
use crate::text::{replace, same_text, to_text};

verus! {

// ---------------------------------------------------------------------------
// Errors
// ---------------------------------------------------------------------------

/// A request that failed: the status of the reply, and what it says.
#[derive(Debug)]
pub struct ApiError {
    pub status: u16,
    pub message: String,
}

impl ApiError {
    /// The request is at fault.
    pub fn bad_request(message: String) -> (r: Self)
        ensures
            r.status == 400,
            r.message@ == message@,
    {
        ApiError { status: 400, message }
    }

    /// What was asked for is not there.
    pub fn not_found(message: String) -> (r: Self)
        ensures
            r.status == 404,
            r.message@ == message@,
    {
        ApiError { status: 404, message }
    }

    /// The server is at fault.
    pub fn internal(message: String) -> (r: Self)
        ensures
            r.status == 500,
            r.message@ == message@,
    {
        ApiError { status: 500, message }
    }
}

/// Why a path was refused.
#[derive(Clone, Debug, PartialEq, Eq)]
pub enum PathError {
    /// There is none.
    Empty,
    /// Nothing has that path.
    Missing(String),
    /// What has that path is neither a directory nor a file.
    Unsupported(String),
    /// The file lies in no directory.
    NoParent(String),
    /// There is no way to open a path on this platform.
    NoPlatform,
}

impl PathError {
    /// The message of the error.
    pub open spec fn text(&self) -> Seq<char> {
        match self {
            PathError::Empty => "路径不能为空"@,
            PathError::Missing(path) => "路径不存在: "@ + path@,
            PathError::Unsupported(path) => "不支持打开该路径类型: "@ + path@,
            PathError::NoParent(path) => "文件没有可打开的父目录: "@ + path@,
            PathError::NoPlatform => "当前平台暂不支持打开路径"@,
        }
    }

    /// The message of the error.
    pub fn message(&self) -> (r: String)
        ensures
            r@ == self.text(),
    {
        match self {
            PathError::Empty => "路径不能为空".to_owned(),
            PathError::Missing(path) => {
                let head = "路径不存在: ".to_owned();
                head.concat(path.as_str())
            },
            PathError::Unsupported(path) => {
                let head = "不支持打开该路径类型: ".to_owned();
                head.concat(path.as_str())
            },
            PathError::NoParent(path) => {
                let head = "文件没有可打开的父目录: ".to_owned();
                head.concat(path.as_str())
            },
            PathError::NoPlatform => "当前平台暂不支持打开路径".to_owned(),
        }
    }
}

// ---------------------------------------------------------------------------
// Paths in requests
// ---------------------------------------------------------------------------

/// The path that a request names.
pub fn resolve_requested_path(workspace_dir: &str, value: &str) -> (r: Result<String, PathError>)
    ensures
        if text::trimmed(value@).len() == 0 {
            r matches Err(e) && e == PathError::Empty
        } else {
            r matches Ok(p) && p@ == paths::resolved(workspace_dir@, text::trimmed(value@))
        },
{
    let trimmed = trim_text(value);
    if trimmed.as_str().is_empty() {
        return Err(PathError::Empty);
    }
    Ok(resolve_path(workspace_dir, trimmed.as_str()))
}

/// The path that a request names and every directory above it, from the innermost to the
/// outermost; nothing where the request names none.
pub open spec fn candidates(workspace: Seq<char>, value: Option<&str>) -> Seq<Seq<char>> {
    match value {
        Some(v) => if text::trimmed(v@).len() == 0 {
            Seq::empty()
        } else {
            paths::lineage(
                paths::normalized(paths::components(paths::joined(workspace, text::trimmed(v@)))),
            )
        },
        None => Seq::empty(),
    }
}

/// The places that a directory dialog may start at.
pub fn dialog_candidates(workspace_dir: &str, value: Option<&str>) -> (r: Vec<String>)
    ensures
        paths::strings(r@) == candidates(workspace_dir@, value),
{
    if let Some(v) = value {
        let trimmed = trim_text(v);
        if !trimmed.as_str().is_empty() {
            let path = join_path(workspace_dir, trimmed.as_str());
            return path_lineage(path.as_str());
        }
    }
    let r: Vec<String> = Vec::new();
    assert(paths::strings(r@) =~= Seq::empty());
    r
}

/// What the candidate number `i` names on disk.
pub open spec fn kind_at(kinds: Seq<EntryKind>, i: int) -> EntryKind {
    if 0 <= i < kinds.len() {
        kinds[i]
    } else {
        EntryKind::Missing
    }
}

/// Where a directory dialog starts, out of the candidates from number `i` on: at the first that
/// exists, or at the directory that holds it if it is none; else in the workspace.
pub open spec fn initial_dir(
    workspace: Seq<char>,
    cs: Seq<Seq<char>>,
    kinds: Seq<EntryKind>,
    i: int,
) -> Seq<char>
    decreases cs.len() - i,
{
    if i < 0 || i >= cs.len() {
        workspace
    } else {
        match kind_at(kinds, i) {
            EntryKind::Directory => cs[i],
            EntryKind::Missing => initial_dir(workspace, cs, kinds, i + 1),
            _ => if i + 1 < cs.len() {
                cs[i + 1]
            } else {
                workspace
            },
        }
    }
}

/// Where a directory dialog starts, where `kinds` is what the candidates name on disk.
pub fn dialog_initial_directory(
    workspace_dir: &str,
    value: Option<&str>,
    kinds: &Vec<EntryKind>,
) -> (r: String)
    ensures
        r@ == initial_dir(workspace_dir@, candidates(workspace_dir@, value), kinds@, 0),
{
    let cs = dialog_candidates(workspace_dir, value);
    let ghost all = paths::strings(cs@);
    let mut i: usize = 0;
    while i < cs.len()
        invariant
            all == paths::strings(cs@),
            all == candidates(workspace_dir@, value),
            i <= cs@.len(),
            initial_dir(workspace_dir@, all, kinds@, 0) == initial_dir(
                workspace_dir@,
                all,
                kinds@,
                i as int,
            ),
        decreases cs@.len() - i,
    {
        let kind = if i < kinds.len() {
            kinds[i]
        } else {
            EntryKind::Missing
        };
        assert(all[i as int] == cs@[i as int]@);
        match kind {
            EntryKind::Directory => return cs[i].clone(),
            EntryKind::Missing => {},
            _ => {
                if i + 1 < cs.len() {
                    assert(all[i + 1] == cs@[i + 1]@);
                    return cs[i + 1].clone();
                }
                return workspace_dir.to_owned();
            },
        }
        i += 1;
    }
    workspace_dir.to_owned()
}

/// A directory dialog starts in the workspace or in a directory that exists, provided that what
/// holds something that exists is a directory.
pub proof fn law_dialog_starts_in_directory(
    workspace: Seq<char>,
    cs: Seq<Seq<char>>,
    kinds: Seq<EntryKind>,
    i: int,
)
    requires
        0 <= i,
        forall|k: int, above: int|
            #![trigger kind_at(kinds, k), kind_at(kinds, above)]
            0 <= k && above == k + 1 && above < cs.len() && kind_at(kinds, k)
                != EntryKind::Missing ==> kind_at(kinds, above) == EntryKind::Directory,
    ensures
        initial_dir(workspace, cs, kinds, i) == workspace || exists|k: int|
            i <= k < cs.len() && #[trigger] cs[k] == initial_dir(workspace, cs, kinds, i)
                && kind_at(kinds, k) == EntryKind::Directory,
    decreases cs.len() - i,
{
    if i < cs.len() {
        match kind_at(kinds, i) {
            EntryKind::Directory => {
                assert(cs[i] == initial_dir(workspace, cs, kinds, i));
            },
            EntryKind::Missing => {
                law_dialog_starts_in_directory(workspace, cs, kinds, i + 1);
                if initial_dir(workspace, cs, kinds, i + 1) != workspace {
                    let k = choose|k: int|
                        i + 1 <= k < cs.len() && #[trigger] cs[k] == initial_dir(
                            workspace,
                            cs,
                            kinds,
                            i + 1,
                        ) && kind_at(kinds, k) == EntryKind::Directory;
                    assert(cs[k] == initial_dir(workspace, cs, kinds, i));
                }
            },
            _ => {
                if i + 1 < cs.len() {
                    assert(cs[i + 1] == initial_dir(workspace, cs, kinds, i));
                }
            },
        }
    }
}

/// How a selected path is shown: relative to the workspace if it lies in it.
pub open spec fn displayed(workspace: Seq<char>, selected: Seq<char>) -> Seq<char> {
    match paths::relative_to(workspace, selected) {
        Some(rel) => if rel.len() == 0 {
            "."@
        } else {
            "./"@ + text::replaced(rel, '\\', '/')
        },
        None => text::replaced(selected, '\\', '/'),
    }
}

/// How a selected path is shown.
pub fn display_selected_path(workspace_dir: &str, selected: &str) -> (r: String)
    ensures
        r@ == displayed(workspace_dir@, selected@),
{
    match strip_base(workspace_dir, selected) {
        Some(rel) => {
            if rel.as_str().is_empty() {
                ".".to_owned()
            } else {
                let head = "./".to_owned();
                head.concat(path_to_string(rel.as_str()).as_str())
            }
        },
        None => path_to_string(selected),
    }
}

/// A selected path that is shown, and then asked for as it was shown, is the same place again,
/// provided that it holds no backslash.
pub proof fn law_displayed_path_leads_back(workspace: Seq<char>, selected: Seq<char>)
    requires
        paths::is_absolute(workspace),
        paths::is_absolute(selected),
        !selected.contains('\\'),
    ensures
        paths::resolved(workspace, displayed(workspace, selected)) == paths::normal_path(selected),
{
    match paths::relative_to(workspace, selected) {
        Some(rel) => {
            paths::law_relative_path_leads_back(workspace, selected);
            reveal_strlit("./");
            reveal_strlit(".");
            if rel.len() == 0 {
                assert(rel =~= Seq::<char>::empty());
                paths::law_dot_is_workspace(workspace);
                assert("."@ =~= seq!['.']);
            } else {
                paths::lemma_relative_chars(workspace, selected);
                assert(text::replaced(rel, '\\', '/') =~= rel);
                paths::law_dot_prefix_is_ignored(workspace, rel);
                assert("./"@ =~= seq!['.', '/']);
            }
        },
        None => {
            assert(text::replaced(selected, '\\', '/') =~= selected);
        },
    }
}

/// The reply to a request for a directory.
#[derive(Debug)]
pub struct PickDirectoryResponse {
    pub path: Option<String>,
    pub canceled: bool,
}

/// The reply to a request for a directory, of which `selected` came.
pub fn pick_response(workspace_dir: &str, selected: Option<&str>) -> (r: PickDirectoryResponse)
    ensures
        match selected {
            Some(s) => !r.canceled && text::of_string(r.path) == Some(
                displayed(workspace_dir@, s@),
            ),
            None => r.canceled && r.path is None,
        },
{
    match selected {
        Some(s) => PickDirectoryResponse {
            path: Some(display_selected_path(workspace_dir, s)),
            canceled: false,
        },
        None => PickDirectoryResponse { path: None, canceled: true },
    }
}

// ---------------------------------------------------------------------------
// Opening a path
// ---------------------------------------------------------------------------

/// What is opened.
#[derive(Clone, Copy, Debug, PartialEq, Eq, Structural)]
pub enum OpenTargetKind {
    Directory,
    File,
}

/// What `path` is, which is `kind` on disk, if it can be opened.
pub fn inspect_open_target(path: &str, kind: EntryKind) -> (r: Result<OpenTargetKind, PathError>)
    ensures
        match kind {
            EntryKind::Missing => r matches Err(PathError::Missing(p)) && p@ == path@,
            EntryKind::Directory => r matches Ok(k) && k == OpenTargetKind::Directory,
            EntryKind::File => r matches Ok(k) && k == OpenTargetKind::File,
            EntryKind::Other => r matches Err(PathError::Unsupported(p)) && p@ == path@,
        },
{
    match kind {
        EntryKind::Missing => Err(PathError::Missing(path.to_owned())),
        EntryKind::Directory => Ok(OpenTargetKind::Directory),
        EntryKind::File => Ok(OpenTargetKind::File),
        EntryKind::Other => Err(PathError::Unsupported(path.to_owned())),
    }
}

/// A family of operating systems.
#[derive(Clone, Copy, Debug, PartialEq, Eq, Structural)]
pub enum Platform {
    Windows,
    MacOs,
    Unix,
    Unknown,
}

/// A command, and what is said if it cannot be run.
#[derive(Debug)]
pub struct OpenCommand {
    pub program: String,
    pub args: Vec<String>,
    pub failure: String,
}

/// A path as programs on Windows take it.
pub fn windows_path_arg(path: &str) -> (r: String)
    ensures
        r@ == text::replaced(path@, '/', '\\'),
{
    replace(path, '/', '\\')
}

/// The command that shows `path` in the file manager.
pub fn open_in_file_manager(platform: Platform, path: &str, kind: OpenTargetKind) -> (r: Result<
    OpenCommand,
    PathError,
>)
    ensures
        match platform {
            Platform::Windows => {
                &&& r matches Ok(c)
                &&& c.program@ == "explorer.exe"@
                &&& paths::strings(c.args@) == seq![
                    if kind == OpenTargetKind::Directory {
                        text::replaced(path@, '/', '\\')
                    } else {
                        "/select,"@ + text::replaced(path@, '/', '\\')
                    },
                ]
                &&& c.failure@ == "failed to open Explorer for "@ + path@
            },
            Platform::MacOs => {
                &&& r matches Ok(c)
                &&& c.program@ == "open"@
                &&& paths::strings(c.args@) == if kind == OpenTargetKind::Directory {
                    seq![path@]
                } else {
                    seq!["-R"@, path@]
                }
                &&& c.failure@ == "failed to open Finder for "@ + path@
            },
            Platform::Unix => match (kind, paths::parent_text(path@)) {
                (OpenTargetKind::File, None) => r matches Err(PathError::NoParent(p)) && p@
                    == path@,
                (_, above) => {
                    let target = if kind == OpenTargetKind::Directory {
                        path@
                    } else {
                        above->0
                    };
                    &&& r matches Ok(c)
                    &&& c.program@ == "xdg-open"@
                    &&& paths::strings(c.args@) == seq![target]
                    &&& c.failure@ == "failed to open file manager for "@ + target
                },
            },
            Platform::Unknown => r matches Err(e) && e == PathError::NoPlatform,
        },
{
    let mut args: Vec<String> = Vec::new();
    match platform {
        Platform::Windows => {
            let arg = windows_path_arg(path);
            match kind {
                OpenTargetKind::Directory => args.push(arg),
                OpenTargetKind::File => {
                    let head = "/select,".to_owned();
                    args.push(head.concat(arg.as_str()));
                },
            }
            assert(paths::strings(args@) =~= seq![
                if kind == OpenTargetKind::Directory {
                    text::replaced(path@, '/', '\\')
                } else {
                    "/select,"@ + text::replaced(path@, '/', '\\')
                },
            ]);
            let head = "failed to open Explorer for ".to_owned();
            Ok(
                OpenCommand {
                    program: "explorer.exe".to_owned(),
                    args,
                    failure: head.concat(path),
                },
            )
        },
        Platform::MacOs => {
            if kind == OpenTargetKind::File {
                args.push("-R".to_owned());
            }
            args.push(path.to_owned());
            assert(paths::strings(args@) =~= if kind == OpenTargetKind::Directory {
                seq![path@]
            } else {
                seq!["-R"@, path@]
            });
            let head = "failed to open Finder for ".to_owned();
            Ok(OpenCommand { program: "open".to_owned(), args, failure: head.concat(path) })
        },
        Platform::Unix => {
            let target = match kind {
                OpenTargetKind::Directory => path.to_owned(),
                OpenTargetKind::File => match parent_path(path) {
                    Some(p) => p,
                    None => return Err(PathError::NoParent(path.to_owned())),
                },
            };
            let head = "failed to open file manager for ".to_owned();
            let failure = head.concat(target.as_str());
            let ghost shown = target@;
            args.push(target);
            assert(paths::strings(args@) =~= seq![shown]);
            Ok(OpenCommand { program: "xdg-open".to_owned(), args, failure })
        },
        Platform::Unknown => Err(PathError::NoPlatform),
    }
}

/// What is said once a path was opened.
pub fn opened_message(path: &str) -> (r: String)
    ensures
        r@ == "已打开路径: "@ + path@,
{
    let head = "已打开路径: ".to_owned();
    head.concat(path)
}

// ---------------------------------------------------------------------------
// Files
// ---------------------------------------------------------------------------

/// The media type that a file with the path `path` is served as.
pub open spec fn served_type(path: Seq<char>) -> Seq<char> {
    match paths::extension(path) {
        Some(ext) => if ext.len() == 0 {
            "application/octet-stream"@
        } else {
            outside::media_type(text::lowered(ext))
        },
        None => "application/octet-stream"@,
    }
}

/// The media type that the file at `path` is served as.
pub fn content_type(path: &str) -> (r: String)
    ensures
        r@ == served_type(path@),
{
    match path_extension(path) {
        Some(ext) => guess_media_type(to_text(ext.as_slice()).as_str()),
        None => {
            proof {
                reveal_strlit("");
            }
            guess_media_type("")
        },
    }
}

/// The path of the image that a request asks for, or the reply that there is none.
pub fn requested_image(path: Option<String>) -> (r: Result<String, ApiError>)
    ensures
        match path {
            Some(p) => r matches Ok(q) && q@ == p@,
            None => r matches Err(e) && e.status == 404 && e.message@ == "图片不存在"@,
        },
{
    match path {
        Some(p) => Ok(p),
        None => Err(ApiError::not_found("图片不存在".to_owned())),
    }
}

/// The reply where the file of an image cannot be read.
pub fn unreadable_image(path: &str) -> (r: ApiError)
    ensures
        r.status == 404,
        r.message@ == "failed to read image file "@ + path@,
{
    let head = "failed to read image file ".to_owned();
    ApiError::not_found(head.concat(path))
}

// ---------------------------------------------------------------------------
// Settings
// ---------------------------------------------------------------------------

/// The settings as they are shown.
#[derive(Debug)]
pub struct SettingsView {
    pub model_path: String,
    pub asset_dir: String,
    pub omni_device: String,
    pub omni_provider_policy: String,
    pub omni_fgclip_max_patches: usize,
    pub needs_setup: bool,
}

/// The settings as they are shown.
pub fn settings_view(settings: &AppSettings) -> (r: SettingsView)
    ensures
        r.model_path@ == settings.model_path@,
        r.asset_dir@ == settings.asset_dir@,
        r.omni_device@ == settings.omni_device.name(),
        r.omni_provider_policy@ == settings.omni_provider_policy.name(),
        r.omni_fgclip_max_patches == settings.omni_fgclip_max_patches,
        r.needs_setup == (text::trimmed(settings.model_path@).len() == 0 || text::trimmed(
            settings.asset_dir@,
        ).len() == 0),
{
    SettingsView {
        model_path: settings.model_path.clone(),
        asset_dir: settings.asset_dir.clone(),
        omni_device: settings.omni_device.as_text(),
        omni_provider_policy: settings.omni_provider_policy.as_text(),
        omni_fgclip_max_patches: settings.omni_fgclip_max_patches,
        needs_setup: needs_setup(settings),
    }
}

/// Settings are not changed while a run is under way.
pub fn check_can_save(state: &AppState) -> (r: Result<(), ApiError>)
    ensures
        match r {
            Ok(()) => !state.index_status.running,
            Err(e) => state.index_status.running && e.status == 400 && e.message@
                == "索引执行中，暂时不能修改配置"@,
        },
{
    if state.index_status.running {
        Err(ApiError::bad_request("索引执行中，暂时不能修改配置".to_owned()))
    } else {
        Ok(())
    }
}

/// The settings that a request asks for, whether the index has to be given up for them, and the
/// changes that this takes.
pub struct SettingsPlan {
    pub settings: AppSettings,
    pub index_cleared: bool,
    pub changes: Vec<DbChange>,
}

/// Whether two settings name different models or different directories of images.
pub open spec fn index_data_changed(workspace: Seq<char>, a: Settings, b: Settings) -> bool {
    paths::path_key(workspace, a.model_path) != paths::path_key(workspace, b.model_path)
        || paths::path_key(workspace, a.asset_dir) != paths::path_key(workspace, b.asset_dir)
}

/// Whether the settings name different models or different directories of images.
fn is_index_data_changed(workspace_dir: &str, a: &AppSettings, b: &AppSettings) -> (r: bool)
    ensures
        r == index_data_changed(workspace_dir@, a@, b@),
{
    let old_model_path = resolved_path_key(workspace_dir, a.model_path.as_str());
    let new_model_path = resolved_path_key(workspace_dir, b.model_path.as_str());
    let old_asset_dir = resolved_path_key(workspace_dir, a.asset_dir.as_str());
    let new_asset_dir = resolved_path_key(workspace_dir, b.asset_dir.as_str());
    !same_text(old_model_path.as_str(), new_model_path.as_str()) || !same_text(
        old_asset_dir.as_str(),
        new_asset_dir.as_str(),
    )
}

/// The settings with another model and another directory of images.
pub fn changed_settings(settings: &AppSettings, model_path: String, asset_dir: String) -> (r:
    AppSettings)
    ensures
        r@ == (Settings { model_path: model_path@, asset_dir: asset_dir@, ..settings@ }),
{
    let mut new_settings = settings.clone();
    new_settings.model_path = model_path;
    new_settings.asset_dir = asset_dir;
    new_settings
}

/// What it takes to put `settings` in place of those of `state`, where `signature` is the
/// signature of the model that they name.
pub fn plan_settings(state: &AppState, settings: AppSettings, signature: Option<&str>) -> (r:
    SettingsPlan)
    ensures
        r.settings == settings,
        r.index_cleared == index_data_changed(
            state.workspace_dir@,
            state.settings@,
            settings@,
        ),
        paths::path_key(state.workspace_dir@, state.settings@.model_path) != paths::path_key(
            state.workspace_dir@,
            settings@.model_path,
        ) ==> r.index_cleared,
        paths::path_key(state.workspace_dir@, state.settings@.asset_dir) != paths::path_key(
            state.workspace_dir@,
            settings@.asset_dir,
        ) ==> r.index_cleared,
        !r.index_cleared ==> r.changes@.len() == 0,
        r.index_cleared ==> r.changes@.len() == 2 && forall|index: Index|
            #[trigger] db::applied(r.changes@, index) == (Index {
                images: Map::empty(),
                signature: text::of_str(signature),
            }),
{
    let changed = is_index_data_changed(
        state.workspace_dir.as_str(),
        &state.settings,
        &settings,
    );
    let mut changes: Vec<DbChange> = Vec::new();
    if changed {
        changes.push(clear_images());
        let ghost first = changes@;
        changes.push(set_index_model_signature(signature));
        proof {
            assert forall|index: Index| #[trigger] db::applied(changes@, index) == (Index {
                images: Map::empty(),
                signature: text::of_str(signature),
            }) by {
                reveal_with_fuel(db::applied, 3);
                assert(first.drop_last() =~= Seq::empty());
                assert(changes@.drop_last() =~= first);
                assert(changes@.last().effect(first.last().effect(index)).images == Map::<
                    Seq<char>,
                    db::Row,
                >::empty());
            }
        }
    }
    SettingsPlan { settings, index_cleared: changed, changes }
}

/// Settings that name the same model and the same directory as before leave the index alone.
pub proof fn law_same_paths_keep_index(workspace: Seq<char>, a: Settings, b: Settings)
    requires
        paths::resolved(workspace, a.model_path) == paths::resolved(workspace, b.model_path),
        paths::resolved(workspace, a.asset_dir) == paths::resolved(workspace, b.asset_dir),
    ensures
        !index_data_changed(workspace, a, b),
{
}

/// Once other settings were put in place, the index is in line with the model that they name:
/// bringing it in line changes nothing and clears nothing.
pub proof fn law_saved_settings_are_in_sync(index: Index, changed: bool, signature: Seq<char>)
    requires
        !changed ==> index.signature == Some(signature),
    ensures
        ({
            let after = if changed {
                Index { images: Map::empty(), signature: Some(signature) }
            } else {
                index
            };
            &&& db::synced(after, Some(signature)) == after
            &&& !db::needs_reset(after.signature, after.images.len(), Some(signature))
        }),
{
}

/// The status of an index that was given up.
pub open spec fn reset(before: Status) -> Status {
    Status { indexed: 0, total: 0, processed: 0, current_file: None, error: None, ..before }
}

/// Notes that the index was given up.
pub fn reset_index_status(status: &mut IndexStatus)
    ensures
        final(status)@ == reset(old(status)@),
{
    status.indexed = 0;
    status.total = 0;
    status.processed = 0;
    status.current_file = None;
    status.error = None;
}

/// Drops the model and notes that the index was given up, if it was.
pub fn give_up_index(state: &mut AppState, index_cleared: bool)
    ensures
        final(state).workspace_dir == old(state).workspace_dir,
        final(state).settings == old(state).settings,
        index_cleared ==> final(state).model_manager@ is None && final(state).index_status@
            == reset(old(state).index_status@),
        !index_cleared ==> *final(state) == *old(state),
{
    if index_cleared {
        state.model_manager.clear();
        reset_index_status(&mut state.index_status);
    }
}

// ---------------------------------------------------------------------------
// The index
// ---------------------------------------------------------------------------

/// Brings the index in line with the model of the settings, unless a run is under way.
pub fn sync_runtime_model_index(
    state: &AppState,
    stored_signature: Option<String>,
    image_count: usize,
    current_signature: Option<&str>,
) -> (r: SyncPlan)
    ensures
        text::of_string(r.sync.stored_signature) == text::of_string(stored_signature),
        state.index_status.running ==> {
            &&& r.sync.current_signature is None
            &&& !r.sync.index_cleared
            &&& r.changes@.len() == 0
        },
        !state.index_status.running ==> {
            &&& text::of_string(r.sync.current_signature) == text::of_str(current_signature)
            &&& r.sync.index_cleared == (db::needs_reset(
                text::of_string(stored_signature),
                image_count as nat,
                text::of_str(current_signature),
            ) && image_count > 0)
            &&& forall|index: Index|
                index.signature == text::of_string(stored_signature) && index.images.len()
                    == image_count ==> #[trigger] db::applied(r.changes@, index) == db::synced(
                    index,
                    text::of_str(current_signature),
                )
        },
{
    if state.index_status.running {
        return SyncPlan {
            changes: Vec::new(),
            sync: IndexModelSync {
                stored_signature,
                current_signature: None,
                index_cleared: false,
            },
        };
    }
    sync_index_model_signature(stored_signature, image_count, current_signature)
}

/// The reply to a request for a run, and whether one is to be started.
#[derive(Debug)]
pub struct StartResponse {
    pub status: u16,
    pub message: String,
    pub started: bool,
}

/// Starts a run on `total` images, unless one is under way. `index_cleared` says whether the
/// index had to be given up because the model is another one.
pub fn start_index(state: &mut AppState, total: usize, index_cleared: bool) -> (r: StartResponse)
    ensures
        r.started == !old(state).index_status.running,
        !r.started ==> {
            &&& r.status == 409
            &&& r.message@ == "正在执行中"@
            &&& *final(state) == *old(state)
        },
        r.started ==> {
            &&& r.status == 202
            &&& r.message@ == if index_cleared {
                "检测到模型已变更，已清空旧索引并启动重建"@
            } else {
                "索引任务已启动"@
            }
            &&& final(state).index_status@ == app_state::started(old(state).index_status@, total)
            &&& final(state).workspace_dir == old(state).workspace_dir
            &&& final(state).settings == old(state).settings
            &&& final(state).model_manager == old(state).model_manager
        },
{
    if !state.try_start_indexing(total) {
        return StartResponse {
            status: 409,
            message: "正在执行中".to_owned(),
            started: false,
        };
    }
    let message = if index_cleared {
        "检测到模型已变更，已清空旧索引并启动重建".to_owned()
    } else {
        "索引任务已启动".to_owned()
    };
    StartResponse { status: 202, message, started: true }
}

/// The status of an index in which no run is under way, which holds `indexed` images, where
/// there are `total`.
pub open spec fn refreshed(before: Status, indexed: usize, total: usize) -> Status {
    Status {
        indexed,
        total,
        processed: if indexed <= total {
            indexed
        } else {
            total
        },
        current_file: None,
        ..before
    }
}

/// Brings the index status up to date, unless a run is under way: `indexed` is the number of
/// images that the index holds and `total` the number of images that there are, where they are
/// known.
pub fn refresh_idle_index_status(
    state: &mut AppState,
    indexed: Option<usize>,
    total: Option<usize>,
)
    ensures
        final(state).workspace_dir == old(state).workspace_dir,
        final(state).settings == old(state).settings,
        final(state).model_manager == old(state).model_manager,
        match indexed {
            Some(n) => if old(state).index_status.running {
                *final(state) == *old(state)
            } else {
                final(state).index_status@ == refreshed(
                    old(state).index_status@,
                    n,
                    match total {
                        Some(t) => t,
                        None => n,
                    },
                )
            },
            None => *final(state) == *old(state),
        },
{
    let n: usize = match indexed {
        Some(n) => n,
        None => return,
    };
    let t: usize = match total {
        Some(t) => t,
        None => n,
    };
    if state.index_status.running {
        return;
    }
    state.index_status.indexed = n;
    state.index_status.total = t;
    state.index_status.processed = if n <= t {
        n
    } else {
        t
    };
    state.index_status.current_file = None;
}

/// The model that runs, or why none does.
#[derive(Debug)]
pub struct RuntimeStatus<T> {
    pub snapshot: Option<T>,
    pub error: Option<String>,
}

/// Whether the settings name a model that could run.
pub fn has_runtime(settings: &AppSettings) -> (r: bool)
    ensures
        r == (text::trimmed(settings.model_path@).len() > 0),
{
    !is_blank(settings.model_path.as_str())
}

/// What is said of the model that runs, where a look at it gave `found`.
pub fn build_runtime_status_response<T>(settings: &AppSettings, found: Result<T, String>) -> (r:
    RuntimeStatus<T>)
    ensures
        if text::trimmed(settings.model_path@).len() == 0 {
            r.snapshot is None && r.error is None
        } else {
            match found {
                Ok(snapshot) => r.snapshot == Some(snapshot) && r.error is None,
                Err(error) => r.snapshot is None && text::of_string(r.error) == Some(error@),
            }
        },
{
    if !has_runtime(settings) {
        return RuntimeStatus { snapshot: None, error: None };
    }
    match found {
        Ok(snapshot) => RuntimeStatus { snapshot: Some(snapshot), error: None },
        Err(error) => RuntimeStatus { snapshot: None, error: Some(error) },
    }
}

// ---------------------------------------------------------------------------
// Search
// ---------------------------------------------------------------------------

/// A search: the text, and how many images are wanted at most.
#[derive(Debug)]
pub struct SearchQuery {
    pub query: String,
    pub limit: usize,
}

/// How many images are wanted at most.
pub open spec fn search_limit(limit: Option<usize>) -> usize {
    match limit {
        Some(n) => if n < 1 {
            1
        } else if n > 200 {
            200
        } else {
            n
        },
        None => 60,
    }
}

/// Whatever a request asks for, at least one image and at most two hundred are wanted.
pub proof fn law_search_limit_is_bounded(limit: Option<usize>)
    ensures
        1 <= search_limit(limit) <= 200,
        limit matches Some(n) ==> 1 <= n <= 200 ==> search_limit(limit) == n,
{
}

/// The search that a request asks for.
pub fn search_query(query: &str, limit: Option<usize>) -> (r: Result<SearchQuery, ApiError>)
    ensures
        match r {
            Ok(q) => {
                &&& text::trimmed(query@).len() > 0
                &&& q.query@ == text::trimmed(query@)
                &&& q.limit == search_limit(limit)
            },
            Err(e) => text::trimmed(query@).len() == 0 && e.status == 400 && e.message@
                == "请输入搜索文本"@,
        },
{
    let trimmed = trim_text(query);
    if trimmed.as_str().is_empty() {
        return Err(ApiError::bad_request("请输入搜索文本".to_owned()));
    }
    let limit: usize = match limit {
        Some(n) => if n < 1 {
            1
        } else if n > 200 {
            200
        } else {
            n
        },
        None => 60,
    };
    Ok(SearchQuery { query: trimmed, limit })
}

/// An index that had just to be given up cannot be searched.
pub fn check_searchable(sync: &IndexModelSync) -> (r: Result<(), ApiError>)
    ensures
        match r {
            Ok(()) => !sync.index_cleared,
            Err(e) => sync.index_cleared && e.status == 400 && e.message@
                == "检测到模型已变更，已清空旧索引，请重新建立索引"@,
        },
{
    if sync.index_cleared {
        Err(
            ApiError::bad_request(
                "检测到模型已变更，已清空旧索引，请重新建立索引".to_owned(),
            ),
        )
    } else {
        Ok(())
    }
}

} // verus!
