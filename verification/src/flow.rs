//! How the longer requests go: after each thing that is done outside, what is to be done
//! next, or the reply.

use vstd::prelude::*;

use crate::app_state;
use crate::app_state::AppState;
#[allow(unused_imports)]
use crate::config::Settings;
use crate::config::AppSettings;
use crate::db;
#[allow(unused_imports)]
use crate::db::Index;
use crate::indexer::IndexError;
use crate::model;
use crate::model::{index_model_signature, DirError};
use crate::paths;
use crate::paths::resolve_path;
use crate::search;
use crate::search::check_ready;
use crate::text;
use crate::web;
use crate::web::{
    changed_settings, check_can_save, give_up_index, plan_settings, settings_view, start_index,
    ApiError, SettingsPlan, SettingsView, StartResponse,
};

verus! {

// ---------------------------------------------------------------------------
// A request for a run
// ---------------------------------------------------------------------------

/// What is to be done next for a request for a run.
#[derive(Debug)]
pub enum StartStep {
    /// The model of the settings is to be checked.
    ValidateModel,
    /// The directory of the images is to be checked.
    ValidateAssets,
    /// The images in this directory are to be counted.
    CountImages(String),
    /// The index is to be brought in line with the model; there are that many images.
    SyncIndex(usize),
    /// The request is answered.
    Reply(Result<StartResponse, ApiError>),
}

/// Whether `step` is the reply that the request failed, with this status and this message.
pub open spec fn start_fails(step: StartStep, status: u16, message: Seq<char>) -> bool {
    step matches StartStep::Reply(Err(e)) && e.status == status && e.message@ == message
}

/// A run needs a model and a directory of images.
pub fn begin_start(settings: &AppSettings) -> (r: StartStep)
    ensures
        if search::is_ready(*settings) {
            r is ValidateModel
        } else {
            start_fails(r, 400, "请先保存 MODEL_PATH 和素材目录"@)
        },
{
    match check_ready(settings) {
        Ok(()) => StartStep::ValidateModel,
        Err(error) => StartStep::Reply(Err(ApiError::bad_request(error.message()))),
    }
}

/// The model was checked.
pub fn start_after_model(model: Result<String, String>) -> (r: StartStep)
    ensures
        match model {
            Ok(_) => r is ValidateAssets,
            Err(message) => start_fails(r, 400, message@),
        },
{
    match model {
        Ok(_) => StartStep::ValidateAssets,
        Err(message) => StartStep::Reply(Err(ApiError::bad_request(message))),
    }
}

/// The directory of the images was checked.
pub fn start_after_assets(workspace_dir: &str, asset_dir: Result<String, DirError>) -> (r:
    StartStep)
    ensures
        match asset_dir {
            Ok(dir) => r matches StartStep::CountImages(d) && d@ == paths::resolved(
                workspace_dir@,
                dir@,
            ),
            Err(error) => start_fails(r, 400, error.text()),
        },
{
    match asset_dir {
        Ok(dir) => StartStep::CountImages(resolve_path(workspace_dir, dir.as_str())),
        Err(error) => StartStep::Reply(Err(ApiError::bad_request(error.message()))),
    }
}

/// The images were counted.
pub fn start_after_count(total: Result<usize, IndexError>) -> (r: StartStep)
    ensures
        match total {
            Ok(n) => r matches StartStep::SyncIndex(t) && t == n,
            Err(error) => start_fails(r, 400, error.text()),
        },
{
    match total {
        Ok(n) => StartStep::SyncIndex(n),
        Err(error) => StartStep::Reply(Err(ApiError::bad_request(error.message()))),
    }
}

/// The index was brought in line with the model, which says whether it had to be given up. The
/// run is started, unless one is under way.
pub fn start_after_sync(
    state: &mut AppState,
    total: usize,
    index_cleared: Result<bool, String>,
) -> (r: StartStep)
    ensures
        match index_cleared {
            Err(message) => start_fails(r, 500, message@) && *final(state) == *old(state),
            Ok(cleared) => {
                &&& r matches StartStep::Reply(Ok(reply))
                &&& reply.started == !old(state).index_status.running
                &&& !reply.started ==> {
                    &&& reply.status == 409
                    &&& reply.message@ == "正在执行中"@
                    &&& *final(state) == *old(state)
                }
                &&& reply.started ==> {
                    &&& reply.status == 202
                    &&& reply.message@ == if cleared {
                        "检测到模型已变更，已清空旧索引并启动重建"@
                    } else {
                        "索引任务已启动"@
                    }
                    &&& final(state).index_status@ == app_state::started(
                        old(state).index_status@,
                        total,
                    )
                }
            },
        },
        final(state).workspace_dir == old(state).workspace_dir,
        final(state).settings == old(state).settings,
        final(state).model_manager == old(state).model_manager,
{
    match index_cleared {
        Ok(cleared) => StartStep::Reply(Ok(start_index(state, total, cleared))),
        Err(message) => StartStep::Reply(Err(ApiError::internal(message))),
    }
}

// ---------------------------------------------------------------------------
// A request for other settings
// ---------------------------------------------------------------------------

/// The reply to a request for other settings: the settings that are now in place, and whether
/// the index was given up for them.
#[derive(Debug)]
pub struct SaveResponse {
    pub settings: SettingsView,
    pub index_cleared: bool,
}

/// What is to be done next for a request for other settings.
pub enum SaveStep {
    /// The model that was asked for is to be checked.
    ValidateModel,
    /// The directory of images that was asked for is to be checked; the model is at this path.
    ValidateAssets(String),
    /// The index is to be changed.
    ChangeIndex(SettingsPlan),
    /// The environment file is to be written.
    WriteFile(SettingsPlan),
    /// The request is answered.
    Reply(Result<SaveResponse, ApiError>),
}

/// Whether `step` is the reply that the request failed, with this status and this message.
pub open spec fn save_fails(step: SaveStep, status: u16, message: Seq<char>) -> bool {
    step matches SaveStep::Reply(Err(e)) && e.status == status && e.message@ == message
}

/// Settings are not changed while a run is under way.
pub fn begin_save(state: &AppState) -> (r: SaveStep)
    ensures
        if state.index_status.running {
            save_fails(r, 400, "索引执行中，暂时不能修改配置"@)
        } else {
            r is ValidateModel
        },
{
    match check_can_save(state) {
        Ok(()) => SaveStep::ValidateModel,
        Err(error) => SaveStep::Reply(Err(error)),
    }
}

/// The model was checked.
pub fn save_after_model(model_path: Result<String, String>) -> (r: SaveStep)
    ensures
        match model_path {
            Ok(path) => r matches SaveStep::ValidateAssets(p) && p@ == path@,
            Err(message) => save_fails(r, 400, message@),
        },
{
    match model_path {
        Ok(path) => SaveStep::ValidateAssets(path),
        Err(message) => SaveStep::Reply(Err(ApiError::bad_request(message))),
    }
}

/// What the settings become.
pub open spec fn new_settings(s: Settings, model_path: Seq<char>, asset_dir: Seq<char>) -> Settings {
    Settings { model_path, asset_dir, ..s }
}

/// The directory of the images was checked. The plan says what becomes of the settings and of
/// the index: it is emptied, and noted for the new model, if the settings name another model or
/// other images.
pub fn save_after_assets(
    state: &AppState,
    model_path: String,
    asset_dir: Result<String, DirError>,
) -> (r: SaveStep)
    ensures
        match asset_dir {
            Ok(dir) => {
                let now = new_settings(state.settings@, model_path@, dir@);
                let changed = web::index_data_changed(
                    state.workspace_dir@,
                    state.settings@,
                    now,
                );
                &&& r matches SaveStep::ChangeIndex(plan)
                &&& plan.settings@ == now
                &&& plan.index_cleared == changed
                &&& forall|index: Index|
                    #[trigger] db::applied(plan.changes@, index) == if changed {
                        Index {
                            images: Map::empty(),
                            signature: model::signature_of(state.workspace_dir@, now),
                        }
                    } else {
                        index
                    }
            },
            Err(error) => save_fails(r, 400, error.text()),
        },
{
    match asset_dir {
        Ok(dir) => {
            let settings = changed_settings(&state.settings, model_path, dir);
            let signature = index_model_signature(state.workspace_dir.as_str(), &settings);
            let known = match &signature {
                Some(s) => Some(s.as_str()),
                None => None,
            };
            assert(text::of_str(known) == model::signature_of(state.workspace_dir@, settings@));
            SaveStep::ChangeIndex(plan_settings(state, settings, known))
        },
        Err(error) => SaveStep::Reply(Err(ApiError::bad_request(error.message()))),
    }
}

/// The index was changed, or could not be. Where it was given up, so are the model and what the
/// index status says.
pub fn save_after_changes(
    state: &mut AppState,
    plan: SettingsPlan,
    changed: Result<(), String>,
) -> (r: SaveStep)
    ensures
        match changed {
            Err(message) => save_fails(r, 500, message@) && *final(state) == *old(state),
            Ok(()) => {
                &&& r matches SaveStep::WriteFile(p)
                &&& p == plan
                &&& plan.index_cleared ==> final(state).model_manager@ is None
                    && final(state).index_status@ == web::reset(old(state).index_status@)
                &&& !plan.index_cleared ==> *final(state) == *old(state)
            },
        },
        final(state).workspace_dir == old(state).workspace_dir,
        final(state).settings == old(state).settings,
{
    match changed {
        Ok(()) => {
            give_up_index(state, plan.index_cleared);
            SaveStep::WriteFile(plan)
        },
        Err(message) => SaveStep::Reply(Err(ApiError::internal(message))),
    }
}

/// The environment file was written, or could not be. The settings are put in place once it was.
pub fn save_after_write(state: &mut AppState, plan: SettingsPlan, written: Result<(), String>) -> (r:
    SaveStep)
    ensures
        match written {
            Err(message) => save_fails(r, 500, message@) && *final(state) == *old(state),
            Ok(()) => {
                &&& final(state).settings == plan.settings
                &&& r matches SaveStep::Reply(Ok(reply))
                &&& reply.index_cleared == plan.index_cleared
                &&& reply.settings.model_path@ == plan.settings.model_path@
                &&& reply.settings.asset_dir@ == plan.settings.asset_dir@
                &&& reply.settings.omni_device@ == plan.settings.omni_device.name()
                &&& reply.settings.omni_provider_policy@
                    == plan.settings.omni_provider_policy.name()
                &&& reply.settings.omni_fgclip_max_patches
                    == plan.settings.omni_fgclip_max_patches
            },
        },
        final(state).workspace_dir == old(state).workspace_dir,
        final(state).index_status == old(state).index_status,
        final(state).model_manager == old(state).model_manager,
{
    match written {
        Ok(()) => {
            let reply = SaveResponse {
                settings: settings_view(&plan.settings),
                index_cleared: plan.index_cleared,
            };
            state.replace_settings(plan.settings);
            SaveStep::Reply(Ok(reply))
        },
        Err(message) => SaveStep::Reply(Err(ApiError::internal(message))),
    }
}

/// Other settings touch nothing but the model and the directory of the images.
pub proof fn law_saving_changes_two_settings(s: Settings, model_path: Seq<char>, asset_dir: Seq<char>)
    ensures
        ({
            let now = new_settings(s, model_path, asset_dir);
            &&& now.db_path == s.db_path
            &&& now.omni_device == s.omni_device
            &&& now.omni_provider_policy == s.omni_provider_policy
            &&& now.omni_intra_threads == s.omni_intra_threads
            &&& now.omni_fgclip_max_patches == s.omni_fgclip_max_patches
            &&& now.host == s.host
            &&& now.port == s.port
            &&& now.log_dir == s.log_dir
        }),
{
}

} // verus!
