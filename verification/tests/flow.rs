use puppy_find::app_state::AppState;
use puppy_find::config::AppSettings;
use puppy_find::db::DbChange;
use puppy_find::flow::{
    begin_save, begin_start, save_after_assets, save_after_changes, save_after_model,
    save_after_write, start_after_assets, start_after_count, start_after_model, start_after_sync,
    SaveStep, StartStep,
};
use puppy_find::indexer::IndexError;
use puppy_find::model::{DirError, ModelPlan};
use puppy_find::web::{ApiError, StartResponse};

fn state() -> AppState {
    let settings = AppSettings::defaults_with("/pics".to_owned());
    AppState::new("/w".to_owned(), settings, 3)
}

fn started(step: StartStep) -> Result<StartResponse, ApiError> {
    match step {
        StartStep::Reply(reply) => reply,
        _ => panic!("no reply yet"),
    }
}

fn start_failure(step: StartStep) -> (u16, String) {
    let error = started(step).unwrap_err();
    (error.status, error.message)
}

fn save_failure(step: SaveStep) -> (u16, String) {
    match step {
        SaveStep::Reply(Err(error)) => (error.status, error.message),
        _ => panic!("no failure"),
    }
}

#[test]
fn a_run_is_started_step_by_step() {
    let mut state = state();
    assert!(matches!(begin_start(&state.settings), StartStep::ValidateModel));
    assert!(matches!(start_after_model(Ok("/m".to_owned())), StartStep::ValidateAssets));
    let StartStep::CountImages(dir) = start_after_assets("/w", Ok("pics/../x".to_owned())) else {
        panic!("nothing to count");
    };
    assert_eq!(dir, "/w/x");
    assert!(matches!(start_after_count(Ok(5)), StartStep::SyncIndex(5)));
    let first = started(start_after_sync(&mut state, 5, Ok(false))).unwrap();
    assert_eq!((first.status, first.started), (202, true));
    assert_eq!(first.message, "索引任务已启动");
    assert_eq!(state.index_status().total, 5);
    let second = started(start_after_sync(&mut state, 9, Ok(true))).unwrap();
    assert_eq!((second.status, second.started), (409, false));
    assert_eq!(state.index_status().total, 5);
}

#[test]
fn a_run_is_refused_with_a_status() {
    let mut state = state();
    let mut unset = state.settings();
    unset.model_path = "".to_owned();
    assert_eq!(
        start_failure(begin_start(&unset)),
        (400, "请先保存 MODEL_PATH 和素材目录".to_owned())
    );
    assert_eq!(start_failure(start_after_model(Err("m".to_owned()))), (400, "m".to_owned()));
    let empty = DirError::Empty("素材目录".to_owned());
    assert_eq!(
        start_failure(start_after_assets("/w", Err(empty))),
        (400, "素材目录不能为空".to_owned())
    );
    assert_eq!(
        start_failure(start_after_count(Err(IndexError::DirMissing("/x".to_owned())))),
        (400, "素材目录不存在: /x".to_owned())
    );
    let unsynced = start_after_sync(&mut state, 1, Err("db".to_owned()));
    assert_eq!(start_failure(unsynced), (500, "db".to_owned()));
    assert!(!state.index_status().running);
}

#[test]
fn settings_are_saved_step_by_step() {
    let mut state = state();
    state.model_manager.loaded("/old".to_owned());
    assert!(matches!(begin_save(&state), SaveStep::ValidateModel));
    let SaveStep::ValidateAssets(model_path) = save_after_model(Ok("/m".to_owned())) else {
        panic!("no model");
    };
    let SaveStep::ChangeIndex(plan) = save_after_assets(&state, model_path, Ok("/p".to_owned()))
    else {
        panic!("no plan");
    };
    assert!(plan.index_cleared);
    assert!(matches!(plan.changes[0], DbChange::ClearImages));
    assert!(matches!(&plan.changes[1], DbChange::SetSignature(s) if s == "/m"));
    let SaveStep::WriteFile(plan) = save_after_changes(&mut state, plan, Ok(())) else {
        panic!("nothing to write");
    };
    assert_eq!(state.index_status().indexed, 0);
    assert_eq!(state.model_manager().with_model("/old"), ModelPlan::Load);
    assert_eq!(state.settings().asset_dir, "/pics");
    let SaveStep::Reply(Ok(reply)) = save_after_write(&mut state, plan, Ok(())) else {
        panic!("no reply");
    };
    assert!(reply.index_cleared);
    assert_eq!(reply.settings.model_path, "/m");
    assert_eq!(state.settings().asset_dir, "/p");
    assert_eq!(state.settings().port, 3000);
}

#[test]
fn settings_are_refused_with_a_status() {
    let mut state = state();
    assert_eq!(save_failure(save_after_model(Err("m".to_owned()))), (400, "m".to_owned()));
    let refused = save_after_assets(&state, "/m".to_owned(), Err(DirError::NoCurrentDir));
    assert_eq!(save_failure(refused), (400, "failed to read current directory".to_owned()));
    let plan = |state: &AppState| match save_after_assets(
        state,
        "/m".to_owned(),
        Ok("/p".to_owned()),
    ) {
        SaveStep::ChangeIndex(plan) => plan,
        _ => panic!("no plan"),
    };
    let first = plan(&state);
    let failed = save_after_changes(&mut state, first, Err("db".to_owned()));
    assert_eq!(save_failure(failed), (500, "db".to_owned()));
    assert_eq!(state.index_status().indexed, 3);
    let second = plan(&state);
    let failed = save_after_write(&mut state, second, Err("disk".to_owned()));
    assert_eq!(save_failure(failed), (500, "disk".to_owned()));
    assert_eq!(state.settings().asset_dir, "/pics");
    assert!(state.try_start_indexing(1));
    assert_eq!(
        save_failure(begin_save(&state)),
        (400, "索引执行中，暂时不能修改配置".to_owned())
    );
}
