use puppy_find::app_state::AppState;
use puppy_find::config::AppSettings;
use puppy_find::db::{DbChange, IndexModelSync, SearchImageRecord};
use puppy_find::model::{
    check_model_probe, embed_image_error, embed_text_error, index_model_signature, normalize_dir_path,
    normalize_existing_dir, validate_asset_dir, validate_existing_asset_dir, validate_model_dir,
    DirError, ModelManager, ModelPlan, ModelProbe,
};
use puppy_find::paths::{resolve_path, EntryKind};
use puppy_find::search::{check_ready, run_search, ScoredImage, SearchError};
use puppy_find::server::{
    browser_base_url, is_old_log, log_cutoff, skips_browser, workspace_of, LOG_RETENTION_NANOS,
};
use puppy_find::web::{
    build_runtime_status_response, changed_settings, check_can_save, check_searchable,
    content_type, dialog_candidates, dialog_initial_directory, display_selected_path,
    give_up_index, has_runtime, inspect_open_target, open_in_file_manager, opened_message,
    pick_response, plan_settings, refresh_idle_index_status, requested_image,
    resolve_requested_path, search_query, settings_view, start_index, sync_runtime_model_index,
    unreadable_image, windows_path_arg, ApiError, OpenTargetKind, PathError, Platform,
};

fn settings() -> AppSettings {
    AppSettings::defaults_with("/pics".to_owned())
}

fn state() -> AppState {
    AppState::new("/w".to_owned(), settings(), 3)
}

#[test]
fn resolve_requested_path_uses_workspace_for_relative_paths() {
    let resolved = resolve_requested_path("/tmp/work", "./images/corgi").unwrap();
    assert_eq!(resolved, "/tmp/work/images/corgi");
}

#[test]
fn resolve_requested_path_rejects_empty_input() {
    let error = resolve_requested_path("/tmp/work", "   ").unwrap_err();
    assert!(error.message().contains("路径不能为空"));
}

#[test]
fn dialog_initial_directory_falls_back_to_existing_parent() {
    let value = Some("./images/missing/deeper/not-found");
    let candidates = dialog_candidates("/root", value);
    let kinds: Vec<EntryKind> = candidates
        .iter()
        .map(|c| {
            if c == "/root/images" || c == "/root" || c == "/" {
                EntryKind::Directory
            } else {
                EntryKind::Missing
            }
        })
        .collect();
    let resolved = dialog_initial_directory("/root", value, &kinds);
    assert_eq!(resolved, "/root/images");
}

#[test]
fn dialog_starts_next_to_a_file_or_in_the_workspace() {
    let kinds = vec![EntryKind::File, EntryKind::Directory, EntryKind::Directory];
    assert_eq!(dialog_initial_directory("/root", Some("/a/b.png"), &kinds), "/a");
    assert_eq!(dialog_initial_directory("/root", Some("  "), &kinds), "/root");
    assert_eq!(dialog_initial_directory("/root", None, &kinds), "/root");
    assert_eq!(dialog_initial_directory("/root", Some("/a"), &Vec::new()), "/root");
    assert_eq!(dialog_initial_directory("/root", Some("/"), &vec![EntryKind::Other]), "/root");
}

#[test]
fn display_selected_path_prefers_workspace_relative_format() {
    let displayed = display_selected_path("/tmp/work", "/tmp/work/images/corgi");
    assert_eq!(displayed, "./images/corgi");
}

#[test]
fn displayed_paths_lead_back() {
    assert_eq!(display_selected_path("/tmp/work", "/tmp/work/"), ".");
    assert_eq!(display_selected_path("/tmp/work", "/tmp/workshop"), "/tmp/workshop");
    for selected in ["/tmp/work", "/tmp/work/a/b", "/tmp/other", "/", "/tmp/work//x/"] {
        let shown = display_selected_path("/tmp/work", selected);
        assert_eq!(resolve_path("/tmp/work", &shown), resolve_path("/", selected));
    }
    let picked = pick_response("/tmp/work", Some("/tmp/work/a"));
    assert_eq!(picked.path.as_deref(), Some("./a"));
    assert!(!picked.canceled);
    let canceled = pick_response("/tmp/work", None);
    assert!(canceled.canceled && canceled.path.is_none());
}

#[test]
fn inspect_open_target_distinguishes_files_and_directories() {
    assert_eq!(
        inspect_open_target("/r/assets", EntryKind::Directory).unwrap(),
        OpenTargetKind::Directory
    );
    assert_eq!(
        inspect_open_target("/r/dog.png", EntryKind::File).unwrap(),
        OpenTargetKind::File
    );
    assert_eq!(
        inspect_open_target("/r/x", EntryKind::Missing).unwrap_err().message(),
        "路径不存在: /r/x"
    );
    assert_eq!(
        inspect_open_target("/r/x", EntryKind::Other).unwrap_err().message(),
        "不支持打开该路径类型: /r/x"
    );
}

#[test]
fn paths_are_opened_per_platform() {
    let dir = OpenTargetKind::Directory;
    let file = OpenTargetKind::File;
    let win = open_in_file_manager(Platform::Windows, "c:/a/b", file).unwrap();
    assert_eq!(win.program, "explorer.exe");
    assert_eq!(win.args, vec!["/select,c:\\a\\b".to_owned()]);
    assert_eq!(win.failure, "failed to open Explorer for c:/a/b");
    let win_dir = open_in_file_manager(Platform::Windows, "c:/a", dir).unwrap();
    assert_eq!(win_dir.args, vec!["c:\\a".to_owned()]);
    let mac = open_in_file_manager(Platform::MacOs, "/a/b", file).unwrap();
    assert_eq!(mac.args, vec!["-R".to_owned(), "/a/b".to_owned()]);
    let mac_dir = open_in_file_manager(Platform::MacOs, "/a", dir).unwrap();
    assert_eq!(mac_dir.program, "open");
    assert_eq!(mac_dir.args, vec!["/a".to_owned()]);
    let unix = open_in_file_manager(Platform::Unix, "/a/b", file).unwrap();
    assert_eq!(unix.program, "xdg-open");
    assert_eq!(unix.args, vec!["/a".to_owned()]);
    assert_eq!(unix.failure, "failed to open file manager for /a");
    let root = open_in_file_manager(Platform::Unix, "/", file).unwrap_err();
    assert_eq!(root.message(), "文件没有可打开的父目录: /");
    let unknown = open_in_file_manager(Platform::Unknown, "/a", dir).unwrap_err();
    assert_eq!(unknown, PathError::NoPlatform);
    assert_eq!(unknown.message(), "当前平台暂不支持打开路径");
    assert_eq!(windows_path_arg("a/b"), "a\\b");
    assert_eq!(opened_message("/a"), "已打开路径: /a");
}

#[test]
fn media_types_go_by_extension() {
    assert_eq!(content_type("/x/a.PNG"), "image/png");
    assert_eq!(content_type("index.html"), "text/html");
    assert_eq!(content_type("/x/png"), "application/octet-stream");
    assert_eq!(content_type("/x/a."), "application/octet-stream");
    for path in ["a.jpeg", "b/c.WEBP", "d.e.css", ".png", "x.", "noext", "y.svg"] {
        let expected = mime_guess::from_path(path).first_or_octet_stream();
        assert_eq!(content_type(path), expected.as_ref());
    }
    assert_eq!(content_type("/x/a.unheard-of"), "application/octet-stream");
}

#[test]
fn missing_images_are_not_found() {
    assert_eq!(requested_image(Some("/a".to_owned())).unwrap(), "/a");
    let none = requested_image(None).unwrap_err();
    assert_eq!((none.status, none.message.as_str()), (404, "图片不存在"));
    let unreadable = unreadable_image("/a");
    assert_eq!(unreadable.status, 404);
    assert_eq!(unreadable.message, "failed to read image file /a");
    assert_eq!(ApiError::internal("x".to_owned()).status, 500);
}

#[test]
fn settings_are_shown() {
    let view = settings_view(&settings());
    assert_eq!(view.model_path, "./config/model");
    assert_eq!(view.asset_dir, "/pics");
    assert_eq!(view.omni_device, "auto");
    assert_eq!(view.omni_provider_policy, "interactive");
    assert_eq!(view.omni_fgclip_max_patches, 256);
    assert!(!view.needs_setup);
}

#[test]
fn settings_for_other_paths_give_up_the_index() {
    let state = state();
    let same = changed_settings(&settings(), "config/./model".to_owned(), "/pics/".to_owned());
    let kept = plan_settings(&state, same, Some("sig"));
    assert!(!kept.index_cleared);
    assert!(kept.changes.is_empty());
    assert_eq!(kept.settings.model_path, "config/./model");
    let other = changed_settings(&settings(), "/m".to_owned(), "/pics".to_owned());
    let given_up = plan_settings(&state, other, Some("sig"));
    assert!(given_up.index_cleared);
    assert_eq!(given_up.changes.len(), 2);
    assert!(matches!(given_up.changes[0], DbChange::ClearImages));
    assert!(matches!(&given_up.changes[1], DbChange::SetSignature(s) if s == "sig"));
    let forgotten = changed_settings(&settings(), "/m".to_owned(), "/pics".to_owned());
    let unsigned = plan_settings(&state, forgotten, None);
    assert!(matches!(unsigned.changes[1], DbChange::ClearSignature));
}

#[test]
fn giving_up_the_index_resets_its_status() {
    let mut state = state();
    state.model_manager.loaded("/m".to_owned());
    state.index_status.total = 5;
    state.index_status.error = Some("e".to_owned());
    give_up_index(&mut state, false);
    assert_eq!(state.index_status.total, 5);
    give_up_index(&mut state, true);
    assert_eq!(state.index_status.indexed, 0);
    assert_eq!(state.index_status.total, 0);
    assert_eq!(state.index_status.error, None);
    assert_eq!(state.model_manager().with_model("/m"), ModelPlan::Load);
}

#[test]
fn nothing_is_saved_or_synced_while_a_run_is_under_way() {
    let mut state = state();
    assert!(check_can_save(&state).is_ok());
    let first = start_index(&mut state, 7, true);
    assert_eq!(first.status, 202);
    assert_eq!(first.message, "检测到模型已变更，已清空旧索引并启动重建");
    assert!(first.started);
    let again = start_index(&mut state, 7, false);
    assert_eq!((again.status, again.message.as_str()), (409, "正在执行中"));
    assert!(!again.started);
    let refused = check_can_save(&state).unwrap_err();
    assert_eq!((refused.status, refused.message.as_str()), (400, "索引执行中，暂时不能修改配置"));
    let plan = sync_runtime_model_index(&state, Some("a".to_owned()), 3, Some("b"));
    assert!(plan.changes.is_empty());
    assert!(!plan.sync.index_cleared);
    assert_eq!(plan.sync.current_signature, None);
    refresh_idle_index_status(&mut state, Some(1), Some(1));
    assert_eq!(state.index_status.indexed, 3);
    state.finish_indexing(None);
    let plan = sync_runtime_model_index(&state, Some("a".to_owned()), 3, Some("b"));
    assert!(plan.sync.index_cleared);
    let third = start_index(&mut state, 1, false);
    assert_eq!(third.message, "索引任务已启动");
}

#[test]
fn idle_status_is_refreshed() {
    let mut state = state();
    refresh_idle_index_status(&mut state, None, Some(9));
    assert_eq!(state.index_status.total, 0);
    refresh_idle_index_status(&mut state, Some(4), Some(9));
    assert_eq!((state.index_status.indexed, state.index_status.total), (4, 9));
    assert_eq!(state.index_status.processed, 4);
    refresh_idle_index_status(&mut state, Some(9), Some(4));
    assert_eq!(state.index_status.processed, 4);
    refresh_idle_index_status(&mut state, Some(2), None);
    assert_eq!(state.index_status.total, 2);
}

#[test]
fn runtime_status_needs_a_model() {
    let mut settings = settings();
    assert!(has_runtime(&settings));
    let found = build_runtime_status_response(&settings, Ok(5));
    assert_eq!((found.snapshot, found.error), (Some(5), None));
    let failed = build_runtime_status_response::<i32>(&settings, Err("no".to_owned()));
    assert_eq!((failed.snapshot, failed.error.as_deref()), (None, Some("no")));
    settings.model_path = "  ".to_owned();
    assert!(!has_runtime(&settings));
    let none = build_runtime_status_response(&settings, Ok(5));
    assert_eq!((none.snapshot, none.error), (None, None));
}

#[test]
fn search_requests_are_checked() {
    let error = search_query(" \n", None).unwrap_err();
    assert_eq!((error.status, error.message.as_str()), (400, "请输入搜索文本"));
    let query = search_query("  corgi ", None).unwrap();
    assert_eq!((query.query.as_str(), query.limit), ("corgi", 60));
    assert_eq!(search_query("x", Some(0)).unwrap().limit, 1);
    assert_eq!(search_query("x", Some(201)).unwrap().limit, 200);
    assert_eq!(search_query("x", Some(17)).unwrap().limit, 17);
    let sync = |index_cleared: bool| IndexModelSync {
        stored_signature: None,
        current_signature: None,
        index_cleared,
    };
    assert!(check_searchable(&sync(false)).is_ok());
    let stale = check_searchable(&sync(true)).unwrap_err();
    assert_eq!(stale.status, 400);
    assert_eq!(stale.message, "检测到模型已变更，已清空旧索引，请重新建立索引");
}

fn scored(id: i64, vector: &[f32], score: Result<f32, String>) -> ScoredImage {
    ScoredImage {
        image: SearchImageRecord {
            id,
            file_name: format!("{id}.png"),
            path: format!("/pics/{id}.png"),
            dims: vector.len(),
            vector: vector.iter().map(|x| x.to_bits()).collect(),
        },
        score: score.map(|s| s.to_bits()),
    }
}

#[test]
fn the_best_images_come_first() {
    let scores = [0.5_f32, -0.0, 0.9, 0.5, -1.0, 0.0, f32::NAN, -f32::NAN, f32::INFINITY];
    let images: Vec<ScoredImage> =
        scores.iter().enumerate().map(|(i, s)| scored(i as i64, &[0.0], Ok(*s))).collect();
    let mut expected: Vec<usize> = (0..scores.len()).collect();
    expected.sort_by(|a, b| scores[*b].total_cmp(&scores[*a]));
    let items = run_search(&settings(), 1, &images, 100).unwrap();
    let ids: Vec<usize> = items.iter().map(|x| x.id as usize).collect();
    assert_eq!(ids, expected);
    assert_eq!(items[2].image_url, "/api/images/2");
    assert_eq!(items[2].file_name, "2.png");
    assert_eq!(items[2].path, "/pics/2.png");
    assert_eq!(f32::from_bits(items[2].score), 0.9);
    let few = run_search(&settings(), 1, &images, 3).unwrap();
    assert_eq!(few.len(), 3);
    assert_eq!(few[2].id, 2);
}

#[test]
fn searches_fail_with_a_reason() {
    let mut unset = settings();
    unset.asset_dir = "".to_owned();
    assert_eq!(check_ready(&unset), Err(SearchError::NotReady));
    assert_eq!(
        run_search(&unset, 1, &Vec::new(), 5).unwrap_err().message(),
        "请先保存 MODEL_PATH 和素材目录"
    );
    assert!(check_ready(&settings()).is_ok());
    assert_eq!(
        run_search(&settings(), 1, &Vec::new(), 5).unwrap_err().message(),
        "请先建立索引"
    );
    let failed = || scored(1, &[0.0], Err("zero".to_owned()));
    let wrong = || scored(2, &[0.0, 1.0], Ok(0.5));
    assert_eq!(
        run_search(&settings(), 1, &vec![wrong(), failed()], 5).unwrap_err().message(),
        "索引向量与当前模型不匹配，请重新建立索引"
    );
    assert_eq!(
        run_search(&settings(), 1, &vec![failed(), wrong()], 5).unwrap_err().message(),
        "failed to score image /pics/1.png: zero"
    );
}

#[test]
fn directories_are_made_absolute_and_checked() {
    assert_eq!(normalize_dir_path(Some("/w"), "a", "模型目录"), Ok("/w/a".to_owned()));
    assert_eq!(normalize_dir_path(None, "/a", "模型目录"), Ok("/a".to_owned()));
    assert_eq!(normalize_dir_path(None, "a", "模型目录"), Err(DirError::NoCurrentDir));
    assert_eq!(DirError::NoCurrentDir.message(), "failed to read current directory");
    assert_eq!(
        normalize_existing_dir(Some("/w"), "", "模型目录", EntryKind::Missing)
            .unwrap_err()
            .message(),
        "模型目录不能为空"
    );
    assert_eq!(validate_asset_dir(Some("/w"), "a\\b"), Ok("/w/a/b".to_owned()));
    assert_eq!(
        validate_existing_asset_dir(Some("/w"), "a", EntryKind::Missing).unwrap_err().message(),
        "素材目录不存在: /w/a"
    );
    assert_eq!(
        validate_existing_asset_dir(Some("/w"), "a", EntryKind::File).unwrap_err().message(),
        "素材目录不是目录: /w/a"
    );
    assert_eq!(
        validate_existing_asset_dir(Some("/w"), "a", EntryKind::Directory),
        Ok("/w/a".to_owned())
    );
}

#[test]
fn models_are_checked() {
    let probe = |ok: bool, error: Option<&str>| ModelProbe {
        ok,
        normalized_path: "/m\\x".to_owned(),
        error: error.map(|e| e.to_owned()),
    };
    assert_eq!(validate_model_dir(&probe(true, None), true), Ok("/m/x".to_owned()));
    assert_eq!(
        validate_model_dir(&probe(true, None), false).unwrap_err().message(),
        "failed to load model bundle from /m\\x"
    );
    assert_eq!(check_model_probe(&probe(false, Some("bad"))).unwrap_err().message(), "bad");
    assert_eq!(
        validate_model_dir(&probe(false, None), true).unwrap_err().message(),
        "模型目录不是有效的 omni_search bundle"
    );
    assert_eq!(embed_text_error("x"), "failed to embed text: x");
    assert_eq!(embed_image_error("/a", "x"), "failed to embed image /a: x");
}

#[test]
fn a_loaded_model_is_used_again() {
    let mut manager = ModelManager::default();
    assert_eq!(manager.with_model("/m"), ModelPlan::Load);
    manager.loaded("/m".to_owned());
    assert_eq!(manager.with_model("/m/"), ModelPlan::Reuse);
    assert_eq!(manager.with_model("/n"), ModelPlan::Load);
    manager.clear();
    assert_eq!(manager.with_model("/m"), ModelPlan::Load);
}

#[test]
fn the_browser_gets_an_address_that_it_can_reach() {
    let mut s = settings();
    let mut url = |host: &str| {
        s.host = host.to_owned();
        browser_base_url(&s, 3000)
    };
    assert_eq!(url("0.0.0.0"), "http://127.0.0.1:3000");
    assert_eq!(url("::"), "http://[::1]:3000");
    assert_eq!(url("[::1]"), "http://[::1]:3000");
    assert_eq!(url("fe80::1"), "http://[fe80::1]:3000");
    assert_eq!(url("example.org"), "http://example.org:3000");
    assert!(skips_browser(Some("1")));
    assert!(skips_browser(Some("TRUE")));
    assert!(!skips_browser(Some("yes")));
    assert!(!skips_browser(None));
}

#[test]
fn old_logs_are_removed() {
    let now: i128 = 1_700_000_000_000_000_000;
    let cutoff = log_cutoff(now).unwrap();
    assert_eq!(cutoff, now - 7 * 24 * 60 * 60 * 1_000_000_000);
    assert_eq!(LOG_RETENTION_NANOS, now - cutoff);
    assert_eq!(log_cutoff(i128::MIN), None);
    let name = "puppy_find.log.2024-01-01";
    assert!(is_old_log(true, name, Some(cutoff - 1), cutoff));
    assert!(!is_old_log(true, name, Some(cutoff), cutoff));
    assert!(!is_old_log(true, name, None, cutoff));
    assert!(!is_old_log(false, name, Some(0), cutoff));
    assert!(!is_old_log(true, "other.log", Some(0), cutoff));
    assert_eq!(workspace_of("/opt/app/puppy_find").as_deref(), Some("/opt/app"));
    assert_eq!(workspace_of("/"), None);
}

#[test]
fn saved_settings_are_in_sync() {
    let state = state();
    let other = changed_settings(&settings(), "/m".to_owned(), "/pics".to_owned());
    let signature = index_model_signature("/w", &other);
    assert_eq!(signature.as_deref(), Some("/m"));
    let plan = plan_settings(&state, other, signature.as_deref());
    assert!(matches!(&plan.changes[1], DbChange::SetSignature(s) if s == "/m"));
    let sync = sync_runtime_model_index(&state, Some("/m".to_owned()), 0, signature.as_deref());
    assert!(sync.changes.is_empty());
    assert!(!sync.sync.index_cleared);
    let mut blank = settings();
    blank.model_path = "".to_owned();
    assert_eq!(index_model_signature("/w", &blank), None);
}
