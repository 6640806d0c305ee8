use puppy_find::config::{
    config_dir_path, db_place, default_asset_dir, default_layout, env_path,
    needs_setup, parse_provider_policy, parse_runtime_device, root_env_path, validate_db_path,
    validate_omni_fgclip_max_patches, validate_omni_intra_threads, AppSettings, ConfigError,
    IntraThreadsRepr, OmniIntraThreads, ProviderPolicy, RuntimeDevice,
};
use puppy_find::env::{parse_env, parse_env_value, quote_env_value};
use puppy_find::env_file::{load_or_create, load_settings, render_known_line, save};
use puppy_find::paths::{resolve_path, EntryKind};

fn chars(s: &str) -> Vec<char> {
    s.chars().collect()
}

fn defaults() -> AppSettings {
    AppSettings::defaults_with("/home/ada/Pictures".to_owned())
}

#[test]
fn resolve_path_normalizes_relative_segments() {
    let left = resolve_path("/tmp/work", "./images");
    let right = resolve_path("/tmp/work", "images");
    assert_eq!(left, right);
    assert_eq!(left, "/tmp/work/images");
}

#[test]
fn validate_db_path_preserves_relative_input() {
    let validated =
        validate_db_path("/tmp/work", "./data/app.db", EntryKind::Missing, EntryKind::Missing)
            .unwrap();
    assert_eq!(validated, "./data/app.db");
}

#[test]
fn load_or_create_writes_env_under_config_directory() {
    let workspace_dir = "/tmp/work";
    let pictures = || Some("/home/ada/Pictures".to_owned());
    let loaded = load_or_create(None, pictures(), None);
    let settings = loaded.settings;
    let env_text = loaded.rewrite.unwrap();

    assert_eq!(settings.db_path, "./config/puppy_find.db");
    assert_eq!(settings.model_path, "./config/model");
    assert_eq!(settings.asset_dir, default_asset_dir(pictures(), None));
    assert_eq!(settings.asset_dir, "/home/ada/Pictures");
    assert_eq!(settings.log_dir, "./config/log");
    assert_eq!(settings.omni_device, RuntimeDevice::Auto);
    assert_eq!(settings.omni_provider_policy, ProviderPolicy::Interactive);
    assert_eq!(settings.omni_intra_threads, OmniIntraThreads::Auto);
    assert_eq!(
        default_layout(workspace_dir),
        vec!["/tmp/work/config/model".to_owned(), "/tmp/work/config/log".to_owned()]
    );
    assert_eq!(env_path(workspace_dir, false), "/tmp/work/config/.env");
    assert!(env_text.contains("DB_PATH=\"./config/puppy_find.db\""));
    assert!(env_text.contains("MODEL_PATH=\"./config/model\""));
    assert!(env_text.contains("OMNI_DEVICE=\"auto\""));
    assert!(env_text.contains("OMNI_PROVIDER_POLICY=\"interactive\""));
    assert!(env_text.contains(&format!("ASSET_DIR={}", quote_env_value(&settings.asset_dir))));
    assert!(env_text.contains("LOG_DIR=\"./config/log\""));
}

#[test]
fn load_or_create_prefers_root_env_when_present() {
    let workspace_dir = "/tmp/work";
    let text = "DB_PATH=\"./legacy.db\"\nMODEL_PATH=\"./legacy-model\"\nOMNI_DEVICE=\"gpu\"\nOMNI_PROVIDER_POLICY=\"service\"\nOMNI_INTRA_THREADS=auto\nOMNI_FGCLIP_MAX_PATCHES=576\nHOST=\"0.0.0.0\"\nPORT=4000\nASSET_DIR=\"./legacy-assets\"\nLOG_DIR=\"./legacy-log\"\n";
    let loaded = load_or_create(Some(text), None, None);
    let settings = loaded.settings;

    assert_eq!(settings.db_path, "./legacy.db");
    assert_eq!(settings.model_path, "./legacy-model");
    assert_eq!(settings.omni_device, RuntimeDevice::Gpu);
    assert_eq!(settings.omni_provider_policy, ProviderPolicy::Service);
    assert_eq!(settings.omni_intra_threads, OmniIntraThreads::Auto);
    assert_eq!(settings.omni_fgclip_max_patches, 576);
    assert_eq!(settings.host, "0.0.0.0");
    assert_eq!(settings.port, 4000);
    assert_eq!(settings.asset_dir, "./legacy-assets");
    assert_eq!(settings.log_dir, "./legacy-log");
    assert_eq!(env_path(workspace_dir, true), "/tmp/work/.env");
    assert_eq!(root_env_path(workspace_dir), "/tmp/work/.env");
    assert_eq!(config_dir_path(workspace_dir), "/tmp/work/config");
    assert!(loaded.rewrite.is_none());
    let root_env = save(Some(text), &settings);
    assert!(root_env.contains("DB_PATH=\"./legacy.db\""));
    assert!(root_env.contains("OMNI_DEVICE=\"gpu\""));
    assert!(root_env.contains("OMNI_PROVIDER_POLICY=\"service\""));
    assert!(root_env.contains("OMNI_INTRA_THREADS=auto"));
    assert!(root_env.contains("LOG_DIR=\"./legacy-log\""));
    assert_eq!(root_env, text);
}

#[test]
fn save_preserves_auto_intra_threads_literal() {
    let loaded = load_or_create(None, None, None);
    let mut settings = loaded.settings;
    settings.omni_intra_threads = OmniIntraThreads::Auto;
    let env_text = save(loaded.rewrite.as_deref(), &settings);
    assert!(env_text.contains("OMNI_INTRA_THREADS=auto"));
}

#[test]
fn new_file_has_header_and_all_keys_in_order() {
    let text = save(None, &defaults());
    assert_eq!(
        text,
        "# PuppyFind local configuration\nDB_PATH=\"./config/puppy_find.db\"\nMODEL_PATH=\"./config/model\"\nOMNI_DEVICE=\"auto\"\nOMNI_PROVIDER_POLICY=\"interactive\"\nOMNI_INTRA_THREADS=auto\nOMNI_FGCLIP_MAX_PATCHES=256\nHOST=\"127.0.0.1\"\nPORT=3000\nASSET_DIR=\"/home/ada/Pictures\"\nLOG_DIR=\"./config/log\"\n"
    );
}

#[test]
fn saving_keeps_foreign_lines_and_drops_legacy_and_repeated_ones() {
    let text = "# mine\n\nexport PORT=1\nCOLOR=blue\nPORT=2\nMODEL_DIR=x\nIMAGE_DIR=y\njust text";
    let saved = save(Some(text), &defaults());
    assert_eq!(
        saved,
        "# mine\n\nPORT=3000\nCOLOR=blue\njust text\nDB_PATH=\"./config/puppy_find.db\"\nMODEL_PATH=\"./config/model\"\nOMNI_DEVICE=\"auto\"\nOMNI_PROVIDER_POLICY=\"interactive\"\nOMNI_INTRA_THREADS=auto\nOMNI_FGCLIP_MAX_PATCHES=256\nHOST=\"127.0.0.1\"\nASSET_DIR=\"/home/ada/Pictures\"\nLOG_DIR=\"./config/log\"\n"
    );
    assert_eq!(save(Some(&saved), &defaults()), saved);
}

#[test]
fn saved_settings_are_loaded() {
    let mut settings = defaults();
    settings.db_path = " odd \"path\"\\ \n\r\t'x' ".to_owned();
    settings.model_path = "".to_owned();
    settings.omni_device = RuntimeDevice::Cpu;
    settings.omni_provider_policy = ProviderPolicy::Auto;
    settings.omni_intra_threads = OmniIntraThreads::Fixed(12);
    settings.omni_fgclip_max_patches = 1024;
    settings.host = "::1".to_owned();
    settings.port = 65535;
    let text = save(Some("# kept\nPORT=1\n"), &settings);
    let loaded = load_settings(Some(&text), &defaults());
    assert_eq!(loaded.settings, settings);
    assert!(loaded.rewrite.is_none());
}

#[test]
fn legacy_keys_and_wrong_values_are_mended() {
    let text = "MODEL_DIR='old model'\nIMAGE_DIR=\"pics\"\nOMNI_DEVICE=tpu\nOMNI_PROVIDER_POLICY=x\nOMNI_INTRA_THREADS=0\nOMNI_FGCLIP_MAX_PATCHES=77\nHOST=\"  \"\nPORT=70000\n";
    let loaded = load_settings(Some(text), &defaults());
    assert_eq!(loaded.settings.model_path, "old model");
    assert_eq!(loaded.settings.asset_dir, "pics");
    assert_eq!(loaded.settings.omni_device, RuntimeDevice::Auto);
    assert_eq!(loaded.settings.omni_provider_policy, ProviderPolicy::Interactive);
    assert_eq!(loaded.settings.omni_intra_threads, OmniIntraThreads::Auto);
    assert_eq!(loaded.settings.omni_fgclip_max_patches, 256);
    assert_eq!(loaded.settings.host, "127.0.0.1");
    assert_eq!(loaded.settings.port, 3000);
    let file = loaded.rewrite.unwrap();
    assert!(!file.contains("MODEL_DIR"));
    assert!(!file.contains("IMAGE_DIR"));
    let again = load_settings(Some(&file), &AppSettings::defaults_with("other".to_owned()));
    assert_eq!(again.settings, loaded.settings);
    assert!(again.rewrite.is_none());
}

#[test]
fn threads_are_parsed() {
    assert_eq!(OmniIntraThreads::from_str(" AUTO "), Ok(OmniIntraThreads::Auto));
    assert_eq!(OmniIntraThreads::from_str("+8"), Ok(OmniIntraThreads::Fixed(8)));
    assert_eq!(OmniIntraThreads::from_str("0"), Err(ConfigError::ZeroIntraThreads));
    assert_eq!(OmniIntraThreads::from_str(" 8"), Err(ConfigError::InvalidIntraThreads));
    assert_eq!(
        OmniIntraThreads::from_repr(IntraThreadsRepr::Number(3)),
        Ok(OmniIntraThreads::Fixed(3))
    );
    assert_eq!(
        OmniIntraThreads::from_repr(IntraThreadsRepr::Text("auto".to_owned())),
        Ok(OmniIntraThreads::Auto)
    );
    assert_eq!(
        OmniIntraThreads::from_repr(IntraThreadsRepr::Number(0)),
        Err(ConfigError::ZeroIntraThreads)
    );
    assert_eq!(OmniIntraThreads::Fixed(10).as_env_value(), "10");
    assert_eq!(OmniIntraThreads::default(), OmniIntraThreads::Auto);
}

#[test]
fn automatic_threads_are_at_least_one() {
    assert_eq!(OmniIntraThreads::Auto.resolved(), omni_search::default_intra_threads());
    assert!(defaults().resolved_omni_intra_threads() >= 1);
    assert_eq!(OmniIntraThreads::Fixed(7).resolved(), 7);
}

#[test]
fn names_of_devices_and_policies_are_parsed() {
    assert_eq!(parse_runtime_device(&chars(" GPU ")), Ok(RuntimeDevice::Gpu));
    assert_eq!(parse_runtime_device(&chars("npu")), Err(ConfigError::InvalidDevice));
    assert_eq!(parse_provider_policy(&chars("Service")), Ok(ProviderPolicy::Service));
    assert_eq!(parse_provider_policy(&chars("")), Err(ConfigError::InvalidProviderPolicy));
}

#[test]
fn numbers_are_validated() {
    assert_eq!(validate_omni_intra_threads(4), Ok(4));
    assert_eq!(
        validate_omni_intra_threads(0).unwrap_err().message(),
        "OMNI_INTRA_THREADS 必须大于 0"
    );
    for n in [128, 256, 576, 784, 1024] {
        assert_eq!(validate_omni_fgclip_max_patches(n), Ok(n));
    }
    assert_eq!(
        validate_omni_fgclip_max_patches(129).unwrap_err().message(),
        "OMNI_FGCLIP_MAX_PATCHES 必须是 128、256、576、784 或 1024"
    );
}

#[test]
fn db_paths_are_refused_with_a_reason() {
    let dir = EntryKind::Directory;
    let file = EntryKind::File;
    let missing = EntryKind::Missing;
    assert_eq!(
        validate_db_path("/w", "  ", missing, missing).unwrap_err().message(),
        "数据库文件位置不能为空"
    );
    assert_eq!(
        validate_db_path("/w", "data", dir, dir).unwrap_err().message(),
        "数据库文件位置不能是目录: /w/data"
    );
    assert_eq!(
        validate_db_path("/w", " a/b.db ", missing, file).unwrap_err().message(),
        "数据库文件父路径不是目录: /w/a"
    );
    assert_eq!(validate_db_path("/w", " a/b.db ", file, dir), Ok("a/b.db".to_owned()));
    let place = db_place("/w", "../x/b.db").unwrap();
    assert_eq!(place.path, "/x/b.db");
    assert_eq!(place.parent, Some("/x".to_owned()));
}

#[test]
fn error_messages_are_exact() {
    assert_eq!(ConfigError::InvalidIntraThreads.message(), "failed to parse OMNI_INTRA_THREADS");
    assert_eq!(ConfigError::InvalidDevice.message(), "OMNI_DEVICE 必须是 auto、cpu 或 gpu");
    assert_eq!(
        ConfigError::InvalidProviderPolicy.message(),
        "OMNI_PROVIDER_POLICY 必须是 auto、interactive 或 service"
    );
}

#[test]
fn asset_dir_falls_back_step_by_step() {
    assert_eq!(default_asset_dir(Some("/p".to_owned()), Some("/h".to_owned())), "/p");
    assert_eq!(default_asset_dir(None, Some("/h".to_owned())), "/h/Pictures");
    assert_eq!(default_asset_dir(None, None), "./images");
}

#[test]
fn defaults_use_the_directories_of_the_user() {
    let home = || Some("/home/ada/".to_owned());
    assert_eq!(AppSettings::defaults(None, home()).asset_dir, "/home/ada/Pictures");
    assert_eq!(AppSettings::defaults(Some("/p".to_owned()), home()).asset_dir, "/p");
    assert_eq!(AppSettings::defaults(None, None).asset_dir, "./images");
    assert_eq!(load_or_create(Some("PORT=1\n"), None, home()).settings.asset_dir, "/home/ada/Pictures");
    assert_eq!(load_or_create(Some("ASSET_DIR=x\n"), None, home()).settings.asset_dir, "x");
}

#[test]
fn a_saved_file_has_one_line_for_each_key() {
    let text = "PORT=1\nexport PORT=2\n PORT = 3\nMODEL_DIR=a\nHOST=h\nHOST=i\nIMAGE_DIR=b\n";
    let saved = save(Some(text), &defaults());
    for key in [
        "DB_PATH",
        "MODEL_PATH",
        "OMNI_DEVICE",
        "OMNI_PROVIDER_POLICY",
        "OMNI_INTRA_THREADS",
        "OMNI_FGCLIP_MAX_PATCHES",
        "HOST",
        "PORT",
        "ASSET_DIR",
        "LOG_DIR",
    ] {
        let start = format!("{key}=");
        assert_eq!(saved.lines().filter(|line| line.starts_with(&start)).count(), 1);
    }
    assert_eq!(saved.lines().count(), 10);
}

#[test]
fn saving_keeps_the_values_of_foreign_keys() {
    let text = "COLOR=red\r\nexport SIZE = \"a b\"\nMODEL_DIR=m\nCOLOR='blue'\r";
    let before = parse_env(text);
    let after = parse_env(&save(Some(text), &defaults()));
    for key in ["COLOR", "SIZE", "SHAPE"] {
        assert_eq!(after.get(key), before.get(key));
    }
    assert_eq!(after.get("COLOR"), Some("blue".to_owned()));
    assert_eq!(after.get("MODEL_DIR"), None);
}

#[test]
fn setup_is_needed_while_a_path_is_blank() {
    let mut settings = defaults();
    assert!(!needs_setup(&settings));
    settings.model_path = " \t".to_owned();
    assert!(needs_setup(&settings));
    settings.model_path = "m".to_owned();
    settings.asset_dir = "".to_owned();
    assert!(needs_setup(&settings));
}

#[test]
fn values_are_quoted_and_unquoted() {
    assert_eq!(quote_env_value("a\"b\\c\nd\re\tf"), "\"a\\\"b\\\\c\\nd\\re\\tf\"");
    let back: String =
        parse_env_value(&chars("\"a\\\"b\\\\c\\nd\\re\\tf\\x\\\"")).into_iter().collect();
    assert_eq!(back, "a\"b\\c\nd\re\tfx\\");
    let single: String = parse_env_value(&chars("'a\\n'")).into_iter().collect();
    assert_eq!(single, "a\\n");
    let lone: String = parse_env_value(&chars("\"")).into_iter().collect();
    assert_eq!(lone, "\"");
}

#[test]
fn environment_text_is_parsed() {
    let values = parse_env("# c\nA=1\n export B = \"x=y\" \r\nno assignment\nA=2\n");
    assert_eq!(values.get("A"), Some("2".to_owned()));
    assert_eq!(values.get("B"), Some("x=y".to_owned()));
    assert_eq!(values.get("C"), None);
}

#[test]
fn lines_of_known_keys_are_rendered() {
    let settings = defaults();
    assert_eq!(render_known_line("PORT", &settings), Some("PORT=3000".to_owned()));
    assert_eq!(render_known_line("HOST", &settings), Some("HOST=\"127.0.0.1\"".to_owned()));
    assert_eq!(render_known_line("MODEL_DIR", &settings), None);
}
