//! The settings of the application and the environment file that keeps them.

use vstd::prelude::*;

use crate::paths;
use crate::paths::{join_path, parent_path, resolve_path, EntryKind};
use crate::text;
use crate::text::{decimal_text, is_text, parse_number, to_chars, to_lower, to_text, trim};

verus! {

// ---------------------------------------------------------------------------
// Errors
// ---------------------------------------------------------------------------

/// Why a setting was refused.
#[derive(Clone, Debug, PartialEq, Eq)]
pub enum ConfigError {
    /// The database path is blank.
    EmptyDbPath,
    /// The database path names a directory.
    DbPathIsDirectory(String),
    /// What should hold the database file is not a directory.
    DbParentNotDirectory(String),
    /// The number of threads is not a number.
    InvalidIntraThreads,
    /// The number of threads is zero.
    ZeroIntraThreads,
    /// The device is unknown.
    InvalidDevice,
    /// The provider policy is unknown.
    InvalidProviderPolicy,
    /// The number of patches is not one that the model takes.
    UnsupportedMaxPatches,
}

impl ConfigError {
    /// The message of the error.
    pub open spec fn text(&self) -> Seq<char> {
        match self {
            ConfigError::EmptyDbPath => "数据库文件位置不能为空"@,
            ConfigError::DbPathIsDirectory(path) => "数据库文件位置不能是目录: "@ + path@,
            ConfigError::DbParentNotDirectory(path) => "数据库文件父路径不是目录: "@ + path@,
            ConfigError::InvalidIntraThreads => "failed to parse OMNI_INTRA_THREADS"@,
            ConfigError::ZeroIntraThreads => "OMNI_INTRA_THREADS 必须大于 0"@,
            ConfigError::InvalidDevice => "OMNI_DEVICE 必须是 auto、cpu 或 gpu"@,
            ConfigError::InvalidProviderPolicy =>
                "OMNI_PROVIDER_POLICY 必须是 auto、interactive 或 service"@,
            ConfigError::UnsupportedMaxPatches =>
                "OMNI_FGCLIP_MAX_PATCHES 必须是 128、256、576、784 或 1024"@,
        }
    }

    /// The message of the error.
    pub fn message(&self) -> (r: String)
        ensures
            r@ == self.text(),
    {
        match self {
            ConfigError::EmptyDbPath => "数据库文件位置不能为空".to_owned(),
            ConfigError::DbPathIsDirectory(path) => {
                let head = "数据库文件位置不能是目录: ".to_owned();
                head.concat(path.as_str())
            },
            ConfigError::DbParentNotDirectory(path) => {
                let head = "数据库文件父路径不是目录: ".to_owned();
                head.concat(path.as_str())
            },
            ConfigError::InvalidIntraThreads => "failed to parse OMNI_INTRA_THREADS".to_owned(),
            ConfigError::ZeroIntraThreads => "OMNI_INTRA_THREADS 必须大于 0".to_owned(),
            ConfigError::InvalidDevice => "OMNI_DEVICE 必须是 auto、cpu 或 gpu".to_owned(),
            ConfigError::InvalidProviderPolicy =>
                "OMNI_PROVIDER_POLICY 必须是 auto、interactive 或 service".to_owned(),
            ConfigError::UnsupportedMaxPatches =>
                "OMNI_FGCLIP_MAX_PATCHES 必须是 128、256、576、784 或 1024".to_owned(),
        }
    }
}

// ---------------------------------------------------------------------------
// Runtime settings
// ---------------------------------------------------------------------------

/// Where the model runs.
#[derive(Clone, Copy, Debug, PartialEq, Eq, Structural)]
pub enum RuntimeDevice {
    Auto,
    Cpu,
    Gpu,
}

/// What the choice of an execution provider aims at.
#[derive(Clone, Copy, Debug, PartialEq, Eq, Structural)]
pub enum ProviderPolicy {
    Auto,
    Interactive,
    Service,
}

/// How many threads one operator of the model may use.
#[derive(Clone, Copy, Debug, PartialEq, Eq, Structural)]
pub enum OmniIntraThreads {
    Auto,
    Fixed(usize),
}

impl RuntimeDevice {
    /// The name of the device.
    pub open spec fn name(self) -> Seq<char> {
        match self {
            RuntimeDevice::Auto => "auto"@,
            RuntimeDevice::Cpu => "cpu"@,
            RuntimeDevice::Gpu => "gpu"@,
        }
    }

    /// The name of the device.
    pub fn as_text(self) -> (r: String)
        ensures
            r@ == self.name(),
    {
        match self {
            RuntimeDevice::Auto => "auto".to_owned(),
            RuntimeDevice::Cpu => "cpu".to_owned(),
            RuntimeDevice::Gpu => "gpu".to_owned(),
        }
    }
}

impl ProviderPolicy {
    /// The name of the policy.
    pub open spec fn name(self) -> Seq<char> {
        match self {
            ProviderPolicy::Auto => "auto"@,
            ProviderPolicy::Interactive => "interactive"@,
            ProviderPolicy::Service => "service"@,
        }
    }

    /// The name of the policy.
    pub fn as_text(self) -> (r: String)
        ensures
            r@ == self.name(),
    {
        match self {
            ProviderPolicy::Auto => "auto".to_owned(),
            ProviderPolicy::Interactive => "interactive".to_owned(),
            ProviderPolicy::Service => "service".to_owned(),
        }
    }
}

/// The device that a text names, in any case and with white space around it.
pub open spec fn device_named(s: Seq<char>) -> Option<RuntimeDevice> {
    let t = text::lowered(text::trimmed(s));
    if t == "auto"@ {
        Some(RuntimeDevice::Auto)
    } else if t == "cpu"@ {
        Some(RuntimeDevice::Cpu)
    } else if t == "gpu"@ {
        Some(RuntimeDevice::Gpu)
    } else {
        None
    }
}

/// The policy that a text names, in any case and with white space around it.
pub open spec fn policy_named(s: Seq<char>) -> Option<ProviderPolicy> {
    let t = text::lowered(text::trimmed(s));
    if t == "auto"@ {
        Some(ProviderPolicy::Auto)
    } else if t == "interactive"@ {
        Some(ProviderPolicy::Interactive)
    } else if t == "service"@ {
        Some(ProviderPolicy::Service)
    } else {
        None
    }
}

/// Reads the name of a device.
pub fn parse_runtime_device(value: &[char]) -> (r: Result<RuntimeDevice, ConfigError>)
    ensures
        match device_named(value@) {
            Some(d) => r == Ok::<RuntimeDevice, ConfigError>(d),
            None => r == Err::<RuntimeDevice, ConfigError>(ConfigError::InvalidDevice),
        },
{
    let t = to_lower(trim(value));
    if is_text(t.as_slice(), "auto") {
        Ok(RuntimeDevice::Auto)
    } else if is_text(t.as_slice(), "cpu") {
        Ok(RuntimeDevice::Cpu)
    } else if is_text(t.as_slice(), "gpu") {
        Ok(RuntimeDevice::Gpu)
    } else {
        Err(ConfigError::InvalidDevice)
    }
}

/// Reads the name of a policy.
pub fn parse_provider_policy(value: &[char]) -> (r: Result<ProviderPolicy, ConfigError>)
    ensures
        match policy_named(value@) {
            Some(p) => r == Ok::<ProviderPolicy, ConfigError>(p),
            None => r == Err::<ProviderPolicy, ConfigError>(ConfigError::InvalidProviderPolicy),
        },
{
    let t = to_lower(trim(value));
    if is_text(t.as_slice(), "auto") {
        Ok(ProviderPolicy::Auto)
    } else if is_text(t.as_slice(), "interactive") {
        Ok(ProviderPolicy::Interactive)
    } else if is_text(t.as_slice(), "service") {
        Ok(ProviderPolicy::Service)
    } else {
        Err(ConfigError::InvalidProviderPolicy)
    }
}

/// Accepts every number of threads but zero.
pub fn validate_omni_intra_threads(value: usize) -> (r: Result<usize, ConfigError>)
    ensures
        r == if value == 0 {
            Err::<usize, ConfigError>(ConfigError::ZeroIntraThreads)
        } else {
            Ok::<usize, ConfigError>(value)
        },
{
    if value == 0 {
        return Err(ConfigError::ZeroIntraThreads);
    }
    Ok(value)
}

/// Whether the model takes this number of patches.
pub open spec fn is_supported_patches(value: usize) -> bool {
    value == 128 || value == 256 || value == 576 || value == 784 || value == 1024
}

/// Accepts the numbers of patches that the model takes.
pub fn validate_omni_fgclip_max_patches(value: usize) -> (r: Result<usize, ConfigError>)
    ensures
        r == if is_supported_patches(value) {
            Ok::<usize, ConfigError>(value)
        } else {
            Err::<usize, ConfigError>(ConfigError::UnsupportedMaxPatches)
        },
{
    if value == 128 || value == 256 || value == 576 || value == 784 || value == 1024 {
        Ok(value)
    } else {
        Err(ConfigError::UnsupportedMaxPatches)
    }
}

/// The number of threads that a text asks for: `auto`, in any case and with white space
/// around it, or a number other than zero.
pub open spec fn threads_named(s: Seq<char>) -> Result<OmniIntraThreads, ConfigError> {
    if text::lowered(text::trimmed(s)) == "auto"@ {
        Ok(OmniIntraThreads::Auto)
    } else {
        match text::parsed_number(s, usize::MAX as nat) {
            Some(n) => if n == 0 {
                Err(ConfigError::ZeroIntraThreads)
            } else {
                Ok(OmniIntraThreads::Fixed(n as usize))
            },
            None => Err(ConfigError::InvalidIntraThreads),
        }
    }
}

/// Reads a number of threads.
pub fn parse_omni_intra_threads(value: &[char]) -> (r: Result<OmniIntraThreads, ConfigError>)
    ensures
        r == threads_named(value@),
{
    let t = to_lower(trim(value));
    if is_text(t.as_slice(), "auto") {
        return Ok(OmniIntraThreads::Auto);
    }
    match parse_number(value, usize::MAX) {
        Some(n) => match validate_omni_intra_threads(n) {
            Ok(n) => Ok(OmniIntraThreads::Fixed(n)),
            Err(error) => Err(error),
        },
        None => Err(ConfigError::InvalidIntraThreads),
    }
}

/// A number of threads as a document may give it: as text or as a number.
#[derive(Clone, Debug)]
pub enum IntraThreadsRepr {
    Text(String),
    Number(usize),
}

impl OmniIntraThreads {
    /// The text that stands for the number of threads.
    pub open spec fn env_text(self) -> Seq<char> {
        match self {
            OmniIntraThreads::Auto => "auto"@,
            OmniIntraThreads::Fixed(n) => text::decimal(n as nat),
        }
    }

    /// The number of threads to use. What `Auto` stands for depends on the machine, and is
    /// one at least.
    pub fn resolved(&self) -> (r: usize)
        ensures
            match self {
                OmniIntraThreads::Auto => r >= 1,
                OmniIntraThreads::Fixed(n) => r == n,
            },
    {
        match self {
            OmniIntraThreads::Auto => omni_search::default_intra_threads(),
            OmniIntraThreads::Fixed(value) => *value,
        }
    }

    /// The text that stands for the number of threads in an environment file.
    pub fn as_env_value(&self) -> (r: String)
        ensures
            r@ == self.env_text(),
    {
        match self {
            OmniIntraThreads::Auto => "auto".to_owned(),
            OmniIntraThreads::Fixed(value) => decimal_text(*value),
        }
    }

    /// Reads a number of threads.
    pub fn from_str(value: &str) -> (r: Result<Self, ConfigError>)
        ensures
            r == threads_named(value@),
    {
        let cs = to_chars(value);
        parse_omni_intra_threads(cs.as_slice())
    }

    /// Takes a number of threads as a document gives it.
    pub fn from_repr(repr: IntraThreadsRepr) -> (r: Result<Self, ConfigError>)
        ensures
            match repr {
                IntraThreadsRepr::Text(t) => r == threads_named(t@),
                IntraThreadsRepr::Number(n) => r == if n == 0 {
                    Err::<OmniIntraThreads, ConfigError>(ConfigError::ZeroIntraThreads)
                } else {
                    Ok::<OmniIntraThreads, ConfigError>(OmniIntraThreads::Fixed(n))
                },
            },
    {
        match repr {
            IntraThreadsRepr::Text(value) => OmniIntraThreads::from_str(value.as_str()),
            IntraThreadsRepr::Number(value) => match validate_omni_intra_threads(value) {
                Ok(n) => Ok(OmniIntraThreads::Fixed(n)),
                Err(error) => Err(error),
            },
        }
    }
}

impl Default for OmniIntraThreads {
    fn default() -> (r: Self)
        ensures
            r == OmniIntraThreads::Auto,
    {
        OmniIntraThreads::Auto
    }
}

// ---------------------------------------------------------------------------
// Settings
// ---------------------------------------------------------------------------

/// The settings of the application.
#[derive(Debug, PartialEq, Eq)]
pub struct AppSettings {
    pub db_path: String,
    pub model_path: String,
    pub omni_device: RuntimeDevice,
    pub omni_provider_policy: ProviderPolicy,
    pub omni_intra_threads: OmniIntraThreads,
    pub omni_fgclip_max_patches: usize,
    pub host: String,
    pub port: u16,
    pub asset_dir: String,
    pub log_dir: String,
}

/// What settings say.
pub struct Settings {
    pub db_path: Seq<char>,
    pub model_path: Seq<char>,
    pub omni_device: RuntimeDevice,
    pub omni_provider_policy: ProviderPolicy,
    pub omni_intra_threads: OmniIntraThreads,
    pub omni_fgclip_max_patches: usize,
    pub host: Seq<char>,
    pub port: u16,
    pub asset_dir: Seq<char>,
    pub log_dir: Seq<char>,
}

impl View for AppSettings {
    type V = Settings;

    open spec fn view(&self) -> Settings {
        Settings {
            db_path: self.db_path@,
            model_path: self.model_path@,
            omni_device: self.omni_device,
            omni_provider_policy: self.omni_provider_policy,
            omni_intra_threads: self.omni_intra_threads,
            omni_fgclip_max_patches: self.omni_fgclip_max_patches,
            host: self.host@,
            port: self.port,
            asset_dir: self.asset_dir@,
            log_dir: self.log_dir@,
        }
    }
}

impl Clone for AppSettings {
    fn clone(&self) -> (r: Self)
        ensures
            r@ == self@,
    {
        AppSettings {
            db_path: self.db_path.clone(),
            model_path: self.model_path.clone(),
            omni_device: self.omni_device,
            omni_provider_policy: self.omni_provider_policy,
            omni_intra_threads: self.omni_intra_threads,
            omni_fgclip_max_patches: self.omni_fgclip_max_patches,
            host: self.host.clone(),
            port: self.port,
            asset_dir: self.asset_dir.clone(),
            log_dir: self.log_dir.clone(),
        }
    }
}

/// The default settings, with `asset_dir` for the directory of the images.
pub open spec fn default_settings(asset_dir: Seq<char>) -> Settings {
    Settings {
        db_path: "./config/puppy_find.db"@,
        model_path: "./config/model"@,
        omni_device: RuntimeDevice::Auto,
        omni_provider_policy: ProviderPolicy::Interactive,
        omni_intra_threads: OmniIntraThreads::Auto,
        omni_fgclip_max_patches: 256,
        host: "127.0.0.1"@,
        port: 3000,
        asset_dir,
        log_dir: "./config/log"@,
    }
}

/// The directory of the images, where nothing was set: the pictures directory, else
/// `Pictures` in the home directory, else `./images`.
pub open spec fn chosen_asset_dir(pictures: Option<Seq<char>>, home: Option<Seq<char>>) -> Seq<
    char,
> {
    match (pictures, home) {
        (Some(p), _) => p,
        (None, Some(h)) => paths::joined(h, "Pictures"@),
        (None, None) => "./images"@,
    }
}

/// The directory of the images for a user with these directories, where nothing was set.
pub fn default_asset_dir(pictures: Option<String>, home: Option<String>) -> (r: String)
    ensures
        r@ == chosen_asset_dir(text::of_string(pictures), text::of_string(home)),
{
    match pictures {
        Some(dir) => dir,
        None => match home {
            Some(dir) => join_path(dir.as_str(), "Pictures"),
            None => "./images".to_owned(),
        },
    }
}

impl AppSettings {
    /// The default settings, with `asset_dir` for the directory of the images.
    pub fn defaults_with(asset_dir: String) -> (r: Self)
        ensures
            r@ == default_settings(asset_dir@),
    {
        AppSettings {
            db_path: "./config/puppy_find.db".to_owned(),
            model_path: "./config/model".to_owned(),
            omni_device: RuntimeDevice::Auto,
            omni_provider_policy: ProviderPolicy::Interactive,
            omni_intra_threads: OmniIntraThreads::Auto,
            omni_fgclip_max_patches: 256,
            host: "127.0.0.1".to_owned(),
            port: 3000,
            asset_dir,
            log_dir: "./config/log".to_owned(),
        }
    }

    /// The default settings for a user with these directories.
    pub fn defaults(pictures: Option<String>, home: Option<String>) -> (r: Self)
        ensures
            r@ == default_settings(
                chosen_asset_dir(text::of_string(pictures), text::of_string(home)),
            ),
    {
        AppSettings::defaults_with(default_asset_dir(pictures, home))
    }

    /// The number of threads to use.
    pub fn resolved_omni_intra_threads(&self) -> (r: usize)
        ensures
            match self.omni_intra_threads {
                OmniIntraThreads::Auto => r >= 1,
                OmniIntraThreads::Fixed(n) => r == n,
            },
    {
        self.omni_intra_threads.resolved()
    }
}

/// Whether the model or the directory of the images is still to be set.
pub fn needs_setup(settings: &AppSettings) -> (r: bool)
    ensures
        r == (text::trimmed(settings.model_path@).len() == 0 || text::trimmed(
            settings.asset_dir@,
        ).len() == 0),
{
    is_blank(settings.model_path.as_str()) || is_blank(settings.asset_dir.as_str())
}

/// Whether a text is nothing but white space.
pub fn is_blank(s: &str) -> (r: bool)
    ensures
        r == (text::trimmed(s@).len() == 0),
{
    let cs = to_chars(s);
    trim(cs.as_slice()).len() == 0
}

/// A text without white space at either end.
pub fn trim_text(s: &str) -> (r: String)
    ensures
        r@ == text::trimmed(s@),
{
    let cs = to_chars(s);
    to_text(trim(cs.as_slice()))
}

// ---------------------------------------------------------------------------
// Places in the workspace
// ---------------------------------------------------------------------------

/// The directory of the configuration.
pub fn config_dir_path(workspace_dir: &str) -> (r: String)
    ensures
        r@ == paths::joined(workspace_dir@, "config"@),
{
    join_path(workspace_dir, "config")
}

/// Where an environment file lies if it lies in the workspace itself.
pub fn root_env_path(workspace_dir: &str) -> (r: String)
    ensures
        r@ == paths::joined(workspace_dir@, ".env"@),
{
    join_path(workspace_dir, ".env")
}

/// The environment file: the one in the workspace itself where there is one, else the one in
/// the directory of the configuration.
pub fn env_path(workspace_dir: &str, root_env_is_file: bool) -> (r: String)
    ensures
        r@ == if root_env_is_file {
            paths::joined(workspace_dir@, ".env"@)
        } else {
            paths::joined(paths::joined(workspace_dir@, "config"@), ".env"@)
        },
{
    if root_env_is_file {
        root_env_path(workspace_dir)
    } else {
        let dir = config_dir_path(workspace_dir);
        join_path(dir.as_str(), ".env")
    }
}

/// The directories that a workspace has from the beginning: those of the model and of the
/// logs, where the defaults put them.
pub fn default_layout(workspace_dir: &str) -> (r: Vec<String>)
    ensures
        paths::strings(r@) == seq![
            paths::resolved(workspace_dir@, "./config/model"@),
            paths::resolved(workspace_dir@, "./config/log"@),
        ],
{
    let mut r: Vec<String> = Vec::new();
    r.push(resolve_path(workspace_dir, "./config/model"));
    r.push(resolve_path(workspace_dir, "./config/log"));
    assert(paths::strings(r@) =~= seq![
        paths::resolved(workspace_dir@, "./config/model"@),
        paths::resolved(workspace_dir@, "./config/log"@),
    ]);
    r
}

/// The place of the database file, and of the directory that is to hold it.
pub struct DbPlace {
    pub path: String,
    pub parent: Option<String>,
}

/// The directory that is to hold the file at the path `path`, unless that is the place where
/// the process runs.
pub open spec fn holding_dir(path: Seq<char>) -> Option<Seq<char>> {
    match paths::parent_text(path) {
        Some(p) => if p.len() > 0 {
            Some(p)
        } else {
            None
        },
        None => None,
    }
}

/// The place of the database file for the setting `value`.
pub fn db_place(workspace_dir: &str, value: &str) -> (r: Result<DbPlace, ConfigError>)
    ensures
        match r {
            Ok(place) => {
                &&& text::trimmed(value@).len() > 0
                &&& place.path@ == paths::resolved(workspace_dir@, text::trimmed(value@))
                &&& match place.parent {
                    Some(p) => holding_dir(place.path@) == Some(p@),
                    None => holding_dir(place.path@) is None,
                }
            },
            Err(e) => text::trimmed(value@).len() == 0 && e == ConfigError::EmptyDbPath,
        },
{
    let trimmed = trim_text(value);
    if trimmed.as_str().is_empty() {
        return Err(ConfigError::EmptyDbPath);
    }
    let path = resolve_path(workspace_dir, trimmed.as_str());
    let parent = match parent_path(path.as_str()) {
        Some(p) => if p.as_str().is_empty() {
            None
        } else {
            Some(p)
        },
        None => None,
    };
    Ok(DbPlace { path, parent })
}

/// Accepts the setting `value` for the database file, where `path_kind` is what its path names
/// on disk and `parent_kind` what the directory that is to hold it names. The path must not
/// name a directory, and what is to hold it must be a directory if it exists. The setting is
/// accepted as it was written, without the white space around it.
pub fn validate_db_path(
    workspace_dir: &str,
    value: &str,
    path_kind: EntryKind,
    parent_kind: EntryKind,
) -> (r: Result<String, ConfigError>)
    ensures
        ({
            let trimmed = text::trimmed(value@);
            let path = paths::resolved(workspace_dir@, trimmed);
            if trimmed.len() == 0 {
                r matches Err(e) && e == ConfigError::EmptyDbPath
            } else if path_kind == EntryKind::Directory {
                r matches Err(ConfigError::DbPathIsDirectory(p)) && p@ == path
            } else if holding_dir(path) is Some && parent_kind != EntryKind::Missing
                && parent_kind != EntryKind::Directory {
                r matches Err(ConfigError::DbParentNotDirectory(p)) && p@ == holding_dir(path)->0
            } else {
                r matches Ok(v) && v@ == trimmed
            }
        }),
{
    let place = match db_place(workspace_dir, value) {
        Ok(place) => place,
        Err(error) => return Err(error),
    };
    if path_kind == EntryKind::Directory {
        return Err(ConfigError::DbPathIsDirectory(place.path));
    }
    if let Some(parent) = place.parent {
        if parent_kind != EntryKind::Missing && parent_kind != EntryKind::Directory {
            return Err(ConfigError::DbParentNotDirectory(parent));
        }
    }
    Ok(trim_text(value))
}

} // verus!
