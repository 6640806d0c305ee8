//! Directories of models and images, and which model is loaded.

use vstd::prelude::*;

use crate::config::{is_blank, AppSettings};
#[allow(unused_imports)]
use crate::config::Settings;
use crate::paths;
use crate::paths::{join_path, path_to_string, resolved_path_key, same_path, EntryKind};
use crate::text;
use crate::text::to_chars;

verus! {

// ---------------------------------------------------------------------------
// Directories
// ---------------------------------------------------------------------------

/// Why a directory was refused.
#[derive(Clone, Debug, PartialEq, Eq)]
pub enum DirError {
    /// The setting is empty. It holds what the directory is for.
    Empty(String),
    /// The setting is relative, and there is nothing that it could be relative to.
    NoCurrentDir,
    /// Nothing has that name. It holds what the directory is for, and the path.
    Missing(String, String),
    /// What has that name is not a directory. It holds what it is for, and the path.
    NotDirectory(String, String),
}

impl DirError {
    /// The message of the error.
    pub open spec fn text(&self) -> Seq<char> {
        match self {
            DirError::Empty(label) => label@ + "不能为空"@,
            DirError::NoCurrentDir => "failed to read current directory"@,
            DirError::Missing(label, path) => label@ + "不存在: "@ + path@,
            DirError::NotDirectory(label, path) => label@ + "不是目录: "@ + path@,
        }
    }

    /// The message of the error.
    pub fn message(&self) -> (r: String)
        ensures
            r@ == self.text(),
    {
        match self {
            DirError::Empty(label) => label.clone().concat("不能为空"),
            DirError::NoCurrentDir => "failed to read current directory".to_owned(),
            DirError::Missing(label, path) => label.clone().concat("不存在: ").concat(
                path.as_str(),
            ),
            DirError::NotDirectory(label, path) => label.clone().concat("不是目录: ").concat(
                path.as_str(),
            ),
        }
    }
}

/// Whether a path starts at the root.
pub fn is_absolute_path(path: &str) -> (r: bool)
    ensures
        r == paths::is_absolute(path@),
{
    let cs = to_chars(path);
    cs.len() > 0 && cs[0] == '/'
}

/// The absolute path of the directory `path`, which is relative to `base_dir` if it is
/// relative. `label` says what the directory is for.
pub fn normalize_dir_path(base_dir: Option<&str>, path: &str, label: &str) -> (r: Result<
    String,
    DirError,
>)
    ensures
        if path@.len() == 0 {
            r matches Err(DirError::Empty(l)) && l@ == label@
        } else if paths::is_absolute(path@) {
            r matches Ok(p) && p@ == path@
        } else {
            match base_dir {
                Some(base) => r matches Ok(p) && p@ == paths::joined(base@, path@),
                None => r matches Err(e) && e == DirError::NoCurrentDir,
            }
        },
{
    if path.is_empty() {
        return Err(DirError::Empty(label.to_owned()));
    }
    if is_absolute_path(path) {
        return Ok(path.to_owned());
    }
    match base_dir {
        Some(base) => Ok(join_path(base, path)),
        None => Err(DirError::NoCurrentDir),
    }
}

/// What `normalize_dir_path` gives where it gives a path.
pub open spec fn dir_path(base_dir: Option<&str>, path: Seq<char>) -> Option<Seq<char>> {
    if path.len() == 0 {
        None
    } else if paths::is_absolute(path) {
        Some(path)
    } else {
        match base_dir {
            Some(base) => Some(paths::joined(base@, path)),
            None => None,
        }
    }
}

/// The absolute path of the directory `path`, where `kind` is what that path names on disk.
pub fn normalize_existing_dir(
    base_dir: Option<&str>,
    path: &str,
    label: &str,
    kind: EntryKind,
) -> (r: Result<String, DirError>)
    ensures
        match dir_path(base_dir, path@) {
            Some(p) => if kind == EntryKind::Missing {
                r matches Err(DirError::Missing(l, q)) && l@ == label@ && q@ == p
            } else if kind != EntryKind::Directory {
                r matches Err(DirError::NotDirectory(l, q)) && l@ == label@ && q@ == p
            } else {
                r matches Ok(q) && q@ == p
            },
            None => if path@.len() == 0 {
                r matches Err(DirError::Empty(l)) && l@ == label@
            } else {
                r matches Err(e) && e == DirError::NoCurrentDir
            },
        },
{
    let absolute = match normalize_dir_path(base_dir, path, label) {
        Ok(p) => p,
        Err(error) => return Err(error),
    };
    if kind == EntryKind::Missing {
        return Err(DirError::Missing(label.to_owned(), absolute));
    }
    if kind != EntryKind::Directory {
        return Err(DirError::NotDirectory(label.to_owned(), absolute));
    }
    Ok(absolute)
}

/// Accepts a directory for the images, which need not exist yet.
pub fn validate_asset_dir(base_dir: Option<&str>, path: &str) -> (r: Result<String, DirError>)
    ensures
        match dir_path(base_dir, path@) {
            Some(p) => r matches Ok(q) && q@ == text::replaced(p, '\\', '/'),
            None => if path@.len() == 0 {
                r matches Err(DirError::Empty(l)) && l@ == "素材目录"@
            } else {
                r matches Err(e) && e == DirError::NoCurrentDir
            },
        },
{
    match normalize_dir_path(base_dir, path, "素材目录") {
        Ok(p) => Ok(path_to_string(p.as_str())),
        Err(error) => Err(error),
    }
}

/// Accepts a directory for the images, which must exist; `kind` is what its path names on disk.
pub fn validate_existing_asset_dir(base_dir: Option<&str>, path: &str, kind: EntryKind) -> (r:
    Result<String, DirError>)
    ensures
        match dir_path(base_dir, path@) {
            Some(p) => if kind == EntryKind::Missing {
                r matches Err(DirError::Missing(l, q)) && l@ == "素材目录"@ && q@ == p
            } else if kind != EntryKind::Directory {
                r matches Err(DirError::NotDirectory(l, q)) && l@ == "素材目录"@ && q@ == p
            } else {
                r matches Ok(q) && q@ == text::replaced(p, '\\', '/')
            },
            None => if path@.len() == 0 {
                r matches Err(DirError::Empty(l)) && l@ == "素材目录"@
            } else {
                r matches Err(e) && e == DirError::NoCurrentDir
            },
        },
{
    match normalize_existing_dir(base_dir, path, "素材目录", kind) {
        Ok(p) => Ok(path_to_string(p.as_str())),
        Err(error) => Err(error),
    }
}

// ---------------------------------------------------------------------------
// Models
// ---------------------------------------------------------------------------

/// What a look at a model directory found.
#[derive(Clone, Debug)]
pub struct ModelProbe {
    /// Whether the directory holds a model bundle.
    pub ok: bool,
    /// The directory.
    pub normalized_path: String,
    /// What is wrong with it, where that is known.
    pub error: Option<String>,
}

/// Why a model directory was refused.
#[derive(Clone, Debug, PartialEq, Eq)]
pub enum ModelError {
    /// It does not hold a model bundle. It holds what is wrong.
    NotBundle(String),
    /// The bundle cannot be loaded. It holds the directory.
    NotLoadable(String),
}

impl ModelError {
    /// The message of the error.
    pub open spec fn text(&self) -> Seq<char> {
        match self {
            ModelError::NotBundle(message) => message@,
            ModelError::NotLoadable(path) => "failed to load model bundle from "@ + path@,
        }
    }

    /// The message of the error.
    pub fn message(&self) -> (r: String)
        ensures
            r@ == self.text(),
    {
        match self {
            ModelError::NotBundle(message) => message.clone(),
            ModelError::NotLoadable(path) => {
                let head = "failed to load model bundle from ".to_owned();
                head.concat(path.as_str())
            },
        }
    }
}

/// Accepts a model directory by what was found in it.
pub fn check_model_probe(probe: &ModelProbe) -> (r: Result<(), ModelError>)
    ensures
        if probe.ok {
            r is Ok
        } else {
            r matches Err(ModelError::NotBundle(m)) && m@ == match probe.error {
                Some(e) => e@,
                None => "模型目录不是有效的 omni_search bundle"@,
            }
        },
{
    if probe.ok {
        return Ok(());
    }
    match &probe.error {
        Some(message) => Err(ModelError::NotBundle(message.clone())),
        None => Err(
            ModelError::NotBundle("模型目录不是有效的 omni_search bundle".to_owned()),
        ),
    }
}

/// Accepts a model directory by what was found in it and by whether its bundle could be loaded.
pub fn validate_model_dir(probe: &ModelProbe, loadable: bool) -> (r: Result<String, ModelError>)
    ensures
        if !probe.ok {
            r matches Err(ModelError::NotBundle(m)) && m@ == match probe.error {
                Some(e) => e@,
                None => "模型目录不是有效的 omni_search bundle"@,
            }
        } else if !loadable {
            r matches Err(ModelError::NotLoadable(p)) && p@ == probe.normalized_path@
        } else {
            r matches Ok(p) && p@ == text::replaced(probe.normalized_path@, '\\', '/')
        },
{
    match check_model_probe(probe) {
        Ok(()) => {},
        Err(error) => return Err(error),
    }
    if !loadable {
        return Err(ModelError::NotLoadable(probe.normalized_path.clone()));
    }
    Ok(path_to_string(probe.normalized_path.as_str()))
}

/// The signature of the model that settings name, by which it is seen whether the images of the
/// index belong to it: where its directory lies. Settings that name no model have none.
pub open spec fn signature_of(workspace: Seq<char>, s: Settings) -> Option<Seq<char>> {
    if text::trimmed(s.model_path).len() == 0 {
        None
    } else {
        Some(paths::path_key(workspace, s.model_path))
    }
}

/// The signature of the model that the settings name.
pub fn index_model_signature(workspace_dir: &str, settings: &AppSettings) -> (r: Option<String>)
    ensures
        text::of_string(r) == signature_of(workspace_dir@, settings@),
{
    if is_blank(settings.model_path.as_str()) {
        None
    } else {
        Some(resolved_path_key(workspace_dir, settings.model_path.as_str()))
    }
}

/// What is to be done before a model can be used.
#[derive(Clone, Copy, Debug, PartialEq, Eq, Structural)]
pub enum ModelPlan {
    /// The model that is loaded is the right one.
    Reuse,
    /// The model has to be loaded.
    Load,
}

/// Which model is loaded: the directory it came from, or none.
#[derive(Debug)]
pub struct ModelManager {
    model_dir: Option<String>,
}

impl View for ModelManager {
    type V = Option<Seq<char>>;

    closed spec fn view(&self) -> Option<Seq<char>> {
        match self.model_dir {
            Some(dir) => Some(dir@),
            None => None,
        }
    }
}

impl ModelManager {
    /// No model is loaded.
    pub fn new() -> (r: Self)
        ensures
            r@ is None,
    {
        ModelManager { model_dir: None }
    }

    /// What is to be done before the model in `model_dir` can be used.
    pub fn with_model(&self, model_dir: &str) -> (r: ModelPlan)
        ensures
            r == if self@ is Some && paths::components(self@->0) == paths::components(model_dir@) {
                ModelPlan::Reuse
            } else {
                ModelPlan::Load
            },
    {
        match &self.model_dir {
            Some(dir) => if same_path(dir.as_str(), model_dir) {
                ModelPlan::Reuse
            } else {
                ModelPlan::Load
            },
            None => ModelPlan::Load,
        }
    }

    /// The model in `model_dir` was loaded, in place of the one before. A model that failed to
    /// load leaves things as they were.
    pub fn loaded(&mut self, model_dir: String)
        ensures
            final(self)@ == Some(model_dir@),
    {
        self.model_dir = Some(model_dir);
    }

    /// Drops the model.
    pub fn clear(&mut self)
        ensures
            final(self)@ is None,
    {
        self.model_dir = None;
    }
}

impl Default for ModelManager {
    fn default() -> (r: Self)
        ensures
            r@ is None,
    {
        ModelManager::new()
    }
}

/// The message for a text that could not be embedded.
pub fn embed_text_error(cause: &str) -> (r: String)
    ensures
        r@ == "failed to embed text: "@ + cause@,
{
    let head = "failed to embed text: ".to_owned();
    head.concat(cause)
}

/// The message for an image that could not be embedded.
pub fn embed_image_error(image_path: &str, cause: &str) -> (r: String)
    ensures
        r@ == "failed to embed image "@ + image_path@ + ": "@ + cause@,
{
    let head = "failed to embed image ".to_owned();
    head.concat(image_path).concat(": ").concat(cause)
}

} // verus!
