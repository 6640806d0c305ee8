//! The state of the application: its settings, what the indexing is doing, and
//! which model is loaded.

use vstd::prelude::*;

use crate::config::AppSettings;
use crate::model::ModelManager;
use crate::paths;
use crate::paths::resolve_path;
use crate::text;
use crate::text::clone_opt;

verus! {

/// What the indexing is doing.
#[derive(Debug)]
pub struct IndexStatus {
    /// Whether a run is under way.
    pub running: bool,
    /// How many images the index holds.
    pub indexed: usize,
    /// How many images there are.
    pub total: usize,
    /// How many of them the run has dealt with.
    pub processed: usize,
    /// The image that the run is dealing with.
    pub current_file: Option<String>,
    /// What went wrong in the last run.
    pub error: Option<String>,
}

/// What an index status says.
pub struct Status {
    pub running: bool,
    pub indexed: usize,
    pub total: usize,
    pub processed: usize,
    pub current_file: Option<Seq<char>>,
    pub error: Option<Seq<char>>,
}

impl View for IndexStatus {
    type V = Status;

    open spec fn view(&self) -> Status {
        Status {
            running: self.running,
            indexed: self.indexed,
            total: self.total,
            processed: self.processed,
            current_file: text::of_string(self.current_file),
            error: text::of_string(self.error),
        }
    }
}

impl Clone for IndexStatus {
    fn clone(&self) -> (r: Self)
        ensures
            r@ == self@,
    {
        IndexStatus {
            running: self.running,
            indexed: self.indexed,
            total: self.total,
            processed: self.processed,
            current_file: clone_opt(&self.current_file),
            error: clone_opt(&self.error),
        }
    }
}

/// The status of an index in which nothing has happened.
pub open spec fn idle_status(indexed: usize) -> Status {
    Status {
        running: false,
        indexed,
        total: 0,
        processed: 0,
        current_file: None,
        error: None,
    }
}

impl Default for IndexStatus {
    fn default() -> (r: Self)
        ensures
            r@ == idle_status(0),
    {
        IndexStatus {
            running: false,
            indexed: 0,
            total: 0,
            processed: 0,
            current_file: None,
            error: None,
        }
    }
}

/// The state of the application.
#[derive(Debug)]
pub struct AppState {
    pub workspace_dir: String,
    pub settings: AppSettings,
    pub index_status: IndexStatus,
    pub model_manager: ModelManager,
}

/// The status of a run that has just started on `total` images.
pub open spec fn started(before: Status, total: usize) -> Status {
    Status {
        running: true,
        indexed: before.indexed,
        total,
        processed: 0,
        current_file: None,
        error: None,
    }
}

/// The status after a run that ended with `error`.
pub open spec fn finished(before: Status, error: Option<Seq<char>>) -> Status {
    Status { running: false, current_file: None, error, ..before }
}

impl AppState {
    /// The state at the start, when the index holds `indexed` images.
    pub fn new(workspace_dir: String, settings: AppSettings, indexed: usize) -> (r: Self)
        ensures
            r.workspace_dir@ == workspace_dir@,
            r.settings@ == settings@,
            r.index_status@ == idle_status(indexed),
            r.model_manager@ is None,
    {
        let mut index_status = IndexStatus::default();
        index_status.indexed = indexed;
        AppState { workspace_dir, settings, index_status, model_manager: ModelManager::new() }
    }

    /// The directory that relative settings are relative to.
    pub fn workspace_dir(&self) -> (r: &str)
        ensures
            r@ == self.workspace_dir@,
    {
        self.workspace_dir.as_str()
    }

    /// The database file.
    pub fn db_path(&self) -> (r: String)
        ensures
            r@ == paths::resolved(self.workspace_dir@, self.settings.db_path@),
    {
        resolve_path(self.workspace_dir.as_str(), self.settings.db_path.as_str())
    }

    /// The settings.
    pub fn settings(&self) -> (r: AppSettings)
        ensures
            r@ == self.settings@,
    {
        self.settings.clone()
    }

    /// Puts other settings in place.
    pub fn replace_settings(&mut self, settings: AppSettings)
        ensures
            final(self).settings == settings,
            final(self).workspace_dir == old(self).workspace_dir,
            final(self).index_status == old(self).index_status,
            final(self).model_manager == old(self).model_manager,
    {
        self.settings = settings;
    }

    /// Which model is loaded.
    pub fn model_manager(&self) -> (r: &ModelManager)
        ensures
            *r == self.model_manager,
    {
        &self.model_manager
    }

    /// What the indexing is doing.
    pub fn index_status(&self) -> (r: IndexStatus)
        ensures
            r@ == self.index_status@,
    {
        self.index_status.clone()
    }

    /// Puts what `update` makes of the index status in its place.
    pub fn update_index_status<F: FnOnce(IndexStatus) -> IndexStatus>(&mut self, update: F)
        requires
            forall|s: IndexStatus| s@ == old(self).index_status@ ==> update.requires((s,)),
        ensures
            exists|s: IndexStatus|
                s@ == old(self).index_status@ && update.ensures((s,), final(self).index_status),
            final(self).workspace_dir == old(self).workspace_dir,
            final(self).settings == old(self).settings,
            final(self).model_manager == old(self).model_manager,
    {
        let status = self.index_status.clone();
        self.index_status = update(status);
    }

    /// Starts a run on `total` images, unless one is under way.
    pub fn try_start_indexing(&mut self, total: usize) -> (r: bool)
        ensures
            r == !old(self).index_status.running,
            r ==> final(self).index_status@ == started(old(self).index_status@, total),
            !r ==> *final(self) == *old(self),
            final(self).workspace_dir == old(self).workspace_dir,
            final(self).settings == old(self).settings,
            final(self).model_manager == old(self).model_manager,
    {
        if self.index_status.running {
            return false;
        }
        let indexed = self.index_status.indexed;
        self.index_status = IndexStatus {
            running: true,
            indexed,
            total,
            processed: 0,
            current_file: None,
            error: None,
        };
        true
    }

    /// Ends the run.
    pub fn finish_indexing(&mut self, error: Option<String>)
        ensures
            final(self).index_status@ == finished(old(self).index_status@, text::of_string(error)),
            final(self).workspace_dir == old(self).workspace_dir,
            final(self).settings == old(self).settings,
            final(self).model_manager == old(self).model_manager,
    {
        self.index_status.running = false;
        self.index_status.current_file = None;
        self.index_status.error = error;
    }
}

/// A run that has started keeps every other one from starting until it is finished.
pub proof fn law_one_run_at_a_time(before: Status, total: usize, error: Option<Seq<char>>)
    ensures
        started(before, total).running,
        !finished(started(before, total), error).running,
        finished(started(before, total), error).indexed == before.indexed,
{
}

} // verus!
