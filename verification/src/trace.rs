//! What the steps of a run come to, from its beginning to its end.

use vstd::prelude::*;

#[allow(unused_imports)]
use crate::app_state::Status;
use crate::db;
#[allow(unused_imports)]
use crate::db::{DbChange, ImageRow, Index, NewImageRecord};
use crate::indexer;
#[allow(unused_imports)]
use crate::indexer::{FileEntry, IndexAction, IndexRun};
use crate::paths;

verus! {

/// The course of a run: the run, the index status and the index before each file and after the
/// last, and for each file the row that was written and what was said of its failure, if there
/// was such a thing.
pub struct Trace {
    pub runs: Seq<IndexRun>,
    pub statuses: Seq<Status>,
    pub indexes: Seq<Index>,
    pub rows: Seq<Option<ImageRow>>,
    pub failures: Seq<Option<Seq<char>>>,
}

impl Trace {
    /// The files of the run.
    pub open spec fn files(&self) -> Seq<FileEntry> {
        self.runs[0].files@
    }

    /// What the index knew when the run began.
    pub open spec fn known(&self) -> Map<Seq<char>, db::Snapshot> {
        self.runs[0].existing@
    }

    /// Whether the file number `i` was dealt with as its run says: skipped, or put into the
    /// index, or noted as a failure; and then finished.
    pub open spec fn is_step(&self, i: int) -> bool {
        let run = self.runs[i];
        &&& self.runs[i + 1].follows(run, self.failures[i])
        &&& self.statuses[i + 1] == (Status {
            current_file: Some(run.key()),
            processed: indexer::one_more(self.statuses[i].processed),
            ..self.statuses[i]
        })
        &&& match run.next_action() {
            IndexAction::Finish => false,
            IndexAction::Skip => {
                &&& self.rows[i] is None
                &&& self.failures[i] is None
                &&& self.indexes[i + 1] == self.indexes[i]
            },
            IndexAction::Embed => match self.rows[i] {
                Some(row) => {
                    &&& indexer::is_row_of(row, run.files@[run.next as int])
                    &&& self.failures[i] is None
                    &&& self.indexes[i + 1] == DbChange::Upsert(row).effect(self.indexes[i])
                },
                None => {
                    &&& self.failures[i] is Some
                    &&& self.indexes[i + 1] == self.indexes[i]
                },
            },
        }
    }

    /// Whether this is the course of a run from its beginning, when it was announced, up to the
    /// point where nothing is left to be done.
    pub open spec fn is_complete(&self) -> bool {
        let n = self.failures.len();
        &&& self.runs.len() == n + 1
        &&& self.statuses.len() == n + 1
        &&& self.indexes.len() == n + 1
        &&& self.rows.len() == n
        &&& self.runs[0].is_new()
        &&& self.statuses[0].total == self.files().len()
        &&& self.statuses[0].processed == 0
        &&& forall|i: int| 0 <= i < n ==> #[trigger] self.is_step(i)
        &&& self.runs[n as int].next_action() == IndexAction::Finish
    }
}

/// How many of the files failed.
pub open spec fn failure_count(failures: Seq<Option<Seq<char>>>) -> nat
    decreases failures.len(),
{
    if failures.len() == 0 {
        0
    } else {
        failure_count(failures.drop_last()) + if failures.last() is Some {
            1nat
        } else {
            0nat
        }
    }
}

/// What is said of the failures, one after another.
pub open spec fn failure_texts(
    files: Seq<FileEntry>,
    failures: Seq<Option<Seq<char>>>,
) -> Seq<Seq<char>>
    decreases failures.len(),
{
    if failures.len() == 0 {
        Seq::empty()
    } else {
        let before = failure_texts(files, failures.drop_last());
        match failures.last() {
            Some(error) => before.push(
                indexer::index_key(files[failures.len() - 1].path@) + ": "@ + error,
            ),
            None => before,
        }
    }
}

/// The first three of some texts.
pub open spec fn first_three(texts: Seq<Seq<char>>) -> Seq<Seq<char>> {
    if texts.len() <= 3 {
        texts
    } else {
        texts.take(3)
    }
}

proof fn lemma_place(t: Trace, i: int)
    requires
        t.is_complete(),
        0 <= i < t.runs.len(),
    ensures
        t.runs[i].next == i,
        t.runs[i].files == t.runs[0].files,
        t.runs[i].existing == t.runs[0].existing,
        i <= t.files().len(),
        t.statuses[i].total == t.statuses[0].total,
        t.statuses[i].processed == i,
    decreases i,
{
    let n = t.files().len();
    assert(t.runs[0].files.len() <= usize::MAX);
    if i > 0 {
        lemma_place(t, i - 1);
        assert(t.is_step(i - 1));
        if i - 1 == n {
            assert(t.runs[i - 1].next_action() == IndexAction::Finish);
        }
        assert(i <= n);
        assert(t.statuses[i - 1].processed < usize::MAX);
    }
}

/// A run deals with every file, each of them once and in order: a file that is as the index
/// knew it is skipped, every other one is to be embedded.
pub proof fn law_every_file_has_its_turn(t: Trace, i: int)
    requires
        t.is_complete(),
        0 <= i < t.files().len(),
    ensures
        t.failures.len() == t.files().len(),
        t.runs[i].next == i,
        t.runs[i].next_action() == if indexer::is_unchanged(t.known(), t.files()[i]) {
            IndexAction::Skip
        } else {
            IndexAction::Embed
        },
        t.failures[i] is Some ==> !indexer::is_unchanged(t.known(), t.files()[i]) && t.rows[i] is None,
{
    let n = t.failures.len() as int;
    lemma_place(t, n);
    lemma_place(t, i);
    assert(t.is_step(i));
}

/// At the end of a run every file has been counted, and as many files are noted as failed as
/// failed; the first three of them are reported.
pub proof fn law_run_counts_up(t: Trace)
    requires
        t.is_complete(),
    ensures
        t.failures.len() == t.files().len(),
        t.statuses.last().processed == t.files().len(),
        t.statuses.last().processed == t.statuses.last().total,
        t.runs.last().failed_count == failure_count(t.failures),
        paths::strings(t.runs.last().failure_samples@) == first_three(
            failure_texts(t.files(), t.failures),
        ),
{
    let n = t.failures.len() as int;
    lemma_place(t, n);
    lemma_failures(t, n);
    assert(t.failures.take(n) =~= t.failures);
}

proof fn lemma_failures(t: Trace, i: int)
    requires
        t.is_complete(),
        0 <= i <= t.failures.len(),
    ensures
        t.runs[i].failed_count == failure_count(t.failures.take(i)),
        failure_texts(t.files(), t.failures.take(i)).len() == failure_count(t.failures.take(i)),
        paths::strings(t.runs[i].failure_samples@) == first_three(
            failure_texts(t.files(), t.failures.take(i)),
        ),
    decreases i,
{
    if i == 0 {
        assert(paths::strings(t.runs[0].failure_samples@) =~= Seq::empty());
    } else {
        let k = i - 1;
        lemma_failures(t, k);
        lemma_place(t, k);
        assert(t.is_step(k));
        assert(t.failures.take(i).drop_last() =~= t.failures.take(k));
        assert(t.failures.take(i).last() == t.failures[k]);
        let before = failure_texts(t.files(), t.failures.take(k));
        let after = failure_texts(t.files(), t.failures.take(i));
        if let Some(error) = t.failures[k] {
            let said = t.runs[k].key() + ": "@ + error;
            assert(after == before.push(said));
            if before.len() < 3 {
                assert(first_three(after) =~= first_three(before).push(said));
            } else {
                assert(first_three(after) =~= first_three(before));
            }
        }
    }
}

/// The steps of a run, one after another, make of the index what `written` says.
pub proof fn law_steps_yield_written(t: Trace)
    requires
        t.is_complete(),
    ensures
        t.failures.len() == t.files().len(),
        t.indexes.last() == indexer::written(t.indexes[0], t.known(), t.files(), t.rows),
{
    let n = t.failures.len() as int;
    lemma_place(t, n);
    lemma_indexes(t, n);
    assert(t.files().take(n) =~= t.files());
    assert(t.rows.take(n) =~= t.rows);
}

proof fn lemma_indexes(t: Trace, i: int)
    requires
        t.is_complete(),
        0 <= i <= t.failures.len(),
    ensures
        t.indexes[i] == indexer::written(
            t.indexes[0],
            t.known(),
            t.files().take(i),
            t.rows.take(i),
        ),
    decreases i,
{
    if i > 0 {
        let k = i - 1;
        lemma_indexes(t, k);
        lemma_place(t, k);
        lemma_place(t, i);
        assert(t.is_step(k));
        assert(t.files().take(i).drop_last() =~= t.files().take(k));
        assert(t.rows.take(i).drop_last() =~= t.rows.take(k));
        assert(t.files().take(i).last() == t.files()[k]);
        assert(t.rows.take(i).last() == t.rows[k]);
    }
}

/// Taking the images whose files are gone out of the index at the end of the steps gives what
/// `after_run` says.
pub proof fn law_steps_yield_after_run(t: Trace, removed: Seq<Seq<char>>)
    requires
        t.is_complete(),
        forall|p: Seq<char>|
            #[trigger] removed.contains(p) == (t.known().contains_key(p) && !indexer::index_keys(
                t.files(),
            ).contains(p)),
    ensures
        (Index {
            images: t.indexes.last().images.remove_keys(removed.to_set()),
            signature: t.indexes.last().signature,
        }) == indexer::after_run(t.indexes[0], t.known(), t.files(), t.rows),
{
    law_steps_yield_written(t);
    indexer::law_removals_complete_run(t.indexes[0], t.known(), t.files(), t.rows, removed);
}

/// The rows that a run writes are those of its files. In a run in which nothing failed, every
/// file that had to be embedded was.
pub proof fn law_rows_are_those_of_files(t: Trace)
    requires
        t.is_complete(),
    ensures
        indexer::are_rows_of(t.rows, t.files()),
        failure_count(t.failures) == 0 ==> indexer::all_embedded(t.known(), t.files(), t.rows),
{
    let n = t.failures.len() as int;
    lemma_place(t, n);
    assert forall|i: int| 0 <= i < t.rows.len() && (#[trigger] t.rows[i]) is Some implies
        indexer::is_row_of(t.rows[i]->0, t.files()[i]) by {
        lemma_place(t, i);
        assert(t.is_step(i));
    }
    if failure_count(t.failures) == 0 {
        assert forall|i: int| 0 <= i < t.files().len() implies indexer::is_unchanged(
            t.known(),
            #[trigger] t.files()[i],
        ) || t.rows[i] is Some by {
            lemma_place(t, i);
            assert(t.is_step(i));
            lemma_no_failure(t.failures, i);
        }
    }
}

proof fn lemma_no_failure(failures: Seq<Option<Seq<char>>>, i: int)
    requires
        failure_count(failures) == 0,
        0 <= i < failures.len(),
    ensures
        failures[i] is None,
    decreases failures.len(),
{
    if i < failures.len() - 1 {
        lemma_no_failure(failures.drop_last(), i);
    }
}

/// The row that is written for the record of a file is one for that file.
pub proof fn law_record_gives_row(
    file: FileEntry,
    vector: Seq<u32>,
    record: NewImageRecord,
    row: ImageRow,
    now: Seq<char>,
)
    requires
        indexer::is_record_of(record, file, vector),
        db::is_row_for(row, record, now),
    ensures
        indexer::is_row_of(row, file),
        row.vector_blob@ == db::encoded(vector),
        row.dims == vector.len(),
{
}

} // verus!
