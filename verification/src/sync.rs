//! One synchronization pass, task by task. The engine decides; the caller
//! performs. For each task the caller reports what is on disk, hands over
//! the fetched submissions, and receives the exact directories to ensure
//! and files to write. Re-running a pass is safe: what exists already is
//! never planned again unless forced.

use vstd::prelude::*;

use crate::archive::{archive_plan, archive_plan_spec, all_ts_ok, covered, plan_has_path,
    strings_set, sub_path_spec, SubmissionFile, sub_files_view};
use crate::materialize::{files_plan_spec, plan_task_files, writes_view, FileWrite,
    opt_content_view};
use crate::model::{CoreError, RawSubmission, Task};
use crate::paths::{lang_wf, make_task_path, readme_path, submissions_dir_path, task_dir_spec,
    task_file_spec};
use crate::text::{dec_spec, dec_u64};
use crate::archive::lemma_archive_idempotent;
use crate::archive::lemma_archive_covers;
use crate::materialize::lemma_materialize_idempotent;

verus! {

/// What the caller found on disk for one task before the pass.
#[derive(Debug)]
pub struct TaskLocalState {
    /// Whether the starter file exists.
    pub starter_exists: bool,
    /// The current README content, `None` when the file does not exist.
    pub readme: Option<String>,
    /// The paths already present under the task's `submissions` directory.
    pub existing_submissions: Vec<String>,
}

/// Everything one task needs done on disk for this pass.
#[derive(Debug)]
pub struct TaskSyncPlan {
    /// The task directory to ensure, always.
    pub task_dir: String,
    /// The `submissions` directory to ensure, when submissions are synced.
    pub submissions_dir: Option<String>,
    /// Starter file and README writes.
    pub files: Vec<FileWrite>,
    /// New submission content files and metadata sidecars, in this order:
    /// for each entry the content file is written before its sidecar.
    pub submission_files: Vec<SubmissionFile>,
}

/// Plans one task of a sync pass: the directories to ensure and the files
/// to write, given what is already on disk. Fails exactly when the task's
/// language tag cannot name a file, or — when submissions are synced — a
/// submission timestamp cannot be normalized.
pub fn sync_task_step(
    task: &Task,
    root: &str,
    force: bool,
    with_submissions: bool,
    local: &TaskLocalState,
    submissions: &Vec<RawSubmission>,
) -> (r: Result<TaskSyncPlan, CoreError>)
    ensures
        r is Ok <==> lang_wf(task.lang@) && (with_submissions ==> all_ts_ok(submissions@)),
        r is Err ==> r->Err_0 == if lang_wf(task.lang@) {
            CoreError::Decode
        } else {
            CoreError::InvalidPath
        },
        r is Ok ==> r->Ok_0.task_dir@ == task_dir_spec(
            root@,
            task.order_by as nat,
            task.task_description.shortname@,
        ),
        r is Ok ==> writes_view(r->Ok_0.files@) == files_plan_spec(
            *task,
            task_file_spec(
                root@,
                task.order_by as nat,
                task.task_description.shortname@,
                task.taskid as nat,
                task.lang@,
            ),
            task_dir_spec(root@, task.order_by as nat, task.task_description.shortname@)
                + "/README.md"@,
            force,
            local.starter_exists,
            opt_content_view(local.readme),
        ),
        r is Ok && with_submissions ==> r->Ok_0.submissions_dir is Some && (
        r->Ok_0.submissions_dir->0)@ == task_dir_spec(
            root@,
            task.order_by as nat,
            task.task_description.shortname@,
        ) + "/submissions"@ && sub_files_view(r->Ok_0.submission_files@) == archive_plan_spec(
            task_dir_spec(root@, task.order_by as nat, task.task_description.shortname@)
                + "/submissions"@,
            task.lang@,
            submissions@,
            strings_set(local.existing_submissions@),
        ),
        r is Ok && !with_submissions ==> r->Ok_0.submissions_dir is None
            && r->Ok_0.submission_files@.len() == 0,
{
    let (task_dir, task_file) = match make_task_path(task, root) {
        Ok(p) => p,
        Err(e) => {
            return Err(e);
        },
    };
    let readme_file = readme_path(task_dir.as_str());
    let files = plan_task_files(
        task,
        task_file.as_str(),
        readme_file.as_str(),
        force,
        local.starter_exists,
        &local.readme,
    );
    if with_submissions {
        let subdir = submissions_dir_path(task_dir.as_str());
        let submission_files = match archive_plan(
            subdir.as_str(),
            task.lang.as_str(),
            submissions,
            &local.existing_submissions,
        ) {
            Ok(p) => p,
            Err(e) => {
                return Err(e);
            },
        };
        Ok(
            TaskSyncPlan {
                task_dir,
                submissions_dir: Some(subdir),
                files,
                submission_files,
            },
        )
    } else {
        Ok(
            TaskSyncPlan {
                task_dir,
                submissions_dir: None,
                files,
                submission_files: Vec::new(),
            },
        )
    }
}

/// What one finished pass reports: how many tasks were materialized, how
/// many new submission pairs archived, and which tasks failed with what.
#[derive(Debug)]
pub struct SyncReport {
    pub materialized: usize,
    pub archived: usize,
    pub failed: Vec<(u64, CoreError)>,
}

impl SyncReport {
    /// A report with nothing counted yet.
    pub fn new() -> (r: SyncReport)
        ensures
            r.materialized == 0,
            r.archived == 0,
            r.failed@.len() == 0,
    {
        SyncReport { materialized: 0, archived: 0, failed: Vec::new() }
    }

    /// Counts one task materialized and its newly archived pairs.
    pub fn record_success(&mut self, archived_now: usize)
        requires
            old(self).materialized < usize::MAX,
            old(self).archived + archived_now <= usize::MAX,
        ensures
            final(self).materialized == old(self).materialized + 1,
            final(self).archived == old(self).archived + archived_now,
            final(self).failed == old(self).failed,
    {
        self.materialized = self.materialized + 1;
        self.archived = self.archived + archived_now;
    }

    /// Records one failed task; the pass goes on with the others.
    pub fn record_failure(&mut self, taskid: u64, err: CoreError)
        ensures
            final(self).failed@ == old(self).failed@.push((taskid, err)),
            final(self).materialized == old(self).materialized,
            final(self).archived == old(self).archived,
    {
        self.failed.push((taskid, err));
    }
}

/// The task-list endpoint of a course.
pub fn tasks_url(host: &str, course: &str) -> (r: String)
    ensures
        r@ == host@ + "/api/courses/"@ + course@ + "/tasks"@,
{
    let mut u = String::new();
    u.append(host);
    u.append("/api/courses/");
    u.append(course);
    u.append("/tasks");
    proof {
        assert(u@ =~= host@ + "/api/courses/"@ + course@ + "/tasks"@);
    }
    u
}

/// The submission-history endpoint of one task.
pub fn submissions_url(host: &str, course: &str, task_id: u64) -> (r: String)
    ensures
        r@ == host@ + "/api/courses/"@ + course@ + "/tasks/"@ + dec_spec(task_id as nat)
            + "/submissions"@,
{
    let mut u = String::new();
    u.append(host);
    u.append("/api/courses/");
    u.append(course);
    u.append("/tasks/");
    let id = dec_u64(task_id);
    u.append(id.as_str());
    u.append("/submissions");
    proof {
        assert(u@ =~= host@ + "/api/courses/"@ + course@ + "/tasks/"@ + dec_spec(
            task_id as nat,
        ) + "/submissions"@);
    }
    u
}

/// The solved-ids endpoint of a course.
pub fn progress_url(host: &str, course: &str) -> (r: String)
    ensures
        r@ == host@ + "/api/courses/"@ + course@ + "/progress"@,
{
    let mut u = String::new();
    u.append(host);
    u.append("/api/courses/");
    u.append(course);
    u.append("/progress");
    proof {
        assert(u@ =~= host@ + "/api/courses/"@ + course@ + "/progress"@);
    }
    u
}

/// After one pass, every submission of the list is covered by what is now
/// on disk: any set of paths that holds both the paths that existed before
/// and the paths the pass planned covers the whole list.
pub proof fn lemma_first_pass_covers(
    subdir: Seq<char>,
    lang: Seq<char>,
    subs: Seq<RawSubmission>,
    present: Set<Seq<char>>,
    after: Set<Seq<char>>,
)
    requires
        forall|p: Seq<char>| present.contains(p) ==> after.contains(p),
        forall|p: Seq<char>|
            plan_has_path(archive_plan_spec(subdir, lang, subs, present), p) ==> after.contains(
                p,
            ),
    ensures
        covered(subdir, lang, subs, after),
{
    lemma_archive_covers(subdir, lang, subs, present);
    assert forall|i: int| 0 <= i < subs.len() implies after.contains(
        #[trigger] sub_path_spec(subdir, lang, subs[i]),
    ) by {
        let q = sub_path_spec(subdir, lang, subs[i]);
        if !present.contains(q) {
            assert(plan_has_path(archive_plan_spec(subdir, lang, subs, present), q));
        }
    }
}

/// An unforced second pass over unchanged remote data plans nothing: with
/// the starter file present, the README equal to the remote body, and
/// every submission's content path already on disk, both the file plan
/// and the archive plan are empty.
pub proof fn lemma_sync_idempotent(
    t: Task,
    task_file: Seq<char>,
    readme_file: Seq<char>,
    subdir: Seq<char>,
    subs: Seq<RawSubmission>,
    present: Set<Seq<char>>,
)
    requires
        covered(subdir, t.lang@, subs, present),
    ensures
        files_plan_spec(
            t,
            task_file,
            readme_file,
            false,
            true,
            Option::Some(t.task_description.task@),
        ) == Seq::<(Seq<char>, Seq<char>)>::empty(),
        archive_plan_spec(subdir, t.lang@, subs, present) == Seq::<
            (Seq<char>, Seq<char>, Seq<char>, Seq<char>),
        >::empty(),
{
    lemma_materialize_idempotent(t, task_file, readme_file);
    lemma_archive_idempotent(subdir, t.lang@, subs, present);
}

} // verus!
