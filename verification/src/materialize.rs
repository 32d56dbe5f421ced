//! Decides which files a task needs on disk. The decision is pure: the
//! caller reports what already exists, the planner answers with the writes
//! to perform, and never plans over a user's edits unless forced.

use vstd::prelude::*;

use crate::model::Task;
use crate::text::{dec_spec, is_digit};
use crate::paths::{task_dir_spec, task_file_spec};

verus! {

/// One pending file write: full path and the content to store there.
#[derive(Clone, Debug)]
pub struct FileWrite {
    pub path: String,
    pub content: String,
}

/// The (path, content) pairs of a list of planned writes.
pub open spec fn writes_view(s: Seq<FileWrite>) -> Seq<(Seq<char>, Seq<char>)> {
    s.map_values(|w: FileWrite| (w.path@, w.content@))
}

/// What the starter file of a task holds when first written.
pub open spec fn starter_content_spec(t: Task) -> Seq<char> {
    if t.task_description.default_editor_input@.len() == 0 {
        placeholder_spec()
    } else {
        t.task_description.default_editor_input@
    }
}

/// The starter text used when the remote listing supplies none.
pub open spec fn placeholder_spec() -> Seq<char> {
    "// Write your code here, and submit your solution once you're done!\n// Read the README for instructions\n"@
}

/// The starter text used when the remote listing supplies none.
pub fn placeholder_text() -> (r: &'static str)
    ensures
        r@ == placeholder_spec(),
{
    "// Write your code here, and submit your solution once you're done!\n// Read the README for instructions\n"
}

/// The content the starter file of a task gets when (re)written.
pub fn starter_content(t: &Task) -> (r: String)
    ensures
        r@ == starter_content_spec(*t),
{
    if t.task_description.default_editor_input.as_str().is_empty() {
        let mut s = String::new();
        s.append(placeholder_text());
        proof {
            assert(s@ =~= placeholder_spec());
        }
        s
    } else {
        t.task_description.default_editor_input.clone()
    }
}

/// The writes that materializing one task performs, given what is already
/// on disk. The starter file is written when forced or missing; the README
/// is brought to the remote body whenever it differs from it.
pub open spec fn files_plan_spec(
    t: Task,
    task_file: Seq<char>,
    readme_file: Seq<char>,
    force: bool,
    starter_exists: bool,
    readme_now: Option<Seq<char>>,
) -> Seq<(Seq<char>, Seq<char>)> {
    (if force || !starter_exists {
        seq![(task_file, starter_content_spec(t))]
    } else {
        Seq::empty()
    }) + (if readme_now != Some(t.task_description.task@) {
        seq![(readme_file, t.task_description.task@)]
    } else {
        Seq::empty()
    })
}

/// The current content of a file, `None` when it does not exist.
pub open spec fn opt_content_view(o: Option<String>) -> Option<Seq<char>> {
    match o {
        Option::None => Option::None,
        Option::Some(s) => Option::Some(s@),
    }
}

/// Plans the writes that bring one task's starter file and README into
/// agreement with the remote listing. `starter_exists` and `readme_now`
/// report the local state; `force` discards local starter edits.
pub fn plan_task_files(
    t: &Task,
    task_file: &str,
    readme_file: &str,
    force: bool,
    starter_exists: bool,
    readme_now: &Option<String>,
) -> (r: Vec<FileWrite>)
    ensures
        writes_view(r@) == files_plan_spec(
            *t,
            task_file@,
            readme_file@,
            force,
            starter_exists,
            opt_content_view(*readme_now),
        ),
{
    let mut r: Vec<FileWrite> = Vec::new();
    if force || !starter_exists {
        let mut p = String::new();
        p.append(task_file);
        proof {
            assert(p@ =~= task_file@);
        }
        r.push(FileWrite { path: p, content: starter_content(t) });
    }
    let refresh = match readme_now {
        Option::None => true,
        Option::Some(s) => !(*s == t.task_description.task),
    };
    if refresh {
        let mut p = String::new();
        p.append(readme_file);
        proof {
            assert(p@ =~= readme_file@);
        }
        r.push(FileWrite { path: p, content: t.task_description.task.clone() });
    }
    proof {
        assert(writes_view(r@) =~= files_plan_spec(
            *t,
            task_file@,
            readme_file@,
            force,
            starter_exists,
            opt_content_view(*readme_now),
        ));
    }
    r
}

/// The first character of a canonical decimal string is a digit.
proof fn lemma_dec_first_digit(n: nat)
    ensures
        dec_spec(n).len() >= 1,
        is_digit(dec_spec(n)[0]),
    decreases n,
{
    if n >= 10 {
        lemma_dec_first_digit(n / 10);
    }
}

/// An unforced sync never touches an existing starter file: no write of
/// the plan goes to the starter path. (The README may still be refreshed,
/// but it is a different file of the same directory.)
pub proof fn lemma_unforced_preserves_starter(
    t: Task,
    root: Seq<char>,
    starter_exists: bool,
    readme_now: Option<Seq<char>>,
)
    requires
        starter_exists,
    ensures
        forall|i: int|
            0 <= i < files_plan_spec(
                t,
                task_file_spec(
                    root,
                    t.order_by as nat,
                    t.task_description.shortname@,
                    t.taskid as nat,
                    t.lang@,
                ),
                task_dir_spec(root, t.order_by as nat, t.task_description.shortname@)
                    + "/README.md"@,
                false,
                starter_exists,
                readme_now,
            ).len() ==> #[trigger] files_plan_spec(
                t,
                task_file_spec(
                    root,
                    t.order_by as nat,
                    t.task_description.shortname@,
                    t.taskid as nat,
                    t.lang@,
                ),
                task_dir_spec(root, t.order_by as nat, t.task_description.shortname@)
                    + "/README.md"@,
                false,
                starter_exists,
                readme_now,
            )[i].0 != task_file_spec(
                root,
                t.order_by as nat,
                t.task_description.shortname@,
                t.taskid as nat,
                t.lang@,
            ),
{
    let dir = task_dir_spec(root, t.order_by as nat, t.task_description.shortname@);
    let file = task_file_spec(
        root,
        t.order_by as nat,
        t.task_description.shortname@,
        t.taskid as nat,
        t.lang@,
    );
    let readme = dir + "/README.md"@;
    reveal_strlit("/README.md");
    lemma_dec_first_digit(t.taskid as nat);
    let k = dir.len() as int;
    assert(readme[k + 1] == 'R');
    assert(file[k + 1] == dec_spec(t.taskid as nat)[0]);
    assert(readme != file);
}

/// A forced sync overwrites the starter file with the current remote
/// starter content: the plan's first write is exactly that.
pub proof fn lemma_forced_overwrites_starter(
    t: Task,
    task_file: Seq<char>,
    readme_file: Seq<char>,
    starter_exists: bool,
    readme_now: Option<Seq<char>>,
)
    ensures
        files_plan_spec(t, task_file, readme_file, true, starter_exists, readme_now).len() >= 1,
        files_plan_spec(t, task_file, readme_file, true, starter_exists, readme_now)[0] == (
        task_file, starter_content_spec(t)),
{
}

/// Materializing is idempotent: once the starter file exists and the
/// README matches the remote body, an unforced plan is empty.
pub proof fn lemma_materialize_idempotent(t: Task, task_file: Seq<char>, readme_file: Seq<char>)
    ensures
        files_plan_spec(
            t,
            task_file,
            readme_file,
            false,
            true,
            Option::Some(t.task_description.task@),
        ) =~= Seq::<(Seq<char>, Seq<char>)>::empty(),
{
}

} // verus!
