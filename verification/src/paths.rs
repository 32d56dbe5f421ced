//! Canonical local paths for a task: every place that needs a task's
//! directory or file goes through `make_task_path`, so the naming can
//! never drift between callers.

use vstd::prelude::*;

use crate::model::{CoreError, Task};
use crate::text::{dec_spec, dec_u64, push_char, slug, slug_keeps, slug_spec, zpad4_spec,
    zpad4_u64};

verus! {

/// Whether a language tag can stand in a file name: non-empty, ASCII
/// letters and digits only.
pub open spec fn lang_wf(s: Seq<char>) -> bool {
    s.len() > 0 && forall|i: int| 0 <= i < s.len() ==> slug_keeps(#[trigger] s[i])
}

/// The directory name of a task: zero-padded order, one underscore, and
/// the slug of the shortname.
pub open spec fn dir_name_spec(order_by: nat, shortname: Seq<char>) -> Seq<char> {
    zpad4_spec(order_by) + seq!['_'] + slug_spec(shortname)
}

/// The task directory under the root.
pub open spec fn task_dir_spec(root: Seq<char>, order_by: nat, shortname: Seq<char>) -> Seq<
    char,
> {
    root + seq!['/'] + dir_name_spec(order_by, shortname)
}

/// The starter file inside the task directory: `{taskid}.{lang}`.
pub open spec fn task_file_spec(
    root: Seq<char>,
    order_by: nat,
    shortname: Seq<char>,
    taskid: nat,
    lang: Seq<char>,
) -> Seq<char> {
    task_dir_spec(root, order_by, shortname) + seq!['/'] + dec_spec(taskid) + seq!['.'] + lang
}

/// Checks that the language tag can stand in a file name.
fn check_lang(lang: &str) -> (r: bool)
    ensures
        r == lang_wf(lang@),
{
    let n = lang.unicode_len();
    if n == 0 {
        return false;
    }
    let mut i: usize = 0;
    while i < n
        invariant
            n == lang@.len(),
            0 <= i <= n,
            forall|j: int| 0 <= j < i ==> slug_keeps(#[trigger] lang@[j]),
        decreases n - i,
    {
        let u = lang.get_char(i) as u32;
        if !((48 <= u && u <= 57) || (65 <= u && u <= 90) || (97 <= u && u <= 122)) {
            return false;
        }
        i = i + 1;
    }
    true
}

/// Derives the canonical paths of a task below `root`: the task directory
/// and the starter file inside it. Fails exactly when the language tag
/// cannot stand in a file name; everything else is made filesystem-safe by
/// the slug.
pub fn make_task_path(task: &Task, root: &str) -> (r: Result<(String, String), CoreError>)
    ensures
        r is Ok <==> lang_wf(task.lang@),
        r is Err ==> r->Err_0 == CoreError::InvalidPath,
        r is Ok ==> r->Ok_0.0@ == task_dir_spec(
            root@,
            task.order_by as nat,
            task.task_description.shortname@,
        ),
        r is Ok ==> r->Ok_0.1@ == task_file_spec(
            root@,
            task.order_by as nat,
            task.task_description.shortname@,
            task.taskid as nat,
            task.lang@,
        ),
{
    if !check_lang(task.lang.as_str()) {
        return Err(CoreError::InvalidPath);
    }
    let mut dir = String::new();
    dir.append(root);
    push_char(&mut dir, '/');
    let padded = zpad4_u64(task.order_by);
    dir.append(padded.as_str());
    push_char(&mut dir, '_');
    let name_slug = slug(task.task_description.shortname.as_str());
    dir.append(name_slug.as_str());
    proof {
        assert(dir@ =~= task_dir_spec(
            root@,
            task.order_by as nat,
            task.task_description.shortname@,
        ));
    }
    let mut file = dir.clone();
    push_char(&mut file, '/');
    let id = dec_u64(task.taskid);
    file.append(id.as_str());
    push_char(&mut file, '.');
    file.append(task.lang.as_str());
    proof {
        assert(file@ =~= task_file_spec(
            root@,
            task.order_by as nat,
            task.task_description.shortname@,
            task.taskid as nat,
            task.lang@,
        ));
    }
    Ok((dir, file))
}

/// The `README.md` path beside a task's starter file.
pub fn readme_path(task_dir: &str) -> (r: String)
    ensures
        r@ == task_dir@ + "/README.md"@,
{
    let mut p = String::new();
    p.append(task_dir);
    p.append("/README.md");
    proof {
        assert(p@ =~= task_dir@ + "/README.md"@);
    }
    p
}

/// The `submissions` directory inside a task directory.
pub fn submissions_dir_path(task_dir: &str) -> (r: String)
    ensures
        r@ == task_dir@ + "/submissions"@,
{
    let mut p = String::new();
    p.append(task_dir);
    p.append("/submissions");
    proof {
        assert(p@ =~= task_dir@ + "/submissions"@);
    }
    p
}

/// Deriving a path is a pure function of the task's order and shortname:
/// two tasks that agree on them are placed in the same directory, whatever
/// else differs and whenever the derivation runs.
pub proof fn lemma_path_deterministic(t1: Task, t2: Task, root: Seq<char>)
    requires
        t1.order_by == t2.order_by,
        t1.task_description.shortname@ == t2.task_description.shortname@,
    ensures
        task_dir_spec(root, t1.order_by as nat, t1.task_description.shortname@)
            == task_dir_spec(root, t2.order_by as nat, t2.task_description.shortname@),
{
}

} // verus!
