//! The persisted progress record: total task count, an ordering snapshot
//! of the course, the solved-task set the remote reported last, and the
//! root directory the tasks are materialized under.

use vstd::prelude::*;

use itertools::Itertools;

use crate::model::{CoreError, Task, TaskDescription};
use crate::paths::{lang_wf, make_task_path, task_dir_spec, task_file_spec};

verus! {

broadcast use vstd::std_specs::hash::group_hash_axioms;

/// One line of the ordering snapshot: what the engine must remember about
/// a task to order it and derive its paths again.
#[derive(Clone, Debug)]
pub struct MetaEntry {
    pub taskid: u64,
    pub order_by: u64,
    pub shortname: String,
    pub lang: String,
}

/// The snapshot line a task shrinks to.
pub open spec fn entry_of(t: Task) -> MetaEntry {
    MetaEntry {
        taskid: t.taskid,
        order_by: t.order_by,
        shortname: t.task_description.shortname,
        lang: t.lang,
    }
}

/// Non-decreasing task order.
pub open spec fn sorted_by_order(s: Seq<MetaEntry>) -> bool {
    forall|i: int, j: int| 0 <= i <= j < s.len() ==> (#[trigger] s[i]).order_by <= (
    #[trigger] s[j]).order_by
}

/// The set of ids a list holds.
pub open spec fn u64_set(s: Seq<u64>) -> Set<u64> {
    Set::new(|x: u64| s.contains(x))
}

/// Relies on itertools' `Itertools::sorted_by_key`: a stable sort of all
/// elements, ascending by the extracted key.
#[verifier::external_body]
fn sort_entries_by_order(v: Vec<MetaEntry>) -> (r: Vec<MetaEntry>)
    ensures
        r@.len() == v@.len(),
        r@.to_multiset() == v@.to_multiset(),
        sorted_by_order(r@),
{
    v.into_iter().sorted_by_key(|e| e.order_by).collect()
}

/// The persisted progress record.
pub struct Meta {
    /// Number of tasks the course had when the snapshot was taken.
    pub total_tasks: usize,
    /// The ids the remote last reported solved, in reported order with
    /// duplicates dropped; this list is what gets persisted.
    pub solved_list: Vec<u64>,
    /// The same ids as a hash set, for constant-time membership tests.
    pub solved: vstd::hash_set::HashSetWithView<u64>,
    /// The ordering snapshot, ascending by `order_by`.
    pub entries: Vec<MetaEntry>,
    /// Root directory the task directories live under.
    pub directory_dir: String,
}

impl Meta {
    /// The record's internal agreement: the snapshot is sorted, the count
    /// matches it, and the two forms of the solved set hold the same ids.
    pub open spec fn wf(self) -> bool {
        &&& sorted_by_order(self.entries@)
        &&& self.total_tasks == self.entries@.len()
        &&& self.solved@ == u64_set(self.solved_list@)
    }

    /// An empty record: no tasks seen, nothing solved.
    pub fn empty(directory_dir: String) -> (r: Meta)
        ensures
            r.wf(),
            r.total_tasks == 0,
            r.entries@.len() == 0,
            r.solved@ == Set::<u64>::empty(),
            r.solved_list@.len() == 0,
            r.directory_dir == directory_dir,
    {
        let solved = vstd::hash_set::HashSetWithView::<u64>::new();
        let r = Meta {
            total_tasks: 0,
            solved_list: Vec::new(),
            solved,
            entries: Vec::new(),
            directory_dir,
        };
        proof {
            assert(r.solved@ =~= u64_set(r.solved_list@));
        }
        r
    }

    /// A fresh record for a task list: the snapshot keeps every task,
    /// sorted by order, and nothing is solved yet.
    pub fn new(tasks: &Vec<Task>, directory_dir: String) -> (r: Meta)
        ensures
            r.wf(),
            r.total_tasks == tasks@.len(),
            r.entries@.to_multiset() == tasks@.map_values(|t: Task| entry_of(t)).to_multiset(),
            r.solved@ == Set::<u64>::empty(),
            r.solved_list@.len() == 0,
            r.directory_dir == directory_dir,
    {
        let n = tasks.len();
        let mut mapped: Vec<MetaEntry> = Vec::new();
        let mut i: usize = 0;
        while i < n
            invariant
                n == tasks@.len(),
                0 <= i <= n,
                mapped@ == tasks@.take(i as int).map_values(|t: Task| entry_of(t)),
            decreases n - i,
        {
            let t = &tasks[i];
            mapped.push(
                MetaEntry {
                    taskid: t.taskid,
                    order_by: t.order_by,
                    shortname: t.task_description.shortname.clone(),
                    lang: t.lang.clone(),
                },
            );
            proof {
                assert(tasks@.take(i as int + 1).drop_last() =~= tasks@.take(i as int));
                assert(mapped@ =~= tasks@.take(i as int + 1).map_values(
                    |t: Task| entry_of(t),
                ));
            }
            i = i + 1;
        }
        proof {
            assert(tasks@.take(n as int) =~= tasks@);
        }
        let entries = sort_entries_by_order(mapped);
        let solved = vstd::hash_set::HashSetWithView::<u64>::new();
        let r = Meta {
            total_tasks: n,
            solved_list: Vec::new(),
            solved,
            entries,
            directory_dir,
        };
        proof {
            assert(r.solved@ =~= u64_set(r.solved_list@));
        }
        r
    }
}

impl Meta {
    /// Rebuilds a record from its persisted plain values: the snapshot
    /// lines, the stored solved ids, and the root directory. The fast
    /// solved-set index is rebuilt from the id list.
    pub fn from_parts(
        total_tasks: usize,
        entries: Vec<MetaEntry>,
        solved_ids: &Vec<u64>,
        directory_dir: String,
    ) -> (r: Meta)
        ensures
            r.total_tasks == total_tasks,
            r.entries == entries,
            r.solved@ == u64_set(solved_ids@),
            r.solved@ == u64_set(r.solved_list@),
            r.directory_dir == directory_dir,
    {
        let mut r = Meta::empty(directory_dir);
        r.total_tasks = total_tasks;
        r.entries = entries;
        r.set_solved(solved_ids);
        r
    }
}

/// Initializes the progress record from a fetched task list, once: a
/// record that already counts tasks is left exactly as it is, so an
/// initialization can never run over existing progress.
pub fn init_meta(meta: &mut Meta, tasks: &Vec<Task>)
    ensures
        old(meta).total_tasks > 0 ==> *final(meta) == *old(meta),
        old(meta).total_tasks == 0 ==> final(meta).wf() && final(meta).total_tasks
            == tasks@.len() && final(meta).entries@.to_multiset() == tasks@.map_values(
            |t: Task| entry_of(t),
        ).to_multiset() && final(meta).solved@ == Set::<u64>::empty()
            && final(meta).directory_dir == old(meta).directory_dir,
{
    if meta.total_tasks == 0 {
        let dir = meta.directory_dir.clone();
        *meta = Meta::new(tasks, dir);
    }
}

impl Meta {
    /// Replaces the solved set wholesale with the ids the remote reports.
    /// The remote is authoritative: nothing of any earlier solved set
    /// survives, in either direction.
    pub fn set_solved(&mut self, ids: &Vec<u64>)
        ensures
            final(self).solved@ == u64_set(ids@),
            final(self).solved@ == u64_set(final(self).solved_list@),
            final(self).entries == old(self).entries,
            final(self).total_tasks == old(self).total_tasks,
            final(self).directory_dir == old(self).directory_dir,
    {
        let n = ids.len();
        let mut solved = vstd::hash_set::HashSetWithView::<u64>::new();
        let mut list: Vec<u64> = Vec::new();
        let mut i: usize = 0;
        proof {
            assert(solved@ =~= u64_set(ids@.take(0)));
            assert(solved@ =~= u64_set(list@));
        }
        while i < n
            invariant
                n == ids@.len(),
                0 <= i <= n,
                solved@ == u64_set(ids@.take(i as int)),
                solved@ == u64_set(list@),
            decreases n - i,
        {
            let v = ids[i];
            let ghost old_solved = solved@;
            let ghost old_list = list@;
            let inserted = solved.insert(v);
            if inserted {
                list.push(v);
            }
            proof {
                assert(solved@ =~= u64_set(ids@.take(i as int + 1))) by {
                    assert forall|x: u64| solved@.contains(x) implies u64_set(
                        ids@.take(i as int + 1),
                    ).contains(x) by {
                        if x == v {
                            assert(ids@.take(i as int + 1)[i as int] == v);
                        } else {
                            assert(old_solved.contains(x));
                            let t0 = ids@.take(i as int);
                            let k = choose|k: int| 0 <= k < t0.len() && (#[trigger] t0[k]) == x;
                            assert(ids@.take(i as int + 1)[k] == x);
                        }
                    }
                    assert forall|x: u64| u64_set(ids@.take(i as int + 1)).contains(
                        x,
                    ) implies solved@.contains(x) by {
                        let t1 = ids@.take(i as int + 1);
                        let k = choose|k: int| 0 <= k < t1.len() && (#[trigger] t1[k]) == x;
                        if k < i {
                            assert(ids@.take(i as int)[k] == x);
                        }
                    }
                }
                assert(solved@ =~= u64_set(list@)) by {
                    assert forall|x: u64| solved@.contains(x) implies u64_set(list@).contains(
                        x,
                    ) by {
                        if inserted && x == v {
                            assert(list@[list@.len() - 1] == x);
                        } else {
                            assert(old_solved.contains(x));
                            let k = choose|k: int|
                                0 <= k < old_list.len() && (#[trigger] old_list[k]) == x;
                            assert(list@[k] == x);
                        }
                    }
                    assert forall|x: u64| u64_set(list@).contains(x) implies solved@.contains(
                        x,
                    ) by {
                        let k = choose|k: int| 0 <= k < list@.len() && (#[trigger] list@[k]) == x;
                        if k < old_list.len() {
                            assert(old_list[k] == x);
                        }
                    }
                }
            }
            i = i + 1;
        }
        proof {
            assert(ids@.take(n as int) =~= ids@);
        }
        self.solved = solved;
        self.solved_list = list;
    }
}

/// Brings the record's solved set to the list the remote just reported
/// and leaves everything else untouched.
pub fn update_meta_progress(meta: &mut Meta, solved: &Vec<u64>)
    ensures
        final(meta).solved@ == u64_set(solved@),
        final(meta).solved@ == u64_set(final(meta).solved_list@),
        final(meta).entries == old(meta).entries,
        final(meta).total_tasks == old(meta).total_tasks,
        final(meta).directory_dir == old(meta).directory_dir,
{
    meta.set_solved(solved);
}

/// The first task of the snapshot whose id the solved set does not hold.
pub open spec fn next_spec(entries: Seq<MetaEntry>, solved: Set<u64>) -> Option<u64>
    decreases entries.len(),
{
    if entries.len() == 0 {
        Option::None
    } else if !solved.contains(entries[0].taskid) {
        Option::Some(entries[0].taskid)
    } else {
        next_spec(entries.drop_first(), solved)
    }
}

/// A snapshot entry with a given task id, the first one if several.
pub open spec fn find_entry(entries: Seq<MetaEntry>, taskid: u64) -> Option<MetaEntry>
    decreases entries.len(),
{
    if entries.len() == 0 {
        Option::None
    } else if entries[0].taskid == taskid {
        Option::Some(entries[0])
    } else {
        find_entry(entries.drop_first(), taskid)
    }
}

impl Meta {
    /// Checks that a sync has run: the snapshot must not be empty.
    pub fn ensure_tasks_init(&self) -> (r: Result<(), CoreError>)
        ensures
            r is Ok <==> self.entries@.len() > 0,
            r is Err ==> r->Err_0 == CoreError::NotConfigured,
    {
        if self.entries.len() == 0 {
            Err(CoreError::NotConfigured)
        } else {
            Ok(())
        }
    }

    /// The next task to work on: walks the snapshot in its stored order
    /// and answers the first id the solved set does not hold, `None` once
    /// everything is solved.
    pub fn next_task_id(&self) -> (r: Option<u64>)
        ensures
            r == next_spec(self.entries@, self.solved@),
    {
        let n = self.entries.len();
        let mut i: usize = 0;
        proof {
            assert(self.entries@.skip(0) =~= self.entries@);
        }
        while i < n
            invariant
                n == self.entries@.len(),
                0 <= i <= n,
                next_spec(self.entries@, self.solved@) == next_spec(
                    self.entries@.skip(i as int),
                    self.solved@,
                ),
            decreases n - i,
        {
            proof {
                assert(self.entries@.skip(i as int)[0] == self.entries@[i as int]);
                assert(self.entries@.skip(i as int).drop_first() =~= self.entries@.skip(
                    i as int + 1,
                ));
            }
            if !self.solved.contains(&self.entries[i].taskid) {
                return Some(self.entries[i].taskid);
            }
            i = i + 1;
        }
        proof {
            assert(self.entries@.skip(n as int) =~= Seq::<MetaEntry>::empty());
        }
        None
    }

    /// The canonical paths of the task with the given id, derived from the
    /// snapshot and the record's root directory; `None` when the id is not
    /// in the snapshot or its language tag cannot name a file.
    pub fn get_task_path(&self, task_id: u64) -> (r: Option<(String, String)>)
        ensures
            match find_entry(self.entries@, task_id) {
                Option::None => r is None,
                Option::Some(e) => {
                    if lang_wf(e.lang@) {
                        &&& r is Some
                        &&& (r->0).0@ == task_dir_spec(
                            self.directory_dir@,
                            e.order_by as nat,
                            e.shortname@,
                        )
                        &&& (r->0).1@ == task_file_spec(
                            self.directory_dir@,
                            e.order_by as nat,
                            e.shortname@,
                            e.taskid as nat,
                            e.lang@,
                        )
                    } else {
                        r is None
                    }
                },
            },
    {
        let n = self.entries.len();
        let mut i: usize = 0;
        proof {
            assert(self.entries@.skip(0) =~= self.entries@);
        }
        while i < n
            invariant
                n == self.entries@.len(),
                0 <= i <= n,
                find_entry(self.entries@, task_id) == find_entry(
                    self.entries@.skip(i as int),
                    task_id,
                ),
            decreases n - i,
        {
            proof {
                assert(self.entries@.skip(i as int)[0] == self.entries@[i as int]);
                assert(self.entries@.skip(i as int).drop_first() =~= self.entries@.skip(
                    i as int + 1,
                ));
            }
            let e = &self.entries[i];
            if e.taskid == task_id {
                let t = Task {
                    taskid: e.taskid,
                    order_by: e.order_by,
                    lang: e.lang.clone(),
                    task_description: TaskDescription {
                        shortname: e.shortname.clone(),
                        task: String::new(),
                        default_editor_input: String::new(),
                    },
                };
                return match make_task_path(&t, self.directory_dir.as_str()) {
                    Ok(p) => Some(p),
                    Err(_) => None,
                };
            }
            i = i + 1;
        }
        proof {
            assert(self.entries@.skip(n as int) =~= Seq::<MetaEntry>::empty());
        }
        None
    }
}

/// What `next_task` answers: the first unsolved task of the snapshot,
/// with its starter file path, as far as its language tag can name one.
pub open spec fn next_task_spec(m: Meta) -> Option<(u64, Seq<char>)> {
    match next_spec(m.entries@, m.solved@) {
        Option::None => Option::None,
        Option::Some(id) => match find_entry(m.entries@, id) {
            Option::None => Option::None,
            Option::Some(e) => {
                if lang_wf(e.lang@) {
                    Option::Some(
                        (
                            id,
                            task_file_spec(
                                m.directory_dir@,
                                e.order_by as nat,
                                e.shortname@,
                                e.taskid as nat,
                                e.lang@,
                            ),
                        ),
                    )
                } else {
                    Option::None
                }
            },
        },
    }
}

impl Meta {
    /// The next task to work on and the starter file to open for it.
    pub fn next_task(&self) -> (r: Option<(u64, String)>)
        ensures
            r is Some <==> next_task_spec(*self) is Some,
            r is Some ==> (r->0).0 == (next_task_spec(*self)->0).0 && (r->0).1@ == (
            next_task_spec(*self)->0).1,
    {
        match self.next_task_id() {
            Option::None => None,
            Option::Some(id) => match self.get_task_path(id) {
                Option::None => None,
                Option::Some((_dir, file)) => Some((id, file)),
            },
        }
    }
}

/// One line of the status listing.
#[derive(Clone, Debug)]
pub struct StatusLine {
    pub taskid: u64,
    pub shortname: String,
    pub solved: bool,
}

impl Meta {
    /// The status of every task, one line per snapshot entry in snapshot
    /// order — ascending by `order_by` whenever the record is well formed.
    pub fn list_status(&self) -> (r: Vec<StatusLine>)
        ensures
            r@.len() == self.entries@.len(),
            forall|i: int|
                0 <= i < r@.len() ==> (#[trigger] r@[i]).taskid == self.entries@[i].taskid
                    && r@[i].shortname@ == self.entries@[i].shortname@ && (r@[i].solved
                    <==> self.solved@.contains(self.entries@[i].taskid)),
    {
        let n = self.entries.len();
        let mut r: Vec<StatusLine> = Vec::new();
        let mut i: usize = 0;
        while i < n
            invariant
                n == self.entries@.len(),
                0 <= i <= n,
                r@.len() == i,
                forall|k: int|
                    0 <= k < i ==> (#[trigger] r@[k]).taskid == self.entries@[k].taskid
                        && r@[k].shortname@ == self.entries@[k].shortname@ && (r@[k].solved
                        <==> self.solved@.contains(self.entries@[k].taskid)),
            decreases n - i,
        {
            let e = &self.entries[i];
            let solved = self.solved.contains(&e.taskid);
            r.push(StatusLine { taskid: e.taskid, shortname: e.shortname.clone(), solved });
            i = i + 1;
        }
        r
    }
}

/// On a sorted snapshot, the next unsolved task is a lowest-order
/// unsolved task: when `next_spec` answers an id, that id is unsolved and
/// no unsolved task has a smaller `order_by`; when it answers `None`,
/// every task is solved.
pub proof fn lemma_next_is_lowest_unsolved(entries: Seq<MetaEntry>, solved: Set<u64>)
    requires
        sorted_by_order(entries),
    ensures
        next_spec(entries, solved) is None ==> forall|i: int|
            0 <= i < entries.len() ==> solved.contains((#[trigger] entries[i]).taskid),
        next_spec(entries, solved) is Some ==> exists|i: int|
            0 <= i < entries.len() && (#[trigger] entries[i]).taskid == next_spec(
                entries,
                solved,
            )->0 && !solved.contains(entries[i].taskid) && (forall|j: int|
                0 <= j < entries.len() && !solved.contains((#[trigger] entries[j]).taskid)
                    ==> entries[i].order_by <= entries[j].order_by),
    decreases entries.len(),
{
    if entries.len() > 0 {
        if !solved.contains(entries[0].taskid) {
            assert(entries[0].taskid == next_spec(entries, solved)->0);
            assert forall|j: int|
                0 <= j < entries.len() && !solved.contains(
                    (#[trigger] entries[j]).taskid,
                ) implies entries[0].order_by <= entries[j].order_by by {}
        } else {
            let tail = entries.drop_first();
            assert forall|i: int, j: int| 0 <= i <= j < tail.len() implies (
            #[trigger] tail[i]).order_by <= (#[trigger] tail[j]).order_by by {
                assert(tail[i] == entries[i + 1]);
                assert(tail[j] == entries[j + 1]);
            }
            lemma_next_is_lowest_unsolved(tail, solved);
            if next_spec(entries, solved) is None {
                assert forall|i: int| 0 <= i < entries.len() implies solved.contains(
                    (#[trigger] entries[i]).taskid,
                ) by {
                    if i > 0 {
                        assert(tail[i - 1] == entries[i]);
                    }
                }
            } else {
                let k = choose|k: int|
                    0 <= k < tail.len() && (#[trigger] tail[k]).taskid == next_spec(
                        tail,
                        solved,
                    )->0 && !solved.contains(tail[k].taskid) && (forall|j: int|
                        0 <= j < tail.len() && !solved.contains((#[trigger] tail[j]).taskid)
                            ==> tail[k].order_by <= tail[j].order_by);
                assert(tail[k] == entries[k + 1]);
                assert forall|j: int|
                    0 <= j < entries.len() && !solved.contains(
                        (#[trigger] entries[j]).taskid,
                    ) implies entries[k + 1].order_by <= entries[j].order_by by {
                    if j > 0 {
                        assert(tail[j - 1] == entries[j]);
                    }
                }
                assert(0 <= k + 1 < entries.len() && (#[trigger] entries[k + 1]).taskid
                    == next_spec(entries, solved)->0 && !solved.contains(
                    entries[k + 1].taskid,
                ) && (forall|j: int|
                    0 <= j < entries.len() && !solved.contains((#[trigger] entries[j]).taskid)
                        ==> entries[k + 1].order_by <= entries[j].order_by));
            }
        }
    }
}

/// The solved state is remote truth: however two records came about — one
/// by a single `set_solved`, the other by any longer history — if their
/// snapshots agree and their last reported solved sets agree, they name
/// the same next task. Nothing of earlier solved sets can linger.
pub proof fn lemma_solved_is_remote_truth(m1: Meta, m2: Meta)
    requires
        m1.entries@ == m2.entries@,
        m1.solved@ == m2.solved@,
    ensures
        next_spec(m1.entries@, m1.solved@) == next_spec(m2.entries@, m2.solved@),
{
}

/// Rounded percentage of solved tasks, as shown in the status listing:
/// `round(100 * solved / total)`, with halves rounded up.
pub fn percent_solved(solved: usize, total: usize) -> (r: usize)
    requires
        total > 0,
        solved <= total,
    ensures
        r == (200 * solved + total) / (2 * total),
{
    let s: u128 = solved as u128;
    let t: u128 = total as u128;
    let r: u128 = (200 * s + t) / (2 * t);
    assert(r <= 100) by (nonlinear_arith)
        requires
            s <= t,
            0 < t,
            r == (200 * s + t) / (2 * t),
    ;
    r as usize
}

} // verus!
