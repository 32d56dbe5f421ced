use tasksync::archive::{archive_plan, normalize_timestamp};
use tasksync::materialize::{placeholder_text, plan_task_files};
use tasksync::meta::{init_meta, update_meta_progress, Meta};
use tasksync::model::{Config, CoreError, RawSubmission, RawTimestamp, Task, TaskDescription};
use tasksync::paths::{make_task_path, readme_path, submissions_dir_path};
use tasksync::meta::percent_solved;
use tasksync::sync::{progress_url, submissions_url, sync_task_step, tasks_url, SyncReport,
    TaskLocalState};
use tasksync::text::{dec_u64, parse_u64, slug, zpad4_u64};

fn task(id: u64, order: u64, shortname: &str, lang: &str, body: &str, starter: &str) -> Task {
    Task {
        taskid: id,
        order_by: order,
        lang: lang.to_string(),
        task_description: TaskDescription {
            shortname: shortname.to_string(),
            task: body.to_string(),
            default_editor_input: starter.to_string(),
        },
    }
}

fn sub(ts: RawTimestamp, result_type: &str, content: &str, metadata: &str) -> RawSubmission {
    RawSubmission {
        timestamp: ts,
        result_type: result_type.to_string(),
        content: content.to_string(),
        metadata: metadata.to_string(),
    }
}

#[test]
fn slug_lowercases_and_collapses() {
    assert_eq!(slug("Two Sum!"), "two_sum");
    assert_eq!(slug("add"), "add");
    assert_eq!(slug("  A--B__C  "), "a_b_c");
    assert_eq!(slug(""), "");
    assert_eq!(slug("!!!"), "");
    assert_eq!(slug("Hello, World 99"), "hello_world_99");
}

#[test]
fn decimal_and_padding() {
    assert_eq!(dec_u64(0), "0");
    assert_eq!(dec_u64(42), "42");
    assert_eq!(dec_u64(u64::MAX), "18446744073709551615");
    assert_eq!(zpad4_u64(4), "0004");
    assert_eq!(zpad4_u64(123), "0123");
    assert_eq!(zpad4_u64(1234), "1234");
    assert_eq!(zpad4_u64(99999), "99999");
}

#[test]
fn parse_decimal_strings() {
    assert_eq!(parse_u64("0"), Some(0));
    assert_eq!(parse_u64("007"), Some(7));
    assert_eq!(parse_u64("18446744073709551615"), Some(u64::MAX));
    assert_eq!(parse_u64("18446744073709551616"), None);
    assert_eq!(parse_u64(""), None);
    assert_eq!(parse_u64("12ab"), None);
    assert_eq!(parse_u64("-3"), None);
}

#[test]
fn directory_name_for_two_sum() {
    let t = task(17, 4, "Two Sum!", "rs", "body", "");
    let (dir, file) = make_task_path(&t, "ex").unwrap();
    assert_eq!(dir, "ex/0004_two_sum");
    assert_eq!(file, "ex/0004_two_sum/17.rs");
}

#[test]
fn path_is_deterministic_across_calls() {
    let a = task(1, 12, "Graph Search", "py", "x", "");
    let b = task(9, 12, "Graph Search", "cpp", "y", "z");
    let (dir_a, _) = make_task_path(&a, "root").unwrap();
    let (dir_b, _) = make_task_path(&b, "root").unwrap();
    let (dir_a2, _) = make_task_path(&a, "root").unwrap();
    assert_eq!(dir_a, "root/0012_graph_search");
    assert_eq!(dir_a, dir_b);
    assert_eq!(dir_a, dir_a2);
}

#[test]
fn bad_language_tag_is_a_path_error() {
    let t = task(1, 1, "ok", "r/s", "b", "");
    assert_eq!(make_task_path(&t, "root").unwrap_err(), CoreError::InvalidPath);
    let empty_lang = task(1, 1, "ok", "", "b", "");
    assert_eq!(make_task_path(&empty_lang, "root").unwrap_err(), CoreError::InvalidPath);
}

#[test]
fn sibling_paths() {
    assert_eq!(readme_path("root/0001_a"), "root/0001_a/README.md");
    assert_eq!(submissions_dir_path("root/0001_a"), "root/0001_a/submissions");
}

#[test]
fn starter_written_only_when_missing_or_forced() {
    let t = task(3, 1, "add", "rs", "readme body", "fn main() {}");
    // Missing starter: both files planned.
    let plan = plan_task_files(&t, "f", "r", false, false, &None);
    assert_eq!(plan.len(), 2);
    assert_eq!(plan[0].path, "f");
    assert_eq!(plan[0].content, "fn main() {}");
    assert_eq!(plan[1].path, "r");
    assert_eq!(plan[1].content, "readme body");
    // Existing starter, no force: user edits preserved.
    let plan = plan_task_files(&t, "f", "r", false, true, &Some("readme body".to_string()));
    assert!(plan.is_empty());
    // Existing starter, force: overwritten with the remote starter.
    let plan = plan_task_files(&t, "f", "r", true, true, &Some("readme body".to_string()));
    assert_eq!(plan.len(), 1);
    assert_eq!(plan[0].path, "f");
    assert_eq!(plan[0].content, "fn main() {}");
}

#[test]
fn readme_refreshed_when_stale() {
    let t = task(3, 1, "add", "rs", "new body", "code");
    let plan = plan_task_files(&t, "f", "r", false, true, &Some("old body".to_string()));
    assert_eq!(plan.len(), 1);
    assert_eq!(plan[0].path, "r");
    assert_eq!(plan[0].content, "new body");
}

#[test]
fn placeholder_for_empty_starter() {
    let t = task(3, 1, "add", "rs", "b", "");
    let plan = plan_task_files(&t, "f", "r", false, false, &Some("b".to_string()));
    assert_eq!(plan.len(), 1);
    assert_eq!(plan[0].content, placeholder_text());
}

#[test]
fn timestamp_normalization() {
    assert_eq!(normalize_timestamp(&RawTimestamp::Numeric(1700000000)).unwrap(), "1700000000");
    assert_eq!(
        normalize_timestamp(&RawTimestamp::Textual("1700000000".to_string())).unwrap(),
        "1700000000"
    );
    assert_eq!(normalize_timestamp(&RawTimestamp::Textual("007".to_string())).unwrap(), "7");
    assert_eq!(
        normalize_timestamp(&RawTimestamp::Textual("last week".to_string())).unwrap_err(),
        CoreError::Decode
    );
    assert_eq!(
        normalize_timestamp(&RawTimestamp::Textual(String::new())).unwrap_err(),
        CoreError::Decode
    );
}

#[test]
fn archive_writes_each_pair_once() {
    let subs = vec![
        sub(RawTimestamp::Numeric(100), "passed", "code a", "{\"a\":1}"),
        sub(RawTimestamp::Textual("100".to_string()), "passed", "code a again", "{\"a\":2}"),
        sub(RawTimestamp::Numeric(100), "failed", "code b", "{\"b\":1}"),
    ];
    let plan = archive_plan("s", "rs", &subs, &vec![]).unwrap();
    // The textual 100/"passed" names the same path as the numeric one:
    // only the first of the two is planned.
    assert_eq!(plan.len(), 2);
    assert_eq!(plan[0].content_path, "s/100-passed.rs");
    assert_eq!(plan[0].metadata_path, "s/100-passed.rs.metadata.json");
    assert_eq!(plan[0].content, "code a");
    assert_eq!(plan[0].metadata, "{\"a\":1}");
    assert_eq!(plan[1].content_path, "s/100-failed.rs");
}

#[test]
fn archive_is_append_only() {
    let mut subs = vec![
        sub(RawTimestamp::Numeric(100), "passed", "a", "m1"),
        sub(RawTimestamp::Numeric(200), "failed", "b", "m2"),
    ];
    let first = archive_plan("s", "rs", &subs, &vec![]).unwrap();
    assert_eq!(first.len(), 2);
    // Second run with the same list: everything exists, nothing planned.
    let on_disk: Vec<String> = first.iter().map(|f| f.content_path.clone()).collect();
    let second = archive_plan("s", "rs", &subs, &on_disk).unwrap();
    assert!(second.is_empty());
    // Third run with one additional submission: exactly one new pair.
    subs.push(sub(RawTimestamp::Numeric(300), "passed", "c", "m3"));
    let third = archive_plan("s", "rs", &subs, &on_disk).unwrap();
    assert_eq!(third.len(), 1);
    assert_eq!(third[0].content_path, "s/300-passed.rs");
    assert_eq!(third[0].metadata_path, "s/300-passed.rs.metadata.json");
    assert_eq!(third[0].content, "c");
    assert_eq!(third[0].metadata, "m3");
}

#[test]
fn archive_bad_timestamp_fails_decode() {
    let subs = vec![sub(RawTimestamp::Textual("soon".to_string()), "passed", "a", "m")];
    assert_eq!(archive_plan("s", "rs", &subs, &vec![]).unwrap_err(), CoreError::Decode);
}

#[test]
fn next_task_follows_order() {
    let tasks = vec![task(1, 2, "add", "rs", "b", ""), task(2, 1, "sub", "rs", "b", "")];
    let mut meta = Meta::empty("root".to_string());
    init_meta(&mut meta, &tasks);
    assert_eq!(meta.total_tasks, 2);
    assert_eq!(meta.next_task_id(), Some(2));
    meta.set_solved(&vec![2]);
    assert_eq!(meta.next_task_id(), Some(1));
    meta.set_solved(&vec![1, 2]);
    assert_eq!(meta.next_task_id(), None);
}

#[test]
fn solved_set_is_replaced_not_merged() {
    let tasks = vec![
        task(3, 1, "a", "rs", "b", ""),
        task(7, 2, "b", "rs", "b", ""),
        task(9, 3, "c", "rs", "b", ""),
    ];
    let mut meta = Meta::empty("root".to_string());
    init_meta(&mut meta, &tasks);
    meta.set_solved(&vec![3, 7]);
    assert_eq!(meta.next_task_id(), Some(9));
    meta.set_solved(&vec![3, 7, 9]);
    assert_eq!(meta.next_task_id(), None);
    // Remote truth: shrinking the set un-solves locally too.
    meta.set_solved(&vec![7]);
    assert_eq!(meta.next_task_id(), Some(3));
    assert_eq!(meta.solved_list, vec![7]);
}

#[test]
fn init_meta_never_reinitializes() {
    let tasks = vec![task(1, 1, "a", "rs", "b", "")];
    let mut meta = Meta::empty("root".to_string());
    init_meta(&mut meta, &tasks);
    meta.set_solved(&vec![1]);
    let more = vec![task(1, 1, "a", "rs", "b", ""), task(2, 2, "b", "rs", "b", "")];
    init_meta(&mut meta, &more);
    assert_eq!(meta.total_tasks, 1);
    assert_eq!(meta.solved_list, vec![1]);
}

#[test]
fn list_status_is_ordered_by_task_order() {
    let tasks = vec![
        task(10, 30, "Third", "rs", "b", ""),
        task(11, 10, "First", "rs", "b", ""),
        task(12, 20, "Second", "rs", "b", ""),
    ];
    let mut meta = Meta::empty("root".to_string());
    init_meta(&mut meta, &tasks);
    meta.set_solved(&vec![12]);
    let lines = meta.list_status();
    assert_eq!(lines.len(), 3);
    assert_eq!(lines[0].taskid, 11);
    assert_eq!(lines[0].shortname, "First");
    assert!(!lines[0].solved);
    assert_eq!(lines[1].taskid, 12);
    assert!(lines[1].solved);
    assert_eq!(lines[2].taskid, 10);
    assert!(!lines[2].solved);
}

#[test]
fn task_paths_from_meta() {
    let tasks = vec![task(17, 4, "Two Sum!", "rs", "b", "")];
    let mut meta = Meta::empty("ex".to_string());
    init_meta(&mut meta, &tasks);
    let (dir, file) = meta.get_task_path(17).unwrap();
    assert_eq!(dir, "ex/0004_two_sum");
    assert_eq!(file, "ex/0004_two_sum/17.rs");
    assert!(meta.get_task_path(99).is_none());
    assert_eq!(meta.next_task(), Some((17, "ex/0004_two_sum/17.rs".to_string())));
}

#[test]
fn sync_step_plans_everything_for_a_fresh_task() {
    let t = task(5, 2, "Add Two", "rs", "the readme", "start here");
    let local = TaskLocalState {
        starter_exists: false,
        readme: None,
        existing_submissions: vec![],
    };
    let subs = vec![sub(RawTimestamp::Numeric(100), "passed", "a", "m")];
    let plan = sync_task_step(&t, "root", false, true, &local, &subs).unwrap();
    assert_eq!(plan.task_dir, "root/0002_add_two");
    assert_eq!(plan.submissions_dir.as_deref(), Some("root/0002_add_two/submissions"));
    assert_eq!(plan.files.len(), 2);
    assert_eq!(plan.files[0].path, "root/0002_add_two/5.rs");
    assert_eq!(plan.files[0].content, "start here");
    assert_eq!(plan.files[1].path, "root/0002_add_two/README.md");
    assert_eq!(plan.files[1].content, "the readme");
    assert_eq!(plan.submission_files.len(), 1);
    assert_eq!(
        plan.submission_files[0].content_path,
        "root/0002_add_two/submissions/100-passed.rs"
    );
}

#[test]
fn second_unforced_pass_plans_nothing() {
    let t = task(5, 2, "Add Two", "rs", "the readme", "start here");
    let local = TaskLocalState {
        starter_exists: false,
        readme: None,
        existing_submissions: vec![],
    };
    let subs = vec![
        sub(RawTimestamp::Numeric(100), "passed", "a", "m"),
        sub(RawTimestamp::Numeric(200), "failed", "b", "m"),
    ];
    let first = sync_task_step(&t, "root", false, true, &local, &subs).unwrap();
    // The state a faithful application of the first plan leaves on disk.
    let local_after = TaskLocalState {
        starter_exists: true,
        readme: Some("the readme".to_string()),
        existing_submissions: first
            .submission_files
            .iter()
            .map(|f| f.content_path.clone())
            .collect(),
    };
    let second = sync_task_step(&t, "root", false, true, &local_after, &subs).unwrap();
    assert!(second.files.is_empty());
    assert!(second.submission_files.is_empty());
}

#[test]
fn user_edits_survive_unforced_sync() {
    let t = task(5, 2, "Add Two", "rs", "the readme", "start here");
    let local = TaskLocalState {
        starter_exists: true,
        readme: Some("the readme".to_string()),
        existing_submissions: vec![],
    };
    let plan = sync_task_step(&t, "root", false, false, &local, &vec![]).unwrap();
    assert!(plan.files.is_empty());
    let forced = sync_task_step(&t, "root", true, false, &local, &vec![]).unwrap();
    assert_eq!(forced.files.len(), 1);
    assert_eq!(forced.files[0].path, "root/0002_add_two/5.rs");
    assert_eq!(forced.files[0].content, "start here");
}

#[test]
fn sync_step_error_codes() {
    let bad_lang = task(5, 2, "x", "r s", "b", "");
    let local = TaskLocalState {
        starter_exists: false,
        readme: None,
        existing_submissions: vec![],
    };
    assert_eq!(
        sync_task_step(&bad_lang, "root", false, false, &local, &vec![]).unwrap_err(),
        CoreError::InvalidPath
    );
    let t = task(5, 2, "x", "rs", "b", "");
    let bad_sub = vec![sub(RawTimestamp::Textual("nope".to_string()), "p", "a", "m")];
    assert_eq!(
        sync_task_step(&t, "root", false, true, &local, &bad_sub).unwrap_err(),
        CoreError::Decode
    );
}

#[test]
fn report_counts() {
    let mut r = SyncReport::new();
    r.record_success(2);
    r.record_success(0);
    r.record_failure(7, CoreError::Io);
    assert_eq!(r.materialized, 2);
    assert_eq!(r.archived, 2);
    assert_eq!(r.failed, vec![(7, CoreError::Io)]);
}

#[test]
fn configuration_check() {
    let cfg = Config {
        host: "https://h".to_string(),
        course: "c1".to_string(),
        user: "u".to_string(),
        token: None,
    };
    assert!(tasksync::model::ensure_configured(&cfg).is_ok());
    let missing = Config { user: String::new(), ..cfg };
    assert_eq!(
        tasksync::model::ensure_configured(&missing).unwrap_err(),
        CoreError::NotConfigured
    );
}

#[test]
fn tasks_must_be_synced_first() {
    let meta = Meta::empty("root".to_string());
    assert_eq!(meta.ensure_tasks_init().unwrap_err(), CoreError::NotConfigured);
    let mut meta = meta;
    init_meta(&mut meta, &vec![task(1, 1, "a", "rs", "b", "")]);
    assert!(meta.ensure_tasks_init().is_ok());
}

#[test]
fn update_meta_progress_sets_exactly_the_reported_ids() {
    let mut meta = Meta::empty("root".to_string());
    init_meta(&mut meta, &vec![task(1, 1, "a", "rs", "b", ""), task(2, 2, "b", "rs", "b", "")]);
    update_meta_progress(&mut meta, &vec![2, 2, 1]);
    assert_eq!(meta.solved_list, vec![2, 1]);
    assert_eq!(meta.next_task_id(), None);
}

#[test]
fn endpoint_urls() {
    assert_eq!(tasks_url("https://h", "c1"), "https://h/api/courses/c1/tasks");
    assert_eq!(
        submissions_url("https://h", "c1", 42),
        "https://h/api/courses/c1/tasks/42/submissions"
    );
    assert_eq!(progress_url("https://h", "c1"), "https://h/api/courses/c1/progress");
}

#[test]
fn percentages_round_to_nearest() {
    assert_eq!(percent_solved(0, 3), 0);
    assert_eq!(percent_solved(1, 3), 33);
    assert_eq!(percent_solved(2, 3), 67);
    assert_eq!(percent_solved(3, 3), 100);
    assert_eq!(percent_solved(1, 2), 50);
    assert_eq!(percent_solved(1, 200), 1);
}
