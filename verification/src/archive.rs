//! Mirrors a task's submission history into its `submissions/` directory.
//! Archived entries are immutable: the planner emits one content file and
//! one metadata sidecar per new `(timestamp, result_type)` and never
//! re-writes a path that already exists.

use vstd::prelude::*;

use crate::model::{CoreError, RawSubmission, RawTimestamp};
use crate::text::{all_digits, dec_spec, dec_u64, parse_u64, push_char, str_to_nat};

verus! {

/// Whether a raw timestamp can be normalized: numbers always, strings
/// exactly when they are non-empty decimal digits fitting a `u64`.
pub open spec fn ts_ok(t: RawTimestamp) -> bool {
    match t {
        RawTimestamp::Numeric(_) => true,
        RawTimestamp::Textual(s) => s@.len() > 0 && all_digits(s@) && str_to_nat(s@)
            <= u64::MAX,
    }
}

/// The canonical decimal form of a raw timestamp. Numeric and textual
/// representations of the same instant normalize to the same string.
pub open spec fn ts_norm(t: RawTimestamp) -> Seq<char> {
    match t {
        RawTimestamp::Numeric(n) => dec_spec(n as nat),
        RawTimestamp::Textual(s) => dec_spec(str_to_nat(s@)),
    }
}

/// Normalizes a timestamp to its canonical decimal string, whatever
/// representation the server chose. Fails exactly on a textual timestamp
/// that is not a decimal number a `u64` can hold.
pub fn normalize_timestamp(t: &RawTimestamp) -> (r: Result<String, CoreError>)
    ensures
        r is Ok <==> ts_ok(*t),
        r is Ok ==> r->Ok_0@ == ts_norm(*t),
        r is Err ==> r->Err_0 == CoreError::Decode,
{
    match t {
        RawTimestamp::Numeric(n) => Ok(dec_u64(*n)),
        RawTimestamp::Textual(s) => match parse_u64(s.as_str()) {
            Option::Some(v) => Ok(dec_u64(v)),
            Option::None => Err(CoreError::Decode),
        },
    }
}

/// The archived content path of a submission:
/// `{subdir}/{timestamp}-{result_type}.{lang}`.
pub open spec fn sub_path_spec(subdir: Seq<char>, lang: Seq<char>, s: RawSubmission) -> Seq<
    char,
> {
    subdir + "/"@ + ts_norm(s.timestamp) + "-"@ + s.result_type@ + "."@ + lang
}

/// The metadata sidecar path beside an archived content path.
pub open spec fn meta_path_spec(content_path: Seq<char>) -> Seq<char> {
    content_path + ".metadata.json"@
}

/// One planned archive entry: the content file and its metadata sidecar.
#[derive(Clone, Debug)]
pub struct SubmissionFile {
    pub content_path: String,
    pub metadata_path: String,
    pub content: String,
    pub metadata: String,
}

/// The spec-level image of a planned archive entry.
pub open spec fn sub_file_view(f: SubmissionFile) -> (Seq<char>, Seq<char>, Seq<char>, Seq<
    char,
>) {
    (f.content_path@, f.metadata_path@, f.content@, f.metadata@)
}

/// The spec-level image of a list of planned archive entries.
pub open spec fn sub_files_view(s: Seq<SubmissionFile>) -> Seq<
    (Seq<char>, Seq<char>, Seq<char>, Seq<char>),
> {
    s.map_values(|f: SubmissionFile| sub_file_view(f))
}

/// The planned entry for one submission.
pub open spec fn plan_entry_spec(subdir: Seq<char>, lang: Seq<char>, s: RawSubmission) -> (
    Seq<char>,
    Seq<char>,
    Seq<char>,
    Seq<char>,
) {
    (
        sub_path_spec(subdir, lang, s),
        meta_path_spec(sub_path_spec(subdir, lang, s)),
        s.content@,
        s.metadata@,
    )
}

/// The archive plan: walks the submission list in order and emits an entry
/// for each submission whose content path is not present yet, treating the
/// paths it has just planned as present for the rest of the walk.
pub open spec fn archive_plan_spec(
    subdir: Seq<char>,
    lang: Seq<char>,
    subs: Seq<RawSubmission>,
    present: Set<Seq<char>>,
) -> Seq<(Seq<char>, Seq<char>, Seq<char>, Seq<char>)>
    decreases subs.len(),
{
    if subs.len() == 0 {
        Seq::empty()
    } else {
        let p = sub_path_spec(subdir, lang, subs[0]);
        if present.contains(p) {
            archive_plan_spec(subdir, lang, subs.drop_first(), present)
        } else {
            seq![plan_entry_spec(subdir, lang, subs[0])] + archive_plan_spec(
                subdir,
                lang,
                subs.drop_first(),
                present.insert(p),
            )
        }
    }
}

/// Whether every timestamp of the list can be normalized.
pub open spec fn all_ts_ok(subs: Seq<RawSubmission>) -> bool {
    forall|i: int| 0 <= i < subs.len() ==> ts_ok(#[trigger] subs[i].timestamp)
}

/// Whether some string of the list reads `s`.
pub open spec fn in_strings(v: Seq<String>, s: Seq<char>) -> bool {
    exists|j: int| 0 <= j < v.len() && v[j]@ == s
}

/// The set of strings a list holds.
pub open spec fn strings_set(v: Seq<String>) -> Set<Seq<char>> {
    Set::new(|s: Seq<char>| in_strings(v, s))
}

/// Linear membership test against a list of known paths.
fn contains_string(v: &Vec<String>, s: &String) -> (b: bool)
    ensures
        b == in_strings(v@, s@),
{
    let n = v.len();
    let mut j: usize = 0;
    while j < n
        invariant
            n == v@.len(),
            0 <= j <= n,
            forall|k: int| 0 <= k < j ==> v@[k]@ != s@,
        decreases n - j,
    {
        if *s == v[j] {
            return true;
        }
        j = j + 1;
    }
    false
}

/// Builds the archived content path of one submission from its normalized
/// timestamp.
fn build_sub_path(subdir: &str, lang: &str, ts: &String, result_type: &String) -> (r: String)
    ensures
        r@ == subdir@ + "/"@ + ts@ + "-"@ + result_type@ + "."@ + lang@,
{
    let mut p = String::new();
    p.append(subdir);
    push_char(&mut p, '/');
    p.append(ts.as_str());
    push_char(&mut p, '-');
    p.append(result_type.as_str());
    push_char(&mut p, '.');
    p.append(lang);
    proof {
        reveal_strlit("/");
        reveal_strlit("-");
        reveal_strlit(".");
        assert(p@ =~= subdir@ + "/"@ + ts@ + "-"@ + result_type@ + "."@ + lang@);
    }
    p
}

/// Plans the archive writes for one task: for each submission whose
/// content path does not exist yet (`existing` lists the paths already on
/// disk), one content file plus one metadata sidecar, each path planned at
/// most once. Fails exactly when some timestamp cannot be normalized.
pub fn archive_plan(
    subdir: &str,
    lang: &str,
    subs: &Vec<RawSubmission>,
    existing: &Vec<String>,
) -> (r: Result<Vec<SubmissionFile>, CoreError>)
    ensures
        r is Ok <==> all_ts_ok(subs@),
        r is Err ==> r->Err_0 == CoreError::Decode,
        r is Ok ==> sub_files_view(r->Ok_0@) == archive_plan_spec(
            subdir@,
            lang@,
            subs@,
            strings_set(existing@),
        ),
{
    let n = subs.len();
    let mut plan: Vec<SubmissionFile> = Vec::new();
    let mut planned: Vec<String> = Vec::new();
    let ghost mut present: Set<Seq<char>> = strings_set(existing@);
    let mut i: usize = 0;
    proof {
        assert(subs@.skip(0) =~= subs@);
        assert(sub_files_view(plan@) =~= Seq::<
            (Seq<char>, Seq<char>, Seq<char>, Seq<char>),
        >::empty());
        assert(sub_files_view(plan@) + archive_plan_spec(subdir@, lang@, subs@, present)
            =~= archive_plan_spec(subdir@, lang@, subs@, present));
        assert(present =~= strings_set(existing@).union(strings_set(planned@)));
    }
    while i < n
        invariant
            n == subs@.len(),
            0 <= i <= n,
            forall|k: int| 0 <= k < i ==> ts_ok(#[trigger] subs@[k].timestamp),
            present == strings_set(existing@).union(strings_set(planned@)),
            archive_plan_spec(subdir@, lang@, subs@, strings_set(existing@)) == sub_files_view(
                plan@,
            ) + archive_plan_spec(subdir@, lang@, subs@.skip(i as int), present),
        decreases n - i,
    {
        let sub = &subs[i];
        let ts = match normalize_timestamp(&sub.timestamp) {
            Ok(t) => t,
            Err(_) => {
                proof {
                    assert(!ts_ok(subs@[i as int].timestamp));
                }
                return Err(CoreError::Decode);
            },
        };
        let path = build_sub_path(subdir, lang, &ts, &sub.result_type);
        proof {
            assert(subs@.skip(i as int)[0] == subs@[i as int]);
            assert(subs@.skip(i as int).drop_first() =~= subs@.skip(i as int + 1));
            assert(path@ == sub_path_spec(subdir@, lang@, subs@[i as int]));
        }
        if !contains_string(existing, &path) && !contains_string(&planned, &path) {
            let mut mpath = path.clone();
            mpath.append(".metadata.json");
            let entry = SubmissionFile {
                content_path: path.clone(),
                metadata_path: mpath,
                content: sub.content.clone(),
                metadata: sub.metadata.clone(),
            };
            proof {
                assert(sub_file_view(entry) == plan_entry_spec(subdir@, lang@, subs@[i as int]));
                assert(!present.contains(path@));
            }
            let ghost old_plan = plan@;
            let ghost old_planned = planned@;
            let ghost old_present = present;
            plan.push(entry);
            planned.push(path);
            proof {
                let p = sub_path_spec(subdir@, lang@, subs@[i as int]);
                assert(sub_files_view(plan@) =~= sub_files_view(old_plan) + seq![
                    plan_entry_spec(subdir@, lang@, subs@[i as int]),
                ]);
                present = old_present.insert(p);
                assert(present =~= strings_set(existing@).union(strings_set(planned@))) by {
                    assert forall|s: Seq<char>| present.contains(s) implies strings_set(
                        existing@,
                    ).union(strings_set(planned@)).contains(s) by {
                        if s == p {
                            assert(planned@[planned@.len() - 1]@ == s);
                            assert(in_strings(planned@, s));
                        } else {
                            assert(old_present.contains(s));
                            if in_strings(old_planned, s) {
                                let j = choose|j: int|
                                    0 <= j < old_planned.len() && old_planned[j]@ == s;
                                assert(planned@[j]@ == s);
                                assert(in_strings(planned@, s));
                            }
                        }
                    }
                    assert forall|s: Seq<char>| strings_set(existing@).union(
                        strings_set(planned@),
                    ).contains(s) implies present.contains(s) by {
                        if in_strings(planned@, s) {
                            let j = choose|j: int|
                                0 <= j < planned@.len() && planned@[j]@ == s;
                            if j < planned@.len() - 1 {
                                assert(old_planned[j]@ == s);
                                assert(in_strings(old_planned, s));
                            } else {
                                assert(s == p);
                            }
                        }
                    }
                }
                assert(sub_files_view(old_plan) + (seq![
                    plan_entry_spec(subdir@, lang@, subs@[i as int]),
                ] + archive_plan_spec(subdir@, lang@, subs@.skip(i as int + 1), present))
                    =~= sub_files_view(plan@) + archive_plan_spec(
                    subdir@,
                    lang@,
                    subs@.skip(i as int + 1),
                    present,
                ));
            }
        } else {
            proof {
                assert(in_strings(existing@, path@) || in_strings(planned@, path@));
                assert(present.contains(path@));
            }
        }
        i = i + 1;
    }
    proof {
        assert(subs@.skip(n as int) =~= Seq::<RawSubmission>::empty());
        assert(sub_files_view(plan@) + Seq::<
            (Seq<char>, Seq<char>, Seq<char>, Seq<char>),
        >::empty() =~= sub_files_view(plan@));
    }
    Ok(plan)
}

/// Whether every submission of the list already has its content path in
/// `present`.
pub open spec fn covered(
    subdir: Seq<char>,
    lang: Seq<char>,
    subs: Seq<RawSubmission>,
    present: Set<Seq<char>>,
) -> bool {
    forall|i: int|
        0 <= i < subs.len() ==> present.contains(
            #[trigger] sub_path_spec(subdir, lang, subs[i]),
        )
}

/// Whether some entry of a plan writes the content path `p`.
pub open spec fn plan_has_path(
    plan: Seq<(Seq<char>, Seq<char>, Seq<char>, Seq<char>)>,
    p: Seq<char>,
) -> bool {
    exists|i: int| 0 <= i < plan.len() && (#[trigger] plan[i]).0 == p
}

/// Archiving is idempotent: once every submission's content path exists,
/// a further run plans nothing.
pub proof fn lemma_archive_idempotent(
    subdir: Seq<char>,
    lang: Seq<char>,
    subs: Seq<RawSubmission>,
    present: Set<Seq<char>>,
)
    requires
        covered(subdir, lang, subs, present),
    ensures
        archive_plan_spec(subdir, lang, subs, present) == Seq::<
            (Seq<char>, Seq<char>, Seq<char>, Seq<char>),
        >::empty(),
    decreases subs.len(),
{
    if subs.len() > 0 {
        assert(present.contains(sub_path_spec(subdir, lang, subs[0])));
        assert forall|i: int| 0 <= i < subs.drop_first().len() implies present.contains(
            #[trigger] sub_path_spec(subdir, lang, subs.drop_first()[i]),
        ) by {
            assert(subs.drop_first()[i] == subs[i + 1]);
        }
        lemma_archive_idempotent(subdir, lang, subs.drop_first(), present);
    }
}

/// After one archive run, every submission of the list is covered: its
/// content path either existed before or is written by the plan.
pub proof fn lemma_archive_covers(
    subdir: Seq<char>,
    lang: Seq<char>,
    subs: Seq<RawSubmission>,
    present: Set<Seq<char>>,
)
    ensures
        forall|i: int|
            0 <= i < subs.len() ==> present.contains(
                #[trigger] sub_path_spec(subdir, lang, subs[i]),
            ) || plan_has_path(
                archive_plan_spec(subdir, lang, subs, present),
                sub_path_spec(subdir, lang, subs[i]),
            ),
    decreases subs.len(),
{
    if subs.len() > 0 {
        let p0 = sub_path_spec(subdir, lang, subs[0]);
        let plan = archive_plan_spec(subdir, lang, subs, present);
        if present.contains(p0) {
            lemma_archive_covers(subdir, lang, subs.drop_first(), present);
            assert forall|i: int| 0 <= i < subs.len() implies present.contains(
                #[trigger] sub_path_spec(subdir, lang, subs[i]),
            ) || plan_has_path(plan, sub_path_spec(subdir, lang, subs[i])) by {
                if i > 0 {
                    let q = sub_path_spec(subdir, lang, subs[i]);
                    assert(subs.drop_first()[i - 1] == subs[i]);
                    if !present.contains(q) {
                        let j = choose|j: int|
                            0 <= j < archive_plan_spec(
                                subdir,
                                lang,
                                subs.drop_first(),
                                present,
                            ).len() && (#[trigger] archive_plan_spec(
                                subdir,
                                lang,
                                subs.drop_first(),
                                present,
                            )[j]).0 == q;
                        assert(plan[j].0 == q);
                    }
                }
            }
        } else {
            let present2 = present.insert(p0);
            let tail = archive_plan_spec(subdir, lang, subs.drop_first(), present2);
            lemma_archive_covers(subdir, lang, subs.drop_first(), present2);
            assert(plan[0].0 == p0);
            assert forall|i: int| 0 <= i < subs.len() implies present.contains(
                #[trigger] sub_path_spec(subdir, lang, subs[i]),
            ) || plan_has_path(plan, sub_path_spec(subdir, lang, subs[i])) by {
                let q = sub_path_spec(subdir, lang, subs[i]);
                if i == 0 {
                    assert(plan_has_path(plan, q));
                } else {
                    assert(subs.drop_first()[i - 1] == subs[i]);
                    if !present.contains(q) {
                        if q == p0 {
                            assert(plan_has_path(plan, q));
                        } else {
                            assert(!present2.contains(q));
                            let j = choose|j: int|
                                0 <= j < tail.len() && (#[trigger] tail[j]).0 == q;
                            assert(plan[j + 1].0 == q);
                        }
                    }
                }
            }
        }
    }
}

/// No plan entry re-writes an existing path, and no two entries write the
/// same path: together with `lemma_archive_covers`, exactly one content +
/// metadata pair is planned per missing `(timestamp, result_type)` path.
pub proof fn lemma_archive_paths_distinct(
    subdir: Seq<char>,
    lang: Seq<char>,
    subs: Seq<RawSubmission>,
    present: Set<Seq<char>>,
)
    ensures
        forall|i: int|
            0 <= i < archive_plan_spec(subdir, lang, subs, present).len()
                ==> !present.contains(
                (#[trigger] archive_plan_spec(subdir, lang, subs, present)[i]).0,
            ),
        forall|i: int, j: int|
            0 <= i < j < archive_plan_spec(subdir, lang, subs, present).len()
                ==> (#[trigger] archive_plan_spec(subdir, lang, subs, present)[i]).0 != (
            #[trigger] archive_plan_spec(subdir, lang, subs, present)[j]).0,
    decreases subs.len(),
{
    if subs.len() > 0 {
        let p0 = sub_path_spec(subdir, lang, subs[0]);
        let plan = archive_plan_spec(subdir, lang, subs, present);
        if present.contains(p0) {
            let tail0 = archive_plan_spec(subdir, lang, subs.drop_first(), present);
            lemma_archive_paths_distinct(subdir, lang, subs.drop_first(), present);
            assert(plan == tail0);
            assert forall|i: int| 0 <= i < plan.len() implies !present.contains(
                (#[trigger] plan[i]).0,
            ) by {
                assert(plan[i] == tail0[i]);
            }
            assert forall|i: int, j: int| 0 <= i < j < plan.len() implies (
            #[trigger] plan[i]).0 != (#[trigger] plan[j]).0 by {
                assert(plan[i] == tail0[i]);
                assert(plan[j] == tail0[j]);
            }
        } else {
            let present2 = present.insert(p0);
            let tail = archive_plan_spec(subdir, lang, subs.drop_first(), present2);
            lemma_archive_paths_distinct(subdir, lang, subs.drop_first(), present2);
            assert forall|i: int| 0 <= i < plan.len() implies !present.contains(
                (#[trigger] plan[i]).0,
            ) by {
                if i > 0 {
                    assert(plan[i] == tail[i - 1]);
                    assert(!present2.contains(tail[i - 1].0));
                }
            }
            assert forall|i: int, j: int| 0 <= i < j < plan.len() implies (
            #[trigger] plan[i]).0 != (#[trigger] plan[j]).0 by {
                if i == 0 {
                    assert(plan[j] == tail[j - 1]);
                    assert(!present2.contains(tail[j - 1].0));
                } else {
                    assert(plan[i] == tail[i - 1]);
                    assert(plan[j] == tail[j - 1]);
                }
            }
        }
    }
}

/// Appending one genuinely new submission to an already-archived list
/// plans exactly that one entry; if its path exists too, nothing at all is
/// planned.
pub proof fn lemma_archive_append_one(
    subdir: Seq<char>,
    lang: Seq<char>,
    subs: Seq<RawSubmission>,
    fresh: RawSubmission,
    present: Set<Seq<char>>,
)
    requires
        covered(subdir, lang, subs, present),
    ensures
        archive_plan_spec(subdir, lang, subs.push(fresh), present) == if present.contains(
            sub_path_spec(subdir, lang, fresh),
        ) {
            Seq::<(Seq<char>, Seq<char>, Seq<char>, Seq<char>)>::empty()
        } else {
            seq![plan_entry_spec(subdir, lang, fresh)]
        },
    decreases subs.len(),
{
    let whole = subs.push(fresh);
    if subs.len() == 0 {
        assert(whole[0] == fresh);
        assert(whole.drop_first() =~= Seq::<RawSubmission>::empty());
        if !present.contains(sub_path_spec(subdir, lang, fresh)) {
            assert(archive_plan_spec(subdir, lang, whole, present) == seq![
                plan_entry_spec(subdir, lang, whole[0]),
            ] + archive_plan_spec(
                subdir,
                lang,
                whole.drop_first(),
                present.insert(sub_path_spec(subdir, lang, fresh)),
            ));
            assert(seq![plan_entry_spec(subdir, lang, fresh)] + Seq::<
                (Seq<char>, Seq<char>, Seq<char>, Seq<char>),
            >::empty() =~= seq![plan_entry_spec(subdir, lang, fresh)]);
        } else {
            assert(archive_plan_spec(subdir, lang, whole, present) == archive_plan_spec(
                subdir,
                lang,
                whole.drop_first(),
                present,
            ));
        }
    } else {
        assert(whole[0] == subs[0]);
        assert(present.contains(sub_path_spec(subdir, lang, subs[0])));
        assert(whole.drop_first() =~= subs.drop_first().push(fresh));
        assert forall|i: int| 0 <= i < subs.drop_first().len() implies present.contains(
            #[trigger] sub_path_spec(subdir, lang, subs.drop_first()[i]),
        ) by {
            assert(subs.drop_first()[i] == subs[i + 1]);
        }
        lemma_archive_append_one(subdir, lang, subs.drop_first(), fresh, present);
        assert(archive_plan_spec(subdir, lang, whole, present) == archive_plan_spec(
            subdir,
            lang,
            subs.drop_first().push(fresh),
            present,
        ));
    }
}

} // verus!
