use vstd::prelude::*;
use vstd::string::StringExecFns;

verus! {

/// A place where a task can be served, with its optional time windows. Each
/// window is written as its start and end, in seconds.
pub struct JobPlace {
    pub location: usize,
    pub duration: i64,
    pub times: Option<Vec<Vec<i64>>>,
}

/// One task of a plan job: where it can be served and what it loads or unloads.
pub struct JobTask {
    pub places: Vec<JobPlace>,
    pub demand: Option<Vec<i32>>,
}

/// A job as the plan defines it, before it is turned into a core job.
pub struct PlanJob {
    pub id: String,
    pub pickups: Option<Vec<JobTask>>,
    pub deliveries: Option<Vec<JobTask>>,
    pub replacements: Option<Vec<JobTask>>,
    pub services: Option<Vec<JobTask>>,
}

/// The raw job definitions of a plan, as validation reads them.
pub struct ValidationContext {
    pub jobs: Vec<PlanJob>,
}

impl ValidationContext {
    pub fn jobs(&self) -> (r: &Vec<PlanJob>)
        ensures
            r == &self.jobs,
    {
        &self.jobs
    }
}

/// A failed validation rule: its code, what is wrong, and what to do about it.
pub struct ValidationError {
    pub code: String,
    pub message: String,
    pub action: String,
}

/// The three texts of a validation error.
pub struct ErrorText {
    pub code: Seq<char>,
    pub message: Seq<char>,
    pub action: Seq<char>,
}

impl View for ValidationError {
    type V = ErrorText;

    open spec fn view(&self) -> ErrorText {
        ErrorText { code: self.code@, message: self.message@, action: self.action@ }
    }
}

impl ValidationError {
    pub fn new(code: String, message: String, action: String) -> (r: ValidationError)
        ensures
            r.code == code,
            r.message == message,
            r.action == action,
    {
        ValidationError { code, message, action }
    }
}

/// The error of a rule that failed on the jobs `ids`.
pub open spec fn rule_error(
    code: Seq<char>,
    prefix: Seq<char>,
    ids: Seq<Seq<char>>,
    action: Seq<char>,
) -> ErrorText {
    ErrorText { code, message: prefix + join(ids, ", "@), action }
}

/// Builds the error of a rule that failed on the jobs `ids`.
fn rule_failure(code: &str, prefix: &str, ids: &Vec<String>, action: &str) -> (r: ValidationError)
    ensures
        r@ == rule_error(code@, prefix@, texts(ids@), action@),
{
    let mut message = prefix.to_owned();
    let joined = join_ids(ids);
    message.append(joined.as_str());
    ValidationError::new(code.to_owned(), message, action.to_owned())
}

/// The ids of `jobs`, in order.
pub open spec fn job_ids(jobs: Seq<PlanJob>) -> Seq<Seq<char>> {
    jobs.map_values(|j: PlanJob| j.id@)
}

/// Each id that occurs more than once in `ids`, once, in the order in which it
/// first repeats.
pub open spec fn duplicates(ids: Seq<Seq<char>>) -> Seq<Seq<char>>
    decreases ids.len(),
{
    if ids.len() == 0 {
        Seq::empty()
    } else {
        let prev = duplicates(ids.drop_last());
        if ids.drop_last().contains(ids.last()) && !prev.contains(ids.last()) {
            prev.push(ids.last())
        } else {
            prev
        }
    }
}

/// The outcome of the rule that ids are unique.
pub open spec fn e1000_outcome(jobs: Seq<PlanJob>) -> Option<ErrorText> {
    let d = duplicates(job_ids(jobs));
    if d.len() == 0 {
        None
    } else {
        Some(
            rule_error(
                "E1000"@,
                "duplicated job ids: "@,
                d,
                "remove jobs with the same ids"@,
            ),
        )
    }
}

fn contains_text(v: &Vec<String>, s: &String) -> (r: bool)
    ensures
        r == texts(v@).contains(s@),
{
    let mut i: usize = 0;
    while i < v.len()
        invariant
            i <= v.len(),
            forall|j: int| 0 <= j < i ==> v@[j]@ != s@,
        decreases v.len() - i,
    {
        if v[i] == *s {
            assert(texts(v@)[i as int] == s@);
            return true;
        }
        i = i + 1;
    }
    assert forall|j: int| 0 <= j < texts(v@).len() implies texts(v@)[j] != s@ by {
        assert(texts(v@)[j] == v@[j]@);
    }
    false
}

/// Each repeated job id once, in the order in which it first repeats.
fn duplicate_ids(jobs: &Vec<PlanJob>) -> (r: Vec<String>)
    ensures
        texts(r@) == duplicates(job_ids(jobs@)),
{
    let mut seen: Vec<String> = Vec::new();
    let mut dups: Vec<String> = Vec::new();
    let mut i: usize = 0;
    while i < jobs.len()
        invariant
            i <= jobs.len(),
            texts(seen@) == job_ids(jobs@.take(i as int)),
            texts(dups@) == duplicates(job_ids(jobs@.take(i as int))),
        decreases jobs.len() - i,
    {
        let id = &jobs[i].id;
        let ghost ids = job_ids(jobs@.take(i as int + 1));
        proof {
            assert(ids.drop_last() =~= job_ids(jobs@.take(i as int)));
            assert(ids.last() == id@);
        }
        if contains_text(&seen, id) && !contains_text(&dups, id) {
            let ghost before = dups@;
            dups.push(id.clone());
            assert(texts(dups@) =~= texts(before).push(id@));
        }
        let ghost seen_before = seen@;
        seen.push(id.clone());
        assert(texts(seen@) =~= texts(seen_before).push(id@));
        assert(ids =~= ids.drop_last().push(ids.last()));
        i = i + 1;
    }
    assert(jobs@.take(jobs.len() as int) =~= jobs@);
    dups
}

/// The pieces of `s` with `sep` between each two neighbours.
pub open spec fn join(s: Seq<Seq<char>>, sep: Seq<char>) -> Seq<char>
    decreases s.len(),
{
    if s.len() == 0 {
        Seq::empty()
    } else if s.len() == 1 {
        s[0]
    } else {
        join(s.drop_last(), sep) + sep + s.last()
    }
}

/// What a list of strings holds, as character sequences.
pub open spec fn texts(v: Seq<String>) -> Seq<Seq<char>> {
    v.map_values(|s: String| s@)
}

/// Joins `ids` with a comma and a space between neighbours.
fn join_ids(ids: &Vec<String>) -> (r: String)
    ensures
        r@ == join(texts(ids@), ", "@),
{
    let mut r = String::new();
    let mut i: usize = 0;
    while i < ids.len()
        invariant
            i <= ids.len(),
            r@ == join(texts(ids@.take(i as int)), ", "@),
        decreases ids.len() - i,
    {
        proof {
            reveal_strlit(", ");
            assert(texts(ids@.take(i as int + 1)).drop_last() =~= texts(ids@.take(i as int)));
        }
        if i > 0 {
            r.append(", ");
        }
        r.append(ids[i].as_str());
        i = i + 1;
    }
    assert(ids@.take(ids.len() as int) =~= ids@);
    r
}

/// Checks that plan has no jobs with duplicate ids.
pub fn check_e1000_no_jobs_with_duplicate_ids(ctx: &ValidationContext) -> (r: Result<(), ValidationError>)
    ensures
        match r {
            Ok(_) => e1000_outcome(ctx.jobs@) is None,
            Err(e) => e1000_outcome(ctx.jobs@) == Some(e@),
        },
{
    let ids = duplicate_ids(ctx.jobs());
    if ids.len() == 0 {
        Ok(())
    } else {
        Err(rule_failure("E1000", "duplicated job ids: ", &ids, "remove jobs with the same ids"))
    }
}

/// The tasks of an optional task list.
pub open spec fn task_list(tasks: Option<Vec<JobTask>>) -> Seq<JobTask> {
    match tasks {
        Some(t) => t@,
        None => Seq::empty(),
    }
}

/// Every task of the list carries a demand exactly when `needed` holds.
pub open spec fn demand_presence_ok(tasks: Option<Vec<JobTask>>, needed: bool) -> bool {
    forall|i: int| 0 <= i < task_list(tasks).len() ==> (task_list(tasks)[i].demand is Some) == needed
}

/// Pickup, delivery and replacement tasks carry a demand; service tasks carry none.
pub open spec fn job_demand_types_ok(job: PlanJob) -> bool {
    &&& demand_presence_ok(job.pickups, true)
    &&& demand_presence_ok(job.deliveries, true)
    &&& demand_presence_ok(job.replacements, true)
    &&& demand_presence_ok(job.services, false)
}

/// The demand of a task on axis `a`; an axis past the end of the demand counts as zero.
pub open spec fn demand_at(task: JobTask, a: int) -> int {
    match task.demand {
        Some(d) => if 0 <= a < d.len() {
            d@[a] as int
        } else {
            0
        },
        None => 0,
    }
}

/// The summed demand of `tasks` on axis `a`.
pub open spec fn total_at(tasks: Seq<JobTask>, a: int) -> int
    decreases tasks.len(),
{
    if tasks.len() == 0 {
        0
    } else {
        total_at(tasks.drop_last(), a) + demand_at(tasks.last(), a)
    }
}

/// The list holds at least one task.
pub open spec fn has_tasks(tasks: Option<Vec<JobTask>>) -> bool {
    task_list(tasks).len() > 0
}

/// A job with both pickups and deliveries picks up as much as it delivers, on every axis.
pub open spec fn job_demand_balanced(job: PlanJob) -> bool {
    has_tasks(job.pickups) && has_tasks(job.deliveries) ==> forall|a: int|
        0 <= a ==> #[trigger] total_at(task_list(job.pickups), a) == total_at(
            task_list(job.deliveries),
            a,
        )
}

/// A time window is its start and its end, the start no later than the end.
pub open spec fn window_ok(w: Seq<i64>) -> bool {
    w.len() == 2 && w[0] <= w[1]
}

/// Two well-formed windows share at least one instant.
pub open spec fn windows_intersect(a: Seq<i64>, b: Seq<i64>) -> bool {
    a[0] <= b[1] && b[0] <= a[1]
}

/// All windows are well-formed and no two of them intersect.
pub open spec fn time_windows_ok(tws: Seq<Vec<i64>>) -> bool {
    &&& forall|i: int| 0 <= i < tws.len() ==> window_ok(#[trigger] tws[i]@)
    &&& forall|i: int, j: int|
        0 <= i < j < tws.len() ==> !windows_intersect(#[trigger] tws[i]@, #[trigger] tws[j]@)
}

/// The time windows of a place, if it has any, are correct.
pub open spec fn place_times_ok(place: JobPlace) -> bool {
    match place.times {
        Some(tws) => time_windows_ok(tws@),
        None => true,
    }
}

/// The time windows of every place of every task of the list are correct.
pub open spec fn task_times_ok(tasks: Option<Vec<JobTask>>) -> bool {
    forall|i: int, k: int|
        0 <= i < task_list(tasks).len() && 0 <= k < task_list(tasks)[i].places.len()
            ==> place_times_ok(#[trigger] task_list(tasks)[i].places@[k])
}

/// The time windows of the job's pickups and deliveries are correct.
pub open spec fn job_times_ok(job: PlanJob) -> bool {
    task_times_ok(job.pickups) && task_times_ok(job.deliveries)
}

/// A rule that is checked on each job by itself.
pub enum JobRule {
    DemandTypes,
    DemandBalance,
    TimeWindows,
}

/// The job breaks the rule.
pub open spec fn breaks(rule: JobRule, job: PlanJob) -> bool {
    match rule {
        JobRule::DemandTypes => !job_demand_types_ok(job),
        JobRule::DemandBalance => !job_demand_balanced(job),
        JobRule::TimeWindows => !job_times_ok(job),
    }
}

/// The ids of the jobs that break the rule, in order.
pub open spec fn breaking_ids(rule: JobRule, jobs: Seq<PlanJob>) -> Seq<Seq<char>>
    decreases jobs.len(),
{
    if jobs.len() == 0 {
        Seq::empty()
    } else {
        let prev = breaking_ids(rule, jobs.drop_last());
        if breaks(rule, jobs.last()) {
            prev.push(jobs.last().id@)
        } else {
            prev
        }
    }
}

/// The outcome of a rule that is checked job by job: no error when no job
/// breaks it, else one error that lists them all.
pub open spec fn job_rule_outcome(
    rule: JobRule,
    jobs: Seq<PlanJob>,
    code: Seq<char>,
    prefix: Seq<char>,
    action: Seq<char>,
) -> Option<ErrorText> {
    let ids = breaking_ids(rule, jobs);
    if ids.len() == 0 {
        None
    } else {
        Some(rule_error(code, prefix, ids, action))
    }
}

fn demand_presence_matches(tasks: &Option<Vec<JobTask>>, needed: bool) -> (r: bool)
    ensures
        r == demand_presence_ok(*tasks, needed),
{
    match tasks {
        None => true,
        Some(ts) => {
            let mut i: usize = 0;
            while i < ts.len()
                invariant
                    i <= ts.len(),
                    task_list(*tasks) == ts@,
                    forall|j: int| 0 <= j < i ==> (ts@[j].demand is Some) == needed,
                decreases ts.len() - i,
            {
                if ts[i].demand.is_some() != needed {
                    return false;
                }
                i = i + 1;
            }
            true
        },
    }
}

fn demand_types_ok(job: &PlanJob) -> (r: bool)
    ensures
        r == job_demand_types_ok(*job),
{
    demand_presence_matches(&job.pickups, true) && demand_presence_matches(&job.deliveries, true)
        && demand_presence_matches(&job.replacements, true) && demand_presence_matches(
        &job.services,
        false,
    )
}

/// The number of axes of the longest demand among `tasks`.
pub open spec fn axes(tasks: Seq<JobTask>) -> int
    decreases tasks.len(),
{
    if tasks.len() == 0 {
        0
    } else {
        let d = match tasks.last().demand {
            Some(d) => d.len() as int,
            None => 0,
        };
        let prev = axes(tasks.drop_last());
        if d > prev {
            d
        } else {
            prev
        }
    }
}

proof fn lemma_total_past_axes(tasks: Seq<JobTask>, a: int)
    requires
        a >= axes(tasks),
    ensures
        total_at(tasks, a) == 0,
    decreases tasks.len(),
{
    if tasks.len() > 0 {
        lemma_total_past_axes(tasks.drop_last(), a);
    }
}

fn axis_count(tasks: &Vec<JobTask>) -> (r: usize)
    ensures
        r == axes(tasks@),
{
    let mut r: usize = 0;
    let mut i: usize = 0;
    while i < tasks.len()
        invariant
            i <= tasks.len(),
            r == axes(tasks@.take(i as int)),
        decreases tasks.len() - i,
    {
        assert(tasks@.take(i as int + 1).drop_last() =~= tasks@.take(i as int));
        if let Some(d) = &tasks[i].demand {
            if d.len() > r {
                r = d.len();
            }
        }
        i = i + 1;
    }
    assert(tasks@.take(tasks.len() as int) =~= tasks@);
    r
}

fn total(tasks: &Vec<JobTask>, a: usize) -> (r: i128)
    ensures
        r == total_at(tasks@, a as int),
{
    let mut r: i128 = 0;
    let mut i: usize = 0;
    while i < tasks.len()
        invariant
            i <= tasks.len(),
            r == total_at(tasks@.take(i as int), a as int),
            -(i * 0x8000_0000) <= r <= i * 0x8000_0000,
        decreases tasks.len() - i,
    {
        assert(tasks@.take(i as int + 1).drop_last() =~= tasks@.take(i as int));
        if let Some(d) = &tasks[i].demand {
            if a < d.len() {
                r = r + d[a] as i128;
            }
        }
        i = i + 1;
    }
    assert(tasks@.take(tasks.len() as int) =~= tasks@);
    r
}

fn demand_balanced(job: &PlanJob) -> (r: bool)
    ensures
        r == job_demand_balanced(*job),
{
    match (&job.pickups, &job.deliveries) {
        (Some(pickups), Some(deliveries)) => {
            if pickups.len() == 0 || deliveries.len() == 0 {
                return true;
            }
            let p = axis_count(pickups);
            let d = axis_count(deliveries);
            let n = if p > d {
                p
            } else {
                d
            };
            let mut a: usize = 0;
            while a < n
                invariant
                    a <= n,
                    task_list(job.pickups) == pickups@,
                    task_list(job.deliveries) == deliveries@,
                    pickups.len() > 0 && deliveries.len() > 0,
                    forall|b: int|
                        0 <= b < a ==> #[trigger] total_at(pickups@, b) == total_at(deliveries@, b),
                decreases n - a,
            {
                if total(pickups, a) != total(deliveries, a) {
                    assert(total_at(task_list(job.pickups), a as int) != total_at(
                        task_list(job.deliveries),
                        a as int,
                    ));
                    return false;
                }
                a = a + 1;
            }
            assert forall|b: int| 0 <= b implies #[trigger] total_at(pickups@, b) == total_at(
                deliveries@,
                b,
            ) by {
                if b >= n {
                    lemma_total_past_axes(pickups@, b);
                    lemma_total_past_axes(deliveries@, b);
                }
            }
            true
        },
        _ => true,
    }
}

/// Checks that all windows are well-formed and that no two of them intersect.
pub fn check_time_windows(tws: &Vec<Vec<i64>>) -> (r: bool)
    ensures
        r == time_windows_ok(tws@),
{
    let mut i: usize = 0;
    while i < tws.len()
        invariant
            i <= tws.len(),
            forall|j: int| 0 <= j < i ==> window_ok(#[trigger] tws@[j]@),
            forall|j: int, k: int|
                0 <= j < k < i ==> !windows_intersect(#[trigger] tws@[j]@, #[trigger] tws@[k]@),
        decreases tws.len() - i,
    {
        let w = &tws[i];
        if w.len() != 2 || w[0] > w[1] {
            return false;
        }
        let mut j: usize = 0;
        while j < i
            invariant
                j <= i < tws.len(),
                w@ == tws@[i as int]@,
                window_ok(w@),
                forall|k: int| 0 <= k < i ==> window_ok(#[trigger] tws@[k]@),
                forall|k: int| 0 <= k < j ==> !windows_intersect(#[trigger] tws@[k]@, w@),
            decreases i - j,
        {
            let v = &tws[j];
            if v[0] <= w[1] && w[0] <= v[1] {
                return false;
            }
            j = j + 1;
        }
        i = i + 1;
    }
    true
}

fn task_times_valid(tasks: &Option<Vec<JobTask>>) -> (r: bool)
    ensures
        r == task_times_ok(*tasks),
{
    match tasks {
        None => true,
        Some(ts) => {
            let mut i: usize = 0;
            while i < ts.len()
                invariant
                    i <= ts.len(),
                    task_list(*tasks) == ts@,
                    forall|j: int, k: int|
                        0 <= j < i && 0 <= k < ts@[j].places.len() ==> place_times_ok(
                            #[trigger] ts@[j].places@[k],
                        ),
                decreases ts.len() - i,
            {
                let places = &ts[i].places;
                let mut k: usize = 0;
                while k < places.len()
                    invariant
                        i < ts.len(),
                        task_list(*tasks) == ts@,
                        k <= places.len(),
                        places == ts@[i as int].places,
                        forall|m: int| 0 <= m < k ==> place_times_ok(#[trigger] places@[m]),
                    decreases places.len() - k,
                {
                    if let Some(tws) = &places[k].times {
                        if !check_time_windows(tws) {
                            assert(!place_times_ok(task_list(*tasks)[i as int].places@[k as int]));
                            return false;
                        }
                    }
                    k = k + 1;
                }
                i = i + 1;
            }
            true
        },
    }
}

fn times_ok(job: &PlanJob) -> (r: bool)
    ensures
        r == job_times_ok(*job),
{
    task_times_valid(&job.pickups) && task_times_valid(&job.deliveries)
}

fn breaks_rule(rule: &JobRule, job: &PlanJob) -> (r: bool)
    ensures
        r == breaks(*rule, *job),
{
    match rule {
        JobRule::DemandTypes => !demand_types_ok(job),
        JobRule::DemandBalance => !demand_balanced(job),
        JobRule::TimeWindows => !times_ok(job),
    }
}

fn ids_breaking(rule: JobRule, jobs: &Vec<PlanJob>) -> (r: Vec<String>)
    ensures
        texts(r@) == breaking_ids(rule, jobs@),
{
    let mut ids: Vec<String> = Vec::new();
    let mut i: usize = 0;
    while i < jobs.len()
        invariant
            i <= jobs.len(),
            texts(ids@) == breaking_ids(rule, jobs@.take(i as int)),
        decreases jobs.len() - i,
    {
        assert(jobs@.take(i as int + 1).drop_last() =~= jobs@.take(i as int));
        if breaks_rule(&rule, &jobs[i]) {
            let ghost before = ids@;
            ids.push(jobs[i].id.clone());
            assert(texts(ids@) =~= texts(before).push(jobs@[i as int].id@));
        }
        i = i + 1;
    }
    assert(jobs@.take(jobs.len() as int) =~= jobs@);
    ids
}

fn job_rule_check(
    rule: JobRule,
    jobs: &Vec<PlanJob>,
    code: &str,
    prefix: &str,
    action: &str,
) -> (r: Result<(), ValidationError>)
    ensures
        match r {
            Ok(_) => job_rule_outcome(rule, jobs@, code@, prefix@, action@) is None,
            Err(e) => job_rule_outcome(rule, jobs@, code@, prefix@, action@) == Some(e@),
        },
{
    let ids = ids_breaking(rule, jobs);
    if ids.len() == 0 {
        Ok(())
    } else {
        Err(rule_failure(code, prefix, &ids, action))
    }
}

/// The outcome of the rule that task types and demands agree.
pub open spec fn e1001_outcome(jobs: Seq<PlanJob>) -> Option<ErrorText> {
    job_rule_outcome(
        JobRule::DemandTypes,
        jobs,
        "E1001"@,
        "invalid job task demand in jobs: "@,
        "correct demand based on job task type"@,
    )
}

/// The outcome of the rule that pickups and deliveries balance.
pub open spec fn e1002_outcome(jobs: Seq<PlanJob>) -> Option<ErrorText> {
    job_rule_outcome(
        JobRule::DemandBalance,
        jobs,
        "E1002"@,
        "invalid pickup and delivery demand in jobs: "@,
        "correct demand so that sum of pickups equal to sum of deliveries"@,
    )
}

/// The outcome of the rule that time windows are correct.
pub open spec fn e1003_outcome(jobs: Seq<PlanJob>) -> Option<ErrorText> {
    job_rule_outcome(
        JobRule::TimeWindows,
        jobs,
        "E1003"@,
        "invalid time windows in jobs: "@,
        "change job task place time windows so that they don't intersect"@,
    )
}

/// Checks that jobs have proper demand.
pub fn check_e1001_correct_job_types_demand(ctx: &ValidationContext) -> (r: Result<(), ValidationError>)
    ensures
        match r {
            Ok(_) => e1001_outcome(ctx.jobs@) is None,
            Err(e) => e1001_outcome(ctx.jobs@) == Some(e@),
        },
{
    job_rule_check(
        JobRule::DemandTypes,
        ctx.jobs(),
        "E1001",
        "invalid job task demand in jobs: ",
        "correct demand based on job task type",
    )
}

/// Checks that sum of pickup/delivery demand should be equal.
pub fn check_e1002_multiple_pickups_deliveries_demand(ctx: &ValidationContext) -> (r: Result<
    (),
    ValidationError,
>)
    ensures
        match r {
            Ok(_) => e1002_outcome(ctx.jobs@) is None,
            Err(e) => e1002_outcome(ctx.jobs@) == Some(e@),
        },
{
    job_rule_check(
        JobRule::DemandBalance,
        ctx.jobs(),
        "E1002",
        "invalid pickup and delivery demand in jobs: ",
        "correct demand so that sum of pickups equal to sum of deliveries",
    )
}

/// Checks that job's time windows are correct.
pub fn check_e1003_time_window_correctness(ctx: &ValidationContext) -> (r: Result<(), ValidationError>)
    ensures
        match r {
            Ok(_) => e1003_outcome(ctx.jobs@) is None,
            Err(e) => e1003_outcome(ctx.jobs@) == Some(e@),
        },
{
    job_rule_check(
        JobRule::TimeWindows,
        ctx.jobs(),
        "E1003",
        "invalid time windows in jobs: ",
        "change job task place time windows so that they don't intersect",
    )
}

/// The error of an outcome, if there is one.
pub open spec fn present(o: Option<ErrorText>) -> Seq<ErrorText> {
    match o {
        Some(e) => seq![e],
        None => Seq::empty(),
    }
}

/// The errors of all job rules, in the order in which the rules are checked.
pub open spec fn job_errors(jobs: Seq<PlanJob>) -> Seq<ErrorText> {
    present(e1000_outcome(jobs)) + present(e1001_outcome(jobs)) + present(e1002_outcome(jobs))
        + present(e1003_outcome(jobs))
}

/// What a list of errors says.
pub open spec fn error_texts(v: Seq<ValidationError>) -> Seq<ErrorText> {
    v.map_values(|e: ValidationError| e@)
}

fn push_failure(errors: &mut Vec<ValidationError>, r: Result<(), ValidationError>)
    ensures
        error_texts(final(errors)@) == error_texts(old(errors)@) + match r {
            Ok(_) => Seq::<ErrorText>::empty(),
            Err(e) => seq![e@],
        },
{
    let ghost before = errors@;
    match r {
        Ok(_) => {
            assert(error_texts(errors@) =~= error_texts(before) + Seq::<ErrorText>::empty());
        },
        Err(e) => {
            errors.push(e);
            assert(error_texts(errors@) =~= error_texts(before) + seq![errors@.last()@]);
        },
    }
}

/// Validates jobs from the plan.
pub fn validate_jobs(ctx: &ValidationContext) -> (r: Result<(), Vec<ValidationError>>)
    ensures
        match r {
            Ok(_) => job_errors(ctx.jobs@).len() == 0,
            Err(errors) => job_errors(ctx.jobs@).len() > 0 && error_texts(errors@) == job_errors(
                ctx.jobs@,
            ),
        },
{
    let mut errors: Vec<ValidationError> = Vec::new();
    let ghost jobs = ctx.jobs@;
    push_failure(&mut errors, check_e1000_no_jobs_with_duplicate_ids(ctx));
    push_failure(&mut errors, check_e1001_correct_job_types_demand(ctx));
    push_failure(&mut errors, check_e1002_multiple_pickups_deliveries_demand(ctx));
    push_failure(&mut errors, check_e1003_time_window_correctness(ctx));
    assert(error_texts(errors@) =~= job_errors(jobs));
    if errors.len() == 0 {
        Ok(())
    } else {
        Err(errors)
    }
}

} // verus!
