//! Scheduled task groups: the list that the web UI edits, and which of its
//! entries are due at a given moment.

use vstd::prelude::*;
use crate::cron::{cron_matches, cron_matches_spec, parse_cron_spec, validate_cron, CronError, CronErrorView, CronParts, CronTime};
use crate::json::{copy_items, json_get, json_str_member, Json, JsonView};

verus! {

/// A group of tasks that runs when its cron expression matches.
#[derive(Debug, PartialEq)]
pub struct ScheduledTask {
    /// Unique id.
    pub id: String,
    /// Display name.
    pub name: String,
    /// Cron expression `minute hour day month weekday`.
    pub cron: String,
    /// Whether the schedule is active.
    pub enabled: bool,
    /// The tasks to append, in the format of `/api/task`.
    pub tasks: Vec<Json>,
}

/// The mathematical form of a [`ScheduledTask`].
pub struct ScheduledTaskView {
    pub id: Seq<char>,
    pub name: Seq<char>,
    pub cron: Seq<char>,
    pub enabled: bool,
    pub tasks: Seq<JsonView>,
}

impl View for ScheduledTask {
    type V = ScheduledTaskView;

    open spec fn view(&self) -> ScheduledTaskView {
        ScheduledTaskView {
            id: self.id@,
            name: self.name@,
            cron: self.cron@,
            enabled: self.enabled,
            tasks: self.tasks@.map_values(|j: Json| j@),
        }
    }
}

impl Clone for ScheduledTask {
    fn clone(&self) -> (res: Self)
        ensures
            res@ == self@,
    {
        let tasks = copy_items(&self.tasks);
        let res = ScheduledTask {
            id: self.id.clone(),
            name: self.name.clone(),
            cron: self.cron.clone(),
            enabled: self.enabled,
            tasks,
        };
        assert(res@.tasks =~= self@.tasks);
        res
    }
}

/// The views of a list of scheduled tasks.
pub open spec fn views(v: Seq<ScheduledTask>) -> Seq<ScheduledTaskView> {
    v.map_values(|t: ScheduledTask| t@)
}

/// A copy of a list of scheduled tasks.
fn copy_all(v: &Vec<ScheduledTask>) -> (res: Vec<ScheduledTask>)
    ensures
        views(res@) == views(v@),
{
    let mut out: Vec<ScheduledTask> = Vec::new();
    let mut i: usize = 0;
    while i < v.len()
        invariant
            i <= v.len(),
            views(out@) == views(v@).take(i as int),
        decreases v.len() - i,
    {
        let t = v[i].clone();
        let ghost prev = out@;
        out.push(t);
        assert(views(out@) =~= views(prev).push(v@[i as int]@));
        assert(views(v@).take(i + 1) =~= views(v@).take(i as int).push(v@[i as int]@));
        i = i + 1;
    }
    assert(views(v@).take(v.len() as int) =~= views(v@));
    out
}

/// What one entry of a scheduled group appends, in the format of
/// `/api/task`: its string `task_type` and its `params` (`null` where absent);
/// an entry without a string `task_type` appends nothing.
pub open spec fn task_entry_spec(entry: JsonView) -> Option<(Seq<char>, JsonView)> {
    match json_str_member(entry, "task_type"@) {
        None => None,
        Some(t) => Some(
            (
                t,
                match json_get(entry, "params"@) {
                    Some(p) => p,
                    None => JsonView::Null,
                },
            ),
        ),
    }
}

/// The task type and parameters that one entry of a scheduled group appends.
pub fn task_entry(entry: &Json) -> (res: Option<(String, Json)>)
    ensures
        match res {
            Some((t, p)) => task_entry_spec(entry@) == Some((t@, p@)),
            None => task_entry_spec(entry@) is None,
        },
{
    let task_type = match entry.str_member("task_type") {
        Some(t) => t.clone(),
        None => return None,
    };
    let params = match entry.get("params") {
        Some(p) => p.copy(),
        None => Json::Null,
    };
    Some((task_type, params))
}

/// The position of the first task with id `id`.
pub open spec fn find_id(s: Seq<ScheduledTaskView>, id: Seq<char>) -> Option<int>
    decreases s.len(),
{
    if s.len() == 0 {
        None
    } else if s[0].id == id {
        Some(0)
    } else {
        match find_id(s.drop_first(), id) {
            Some(j) => Some(j + 1),
            None => None,
        }
    }
}

/// `t` put in the place of the first task with its id, or appended where
/// there is none.
pub open spec fn upsert(s: Seq<ScheduledTaskView>, t: ScheduledTaskView) -> Seq<ScheduledTaskView> {
    match find_id(s, t.id) {
        Some(i) => s.update(i, t),
        None => s.push(t),
    }
}

/// The tasks whose id is not `id`, in their order.
pub open spec fn without_id(s: Seq<ScheduledTaskView>, id: Seq<char>) -> Seq<ScheduledTaskView> {
    s.filter(|t: ScheduledTaskView| t.id != id)
}

/// Whether a scheduled task fires at `now`: it is enabled and its cron matches.
pub open spec fn is_due(t: ScheduledTaskView, now: CronTime) -> bool {
    t.enabled && cron_matches_spec(t.cron, now)
}

/// The tasks that fire at `now`, in their order.
pub open spec fn due_spec(s: Seq<ScheduledTaskView>, now: CronTime) -> Seq<ScheduledTaskView> {
    s.filter(|t: ScheduledTaskView| is_due(t, now))
}

/// The wait from a clock reading (`second` of the minute, `nanosecond` of the
/// second) to the background scheduler's first wake-up: the next whole or
/// half minute. Waking from then on every thirty seconds, one wake-up in each
/// minute falls on its first instant, where `tick` runs the due tasks.
pub fn nanos_to_next_check(second: u32, nanosecond: u32) -> (res: u64)
    ensures
        res == 30_000_000_000 - ((second % 30) as int * 1_000_000_000 + (nanosecond % 1_000_000_000) as int),
        0 < res <= 30_000_000_000,
        (second as int * 1_000_000_000 + (nanosecond % 1_000_000_000) as int + res) % 30_000_000_000 == 0,
{
    let past: u64 = (second % 30) as u64 * 1_000_000_000 + (nanosecond % 1_000_000_000) as u64;
    let res = 30_000_000_000 - past;
    assert((second as int * 1_000_000_000 + (nanosecond % 1_000_000_000) as int + res) % 30_000_000_000 == 0)
        by (nonlinear_arith)
        requires
            res == 30_000_000_000 - ((second % 30) as int * 1_000_000_000 + (nanosecond % 1_000_000_000) as int),
    ;
    res
}

/// The tasks that a wake-up of the background scheduler at `now` runs.
pub open spec fn tick_spec(s: Seq<ScheduledTaskView>, now: CronTime) -> Seq<ScheduledTaskView> {
    if now.second > 2 {
        Seq::empty()
    } else {
        due_spec(s, now)
    }
}

proof fn lemma_find_id(s: Seq<ScheduledTaskView>, id: Seq<char>, i: int)
    requires
        0 <= i <= s.len(),
        forall|j: int| 0 <= j < i ==> (#[trigger] s[j]).id != id,
    ensures
        i < s.len() && s[i].id == id ==> find_id(s, id) == Some(i),
        i == s.len() ==> find_id(s, id) is None,
    decreases i,
{
    if i > 0 {
        let d = s.drop_first();
        assert forall|j: int| 0 <= j < i - 1 implies (#[trigger] d[j]).id != id by {
            assert(d[j] == s[j + 1]);
        }
        lemma_find_id(d, id, i - 1);
        assert(s[0].id != id);
        if i < s.len() {
            assert(d[i - 1] == s[i]);
        }
    }
}

proof fn lemma_filter_step(s: Seq<ScheduledTaskView>, p: spec_fn(ScheduledTaskView) -> bool, i: int)
    requires
        0 <= i < s.len(),
    ensures
        s.take(i + 1).filter(p) == if p(s[i]) {
            s.take(i).filter(p).push(s[i])
        } else {
            s.take(i).filter(p)
        },
{
    reveal(Seq::filter);
    assert(s.take(i + 1).drop_last() =~= s.take(i));
}

/// The list of scheduled tasks, kept in the order in which they were added.
pub struct Scheduler {
    tasks: Vec<ScheduledTask>,
}

impl View for Scheduler {
    type V = Seq<ScheduledTaskView>;

    closed spec fn view(&self) -> Seq<ScheduledTaskView> {
        views(self.tasks@)
    }
}

impl Scheduler {
    /// A scheduler holding `tasks`, as loaded from the configuration file.
    pub fn new(tasks: Vec<ScheduledTask>) -> (res: Scheduler)
        ensures
            res@ == views(tasks@),
    {
        Scheduler { tasks }
    }

    /// All scheduled tasks.
    pub fn list(&self) -> (res: Vec<ScheduledTask>)
        ensures
            views(res@) == self@,
    {
        copy_all(&self.tasks)
    }

    /// Adds a scheduled task after checking its cron expression; a task whose
    /// expression does not parse leaves the list unchanged.
    pub fn add(&mut self, task: ScheduledTask) -> (res: Result<(), CronError>)
        ensures
            match res {
                Ok(()) => parse_cron_spec(task.cron@) is Ok && final(self)@ == old(self)@.push(task@),
                Err(e) => parse_cron_spec(task.cron@) == Err::<CronParts, CronErrorView>(e@)
                    && final(self)@ == old(self)@,
            },
    {
        match validate_cron(task.cron.as_str()) {
            Err(e) => Err(e),
            Ok(()) => {
                let ghost before = self@;
                self.tasks.push(task);
                assert(self@ =~= before.push(task@));
                Ok(())
            },
        }
    }

    /// Replaces the first task that has the id of `task` with `task`, or adds
    /// `task` where there is none, after checking its cron expression; a task
    /// whose expression does not parse leaves the list unchanged.
    pub fn update(&mut self, task: ScheduledTask) -> (res: Result<(), CronError>)
        ensures
            match res {
                Ok(()) => parse_cron_spec(task.cron@) is Ok && final(self)@ == upsert(old(self)@, task@),
                Err(e) => parse_cron_spec(task.cron@) == Err::<CronParts, CronErrorView>(e@)
                    && final(self)@ == old(self)@,
            },
    {
        if let Err(e) = validate_cron(task.cron.as_str()) {
            return Err(e);
        }
        let ghost before = self@;
        let ghost tv = task@;
        let mut i: usize = 0;
        while i < self.tasks.len()
            invariant
                i <= self.tasks.len(),
                self@ == before,
                before == old(self)@,
                parse_cron_spec(task.cron@) is Ok,
                tv == task@,
                forall|j: int| 0 <= j < i ==> (#[trigger] before[j]).id != tv.id,
            decreases self.tasks.len() - i,
        {
            if self.tasks[i].id == task.id {
                proof {
                    assert(before[i as int].id == tv.id);
                    lemma_find_id(before, tv.id, i as int);
                }
                self.tasks.set(i, task);
                assert(self@ =~= before.update(i as int, tv));
                return Ok(());
            }
            i = i + 1;
        }
        proof {
            lemma_find_id(before, tv.id, i as int);
        }
        self.tasks.push(task);
        assert(self@ =~= before.push(tv));
        Ok(())
    }

    /// Removes every task with id `id`.
    pub fn remove(&mut self, id: &str)
        ensures
            final(self)@ == without_id(old(self)@, id@),
    {
        let key = id.to_string();
        let ghost before = self@;
        let ghost p = |t: ScheduledTaskView| t.id != id@;
        let mut kept: Vec<ScheduledTask> = Vec::new();
        let mut i: usize = 0;
        while i < self.tasks.len()
            invariant
                i <= self.tasks.len(),
                self@ == before,
                key@ == id@,
                p == (|t: ScheduledTaskView| t.id != id@),
                views(kept@) == before.take(i as int).filter(p),
            decreases self.tasks.len() - i,
        {
            proof {
                lemma_filter_step(before, p, i as int);
            }
            if !(self.tasks[i].id == key) {
                let t = self.tasks[i].clone();
                kept.push(t);
                assert(views(kept@) =~= before.take(i as int).filter(p).push(before[i as int]));
            }
            i = i + 1;
        }
        assert(before.take(i as int) =~= before);
        self.tasks = kept;
    }

    /// What one wake-up of the background scheduler runs: nothing unless the
    /// reading falls in the first three seconds of a minute, else the tasks
    /// due at `now`.
    pub fn tick(&self, now: CronTime) -> (res: Vec<ScheduledTask>)
        ensures
            views(res@) == tick_spec(self@, now),
    {
        if now.second > 2 {
            Vec::new()
        } else {
            self.due_tasks(now)
        }
    }

    /// The enabled tasks whose cron expression matches `now`, in list order.
    pub fn due_tasks(&self, now: CronTime) -> (res: Vec<ScheduledTask>)
        ensures
            views(res@) == due_spec(self@, now),
    {
        let ghost p = |t: ScheduledTaskView| is_due(t, now);
        let mut due: Vec<ScheduledTask> = Vec::new();
        let mut i: usize = 0;
        while i < self.tasks.len()
            invariant
                i <= self.tasks.len(),
                p == (|t: ScheduledTaskView| is_due(t, now)),
                views(due@) == self@.take(i as int).filter(p),
            decreases self.tasks.len() - i,
        {
            proof {
                lemma_filter_step(self@, p, i as int);
            }
            if self.tasks[i].enabled && cron_matches(self.tasks[i].cron.as_str(), now) {
                let t = self.tasks[i].clone();
                due.push(t);
                assert(views(due@) =~= self@.take(i as int).filter(p).push(self@[i as int]));
            }
            i = i + 1;
        }
        assert(self@.take(i as int) =~= self@);
        due
    }
}


proof fn lemma_filter_keeps_all(s: Seq<ScheduledTaskView>, p: spec_fn(ScheduledTaskView) -> bool)
    requires
        forall|i: int| 0 <= i < s.len() ==> p(#[trigger] s[i]),
    ensures
        s.filter(p) == s,
    decreases s.len(),
{
    reveal(Seq::filter);
    if s.len() > 0 {
        let d = s.drop_last();
        assert forall|i: int| 0 <= i < d.len() implies p(#[trigger] d[i]) by {
            assert(d[i] == s[i]);
        }
        lemma_filter_keeps_all(d, p);
        assert(p(s[s.len() - 1]));
        assert(d.push(s.last()) =~= s);
    }
}

/// Removing the id of a task just added, whose id no other task had, gives
/// back the list as it was before the addition.
pub proof fn law_remove_undoes_add(s: Seq<ScheduledTaskView>, t: ScheduledTaskView)
    requires
        forall|i: int| 0 <= i < s.len() ==> (#[trigger] s[i]).id != t.id,
    ensures
        without_id(s.push(t), t.id) == s,
{
    let p = |x: ScheduledTaskView| x.id != t.id;
    reveal(Seq::filter);
    assert(s.push(t).drop_last() =~= s);
    assert forall|i: int| 0 <= i < s.len() implies p(#[trigger] s[i]) by {}
    lemma_filter_keeps_all(s, p);
}

/// After a removal no task has the removed id, and every task with another
/// id is still there.
pub proof fn law_remove_drops_exactly_the_id(s: Seq<ScheduledTaskView>, id: Seq<char>)
    ensures
        forall|i: int| 0 <= i < without_id(s, id).len() ==> (#[trigger] without_id(s, id)[i]).id != id,
        forall|i: int| 0 <= i < s.len() && s[i].id != id ==> without_id(s, id).contains(#[trigger] s[i]),
{
    let p = |x: ScheduledTaskView| x.id != id;
    assert forall|i: int| 0 <= i < without_id(s, id).len() implies (#[trigger] without_id(s, id)[i]).id != id by {
        s.lemma_filter_pred(p, i);
    }
    assert forall|i: int| 0 <= i < s.len() && s[i].id != id implies without_id(s, id).contains(#[trigger] s[i]) by {
        s.lemma_filter_contains(p, i);
    }
}

/// An update with an id that no task has adds the task at the end, as `add` does.
pub proof fn law_update_of_new_id_appends(s: Seq<ScheduledTaskView>, t: ScheduledTaskView)
    requires
        forall|i: int| 0 <= i < s.len() ==> (#[trigger] s[i]).id != t.id,
    ensures
        upsert(s, t) == s.push(t),
{
    lemma_find_id(s, t.id, s.len() as int);
}

proof fn lemma_find_id_bounds(s: Seq<ScheduledTaskView>, id: Seq<char>)
    ensures
        find_id(s, id) matches Some(i) ==> {
            &&& 0 <= i < s.len()
            &&& s[i].id == id
            &&& forall|j: int| 0 <= j < i ==> (#[trigger] s[j]).id != id
        },
        find_id(s, id) is None ==> forall|j: int| 0 <= j < s.len() ==> (#[trigger] s[j]).id != id,
    decreases s.len(),
{
    if s.len() > 0 {
        let d = s.drop_first();
        lemma_find_id_bounds(d, id);
        if s[0].id != id {
            assert forall|j: int| 0 < j < s.len() implies s[j] == d[j - 1] by {}
        }
    }
}

/// After an update the list holds the task, in place of the first task that
/// had its id or at the end; the other tasks stay where they were.
pub proof fn law_update_places_task(s: Seq<ScheduledTaskView>, t: ScheduledTaskView)
    ensures
        match find_id(s, t.id) {
            Some(i) => upsert(s, t).len() == s.len() && upsert(s, t)[i] == t && forall|j: int|
                0 <= j < s.len() && j != i ==> #[trigger] upsert(s, t)[j] == s[j],
            None => upsert(s, t).len() == s.len() + 1 && upsert(s, t)[s.len() as int] == t
                && forall|j: int| 0 <= j < s.len() ==> #[trigger] upsert(s, t)[j] == s[j],
        },
{
    lemma_find_id_bounds(s, t.id);
}

/// Updating twice with the same task is the same as updating once.
pub proof fn law_update_idempotent(s: Seq<ScheduledTaskView>, t: ScheduledTaskView)
    ensures
        upsert(upsert(s, t), t) == upsert(s, t),
{
    lemma_find_id_bounds(s, t.id);
    let u = upsert(s, t);
    match find_id(s, t.id) {
        Some(i) => {
            assert forall|j: int| 0 <= j < i implies (#[trigger] u[j]).id != t.id by {
                assert(u[j] == s[j]);
            }
            lemma_find_id(u, t.id, i);
            assert(u.update(i, t) =~= u);
        },
        None => {
            assert forall|j: int| 0 <= j < s.len() implies (#[trigger] u[j]).id != t.id by {
                assert(u[j] == s[j]);
            }
            lemma_find_id(u, t.id, s.len() as int);
            assert(u.update(s.len() as int, t) =~= u);
        },
    }
}

/// The due tasks are exactly the enabled tasks whose cron matches: each due
/// task is one, and each such task is due.
pub proof fn law_due_tasks_are_enabled_and_match(s: Seq<ScheduledTaskView>, now: CronTime)
    ensures
        forall|i: int| 0 <= i < due_spec(s, now).len() ==> {
            &&& (#[trigger] due_spec(s, now)[i]).enabled
            &&& cron_matches_spec(due_spec(s, now)[i].cron, now)
            &&& s.contains(due_spec(s, now)[i])
        },
        forall|i: int| 0 <= i < s.len() && s[i].enabled && cron_matches_spec(s[i].cron, now)
            ==> due_spec(s, now).contains(#[trigger] s[i]),
{
    let p = |x: ScheduledTaskView| is_due(x, now);
    assert forall|i: int| 0 <= i < due_spec(s, now).len() implies {
        &&& (#[trigger] due_spec(s, now)[i]).enabled
        &&& cron_matches_spec(due_spec(s, now)[i].cron, now)
        &&& s.contains(due_spec(s, now)[i])
    } by {
        s.lemma_filter_pred(p, i);
        lemma_filter_subset(s, p, i);
    }
    assert forall|i: int| 0 <= i < s.len() && s[i].enabled && cron_matches_spec(s[i].cron, now)
        implies due_spec(s, now).contains(#[trigger] s[i]) by {
        s.lemma_filter_contains(p, i);
    }
}

proof fn lemma_filter_subset(s: Seq<ScheduledTaskView>, p: spec_fn(ScheduledTaskView) -> bool, i: int)
    requires
        0 <= i < s.filter(p).len(),
    ensures
        s.contains(s.filter(p)[i]),
    decreases s.len(),
{
    reveal(Seq::filter);
    if s.len() > 0 {
        let d = s.drop_last();
        let f = d.filter(p);
        if p(s.last()) && i == f.len() {
            assert(s[s.len() - 1] == s.filter(p)[i]);
        } else {
            assert(s.filter(p)[i] == f[i]);
            lemma_filter_subset(d, p, i);
            let k = choose|k: int| 0 <= k < d.len() && d[k] == f[i];
            assert(s[k] == d[k]);
        }
    }
}

/// A wake-up runs only enabled tasks of the list whose cron fires at `now`;
/// within the first three seconds of a minute it runs every such task, in
/// list order.
pub proof fn law_tick_runs_enabled_matching_tasks(s: Seq<ScheduledTaskView>, now: CronTime)
    ensures
        forall|i: int| 0 <= i < tick_spec(s, now).len() ==> {
            &&& (#[trigger] tick_spec(s, now)[i]).enabled
            &&& cron_matches_spec(tick_spec(s, now)[i].cron, now)
            &&& s.contains(tick_spec(s, now)[i])
        },
        now.second <= 2 ==> forall|i: int|
            0 <= i < s.len() && s[i].enabled && cron_matches_spec(s[i].cron, now)
                ==> tick_spec(s, now).contains(#[trigger] s[i]),
        now.second <= 2 ==> tick_spec(s, now) == due_spec(s, now),
{
    law_due_tasks_are_enabled_and_match(s, now);
}

/// A disabled task is never run by a wake-up.
pub proof fn law_disabled_task_never_runs(s: Seq<ScheduledTaskView>, now: CronTime, t: ScheduledTaskView)
    requires
        !t.enabled,
    ensures
        !tick_spec(s, now).contains(t),
{
    law_tick_runs_enabled_matching_tasks(s, now);
    if tick_spec(s, now).contains(t) {
        let i = choose|i: int| 0 <= i < tick_spec(s, now).len() && tick_spec(s, now)[i] == t;
        assert(tick_spec(s, now)[i].enabled);
    }
}

/// A wake-up outside the first three seconds of a minute runs nothing.
pub proof fn law_tick_outside_first_seconds_runs_nothing(s: Seq<ScheduledTaskView>, now: CronTime)
    requires
        now.second > 2,
    ensures
        tick_spec(s, now).len() == 0,
{
}

} // verus!
