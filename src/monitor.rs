//! Bookkeeping of the reader task that runs for each attached device:
//! which devices need a new task at each reconciliation, and which
//! finished tasks are dropped.
use vstd::prelude::*;

verus! {

/// A reader task started for the device at `path`.
pub struct Task {
    pub path: String,
    pub id: u64,
    /// Whether the task has ended.
    pub finished: bool,
}

/// What a `Task` holds, with its path as characters.
pub struct TaskView {
    pub path: Seq<char>,
    pub id: u64,
    pub finished: bool,
}

impl View for Task {
    type V = TaskView;

    open spec fn view(&self) -> TaskView {
        TaskView { path: self.path@, id: self.id, finished: self.finished }
    }
}

/// Some task for `path` is still running.
pub open spec fn running(tasks: Seq<TaskView>, path: Seq<char>) -> bool {
    exists|i: int| 0 <= i < tasks.len() && #[trigger] tasks[i].path == path && !tasks[i].finished
}

/// Some task, running or finished, is recorded for `path`.
pub open spec fn has_entry(tasks: Seq<TaskView>, path: Seq<char>) -> bool {
    exists|i: int| 0 <= i < tasks.len() && #[trigger] tasks[i].path == path
}

/// No two tasks are recorded for one path.
pub open spec fn unique_paths(tasks: Seq<TaskView>) -> bool {
    forall|i: int, j: int|
        0 <= i < j < tasks.len() ==> #[trigger] tasks[i].path != #[trigger] tasks[j].path
}

/// The tasks that have not finished, in order.
pub open spec fn unfinished(tasks: Seq<TaskView>) -> Seq<TaskView>
    decreases tasks.len(),
{
    if tasks.len() == 0 {
        tasks
    } else {
        let rest = unfinished(tasks.drop_last());
        if tasks.last().finished {
            rest
        } else {
            rest.push(tasks.last())
        }
    }
}

/// The tasks after the task `id` reported that it ended.
pub open spec fn after_finished(tasks: Seq<TaskView>, id: u64) -> Seq<TaskView> {
    Seq::new(
        tasks.len(),
        |i: int|
            if tasks[i].id == id {
                TaskView { path: tasks[i].path, id: tasks[i].id, finished: true }
            } else {
                tasks[i]
            },
    )
}

/// The tasks after a task `id` was started for `path`, unless one is
/// recorded for it already.
pub open spec fn after_record(tasks: Seq<TaskView>, path: Seq<char>, id: u64) -> Seq<TaskView> {
    if has_entry(tasks, path) {
        tasks
    } else {
        tasks.push(TaskView { path, id, finished: false })
    }
}

/// `path` is one of `paths`.
pub open spec fn lists(paths: Seq<String>, path: Seq<char>) -> bool {
    exists|i: int| 0 <= i < paths.len() && #[trigger] paths[i]@ == path
}

/// The devices that need a new task: attached, and with no running task.
pub open spec fn needs_task(tasks: Seq<TaskView>, present: Seq<String>, path: Seq<char>) -> bool {
    lists(present, path) && !running(tasks, path)
}

proof fn lemma_unfinished(tasks: Seq<TaskView>, path: Seq<char>)
    ensures
        has_entry(unfinished(tasks), path) == running(tasks, path),
        running(unfinished(tasks), path) == running(tasks, path),
    decreases tasks.len(),
{
    if tasks.len() > 0 {
        let init = tasks.drop_last();
        lemma_unfinished(init, path);
        let rest = unfinished(init);
        if running(tasks, path) {
            let i = choose|i: int|
                0 <= i < tasks.len() && #[trigger] tasks[i].path == path && !tasks[i].finished;
            if i < tasks.len() - 1 {
                assert(init[i].path == path);
                let k = choose|k: int|
                    0 <= k < rest.len() && #[trigger] rest[k].path == path && !rest[k].finished;
                if !tasks.last().finished {
                    assert(unfinished(tasks)[k] == rest[k]);
                }
            } else {
                assert(unfinished(tasks).last() == tasks.last());
            }
        }
        if has_entry(unfinished(tasks), path) {
            let k = choose|k: int|
                0 <= k < unfinished(tasks).len() && #[trigger] unfinished(tasks)[k].path == path;
            if k < rest.len() {
                assert(rest[k] == unfinished(tasks)[k]);
                assert(has_entry(rest, path));
                let i = choose|i: int|
                    0 <= i < init.len() && #[trigger] init[i].path == path && !init[i].finished;
                assert(tasks[i] == init[i]);
            } else {
                assert(tasks[tasks.len() - 1].path == path);
            }
        }
        if running(unfinished(tasks), path) {
            let k = choose|k: int|
                0 <= k < unfinished(tasks).len() && #[trigger] unfinished(tasks)[k].path == path
                    && !unfinished(tasks)[k].finished;
            assert(has_entry(unfinished(tasks), path));
        }
        if running(tasks, path) {
            let k = choose|k: int|
                0 <= k < unfinished(tasks).len() && #[trigger] unfinished(tasks)[k].path == path;
            lemma_unfinished_all_running(tasks);
            assert(!unfinished(tasks)[k].finished);
        }
    }
}

proof fn lemma_unfinished_all_running(tasks: Seq<TaskView>)
    ensures
        forall|k: int|
            0 <= k < unfinished(tasks).len() ==> !(#[trigger] unfinished(tasks)[k]).finished,
    decreases tasks.len(),
{
    if tasks.len() > 0 {
        let rest = unfinished(tasks.drop_last());
        lemma_unfinished_all_running(tasks.drop_last());
        assert forall|k: int| 0 <= k < unfinished(tasks).len() implies !(
        #[trigger] unfinished(tasks)[k]).finished by {
            if k < rest.len() {
                assert(unfinished(tasks)[k] == rest[k]);
            }
        }
    }
}

proof fn lemma_unfinished_unique(tasks: Seq<TaskView>)
    requires
        unique_paths(tasks),
    ensures
        unique_paths(unfinished(tasks)),
    decreases tasks.len(),
{
    if tasks.len() > 0 {
        let init = tasks.drop_last();
        assert(unique_paths(init)) by {
            assert forall|i: int, j: int| 0 <= i < j < init.len() implies #[trigger] init[i].path
                != #[trigger] init[j].path by {
                assert(tasks[i] == init[i] && tasks[j] == init[j]);
            }
        }
        lemma_unfinished_unique(init);
        lemma_unfinished(init, tasks.last().path);
        let rest = unfinished(init);
        if !tasks.last().finished {
            assert(!running(init, tasks.last().path)) by {
                if running(init, tasks.last().path) {
                    let i = choose|i: int|
                        0 <= i < init.len() && #[trigger] init[i].path == tasks.last().path
                            && !init[i].finished;
                    assert(tasks[i] == init[i]);
                    assert(tasks[i].path != tasks[tasks.len() - 1].path);
                }
            }
            let all = unfinished(tasks);
            assert forall|i: int, j: int| 0 <= i < j < all.len() implies #[trigger] all[i].path
                != #[trigger] all[j].path by {
                assert(all[i] == rest[i]);
                if j < rest.len() {
                    assert(all[j] == rest[j]);
                } else {
                    assert(!has_entry(rest, tasks.last().path));
                    assert(rest[i].path != tasks.last().path);
                }
            }
        }
    }
}

proof fn lemma_unfinished_from(tasks: Seq<TaskView>)
    ensures
        forall|k: int|
            0 <= k < unfinished(tasks).len() ==> exists|i: int|
                0 <= i < tasks.len() && tasks[i] == #[trigger] unfinished(tasks)[k],
    decreases tasks.len(),
{
    if tasks.len() > 0 {
        let init = tasks.drop_last();
        let rest = unfinished(init);
        lemma_unfinished_from(init);
        assert forall|k: int| 0 <= k < unfinished(tasks).len() implies exists|i: int|
            0 <= i < tasks.len() && tasks[i] == #[trigger] unfinished(tasks)[k] by {
            if k < rest.len() {
                assert(unfinished(tasks)[k] == rest[k]);
                let i = choose|i: int| 0 <= i < init.len() && init[i] == #[trigger] rest[k];
                assert(tasks[i] == init[i]);
            } else {
                assert(tasks[tasks.len() - 1] == unfinished(tasks)[k]);
            }
        }
    }
}

/// Adding a path to a list of paths adds it, and only it, to what the list
/// holds.
pub proof fn lemma_lists_push(paths: Seq<String>, path: String)
    ensures
        forall|p: Seq<char>| lists(paths.push(path), p) <==> (lists(paths, p) || path@ == p),
{
    assert forall|p: Seq<char>| lists(paths.push(path), p) <==> (lists(paths, p) || path@ == p) by {
        if lists(paths, p) {
            let k = choose|k: int| 0 <= k < paths.len() && #[trigger] paths[k]@ == p;
            assert(paths.push(path)[k]@ == p);
        }
        if path@ == p {
            assert(paths.push(path)[paths.len() as int]@ == p);
        }
        if lists(paths.push(path), p) {
            let k = choose|k: int| 0 <= k < paths.len() + 1 && #[trigger] paths.push(path)[k]@ == p;
            if k < paths.len() {
                assert(paths[k]@ == p);
            }
        }
    }
}

/// The views of tasks, in order.
pub open spec fn views(tasks: Seq<Task>) -> Seq<TaskView> {
    tasks.map_values(|t: Task| t@)
}

/// A device attached at one reconciliation, gone at the next and attached
/// again at a third gets a task at the first and none at the second. At the
/// third it gets a second task if and only if the first has ended, whether
/// the end was reported before or after the second reconciliation.
pub proof fn lemma_replug(
    tasks: Seq<TaskView>,
    path: Seq<char>,
    id: u64,
    first: Seq<String>,
    second: Seq<String>,
    third: Seq<String>,
)
    requires
        !running(tasks, path),
        lists(first, path),
        !lists(second, path),
        lists(third, path),
    ensures
        needs_task(tasks, first, path),
        ({
            let started = after_record(unfinished(tasks), path, id);
            &&& !needs_task(started, second, path)
            &&& !needs_task(after_finished(started, id), second, path)
            &&& !needs_task(unfinished(started), third, path)
            &&& needs_task(unfinished(after_finished(started, id)), third, path)
            &&& needs_task(after_finished(unfinished(started), id), third, path)
        }),
{
    lemma_unfinished(tasks, path);
    let pruned = unfinished(tasks);
    let started = after_record(pruned, path, id);
    assert(started == pruned.push(TaskView { path, id, finished: false }));
    let last = started.len() - 1;
    assert(started[last].path == path);
    assert(running(started, path));
    lemma_unfinished(started, path);
    let ended = after_finished(started, id);
    assert forall|i: int| 0 <= i < ended.len() && #[trigger] ended[i].path == path implies ended[i].finished by {
        if i < last {
            assert(pruned[i].path == path);
        }
    }
    lemma_unfinished(ended, path);
    let pruned2 = unfinished(started);
    let ended2 = after_finished(pruned2, id);
    assert forall|i: int| 0 <= i < ended2.len() && #[trigger] ended2[i].path == path implies ended2[i].finished by {
        lemma_unfinished_from(started);
        let j = choose|j: int| 0 <= j < started.len() && started[j] == #[trigger] pruned2[i];
        if j < last {
            assert(pruned[j].path == path);
        }
    }
}

/// The reader tasks, one recorded per device path.
pub struct Monitor {
    tasks: Vec<Task>,
}

impl View for Monitor {
    type V = Seq<TaskView>;

    closed spec fn view(&self) -> Seq<TaskView> {
        views(self.tasks@)
    }
}

impl Monitor {
    /// No task recorded.
    pub fn new() -> (r: Monitor)
        ensures
            r@ == Seq::<TaskView>::empty(),
            unique_paths(r@),
    {
        let r = Monitor { tasks: Vec::new() };
        assert(r@ =~= Seq::<TaskView>::empty());
        r
    }

    /// Records that the task `id` has ended.
    pub fn task_finished(&mut self, id: u64)
        ensures
            final(self)@ == after_finished(old(self)@, id),
            unique_paths(old(self)@) ==> unique_paths(final(self)@),
    {
        let mut old_tasks: Vec<Task> = Vec::new();
        std::mem::swap(&mut old_tasks, &mut self.tasks);
        let ghost before = views(old_tasks@);
        let mut i: usize = 0;
        while i < old_tasks.len()
            invariant
                i <= old_tasks@.len(),
                before == views(old_tasks@),
                views(self.tasks@) =~= after_finished(before, id).take(i as int),
            decreases old_tasks.len() - i,
        {
            let t = &old_tasks[i];
            let task = Task { path: t.path.clone(), id: t.id, finished: t.finished || t.id == id };
            let ghost prev = self.tasks@;
            assert(task@ == after_finished(before, id)[i as int]);
            self.tasks.push(task);
            assert(self.tasks@ == prev.push(task));
            assert(views(prev.push(task)) =~= views(prev).push(task@));
            assert(after_finished(before, id).take(i + 1) =~= after_finished(before, id).take(
                i as int,
            ).push(task@));
            i += 1;
        }
    }

    /// Reconciles the tasks with the devices attached now (`present`, by
    /// path): finished tasks are dropped, and the paths returned, each once,
    /// are those of attached devices with no running task, which need one.
    pub fn reconcile(&mut self, present: &Vec<String>) -> (spawn: Vec<String>)
        ensures
            final(self)@ == unfinished(old(self)@),
            unique_paths(old(self)@) ==> unique_paths(final(self)@),
            forall|p: Seq<char>| lists(spawn@, p) <==> needs_task(old(self)@, present@, p),
            forall|a: int, b: int|
                0 <= a < b < spawn@.len() ==> #[trigger] spawn@[a]@ != #[trigger] spawn@[b]@,
    {
        let ghost before = self@;
        let mut old_tasks: Vec<Task> = Vec::new();
        std::mem::swap(&mut old_tasks, &mut self.tasks);
        let mut i: usize = 0;
        while i < old_tasks.len()
            invariant
                i <= old_tasks@.len(),
                before == views(old_tasks@),
                views(self.tasks@) == unfinished(before.take(i as int)),
            decreases old_tasks.len() - i,
        {
            let t = &old_tasks[i];
            assert(before.take(i + 1).drop_last() =~= before.take(i as int));
            if !t.finished {
                self.tasks.push(Task { path: t.path.clone(), id: t.id, finished: false });
                assert(views(self.tasks@) =~= unfinished(before.take(i + 1)));
            }
            i += 1;
        }
        assert(before.take(i as int) =~= before);
        let mut spawn: Vec<String> = Vec::new();
        let mut j: usize = 0;
        while j < present.len()
            invariant
                j <= present@.len(),
                self@ == unfinished(before),
                forall|p: Seq<char>|
                    lists(spawn@, p) <==> needs_task(before, present@.take(j as int), p),
                forall|a: int, b: int|
                    0 <= a < b < spawn@.len() ==> #[trigger] spawn@[a]@ != #[trigger] spawn@[b]@,
            decreases present.len() - j,
        {
            let path = &present[j];
            let known = self.has_task(path);
            let listed = lists_path(&spawn, path);
            let ghost prev = spawn@;
            proof {
                lemma_unfinished(before, path@);
                lemma_lists_push(present@.take(j as int), *path);
                assert(present@.take(j + 1) =~= present@.take(j as int).push(*path));
            }
            if !known && !listed {
                let copy = path.clone();
                proof {
                    lemma_lists_push(prev, copy);
                }
                spawn.push(copy);
            }
            assert forall|p: Seq<char>|
                lists(spawn@, p) <==> needs_task(before, present@.take(j + 1), p) by {
                assert(lists(prev, p) <==> needs_task(before, present@.take(j as int), p));
            }
            j += 1;
        }
        assert(present@.take(j as int) =~= present@);
        proof {
            if unique_paths(before) {
                lemma_unfinished_unique(before);
            }
        }
        spawn
    }

    /// Records that task `id` was started for `path`, unless a task is
    /// recorded for it already; returns whether it was recorded.
    pub fn record(&mut self, path: String, id: u64) -> (added: bool)
        ensures
            added == !has_entry(old(self)@, path@),
            final(self)@ == after_record(old(self)@, path@, id),
            unique_paths(old(self)@) ==> unique_paths(final(self)@),
    {
        if self.has_task(&path) {
            false
        } else {
            self.tasks.push(Task { path, id, finished: false });
            assert(self@ =~= after_record(old(self)@, path@, id));
            true
        }
    }

    /// Whether a task is recorded for `path`.
    pub fn has_task(&self, path: &String) -> (r: bool)
        ensures
            r == has_entry(self@, path@),
    {
        let mut i: usize = 0;
        while i < self.tasks.len()
            invariant
                i <= self.tasks@.len(),
                forall|k: int| 0 <= k < i ==> #[trigger] self@[k].path != path@,
            decreases self.tasks.len() - i,
        {
            if self.tasks[i].path == *path {
                assert(self@[i as int].path == path@);
                return true;
            }
            i += 1;
        }
        false
    }
}

fn lists_path(paths: &Vec<String>, path: &String) -> (r: bool)
    ensures
        r == lists(paths@, path@),
{
    let mut i: usize = 0;
    while i < paths.len()
        invariant
            i <= paths@.len(),
            forall|k: int| 0 <= k < i ==> #[trigger] paths@[k]@ != path@,
        decreases paths.len() - i,
    {
        if paths[i] == *path {
            return true;
        }
        i += 1;
    }
    false
}

} // verus!
