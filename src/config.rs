//! The task configuration: the records the scheduler runs and the edits
//! that the command surface makes to them.
use vstd::prelude::*;

verus! {

/// A geographical position, held as the decimal strings it was entered as.
#[derive(Clone, Debug, PartialEq, Eq)]
pub struct Location {
    /// Latitude, in decimal degrees.
    pub lat: String,
    /// Longitude, in decimal degrees.
    pub lng: String,
    /// Accuracy of the position.
    pub acc: String,
}

/// A scheduled check-in for one course.
#[derive(Clone, Debug, PartialEq, Eq)]
pub struct Task {
    /// Unique identifier.
    pub id: String,
    /// Display name.
    pub name: String,
    /// Local wall-clock time to run at, as `HH:MM`.
    pub time: String,
    /// The course to check in to.
    pub class_id: String,
    /// The session cookie of the portal.
    pub cookie: String,
    /// Where the check-in claims to be.
    pub location: Location,
    /// Whether the task runs at all.
    pub enable: bool,
}

/// The messaging webhook that results are reported to.
#[derive(Clone, Debug, PartialEq, Eq)]
pub struct WeComConfig {
    /// Whether notifications are sent.
    pub enable: bool,
    /// Tenant id.
    pub corpid: String,
    /// Tenant secret.
    pub secret: String,
    /// Application id.
    pub agentid: String,
    /// Recipients, such as `@all`.
    pub touser: String,
}

/// Settings shared by all tasks.
#[derive(Clone, Debug, PartialEq, Eq)]
pub struct GlobalConfig {
    /// The webhook settings.
    pub wecom: WeComConfig,
    /// Whether debug output is on.
    pub debug: bool,
}

/// The whole configuration.
#[derive(Clone, Debug, PartialEq, Eq)]
pub struct AppConfig {
    /// The scheduled tasks.
    pub tasks: Vec<Task>,
    /// The shared settings.
    pub global: GlobalConfig,
}

impl Default for AppConfig {
    /// No tasks, and notifications off, addressed to `@all`.
    fn default() -> (r: AppConfig)
        ensures
            r.tasks@.len() == 0,
            !r.global.wecom.enable,
            r.global.wecom.corpid@.len() == 0,
            r.global.wecom.secret@.len() == 0,
            r.global.wecom.agentid@.len() == 0,
            r.global.wecom.touser@ == "@all"@,
            !r.global.debug,
    {
        AppConfig {
            tasks: Vec::new(),
            global: GlobalConfig {
                wecom: WeComConfig {
                    enable: false,
                    corpid: String::new(),
                    secret: String::new(),
                    agentid: String::new(),
                    touser: String::from_str("@all"),
                },
                debug: false,
            },
        }
    }
}

/// Relies on uuid's `Uuid::new_v4` and its `Display`, which writes the
/// hyphenated form: 36 characters.
#[verifier::external_body]
fn fresh_id() -> (r: String)
    ensures
        r@.len() == 36,
{
    uuid::Uuid::new_v4().to_string()
}

/// The first position in `tasks` whose id reads `id`.
pub open spec fn first_with_id(tasks: Seq<Task>, id: Seq<char>, i: int) -> bool {
    &&& 0 <= i < tasks.len()
    &&& tasks[i].id@ == id
    &&& forall|j: int| 0 <= j < i ==> #[trigger] tasks[j].id@ != id
}

pub open spec fn has_id(tasks: Seq<Task>, id: Seq<char>) -> bool {
    exists|i: int| 0 <= i < tasks.len() && #[trigger] tasks[i].id@ == id
}

/// The tasks that are due at the local time `now`: enabled, with `now` as
/// their time, in their order.
pub open spec fn due_spec(tasks: Seq<Task>, now: Seq<char>) -> Seq<Task>
    decreases tasks.len(),
{
    if tasks.len() == 0 {
        tasks
    } else {
        let rest = due_spec(tasks.drop_last(), now);
        let t = tasks.last();
        if t.enable && t.time@ == now {
            rest.push(t)
        } else {
            rest
        }
    }
}

/// The position of the first task whose id reads `id`, if any.
fn position_of(tasks: &Vec<Task>, id: &String) -> (r: Option<usize>)
    ensures
        match r {
            Some(i) => first_with_id(tasks@, id@, i as int),
            None => !has_id(tasks@, id@),
        },
{
    let mut i: usize = 0;
    while i < tasks.len()
        invariant
            i <= tasks.len(),
            forall|j: int| 0 <= j < i ==> #[trigger] tasks@[j].id@ != id@,
        decreases tasks.len() - i,
    {
        if tasks[i].id == *id {
            return Some(i);
        }
        i = i + 1;
    }
    None
}

impl AppConfig {
    /// Appends `task`, giving it a fresh 36-character id where its id is
    /// empty.
    pub fn add_task(&mut self, task: Task)
        ensures
            final(self).global == old(self).global,
            final(self).tasks@.len() == old(self).tasks@.len() + 1,
            final(self).tasks@.drop_last() == old(self).tasks@,
            task.id@.len() > 0 ==> final(self).tasks@.last() == task,
            task.id@.len() == 0 ==> ({
                let t = final(self).tasks@.last();
                t.id@.len() == 36 && t == (Task { id: t.id, ..task })
            }),
    {
        let mut task = task;
        if task.id.as_str().unicode_len() == 0 {
            task.id = fresh_id();
        }
        self.tasks.push(task);
        assert(self.tasks@.drop_last() =~= old(self).tasks@);
    }

    /// Replaces the first task with the id of `task` by `task`; an error,
    /// and no change, where no task has that id.
    pub fn update_task(&mut self, task: Task) -> (r: Result<(), String>)
        ensures
            final(self).global == old(self).global,
            r is Ok <==> has_id(old(self).tasks@, task.id@),
            r is Ok ==> exists|i: int|
                first_with_id(old(self).tasks@, task.id@, i) && final(self).tasks@
                    == old(self).tasks@.update(i, task),
            r is Err ==> final(self).tasks@ == old(self).tasks@ && r->Err_0@ == "Task not found"@,
    {
        match position_of(&self.tasks, &task.id) {
            Some(i) => {
                let ghost id = task.id@;
                self.tasks.set(i, task);
                assert(first_with_id(old(self).tasks@, id, i as int));
                Ok(())
            },
            None => Err(String::from_str("Task not found")),
        }
    }

    /// Removes the first task whose id reads `task_id`; an error, and no
    /// change, where no task has that id.
    pub fn delete_task(&mut self, task_id: &String) -> (r: Result<(), String>)
        ensures
            final(self).global == old(self).global,
            r is Ok <==> has_id(old(self).tasks@, task_id@),
            r is Ok ==> exists|i: int|
                first_with_id(old(self).tasks@, task_id@, i) && final(self).tasks@
                    == old(self).tasks@.remove(i),
            r is Err ==> final(self).tasks@ == old(self).tasks@ && r->Err_0@ == "Task not found"@,
    {
        match position_of(&self.tasks, task_id) {
            Some(i) => {
                self.tasks.remove(i);
                assert(first_with_id(old(self).tasks@, task_id@, i as int));
                Ok(())
            },
            None => Err(String::from_str("Task not found")),
        }
    }
}

/// The tasks that are due at the local time `now` (`HH:MM`): those enabled
/// whose time reads `now`, in their order.
pub fn due_tasks(tasks: Vec<Task>, now: &str) -> (r: Vec<Task>)
    ensures
        r@ == due_spec(tasks@, now@),
{
    let now_s = String::from_str(now);
    let ghost all = tasks@;
    let n: usize = tasks.len();
    let mut rest = tasks;
    let mut out: Vec<Task> = Vec::new();
    let mut i: usize = 0;
    while rest.len() > 0
        invariant
            i + rest@.len() == all.len(),
            all.len() == n,
            rest@ == all.skip(i as int),
            out@ == due_spec(all.take(i as int), now@),
            now_s@ == now@,
        decreases rest@.len(),
    {
        let t = rest.remove(0);
        assert(all.take(i + 1).drop_last() =~= all.take(i as int));
        assert(all.take(i + 1).last() == t);
        if t.enable && t.time == now_s {
            out.push(t);
        }
        assert(rest@ =~= all.skip(i + 1));
        i = i + 1;
    }
    assert(all.take(i as int) =~= all);
    out
}

} // verus!
