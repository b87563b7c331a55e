use vstd::prelude::*;
use vstd::string::*;
use crate::task::Task;

verus! {

/// A desktop notification about a task.
pub struct TaskNotice {
    pub title: String,
    pub body: String,
}

/// The notification about a task that is new to the store: titled
/// `New ` and the plugin's name, with the task's title as its body.
fn new_task_notice(plugin_name: &str, task: &Task) -> (n: TaskNotice)
    ensures
        n.title@ == "New "@ + plugin_name@,
        n.body@ == task.title@,
{
    broadcast use vstd::string::group_string_axioms;
    let mut title: String = "New ".to_string();
    title.append(plugin_name);
    TaskNotice { title, body: task.title.clone() }
}

/// The notifications about the tasks a plugin's update found new, one per task, in their order.
pub fn new_task_notices(plugin_name: &str, tasks: &Vec<Task>) -> (r: Vec<TaskNotice>)
    ensures
        r.len() == tasks.len(),
        forall|i: int| 0 <= i < r.len() ==> {
            &&& (#[trigger] r@[i]).title@ == "New "@ + plugin_name@
            &&& r@[i].body@ == tasks@[i].title@
        },
{
    let mut r: Vec<TaskNotice> = Vec::new();
    let mut i: usize = 0;
    while i < tasks.len()
        invariant
            i <= tasks.len(),
            r.len() == i,
            forall|k: int| 0 <= k < i ==> {
                &&& (#[trigger] r@[k]).title@ == "New "@ + plugin_name@
                &&& r@[k].body@ == tasks@[k].title@
            },
        decreases tasks.len() - i,
    {
        r.push(new_task_notice(plugin_name, &tasks[i]));
        i = i + 1;
    }
    r
}

} // verus!
