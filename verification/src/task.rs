use vstd::prelude::*;

verus! {

/// A task as the store keeps it: one row of the `tasks` table.
#[derive(Clone, Debug, PartialEq, Eq, Hash)]
pub struct Task {
    pub id: String,
    pub kind: String,
    pub url: String,
    pub title: String,
    pub description: String,
    pub state: String,
    pub created_at: String,
    pub updated_at: String,
    pub closed_at: String,
    pub requestor: String,
}

/// The mathematical value of a `Task`: each field as a sequence of characters.
pub struct TaskView {
    pub id: Seq<char>,
    pub kind: Seq<char>,
    pub url: Seq<char>,
    pub title: Seq<char>,
    pub description: Seq<char>,
    pub state: Seq<char>,
    pub created_at: Seq<char>,
    pub updated_at: Seq<char>,
    pub closed_at: Seq<char>,
    pub requestor: Seq<char>,
}

impl View for Task {
    type V = TaskView;

    open spec fn view(&self) -> TaskView {
        TaskView {
            id: self.id@,
            kind: self.kind@,
            url: self.url@,
            title: self.title@,
            description: self.description@,
            state: self.state@,
            created_at: self.created_at@,
            updated_at: self.updated_at@,
            closed_at: self.closed_at@,
            requestor: self.requestor@,
        }
    }
}

/// The views of a sequence of tasks.
pub open spec fn task_views(tasks: Seq<Task>) -> Seq<TaskView> {
    tasks.map_values(|t: Task| t@)
}

impl Task {
    /// A field-by-field copy.
    pub fn duplicate(&self) -> (r: Task)
        ensures
            r@ == self@,
    {
        Task {
            id: self.id.clone(),
            kind: self.kind.clone(),
            url: self.url.clone(),
            title: self.title.clone(),
            description: self.description.clone(),
            state: self.state.clone(),
            created_at: self.created_at.clone(),
            updated_at: self.updated_at.clone(),
            closed_at: self.closed_at.clone(),
            requestor: self.requestor.clone(),
        }
    }

    /// Whether two tasks agree on every field.
    pub fn same_as(&self, other: &Task) -> (r: bool)
        ensures
            r == (self@ == other@),
    {
        self.id == other.id && self.kind == other.kind && self.url == other.url
            && self.title == other.title && self.description == other.description
            && self.state == other.state && self.created_at == other.created_at
            && self.updated_at == other.updated_at && self.closed_at == other.closed_at
            && self.requestor == other.requestor
    }
}

/// What the task list request answers: every stored task.
#[derive(Clone, Debug, PartialEq, Eq, Hash)]
pub struct GetTasksResponse {
    pub tasks: Vec<Task>,
}

} // verus!
