use vstd::prelude::*;
use crate::task::{Task, TaskView};

verus! {

/// A task as a plugin reports it, before the store files it under the plugin's kind.
#[derive(Clone, Debug, PartialEq, Eq, Hash)]
pub struct PluginTask {
    pub key: String,
    pub url: String,
    pub title: String,
    pub description: String,
    pub state: String,
    pub created_at: String,
    pub updated_at: String,
    pub closed_at: String,
    pub requestor: String,
}

/// The mathematical value of a `PluginTask`.
pub struct PluginTaskView {
    pub key: Seq<char>,
    pub url: Seq<char>,
    pub title: Seq<char>,
    pub description: Seq<char>,
    pub state: Seq<char>,
    pub created_at: Seq<char>,
    pub updated_at: Seq<char>,
    pub closed_at: Seq<char>,
    pub requestor: Seq<char>,
}

impl View for PluginTask {
    type V = PluginTaskView;

    open spec fn view(&self) -> PluginTaskView {
        PluginTaskView {
            key: self.key@,
            url: self.url@,
            title: self.title@,
            description: self.description@,
            state: self.state@,
            created_at: self.created_at@,
            updated_at: self.updated_at@,
            closed_at: self.closed_at@,
            requestor: self.requestor@,
        }
    }
}

impl PluginTaskView {
    /// The stored task that this plugin task becomes under `kind`:
    /// the key becomes the id, every other field is carried over.
    pub open spec fn with_kind(self, kind: Seq<char>) -> TaskView {
        TaskView {
            id: self.key,
            kind: kind,
            url: self.url,
            title: self.title,
            description: self.description,
            state: self.state,
            created_at: self.created_at,
            updated_at: self.updated_at,
            closed_at: self.closed_at,
            requestor: self.requestor,
        }
    }
}

impl PluginTask {
    /// A field-by-field copy.
    pub fn duplicate(&self) -> (r: PluginTask)
        ensures
            r@ == self@,
    {
        PluginTask {
            key: self.key.clone(),
            url: self.url.clone(),
            title: self.title.clone(),
            description: self.description.clone(),
            state: self.state.clone(),
            created_at: self.created_at.clone(),
            updated_at: self.updated_at.clone(),
            closed_at: self.closed_at.clone(),
            requestor: self.requestor.clone(),
        }
    }

    /// The stored task this plugin task becomes under `kind`.
    pub fn to(self, kind: String) -> (t: Task)
        ensures
            t@ == self@.with_kind(kind@),
    {
        Task {
            id: self.key,
            kind,
            url: self.url,
            title: self.title,
            description: self.description,
            state: self.state,
            created_at: self.created_at,
            updated_at: self.updated_at,
            closed_at: self.closed_at,
            requestor: self.requestor,
        }
    }
}

} // verus!
