use vstd::prelude::*;
use crate::plugin::{PluginTask, PluginTaskView};
use crate::task::{Task, TaskView, task_views};

verus! {

// ---------------------------------------------------------------------------
// The model: tasks indexed by id
// ---------------------------------------------------------------------------

/// Tasks indexed by id. Where two tasks share an id, the later one wins,
/// as when the tasks are collected into a map one after the other.
pub open spec fn index_by_id(tasks: Seq<TaskView>) -> Map<Seq<char>, TaskView>
    decreases tasks.len(),
{
    if tasks.len() == 0 {
        Map::empty()
    } else {
        index_by_id(tasks.drop_last()).insert(tasks.last().id, tasks.last())
    }
}

/// The views of a sequence of plugin tasks.
pub open spec fn plugin_task_views(tasks: Seq<PluginTask>) -> Seq<PluginTaskView> {
    tasks.map_values(|t: PluginTask| t@)
}

/// Plugin tasks filed under `kind`, in their order.
pub open spec fn filed_under(kind: Seq<char>, tasks: Seq<PluginTaskView>) -> Seq<TaskView> {
    tasks.map_values(|t: PluginTaskView| t.with_kind(kind))
}

/// No two tasks of the sequence share an id.
pub open spec fn ids_distinct(tasks: Seq<TaskView>) -> bool {
    forall|i: int, j: int| 0 <= i < j < tasks.len() ==> tasks[i].id != tasks[j].id
}

/// No task after position `k` has the id of the task at `k`.
pub open spec fn is_last(tasks: Seq<TaskView>, k: int) -> bool {
    forall|m: int| k < m < tasks.len() ==> tasks[m].id != tasks[k].id
}

/// The views of a sequence of ids.
pub open spec fn id_views(ids: Seq<String>) -> Seq<Seq<char>> {
    ids.map_values(|s: String| s@)
}

// ---------------------------------------------------------------------------
// Lemmas on `index_by_id`
// ---------------------------------------------------------------------------

/// An id is indexed exactly when some task carries it.
pub proof fn lemma_index_dom(s: Seq<TaskView>, id: Seq<char>)
    ensures
        index_by_id(s).contains_key(id) <==> exists|k: int| 0 <= k < s.len() && s[k].id == id,
    decreases s.len(),
{
    if s.len() > 0 {
        let d = s.drop_last();
        lemma_index_dom(d, id);
        if index_by_id(d).contains_key(id) {
            let k = choose|k: int| 0 <= k < d.len() && d[k].id == id;
            assert(s[k].id == id);
        }
        if exists|k: int| 0 <= k < s.len() && s[k].id == id {
            let k = choose|k: int| 0 <= k < s.len() && s[k].id == id;
            if k < s.len() - 1 {
                assert(d[k].id == id);
            }
        }
    }
}

/// The task indexed under an id is its last occurrence.
pub proof fn lemma_index_last(s: Seq<TaskView>, k: int)
    requires
        0 <= k < s.len(),
        is_last(s, k),
    ensures
        index_by_id(s).contains_key(s[k].id),
        index_by_id(s)[s[k].id] == s[k],
    decreases s.len(),
{
    if k < s.len() - 1 {
        let d = s.drop_last();
        assert(is_last(d, k));
        lemma_index_last(d, k);
        assert(s.last().id != s[k].id);
    }
}

/// An id that occurs has a last occurrence.
pub proof fn lemma_last_occurrence(s: Seq<TaskView>, id: Seq<char>)
    requires
        exists|k: int| 0 <= k < s.len() && s[k].id == id,
    ensures
        exists|k: int| 0 <= k < s.len() && s[k].id == id && is_last(s, k),
    decreases s.len(),
{
    if s.last().id == id {
        assert(is_last(s, s.len() - 1));
    } else {
        let d = s.drop_last();
        let k = choose|k: int| 0 <= k < s.len() && s[k].id == id;
        assert(d[k].id == id);
        lemma_last_occurrence(d, id);
        let k2 = choose|k2: int| 0 <= k2 < d.len() && d[k2].id == id && is_last(d, k2);
        assert forall|m: int| k2 < m < s.len() implies s[m].id != s[k2].id by {
            if m < s.len() - 1 {
                assert(d[m] == s[m]);
            }
        }
        assert(is_last(s, k2));
    }
}

/// Replacing a task by one with the same id, where ids are distinct,
/// replaces it in the index.
pub proof fn lemma_index_update(s: Seq<TaskView>, j: int, t: TaskView)
    requires
        ids_distinct(s),
        0 <= j < s.len(),
        s[j].id == t.id,
    ensures
        index_by_id(s.update(j, t)) == index_by_id(s).insert(t.id, t),
    decreases s.len(),
{
    let u = s.update(j, t);
    let d = s.drop_last();
    if j == s.len() - 1 {
        assert(u.drop_last() =~= d);
        assert(index_by_id(u) =~= index_by_id(s).insert(t.id, t));
    } else {
        assert(u.drop_last() =~= d.update(j, t));
        assert(ids_distinct(d));
        lemma_index_update(d, j, t);
        assert(s.last().id != t.id);
        assert(index_by_id(u) =~= index_by_id(s).insert(t.id, t));
    }
}

/// Appending a task inserts it into the index.
pub proof fn lemma_index_push(s: Seq<TaskView>, t: TaskView)
    ensures
        index_by_id(s.push(t)) == index_by_id(s).insert(t.id, t),
{
    assert(s.push(t).drop_last() =~= s);
}

// ---------------------------------------------------------------------------
// What an update has to do
// ---------------------------------------------------------------------------

/// The tasks to insert: those the plugin reports and the store does not hold.
pub open spec fn to_open(stored: Map<Seq<char>, TaskView>, current: Map<Seq<char>, TaskView>) -> Map<Seq<char>, TaskView> {
    Map::new(|id: Seq<char>| current.contains_key(id) && !stored.contains_key(id), |id: Seq<char>| current[id])
}

/// The tasks to rewrite: those the store holds in another form than the plugin reports.
pub open spec fn to_update(stored: Map<Seq<char>, TaskView>, current: Map<Seq<char>, TaskView>) -> Map<Seq<char>, TaskView> {
    Map::new(
        |id: Seq<char>| current.contains_key(id) && stored.contains_key(id) && stored[id] != current[id],
        |id: Seq<char>| current[id],
    )
}

/// The ids to mark closed: stored, no longer reported, and not closed yet.
pub open spec fn to_close(stored: Map<Seq<char>, TaskView>, current: Map<Seq<char>, TaskView>) -> Set<Seq<char>> {
    Set::new(|id: Seq<char>| stored.contains_key(id) && !current.contains_key(id) && stored[id].state != closed_state())
}

/// The state that marks a task closed.
pub open spec fn closed_state() -> Seq<char> {
    seq!['c', 'l', 'o', 's', 'e', 'd']
}

/// `opens`, `updates` and `closes` carry out exactly what an update of `stored`
/// to `current` has to do, each task or id once.
pub open spec fn is_plan(
    stored: Map<Seq<char>, TaskView>,
    current: Map<Seq<char>, TaskView>,
    opens: Seq<TaskView>,
    updates: Seq<TaskView>,
    closes: Seq<Seq<char>>,
) -> bool {
    &&& ids_distinct(opens)
    &&& index_by_id(opens) == to_open(stored, current)
    &&& ids_distinct(updates)
    &&& index_by_id(updates) == to_update(stored, current)
    &&& closes.no_duplicates()
    &&& closes.to_set() == to_close(stored, current)
}

/// The writes that bring the stored tasks of one kind in line with what a plugin reports.
pub struct UpdatePlan {
    /// Tasks to insert; they are the tasks that are new to the store.
    pub opens: Vec<Task>,
    /// Tasks whose stored row is rewritten from the reported one.
    pub updates: Vec<Task>,
    /// Ids of the tasks to mark closed.
    pub closes: Vec<String>,
}

/// The position of the last task with the given id, if there is one.
fn find_last_id(tasks: &Vec<Task>, id: &String) -> (r: Option<usize>)
    ensures
        match r {
            Some(j) => {
                &&& j < tasks.len()
                &&& task_views(tasks@)[j as int].id == id@
                &&& is_last(task_views(tasks@), j as int)
            },
            None => forall|k: int| 0 <= k < tasks.len() ==> task_views(tasks@)[k].id != id@,
        },
{
    let ghost tv = task_views(tasks@);
    let mut found: Option<usize> = None;
    let mut i: usize = 0;
    while i < tasks.len()
        invariant
            i <= tasks.len(),
            tv == task_views(tasks@),
            tv.len() == tasks.len(),
            match found {
                Some(j) => {
                    &&& j < i
                    &&& tv[j as int].id == id@
                    &&& forall|m: int| j < m < i ==> tv[m].id != id@
                },
                None => forall|k: int| 0 <= k < i ==> tv[k].id != id@,
            },
        decreases tasks.len() - i,
    {
        if tasks[i].id == *id {
            found = Some(i);
        }
        i = i + 1;
    }
    found
}

/// Works out the writes that bring the stored tasks of `kind` (`previous`) in line
/// with the tasks a plugin reports now (`current`): insert the reported tasks the store
/// does not hold, rewrite those it holds in another form, and mark closed those that
/// are no longer reported. Among tasks with the same id, the later one counts.
pub fn plan_update(kind: &str, previous: &Vec<Task>, current: Vec<PluginTask>) -> (plan: UpdatePlan)
    ensures
        is_plan(
            index_by_id(task_views(previous@)),
            index_by_id(filed_under(kind@, plugin_task_views(current@))),
            task_views(plan.opens@),
            task_views(plan.updates@),
            id_views(plan.closes@),
        ),
{
    broadcast use vstd::string::group_string_axioms;
    let ghost pv = task_views(previous@);
    let ghost stored = index_by_id(pv);
    let ghost all = filed_under(kind@, plugin_task_views(current@));
    let kind_s: String = kind.to_string();
    assert(kind_s@ == kind@);

    // The reported tasks, one per id, the later one winning.
    let mut cur: Vec<Task> = Vec::new();
    let mut i: usize = 0;
    while i < current.len()
        invariant
            i <= current.len(),
            all == filed_under(kind@, plugin_task_views(current@)),
            all.len() == current.len(),
            kind_s@ == kind@,
            ids_distinct(task_views(cur@)),
            index_by_id(task_views(cur@)) == index_by_id(all.take(i as int)),
        decreases current.len() - i,
    {
        let t = current[i].duplicate().to(kind_s.clone());
        assert(t@ == all[i as int]);
        assert(all.take(i + 1).drop_last() =~= all.take(i as int));
        let ghost before = task_views(cur@);
        match find_last_id(&cur, &t.id) {
            Some(j) => {
                proof {
                    lemma_index_update(before, j as int, t@);
                }
                cur.set(j, t);
                assert(task_views(cur@) =~= before.update(j as int, t@));
            },
            None => {
                proof {
                    lemma_index_push(before, t@);
                }
                cur.push(t);
                assert(task_views(cur@) =~= before.push(t@));
            },
        }
        i = i + 1;
    }
    assert(all.take(current.len() as int) =~= all);
    let ghost cv = task_views(cur@);
    let ghost reported = index_by_id(cv);
    assert(reported == index_by_id(all));

    // Tasks to insert and to rewrite.
    let mut opens: Vec<Task> = Vec::new();
    let mut updates: Vec<Task> = Vec::new();
    let mut i: usize = 0;
    while i < cur.len()
        invariant
            i <= cur.len(),
            cv == task_views(cur@),
            cv.len() == cur.len(),
            pv == task_views(previous@),
            stored == index_by_id(pv),
            ids_distinct(cv),
            ids_distinct(task_views(opens@)),
            index_by_id(task_views(opens@)) == to_open(stored, index_by_id(cv.take(i as int))),
            ids_distinct(task_views(updates@)),
            index_by_id(task_views(updates@)) == to_update(stored, index_by_id(cv.take(i as int))),
        decreases cur.len() - i,
    {
        let t = &cur[i];
        let ghost seen = index_by_id(cv.take(i as int));
        proof {
            assert(cv.take(i + 1).drop_last() =~= cv.take(i as int));
            lemma_index_dom(cv.take(i as int), t.id@);
            lemma_index_dom(pv, t.id@);
        }
        assert(cv[i as int] == t@);
        assert(!seen.contains_key(t.id@)) by {
            if seen.contains_key(t.id@) {
                let k = choose|k: int| 0 <= k < cv.take(i as int).len() && cv.take(i as int)[k].id == t.id@;
                assert(cv[k].id == cv[i as int].id);
            }
        }
        let ghost opened = task_views(opens@);
        let ghost rewritten = task_views(updates@);
        match find_last_id(previous, &t.id) {
            None => {
                let d = t.duplicate();
                proof {
                    lemma_index_push(opened, d@);
                    assert forall|k: int| 0 <= k < opened.len() implies opened[k].id != d@.id by {
                        lemma_index_dom(opened, opened[k].id);
                    }
                }
                opens.push(d);
                assert(task_views(opens@) =~= opened.push(d@));
                assert(to_open(stored, index_by_id(cv.take(i + 1))) =~= to_open(stored, seen).insert(t.id@, t@));
                assert(to_update(stored, index_by_id(cv.take(i + 1))) =~= to_update(stored, seen));
            },
            Some(j) => {
                proof {
                    lemma_index_last(pv, j as int);
                }
                if !previous[j].same_as(t) {
                    let d = t.duplicate();
                    proof {
                        lemma_index_push(rewritten, d@);
                        assert forall|k: int| 0 <= k < rewritten.len() implies rewritten[k].id != d@.id by {
                            lemma_index_dom(rewritten, rewritten[k].id);
                        }
                    }
                    updates.push(d);
                    assert(task_views(updates@) =~= rewritten.push(d@));
                    assert(to_update(stored, index_by_id(cv.take(i + 1))) =~= to_update(stored, seen).insert(t.id@, t@));
                } else {
                    assert(to_update(stored, index_by_id(cv.take(i + 1))) =~= to_update(stored, seen));
                }
                assert(to_open(stored, index_by_id(cv.take(i + 1))) =~= to_open(stored, seen));
            },
        }
        i = i + 1;
    }
    assert(cv.take(cur.len() as int) =~= cv);

    // Ids to mark closed.
    let closed_word: String = "closed".to_string();
    proof {
        reveal_strlit("closed");
    }
    assert(closed_word@ =~= closed_state());
    let mut closes: Vec<String> = Vec::new();
    let mut j: usize = 0;
    while j < previous.len()
        invariant
            j <= previous.len(),
            pv == task_views(previous@),
            pv.len() == previous.len(),
            stored == index_by_id(pv),
            cv == task_views(cur@),
            reported == index_by_id(cv),
            closed_word@ == closed_state(),
            id_views(closes@).no_duplicates(),
            forall|id: Seq<char>| #![trigger id_views(closes@).contains(id)]
                id_views(closes@).contains(id) <==> (to_close(stored, reported).contains(id)
                    && exists|k: int| 0 <= k < j && pv[k].id == id && is_last(pv, k)),
        decreases previous.len() - j,
    {
        let t = &previous[j];
        let ghost listed = id_views(closes@);
        let last = find_last_id(previous, &t.id);
        let is_last_here = match last {
            Some(l) => l == j,
            None => false,
        };
        assert(pv[j as int] == t@);
        assert(is_last_here == is_last(pv, j as int)) by {
            if let Some(l) = last {
                if l != j && is_last(pv, j as int) {
                    assert(pv[l as int].id == pv[j as int].id);
                    if l < j {
                        assert(!is_last(pv, l as int));
                    }
                }
            }
        }
        let in_cur = find_last_id(&cur, &t.id).is_some();
        proof {
            lemma_index_dom(cv, t.id@);
            if in_cur {
                let k = choose|k: int| 0 <= k < cv.len() && cv[k].id == t.id@;
            }
        }
        assert(in_cur == reported.contains_key(t.id@));
        let already_closed = t.state == closed_word;
        let push_it = is_last_here && !in_cur && !already_closed;
        proof {
            if is_last_here {
                lemma_index_last(pv, j as int);
            }
        }
        assert(is_last(pv, j as int) ==> (push_it == to_close(stored, reported).contains(t.id@)));
        assert(!listed.contains(t.id@) || !is_last(pv, j as int)) by {
            if listed.contains(t.id@) && is_last(pv, j as int) {
                let k = choose|k: int| 0 <= k < j && pv[k].id == t.id@ && is_last(pv, k);
                assert(pv[j as int].id == pv[k].id);
            }
        }
        if push_it {
            let id = t.id.clone();
            closes.push(id);
            assert(id_views(closes@) =~= listed.push(t.id@));
        } else {
            assert(id_views(closes@) == listed);
        }
        let ghost now = id_views(closes@);
        assert forall|id: Seq<char>| #![trigger id_views(closes@).contains(id)]
            id_views(closes@).contains(id) <==> (to_close(stored, reported).contains(id)
                && exists|k: int| 0 <= k < j + 1 && pv[k].id == id && is_last(pv, k)) by {
            let before = exists|k: int| 0 <= k < j && pv[k].id == id && is_last(pv, k);
            let after = exists|k: int| 0 <= k < j + 1 && pv[k].id == id && is_last(pv, k);
            assert(listed.contains(id) <==> (to_close(stored, reported).contains(id) && before));
            if before {
                let k = choose|k: int| 0 <= k < j && pv[k].id == id && is_last(pv, k);
                assert(0 <= k < j + 1 && pv[k].id == id && is_last(pv, k));
            }
            if after && !before {
                let k = choose|k: int| 0 <= k < j + 1 && pv[k].id == id && is_last(pv, k);
                assert(k == j);
            }
            if id != t.id@ {
                assert(after == before);
                if push_it {
                    assert(now.contains(id) == listed.contains(id)) by {
                        if now.contains(id) {
                            let k = choose|k: int| 0 <= k < now.len() && now[k] == id;
                            assert(k < listed.len());
                            assert(listed[k] == id);
                        }
                        if listed.contains(id) {
                            let k = choose|k: int| 0 <= k < listed.len() && listed[k] == id;
                            assert(now[k] == id);
                        }
                    }
                }
            } else if is_last(pv, j as int) {
                assert(!before) by {
                    if before {
                        let k = choose|k: int| 0 <= k < j && pv[k].id == id && is_last(pv, k);
                        assert(pv[j as int].id == pv[k].id);
                    }
                }
                assert(after) by {
                    assert(0 <= j < j + 1 && pv[j as int].id == id && is_last(pv, j as int));
                }
                if push_it {
                    assert(now[now.len() - 1] == id);
                }
            } else {
                assert(!push_it);
                assert(after == before);
            }
        }
        j = j + 1;
    }
    assert(id_views(closes@).to_set() =~= to_close(stored, reported)) by {
        assert forall|id: Seq<char>| to_close(stored, reported).contains(id) implies id_views(closes@).contains(id) by {
            lemma_index_dom(pv, id);
            lemma_last_occurrence(pv, id);
        }
    }
    UpdatePlan { opens, updates, closes }
}

// ---------------------------------------------------------------------------
// The statements and what they do to the rows of one kind
// ---------------------------------------------------------------------------

/// Creates the `tasks` table if it is missing; a task is identified by its kind and id.
pub const SCHEMA_SQL: &'static str = "
CREATE TABLE IF NOT EXISTS tasks (
  kind TEXT NOT NULL,
  id TEXT NOT NULL,
  url TEXT NOT NULL,
  title TEXT NOT NULL,
  description TEXT NOT NULL,
  state TEXT NOT NULL,
  created_at TEXT NOT NULL,
  updated_at TEXT NOT NULL,
  closed_at TEXT,
  requestor TEXT,
  PRIMARY KEY (kind, id)
)";

/// Every stored task, open ones first, newest first.
pub const LIST_SQL: &'static str = "
SELECT * 
FROM tasks 
ORDER BY 
  state DESC,
  created_at DESC";

/// The stored tasks of one kind; its one parameter is the kind.
pub const KIND_SQL: &'static str = "SELECT * FROM tasks WHERE kind = ?";

/// Inserts a task; its parameters are those of `row_params`.
pub const OPEN_SQL: &'static str = "
INSERT INTO tasks (
  id, 
  kind, 
  url, 
  title, 
  description, 
  state, 
  created_at, 
  updated_at, 
  closed_at, 
  requestor
) VALUES (?, ?, ?, ?, ?, ?, ?, ?, ?, ?)";

/// Rewrites a stored task from a reported one, keeping its creation time;
/// its parameters are those of `update_params`.
pub const UPDATE_SQL: &'static str = "
UPDATE tasks 
  SET url = ?, 
      title = ?, 
      description = ?, 
      state = ?, 
      updated_at = ?, 
      closed_at = ?, 
      requestor = ? 
WHERE kind = ? 
  AND id = ?";

/// Marks a stored task closed; its parameters are those of `close_params`.
pub const CLOSE_SQL: &'static str = "
UPDATE tasks 
  SET state = 'closed' 
WHERE kind = ? 
  AND id = ?";

/// The parameters of `OPEN_SQL` for `task` filed under `kind`, in column order.
pub fn row_params(kind: &str, task: &Task) -> (r: Vec<String>)
    ensures
        id_views(r@) == seq![task.id@, kind@, task.url@, task.title@, task.description@,
            task.state@, task.created_at@, task.updated_at@, task.closed_at@, task.requestor@],
{
    broadcast use vstd::string::group_string_axioms;
    let mut r: Vec<String> = Vec::new();
    r.push(task.id.clone());
    r.push(kind.to_string());
    r.push(task.url.clone());
    r.push(task.title.clone());
    r.push(task.description.clone());
    r.push(task.state.clone());
    r.push(task.created_at.clone());
    r.push(task.updated_at.clone());
    r.push(task.closed_at.clone());
    r.push(task.requestor.clone());
    assert(id_views(r@) =~= seq![task.id@, kind@, task.url@, task.title@, task.description@,
        task.state@, task.created_at@, task.updated_at@, task.closed_at@, task.requestor@]);
    r
}

/// The parameters of `UPDATE_SQL` that rewrite the stored task of `kind` with `task`'s id.
pub fn update_params(kind: &str, task: &Task) -> (r: Vec<String>)
    ensures
        id_views(r@) == seq![task.url@, task.title@, task.description@, task.state@,
            task.updated_at@, task.closed_at@, task.requestor@, kind@, task.id@],
{
    broadcast use vstd::string::group_string_axioms;
    let mut r: Vec<String> = Vec::new();
    r.push(task.url.clone());
    r.push(task.title.clone());
    r.push(task.description.clone());
    r.push(task.state.clone());
    r.push(task.updated_at.clone());
    r.push(task.closed_at.clone());
    r.push(task.requestor.clone());
    r.push(kind.to_string());
    r.push(task.id.clone());
    assert(id_views(r@) =~= seq![task.url@, task.title@, task.description@, task.state@,
        task.updated_at@, task.closed_at@, task.requestor@, kind@, task.id@]);
    r
}

/// The parameters of `CLOSE_SQL` that close the stored task of `kind` with id `id`.
pub fn close_params(kind: &str, id: &String) -> (r: Vec<String>)
    ensures
        id_views(r@) == seq![kind@, id@],
{
    broadcast use vstd::string::group_string_axioms;
    let mut r: Vec<String> = Vec::new();
    r.push(kind.to_string());
    r.push(id.clone());
    assert(id_views(r@) =~= seq![kind@, id@]);
    r
}

/// Which of the three writes a statement is.
#[derive(Clone, Copy, Debug, PartialEq, Eq)]
pub enum Write {
    /// `OPEN_SQL`
    Open,
    /// `UPDATE_SQL`
    Update,
    /// `CLOSE_SQL`
    Close,
}

/// The text of a write's statement.
pub open spec fn write_sql(write: Write) -> Seq<char> {
    match write {
        Write::Open => OPEN_SQL@,
        Write::Update => UPDATE_SQL@,
        Write::Close => CLOSE_SQL@,
    }
}

/// A write with its parameters, ready to run.
pub struct SqlStatement {
    pub write: Write,
    pub params: Vec<String>,
}

/// The mathematical value of a statement: the write and its parameters.
pub struct SqlStatementView {
    pub write: Write,
    pub params: Seq<Seq<char>>,
}

impl View for SqlStatement {
    type V = SqlStatementView;

    open spec fn view(&self) -> SqlStatementView {
        SqlStatementView { write: self.write, params: id_views(self.params@) }
    }
}

impl SqlStatement {
    /// The text of the statement.
    pub fn sql(&self) -> (r: &'static str)
        ensures
            r@ == write_sql(self.write),
            self.write is Open ==> r@ == OPEN_SQL@,
            self.write is Update ==> r@ == UPDATE_SQL@,
            self.write is Close ==> r@ == CLOSE_SQL@,
    {
        match self.write {
            Write::Open => OPEN_SQL,
            Write::Update => UPDATE_SQL,
            Write::Close => CLOSE_SQL,
        }
    }
}

/// The statement that inserts `t`.
pub open spec fn open_statement(t: TaskView) -> SqlStatementView {
    SqlStatementView {
        write: Write::Open,
        params: seq![t.id, t.kind, t.url, t.title, t.description, t.state, t.created_at,
            t.updated_at, t.closed_at, t.requestor],
    }
}

/// The statement that rewrites the stored task of `kind` with `t`'s id from `t`.
pub open spec fn update_statement(kind: Seq<char>, t: TaskView) -> SqlStatementView {
    SqlStatementView {
        write: Write::Update,
        params: seq![t.url, t.title, t.description, t.state, t.updated_at, t.closed_at,
            t.requestor, kind, t.id],
    }
}

/// The statement that marks the stored task of `kind` with id `id` closed.
pub open spec fn close_statement(kind: Seq<char>, id: Seq<char>) -> SqlStatementView {
    SqlStatementView { write: Write::Close, params: seq![kind, id] }
}

/// The statements that carry out a plan for `kind`: the inserts, then the
/// rewrites, then the closes, each in the plan's order.
pub open spec fn plan_statements(
    kind: Seq<char>,
    opens: Seq<TaskView>,
    updates: Seq<TaskView>,
    closes: Seq<Seq<char>>,
) -> Seq<SqlStatementView> {
    opens.map_values(|t: TaskView| open_statement(t))
        + updates.map_values(|t: TaskView| update_statement(kind, t))
        + closes.map_values(|id: Seq<char>| close_statement(kind, id))
}

/// What one statement does to the stored tasks of `kind`, keyed by id; none where
/// it fails. A statement with the wrong number of parameters fails to bind. An insert
/// of an id the kind already holds breaks the table's key and fails; an insert for
/// another kind leaves these rows alone. A rewrite or a close touches the row of
/// `kind` with its id, if there is one.
pub open spec fn run_statement(
    kind: Seq<char>,
    rows: Map<Seq<char>, TaskView>,
    st: SqlStatementView,
) -> Option<Map<Seq<char>, TaskView>> {
    let p = st.params;
    match st.write {
        Write::Open => if p.len() != 10 {
            None
        } else if p[1] != kind {
            Some(rows)
        } else if rows.contains_key(p[0]) {
            None
        } else {
            Some(rows.insert(p[0], TaskView {
                id: p[0],
                kind: p[1],
                url: p[2],
                title: p[3],
                description: p[4],
                state: p[5],
                created_at: p[6],
                updated_at: p[7],
                closed_at: p[8],
                requestor: p[9],
            }))
        },
        Write::Update => if p.len() != 9 {
            None
        } else if p[7] == kind && rows.contains_key(p[8]) {
            Some(rows.insert(p[8], TaskView {
                url: p[0],
                title: p[1],
                description: p[2],
                state: p[3],
                updated_at: p[4],
                closed_at: p[5],
                requestor: p[6],
                ..rows[p[8]]
            }))
        } else {
            Some(rows)
        },
        Write::Close => if p.len() != 2 {
            None
        } else if p[0] == kind && rows.contains_key(p[1]) {
            Some(rows.insert(p[1], marked_closed(rows[p[1]])))
        } else {
            Some(rows)
        },
    }
}

/// What statements run one after the other do to the stored tasks of `kind`;
/// none where one of them fails.
pub open spec fn run_statements(
    kind: Seq<char>,
    rows: Map<Seq<char>, TaskView>,
    sts: Seq<SqlStatementView>,
) -> Option<Map<Seq<char>, TaskView>>
    decreases sts.len(),
{
    if sts.len() == 0 {
        Some(rows)
    } else {
        match run_statements(kind, rows, sts.drop_last()) {
            Some(r) => run_statement(kind, r, sts.last()),
            None => None,
        }
    }
}

impl UpdatePlan {
    /// The statements that carry out this plan for `kind`: the inserts, then
    /// the rewrites, then the closes.
    pub fn statements(&self, kind: &str) -> (r: Vec<SqlStatement>)
        ensures
            r@.map_values(|st: SqlStatement| st@) == plan_statements(
                kind@,
                task_views(self.opens@),
                task_views(self.updates@),
                id_views(self.closes@),
            ),
    {
        let ghost ov = task_views(self.opens@);
        let ghost uv = task_views(self.updates@);
        let ghost cv = id_views(self.closes@);
        let ghost first = ov.map_values(|t: TaskView| open_statement(t));
        let ghost second = uv.map_values(|t: TaskView| update_statement(kind@, t));
        let ghost third = cv.map_values(|id: Seq<char>| close_statement(kind@, id));
        let mut r: Vec<SqlStatement> = Vec::new();
        let mut i: usize = 0;
        while i < self.opens.len()
            invariant
                i <= self.opens.len(),
                ov == task_views(self.opens@),
                first == ov.map_values(|t: TaskView| open_statement(t)),
                r@.map_values(|st: SqlStatement| st@) == first.take(i as int),
            decreases self.opens.len() - i,
        {
            let t = &self.opens[i];
            let st = SqlStatement { write: Write::Open, params: row_params(t.kind.as_str(), t) };
            let ghost before = r@;
            let ghost sv = st@;
            assert(sv == first[i as int]);
            r.push(st);
            assert(r@.map_values(|st: SqlStatement| st@) =~= before.map_values(|st: SqlStatement| st@).push(sv));
            assert(first.take(i + 1) =~= first.take(i as int).push(sv));
            i = i + 1;
        }
        assert(first.take(self.opens.len() as int) =~= first);
        let mut i: usize = 0;
        while i < self.updates.len()
            invariant
                i <= self.updates.len(),
                uv == task_views(self.updates@),
                second == uv.map_values(|t: TaskView| update_statement(kind@, t)),
                r@.map_values(|st: SqlStatement| st@) == first + second.take(i as int),
            decreases self.updates.len() - i,
        {
            let t = &self.updates[i];
            let st = SqlStatement { write: Write::Update, params: update_params(kind, t) };
            let ghost before = r@;
            let ghost sv = st@;
            assert(sv == second[i as int]);
            r.push(st);
            assert(r@.map_values(|st: SqlStatement| st@) =~= before.map_values(|st: SqlStatement| st@).push(sv));
            assert(first + second.take(i + 1) =~= (first + second.take(i as int)).push(sv));
            i = i + 1;
        }
        assert(second.take(self.updates.len() as int) =~= second);
        let mut i: usize = 0;
        while i < self.closes.len()
            invariant
                i <= self.closes.len(),
                cv == id_views(self.closes@),
                third == cv.map_values(|id: Seq<char>| close_statement(kind@, id)),
                r@.map_values(|st: SqlStatement| st@) == first + second + third.take(i as int),
            decreases self.closes.len() - i,
        {
            let st = SqlStatement { write: Write::Close, params: close_params(kind, &self.closes[i]) };
            let ghost before = r@;
            let ghost sv = st@;
            assert(sv == third[i as int]);
            r.push(st);
            assert(r@.map_values(|st: SqlStatement| st@) =~= before.map_values(|st: SqlStatement| st@).push(sv));
            assert(first + second + third.take(i + 1) =~= (first + second + third.take(i as int)).push(sv));
            i = i + 1;
        }
        assert(third.take(self.closes.len() as int) =~= third);
        r
    }
}

/// The row `UPDATE_SQL` leaves: the reported task's fields, with the stored
/// id, kind and creation time.
pub open spec fn rewritten(stored: TaskView, reported: TaskView) -> TaskView {
    TaskView {
        url: reported.url,
        title: reported.title,
        description: reported.description,
        state: reported.state,
        updated_at: reported.updated_at,
        closed_at: reported.closed_at,
        requestor: reported.requestor,
        ..stored
    }
}

/// The row `CLOSE_SQL` leaves.
pub open spec fn marked_closed(t: TaskView) -> TaskView {
    TaskView { state: closed_state(), ..t }
}

/// The rows of one kind after `OPEN_SQL` ran for each task, in order.
pub open spec fn run_opens(rows: Map<Seq<char>, TaskView>, opens: Seq<TaskView>) -> Map<Seq<char>, TaskView>
    decreases opens.len(),
{
    if opens.len() == 0 {
        rows
    } else {
        run_opens(rows, opens.drop_last()).insert(opens.last().id, opens.last())
    }
}

/// The rows of one kind after `UPDATE_SQL` ran for each task, in order.
pub open spec fn run_updates(rows: Map<Seq<char>, TaskView>, updates: Seq<TaskView>) -> Map<Seq<char>, TaskView>
    decreases updates.len(),
{
    if updates.len() == 0 {
        rows
    } else {
        let r = run_updates(rows, updates.drop_last());
        let t = updates.last();
        if r.contains_key(t.id) {
            r.insert(t.id, rewritten(r[t.id], t))
        } else {
            r
        }
    }
}

/// The rows of one kind after `CLOSE_SQL` ran for each id, in order.
pub open spec fn run_closes(rows: Map<Seq<char>, TaskView>, ids: Seq<Seq<char>>) -> Map<Seq<char>, TaskView>
    decreases ids.len(),
{
    if ids.len() == 0 {
        rows
    } else {
        let r = run_closes(rows, ids.drop_last());
        let id = ids.last();
        if r.contains_key(id) {
            r.insert(id, marked_closed(r[id]))
        } else {
            r
        }
    }
}

/// The rows of one kind after a plan ran: inserts, then rewrites, then closes.
pub open spec fn run_plan(
    rows: Map<Seq<char>, TaskView>,
    opens: Seq<TaskView>,
    updates: Seq<TaskView>,
    closes: Seq<Seq<char>>,
) -> Map<Seq<char>, TaskView> {
    run_closes(run_updates(run_opens(rows, opens), updates), closes)
}

/// The rows that mirror what a plugin reports: every reported task, keeping the
/// creation time of a task already stored, and every stored task that is no
/// longer reported, marked closed.
pub open spec fn synced(stored: Map<Seq<char>, TaskView>, current: Map<Seq<char>, TaskView>) -> Map<Seq<char>, TaskView> {
    Map::new(
        |id: Seq<char>| stored.contains_key(id) || current.contains_key(id),
        |id: Seq<char>|
            if current.contains_key(id) {
                if stored.contains_key(id) {
                    rewritten(stored[id], current[id])
                } else {
                    current[id]
                }
            } else {
                marked_closed(stored[id])
            },
    )
}

proof fn lemma_run_opens(rows: Map<Seq<char>, TaskView>, opens: Seq<TaskView>)
    ensures
        run_opens(rows, opens) == rows.union_prefer_right(index_by_id(opens)),
    decreases opens.len(),
{
    if opens.len() > 0 {
        lemma_run_opens(rows, opens.drop_last());
        assert(run_opens(rows, opens) =~= rows.union_prefer_right(index_by_id(opens)));
    }
}

proof fn lemma_run_updates(rows: Map<Seq<char>, TaskView>, updates: Seq<TaskView>)
    requires
        ids_distinct(updates),
    ensures
        run_updates(rows, updates) == Map::new(
            |id: Seq<char>| rows.contains_key(id),
            |id: Seq<char>|
                if index_by_id(updates).contains_key(id) {
                    rewritten(rows[id], index_by_id(updates)[id])
                } else {
                    rows[id]
                },
        ),
    decreases updates.len(),
{
    if updates.len() > 0 {
        let d = updates.drop_last();
        assert(ids_distinct(d));
        lemma_run_updates(rows, d);
        lemma_index_dom(d, updates.last().id);
        if index_by_id(d).contains_key(updates.last().id) {
            let k = choose|k: int| 0 <= k < d.len() && d[k].id == updates.last().id;
            assert(updates[k].id == updates[updates.len() - 1].id);
        }
        assert(run_updates(rows, updates) =~= Map::new(
            |id: Seq<char>| rows.contains_key(id),
            |id: Seq<char>|
                if index_by_id(updates).contains_key(id) {
                    rewritten(rows[id], index_by_id(updates)[id])
                } else {
                    rows[id]
                },
        ));
    } else {
        assert(run_updates(rows, updates) =~= Map::new(
            |id: Seq<char>| rows.contains_key(id),
            |id: Seq<char>|
                if index_by_id(updates).contains_key(id) {
                    rewritten(rows[id], index_by_id(updates)[id])
                } else {
                    rows[id]
                },
        ));
    }
}

proof fn lemma_run_closes(rows: Map<Seq<char>, TaskView>, ids: Seq<Seq<char>>)
    ensures
        run_closes(rows, ids) == Map::new(
            |id: Seq<char>| rows.contains_key(id),
            |id: Seq<char>| if ids.contains(id) { marked_closed(rows[id]) } else { rows[id] },
        ),
    decreases ids.len(),
{
    let target = Map::new(
        |id: Seq<char>| rows.contains_key(id),
        |id: Seq<char>| if ids.contains(id) { marked_closed(rows[id]) } else { rows[id] },
    );
    if ids.len() > 0 {
        let d = ids.drop_last();
        lemma_run_closes(rows, d);
        assert forall|id: Seq<char>| ids.contains(id) <==> (d.contains(id) || id == ids.last()) by {
            if ids.contains(id) && id != ids.last() {
                let k = choose|k: int| 0 <= k < ids.len() && ids[k] == id;
                assert(d[k] == id);
            }
            if d.contains(id) {
                let k = choose|k: int| 0 <= k < d.len() && d[k] == id;
                assert(ids[k] == id);
            }
            if id == ids.last() {
                assert(ids[ids.len() - 1] == id);
            }
        }
        assert(run_closes(rows, ids) =~= target);
    } else {
        assert(run_closes(rows, ids) =~= target);
    }
}

// ---------------------------------------------------------------------------
// Laws
// ---------------------------------------------------------------------------

/// Running the writes of a plan, as the model of each statement says, leaves the
/// rows that mirror what the plugin reports.
proof fn lemma_plan_synchronizes(
    stored: Map<Seq<char>, TaskView>,
    current: Map<Seq<char>, TaskView>,
    opens: Seq<TaskView>,
    updates: Seq<TaskView>,
    closes: Seq<Seq<char>>,
)
    requires
        is_plan(stored, current, opens, updates, closes),
    ensures
        run_plan(stored, opens, updates, closes) == synced(stored, current),
{
    lemma_run_opens(stored, opens);
    let r1 = run_opens(stored, opens);
    lemma_run_updates(r1, updates);
    let r2 = run_updates(r1, updates);
    lemma_run_closes(r2, closes);
    assert forall|id: Seq<char>| closes.contains(id) <==> to_close(stored, current).contains(id) by {
        assert(closes.to_set().contains(id) == closes.contains(id));
    }
    assert(run_plan(stored, opens, updates, closes) =~= synced(stored, current));
}

proof fn lemma_run_concat(
    kind: Seq<char>,
    rows: Map<Seq<char>, TaskView>,
    a: Seq<SqlStatementView>,
    b: Seq<SqlStatementView>,
)
    ensures
        run_statements(kind, rows, a + b) == match run_statements(kind, rows, a) {
            Some(r) => run_statements(kind, r, b),
            None => None,
        },
    decreases b.len(),
{
    if b.len() == 0 {
        assert(a + b =~= a);
    } else {
        assert((a + b).drop_last() =~= a + b.drop_last());
        assert((a + b).last() == b.last());
        lemma_run_concat(kind, rows, a, b.drop_last());
    }
}

proof fn lemma_run_open_statements(kind: Seq<char>, rows: Map<Seq<char>, TaskView>, opens: Seq<TaskView>)
    requires
        ids_distinct(opens),
        forall|k: int| 0 <= k < opens.len() ==> (#[trigger] opens[k]).kind == kind
            && !rows.contains_key(opens[k].id),
    ensures
        run_statements(kind, rows, opens.map_values(|t: TaskView| open_statement(t)))
            == Some(run_opens(rows, opens)),
    decreases opens.len(),
{
    if opens.len() > 0 {
        let d = opens.drop_last();
        let t = opens.last();
        let sts = opens.map_values(|t: TaskView| open_statement(t));
        assert(sts.drop_last() =~= d.map_values(|t: TaskView| open_statement(t)));
        assert(ids_distinct(d));
        lemma_run_open_statements(kind, rows, d);
        lemma_run_opens(rows, d);
        lemma_index_dom(d, t.id);
        if index_by_id(d).contains_key(t.id) {
            let k = choose|k: int| 0 <= k < d.len() && d[k].id == t.id;
            assert(opens[k].id == opens[opens.len() - 1].id);
        }
        assert(opens[opens.len() - 1] == t);
        assert(sts.last() == open_statement(t));
    }
}

proof fn lemma_run_update_statements(kind: Seq<char>, rows: Map<Seq<char>, TaskView>, updates: Seq<TaskView>)
    ensures
        run_statements(kind, rows, updates.map_values(|t: TaskView| update_statement(kind, t)))
            == Some(run_updates(rows, updates)),
    decreases updates.len(),
{
    if updates.len() > 0 {
        let d = updates.drop_last();
        let sts = updates.map_values(|t: TaskView| update_statement(kind, t));
        assert(sts.drop_last() =~= d.map_values(|t: TaskView| update_statement(kind, t)));
        lemma_run_update_statements(kind, rows, d);
        assert(sts.last() == update_statement(kind, updates.last()));
    }
}

proof fn lemma_run_close_statements(kind: Seq<char>, rows: Map<Seq<char>, TaskView>, closes: Seq<Seq<char>>)
    ensures
        run_statements(kind, rows, closes.map_values(|id: Seq<char>| close_statement(kind, id)))
            == Some(run_closes(rows, closes)),
    decreases closes.len(),
{
    if closes.len() > 0 {
        let d = closes.drop_last();
        let sts = closes.map_values(|id: Seq<char>| close_statement(kind, id));
        assert(sts.drop_last() =~= d.map_values(|id: Seq<char>| close_statement(kind, id)));
        lemma_run_close_statements(kind, rows, d);
        assert(sts.last() == close_statement(kind, closes.last()));
    }
}

/// The task indexed under an id is one of the tasks.
proof fn lemma_index_value(s: Seq<TaskView>, id: Seq<char>)
    requires
        index_by_id(s).contains_key(id),
    ensures
        exists|k: int| 0 <= k < s.len() && s[k] == index_by_id(s)[id],
{
    lemma_index_dom(s, id);
    lemma_last_occurrence(s, id);
    let k = choose|k: int| 0 <= k < s.len() && s[k].id == id && is_last(s, k);
    lemma_index_last(s, k);
}

/// Running the statements of an update plan for `kind`, one after the other, on the
/// stored tasks of that kind succeeds and leaves exactly the rows that mirror what the
/// plugin reports: every reported task is stored (a task stored before keeps its
/// creation time), and every stored task that is no longer reported stays stored,
/// marked closed. Nothing is deleted.
pub proof fn law_update_synchronizes(
    kind: Seq<char>,
    previous: Seq<TaskView>,
    reported: Seq<PluginTaskView>,
    opens: Seq<TaskView>,
    updates: Seq<TaskView>,
    closes: Seq<Seq<char>>,
)
    requires
        is_plan(index_by_id(previous), index_by_id(filed_under(kind, reported)), opens, updates, closes),
    ensures
        run_statements(kind, index_by_id(previous), plan_statements(kind, opens, updates, closes))
            == Some(synced(index_by_id(previous), index_by_id(filed_under(kind, reported)))),
{
    let stored = index_by_id(previous);
    let cs = filed_under(kind, reported);
    let current = index_by_id(cs);
    let first = opens.map_values(|t: TaskView| open_statement(t));
    let second = updates.map_values(|t: TaskView| update_statement(kind, t));
    let third = closes.map_values(|id: Seq<char>| close_statement(kind, id));
    assert forall|k: int| 0 <= k < opens.len() implies (#[trigger] opens[k]).kind == kind
        && !stored.contains_key(opens[k].id) by {
        assert(is_last(opens, k));
        lemma_index_last(opens, k);
        assert(to_open(stored, current).contains_key(opens[k].id));
        lemma_index_value(cs, opens[k].id);
    }
    lemma_run_open_statements(kind, stored, opens);
    let r1 = run_opens(stored, opens);
    lemma_run_update_statements(kind, r1, updates);
    let r2 = run_updates(r1, updates);
    lemma_run_close_statements(kind, r2, closes);
    lemma_run_concat(kind, stored, first, second);
    lemma_run_concat(kind, stored, first + second, third);
    lemma_plan_synchronizes(stored, current, opens, updates, closes);
}

/// No two reported tasks share a key.
pub open spec fn keys_distinct(tasks: Seq<PluginTaskView>) -> bool {
    forall|i: int, j: int| 0 <= i < j < tasks.len() ==> tasks[i].key != tasks[j].key
}

/// Two sequences of tasks with distinct ids and the same elements index alike.
proof fn lemma_index_same_elements(a: Seq<TaskView>, b: Seq<TaskView>)
    requires
        ids_distinct(a),
        ids_distinct(b),
        forall|x: TaskView| a.contains(x) <==> b.contains(x),
    ensures
        index_by_id(a) == index_by_id(b),
{
    assert forall|id: Seq<char>| #[trigger] index_by_id(a).contains_key(id)
        implies index_by_id(b).contains_key(id) && index_by_id(b)[id] == index_by_id(a)[id] by {
        lemma_index_dom(a, id);
        let k = choose|k: int| 0 <= k < a.len() && a[k].id == id;
        assert(is_last(a, k));
        lemma_index_last(a, k);
        assert(a.contains(a[k]));
        let m = choose|m: int| 0 <= m < b.len() && b[m] == a[k];
        assert(is_last(b, m));
        lemma_index_last(b, m);
    }
    assert forall|id: Seq<char>| #[trigger] index_by_id(b).contains_key(id)
        implies index_by_id(a).contains_key(id) by {
        lemma_index_dom(b, id);
        let m = choose|m: int| 0 <= m < b.len() && b[m].id == id;
        assert(b.contains(b[m]));
        let k = choose|k: int| 0 <= k < a.len() && a[k] == b[m];
        lemma_index_dom(a, id);
    }
    assert(index_by_id(a) =~= index_by_id(b));
}

/// Reported tasks with distinct keys become stored tasks with distinct ids.
proof fn lemma_filed_distinct(kind: Seq<char>, r: Seq<PluginTaskView>)
    requires
        keys_distinct(r),
    ensures
        ids_distinct(filed_under(kind, r)),
{
    let f = filed_under(kind, r);
    assert forall|i: int, j: int| 0 <= i < j < f.len() implies f[i].id != f[j].id by {
        assert(f[i].id == r[i].key);
        assert(f[j].id == r[j].key);
    }
}

/// Reports that hold the same tasks are filed as the same tasks.
proof fn lemma_filed_same_elements(kind: Seq<char>, r1: Seq<PluginTaskView>, r2: Seq<PluginTaskView>)
    requires
        r1.to_multiset() == r2.to_multiset(),
    ensures
        forall|x: TaskView| filed_under(kind, r1).contains(x) <==> filed_under(kind, r2).contains(x),
{
    broadcast use vstd::seq_lib::group_to_multiset_ensures;
    let f1 = filed_under(kind, r1);
    let f2 = filed_under(kind, r2);
    assert forall|x: TaskView| f1.contains(x) implies f2.contains(x) by {
        let k = choose|k: int| 0 <= k < f1.len() && f1[k] == x;
        assert(r1.contains(r1[k]));
        assert(r1.to_multiset().count(r1[k]) > 0);
        assert(r2.contains(r1[k]));
        let m = choose|m: int| 0 <= m < r2.len() && r2[m] == r1[k];
        assert(f2[m] == x);
    }
    assert forall|x: TaskView| f2.contains(x) implies f1.contains(x) by {
        let m = choose|m: int| 0 <= m < f2.len() && f2[m] == x;
        assert(r2.contains(r2[m]));
        assert(r2.to_multiset().count(r2[m]) > 0);
        assert(r1.contains(r2[m]));
        let k = choose|k: int| 0 <= k < r1.len() && r1[k] == r2[m];
        assert(f1[k] == x);
    }
}

/// An update does not depend on the order in which a plugin reports tasks with
/// distinct keys: for the same stored tasks, two reports holding the same tasks in
/// any order give plans that insert the same tasks, rewrite the same tasks, close
/// the same ids, and whose statements leave the same rows.
pub proof fn law_update_ignores_report_order(
    kind: Seq<char>,
    previous: Seq<TaskView>,
    reported1: Seq<PluginTaskView>,
    reported2: Seq<PluginTaskView>,
    opens1: Seq<TaskView>,
    updates1: Seq<TaskView>,
    closes1: Seq<Seq<char>>,
    opens2: Seq<TaskView>,
    updates2: Seq<TaskView>,
    closes2: Seq<Seq<char>>,
)
    requires
        keys_distinct(reported1),
        keys_distinct(reported2),
        reported1.to_multiset() == reported2.to_multiset(),
        is_plan(index_by_id(previous), index_by_id(filed_under(kind, reported1)), opens1, updates1, closes1),
        is_plan(index_by_id(previous), index_by_id(filed_under(kind, reported2)), opens2, updates2, closes2),
    ensures
        index_by_id(opens1) == index_by_id(opens2),
        index_by_id(updates1) == index_by_id(updates2),
        closes1.to_set() == closes2.to_set(),
        run_statements(kind, index_by_id(previous), plan_statements(kind, opens1, updates1, closes1))
            == run_statements(kind, index_by_id(previous), plan_statements(kind, opens2, updates2, closes2)),
{
    lemma_filed_distinct(kind, reported1);
    lemma_filed_distinct(kind, reported2);
    lemma_filed_same_elements(kind, reported1, reported2);
    lemma_index_same_elements(filed_under(kind, reported1), filed_under(kind, reported2));
    law_update_synchronizes(kind, previous, reported1, opens1, updates1, closes1);
    law_update_synchronizes(kind, previous, reported2, opens2, updates2, closes2);
}

/// A prefix of a sequence with distinct ids has distinct ids and indexes part of
/// the sequence's index.
proof fn lemma_index_prefix(s: Seq<TaskView>, j: int)
    requires
        ids_distinct(s),
        0 <= j <= s.len(),
    ensures
        ids_distinct(s.take(j)),
        forall|id: Seq<char>| #[trigger] index_by_id(s.take(j)).contains_key(id)
            ==> index_by_id(s).contains_key(id) && index_by_id(s.take(j))[id] == index_by_id(s)[id],
{
    let t = s.take(j);
    assert forall|id: Seq<char>| #[trigger] index_by_id(t).contains_key(id)
        implies index_by_id(s).contains_key(id) && index_by_id(t)[id] == index_by_id(s)[id] by {
        lemma_index_dom(t, id);
        let k = choose|k: int| 0 <= k < t.len() && t[k].id == id;
        assert(is_last(t, k));
        assert(is_last(s, k));
        lemma_index_last(t, k);
        lemma_index_last(s, k);
    }
}

/// The tasks a plan inserts are filed under the kind and not stored yet.
proof fn lemma_opens_are_new(
    kind: Seq<char>,
    previous: Seq<TaskView>,
    reported: Seq<PluginTaskView>,
    opens: Seq<TaskView>,
    updates: Seq<TaskView>,
    closes: Seq<Seq<char>>,
)
    requires
        is_plan(index_by_id(previous), index_by_id(filed_under(kind, reported)), opens, updates, closes),
    ensures
        forall|k: int| 0 <= k < opens.len() ==> (#[trigger] opens[k]).kind == kind
            && !index_by_id(previous).contains_key(opens[k].id),
{
    let cs = filed_under(kind, reported);
    assert forall|k: int| 0 <= k < opens.len() implies (#[trigger] opens[k]).kind == kind
        && !index_by_id(previous).contains_key(opens[k].id) by {
        assert(is_last(opens, k));
        lemma_index_last(opens, k);
        assert(to_open(index_by_id(previous), index_by_id(cs)).contains_key(opens[k].id));
        lemma_index_value(cs, opens[k].id);
    }
}

/// `a` and `b` agree on `id`: both hold it, with the same task, or neither does.
pub open spec fn same_at(a: Map<Seq<char>, TaskView>, b: Map<Seq<char>, TaskView>, id: Seq<char>) -> bool {
    &&& a.contains_key(id) == b.contains_key(id)
    &&& a.contains_key(id) ==> a[id] == b[id]
}

/// An update that stops after any number of its statements leaves each task
/// either as it was stored before or as the whole update leaves it: each task is
/// written by one statement at most, and the statements that ran succeed.
pub proof fn law_interrupted_update_is_per_task(
    kind: Seq<char>,
    previous: Seq<TaskView>,
    reported: Seq<PluginTaskView>,
    opens: Seq<TaskView>,
    updates: Seq<TaskView>,
    closes: Seq<Seq<char>>,
    n: int,
)
    requires
        is_plan(index_by_id(previous), index_by_id(filed_under(kind, reported)), opens, updates, closes),
        0 <= n <= plan_statements(kind, opens, updates, closes).len(),
    ensures
        run_statements(kind, index_by_id(previous), plan_statements(kind, opens, updates, closes).take(n))
            matches Some(rows) && forall|id: Seq<char>| #![auto]
            same_at(rows, index_by_id(previous), id)
                || same_at(rows, synced(index_by_id(previous), index_by_id(filed_under(kind, reported))), id),
{
    let stored = index_by_id(previous);
    let current = index_by_id(filed_under(kind, reported));
    let after = synced(stored, current);
    let first = opens.map_values(|t: TaskView| open_statement(t));
    let second = updates.map_values(|t: TaskView| update_statement(kind, t));
    let third = closes.map_values(|id: Seq<char>| close_statement(kind, id));
    let all = plan_statements(kind, opens, updates, closes);
    let lo = opens.len() as int;
    let lu = updates.len() as int;
    lemma_opens_are_new(kind, previous, reported, opens, updates, closes);
    lemma_run_opens(stored, opens);
    let r1 = run_opens(stored, opens);
    if n <= lo {
        let o = opens.take(n);
        lemma_index_prefix(opens, n);
        assert(all.take(n) =~= o.map_values(|t: TaskView| open_statement(t)));
        lemma_run_open_statements(kind, stored, o);
        lemma_run_opens(stored, o);
        let rows = run_opens(stored, o);
        assert forall|id: Seq<char>| #![auto] same_at(rows, stored, id) || same_at(rows, after, id) by {
            if index_by_id(o).contains_key(id) {
                assert(to_open(stored, current).contains_key(id));
            }
        }
    } else {
        lemma_run_open_statements(kind, stored, opens);
        lemma_run_updates(r1, updates);
        let r2 = run_updates(r1, updates);
        if n <= lo + lu {
            let u = updates.take(n - lo);
            lemma_index_prefix(updates, n - lo);
            assert(all.take(n) =~= first + u.map_values(|t: TaskView| update_statement(kind, t)));
            lemma_run_concat(kind, stored, first, u.map_values(|t: TaskView| update_statement(kind, t)));
            lemma_run_update_statements(kind, r1, u);
            lemma_run_updates(r1, u);
            let rows = run_updates(r1, u);
            assert forall|id: Seq<char>| #![auto] same_at(rows, stored, id) || same_at(rows, after, id) by {
                if index_by_id(opens).contains_key(id) {
                    assert(to_open(stored, current).contains_key(id));
                }
                if index_by_id(u).contains_key(id) {
                    assert(to_update(stored, current).contains_key(id));
                }
            }
        } else {
            let c = closes.take(n - lo - lu);
            assert(all.take(n) =~= (first + second) + c.map_values(|id: Seq<char>| close_statement(kind, id)));
            lemma_run_concat(kind, stored, first, second);
            lemma_run_update_statements(kind, r1, updates);
            lemma_run_concat(kind, stored, first + second, c.map_values(|id: Seq<char>| close_statement(kind, id)));
            lemma_run_close_statements(kind, r2, c);
            lemma_run_closes(r2, c);
            let rows = run_closes(r2, c);
            assert forall|id: Seq<char>| #![auto] same_at(rows, stored, id) || same_at(rows, after, id) by {
                if index_by_id(opens).contains_key(id) {
                    assert(to_open(stored, current).contains_key(id));
                }
                if index_by_id(updates).contains_key(id) {
                    assert(to_update(stored, current).contains_key(id));
                }
                if c.contains(id) {
                    let k = choose|k: int| 0 <= k < c.len() && c[k] == id;
                    assert(closes[k] == id);
                    assert(closes.contains(id));
                    assert(closes.to_set().contains(id));
                }
            }
        }
    }
}

/// Every task an update reports new is one the plugin reported, filed under the
/// plugin's kind, and its id was not stored for that kind before.
pub proof fn law_new_tasks_are_reported_and_unstored(
    kind: Seq<char>,
    previous: Seq<TaskView>,
    reported: Seq<PluginTaskView>,
    opens: Seq<TaskView>,
    updates: Seq<TaskView>,
    closes: Seq<Seq<char>>,
)
    requires
        is_plan(index_by_id(previous), index_by_id(filed_under(kind, reported)), opens, updates, closes),
    ensures
        forall|k: int| 0 <= k < opens.len() ==> {
            &&& (#[trigger] opens[k]).kind == kind
            &&& !index_by_id(previous).contains_key(opens[k].id)
            &&& exists|m: int| 0 <= m < reported.len() && opens[k] == reported[m].with_kind(kind)
        },
{
    let cs = filed_under(kind, reported);
    assert forall|k: int| 0 <= k < opens.len() implies {
        &&& (#[trigger] opens[k]).kind == kind
        &&& !index_by_id(previous).contains_key(opens[k].id)
        &&& exists|m: int| 0 <= m < reported.len() && opens[k] == reported[m].with_kind(kind)
    } by {
        assert(is_last(opens, k));
        lemma_index_last(opens, k);
        assert(to_open(index_by_id(previous), index_by_id(cs)).contains_key(opens[k].id));
        lemma_index_value(cs, opens[k].id);
        let m = choose|m: int| 0 <= m < cs.len() && cs[m] == index_by_id(cs)[opens[k].id];
        assert(opens[k] == reported[m].with_kind(kind));
    }
}

/// Updating a second time with what the plugin reported the first time inserts
/// nothing and closes nothing, so no task is reported new twice; it rewrites only the
/// tasks whose creation time the plugin reports otherwise than the store holds, and
/// its statements leave the rows as they were.
pub proof fn law_second_update_is_quiet(
    kind: Seq<char>,
    previous: Seq<TaskView>,
    reported: Seq<PluginTaskView>,
    opens: Seq<TaskView>,
    updates: Seq<TaskView>,
    closes: Seq<Seq<char>>,
)
    requires
        forall|k: int| 0 <= k < previous.len() ==> #[trigger] previous[k].kind == kind,
        is_plan(
            synced(index_by_id(previous), index_by_id(filed_under(kind, reported))),
            index_by_id(filed_under(kind, reported)),
            opens,
            updates,
            closes,
        ),
    ensures
        opens.len() == 0,
        closes.len() == 0,
        forall|k: int| 0 <= k < updates.len() ==> {
            let id = (#[trigger] updates[k]).id;
            &&& index_by_id(previous).contains_key(id)
            &&& index_by_id(previous)[id].created_at != updates[k].created_at
        },
        run_statements(
            kind,
            synced(index_by_id(previous), index_by_id(filed_under(kind, reported))),
            plan_statements(kind, opens, updates, closes),
        ) == Some(synced(index_by_id(previous), index_by_id(filed_under(kind, reported)))),
{
    let stored = index_by_id(previous);
    let cs = filed_under(kind, reported);
    let current = index_by_id(cs);
    let after = synced(stored, current);
    assert(to_open(after, current) =~= Map::<Seq<char>, TaskView>::empty());
    assert(to_close(after, current) =~= Set::<Seq<char>>::empty());
    if opens.len() > 0 {
        assert(index_by_id(opens).contains_key(opens.last().id));
    }
    if closes.len() > 0 {
        assert(closes.to_set().contains(closes[0]));
    }
    assert forall|k: int| 0 <= k < updates.len() implies {
        let id = (#[trigger] updates[k]).id;
        &&& stored.contains_key(id)
        &&& stored[id].created_at != updates[k].created_at
    } by {
        let id = updates[k].id;
        assert(is_last(updates, k));
        lemma_index_last(updates, k);
        assert(to_update(after, current).contains_key(id));
        lemma_index_dom(previous, id);
        lemma_last_occurrence(previous, id);
        let j = choose|j: int| 0 <= j < previous.len() && previous[j].id == id && is_last(previous, j);
        lemma_index_last(previous, j);
        lemma_index_dom(cs, id);
        lemma_last_occurrence(cs, id);
        let m = choose|m: int| 0 <= m < cs.len() && cs[m].id == id && is_last(cs, m);
        lemma_index_last(cs, m);
        assert(cs[m].kind == kind);
    }
    let first = opens.map_values(|t: TaskView| open_statement(t));
    let second = updates.map_values(|t: TaskView| update_statement(kind, t));
    let third = closes.map_values(|id: Seq<char>| close_statement(kind, id));
    assert(first =~= Seq::<SqlStatementView>::empty());
    assert(third =~= Seq::<SqlStatementView>::empty());
    assert(plan_statements(kind, opens, updates, closes) =~= second);
    lemma_run_update_statements(kind, after, updates);
    lemma_run_updates(after, updates);
    assert forall|id: Seq<char>| #[trigger] index_by_id(updates).contains_key(id)
        implies rewritten(after[id], index_by_id(updates)[id]) == after[id] by {
        assert(to_update(after, current).contains_key(id));
    }
    assert(run_updates(after, updates) =~= after);
}

// ---------------------------------------------------------------------------
// What the statement texts say
// ---------------------------------------------------------------------------

/// `text` holds `part` at position `at`.
pub open spec fn holds_at(text: Seq<char>, part: Seq<char>, at: int) -> bool {
    &&& 0 <= at
    &&& at + part.len() <= text.len()
    &&& text.subrange(at, at + part.len()) == part
}

/// The `parts` stand in `text` one after the other, in their order, from position `from` on.
pub open spec fn appear_in_order(text: Seq<char>, parts: Seq<Seq<char>>, from: int) -> bool
    decreases parts.len(),
{
    if parts.len() == 0 {
        true
    } else {
        exists|at: int| from <= at && #[trigger] holds_at(text, parts[0], at)
            && appear_in_order(text, parts.drop_first(), at + parts[0].len())
    }
}

proof fn lemma_in_order_step(text: Seq<char>, parts: Seq<Seq<char>>, from: int, at: int)
    requires
        parts.len() > 0,
        from <= at,
        holds_at(text, parts[0], at),
        appear_in_order(text, parts.drop_first(), at + parts[0].len()),
    ensures
        appear_in_order(text, parts, from),
{
}

/// Each write runs its own statement: the insert runs `OPEN_SQL`, the rewrite
/// `UPDATE_SQL`, the close `CLOSE_SQL`.
pub proof fn law_each_write_runs_its_statement()
    ensures
        write_sql(Write::Open) == OPEN_SQL@,
        write_sql(Write::Update) == UPDATE_SQL@,
        write_sql(Write::Close) == CLOSE_SQL@,
{
}

/// The insert statement names the columns in the order of `row_params` (id, kind,
/// url, title, description, state, created_at, updated_at, closed_at, requestor) and
/// ends with ten placeholders, one per column.
pub proof fn law_open_statement_inserts_every_column()
    ensures
        appear_in_order(
            OPEN_SQL@,
            seq!["id,"@, "kind,"@, "url,"@, "title,"@, "description,"@, "state,"@, "created_at,"@,
                "updated_at,"@, "closed_at,"@, "requestor"@, "VALUES (?, ?, ?, ?, ?, ?, ?, ?, ?, ?)"@],
            0,
        ),
        holds_at(OPEN_SQL@, "VALUES (?, ?, ?, ?, ?, ?, ?, ?, ?, ?)"@, OPEN_SQL@.len() - 37),
{
    reveal_strlit("\nINSERT INTO tasks (\n  id, \n  kind, \n  url, \n  title, \n  description, \n  state, \n  created_at, \n  updated_at, \n  closed_at, \n  requestor\n) VALUES (?, ?, ?, ?, ?, ?, ?, ?, ?, ?)");
    reveal_strlit("id,");
    reveal_strlit("kind,");
    reveal_strlit("url,");
    reveal_strlit("title,");
    reveal_strlit("description,");
    reveal_strlit("state,");
    reveal_strlit("created_at,");
    reveal_strlit("updated_at,");
    reveal_strlit("closed_at,");
    reveal_strlit("requestor");
    reveal_strlit("VALUES (?, ?, ?, ?, ?, ?, ?, ?, ?, ?)");
    let t = OPEN_SQL@;
    assert(t == "\nINSERT INTO tasks (\n  id, \n  kind, \n  url, \n  title, \n  description, \n  state, \n  created_at, \n  updated_at, \n  closed_at, \n  requestor\n) VALUES (?, ?, ?, ?, ?, ?, ?, ?, ?, ?)"@);
    let parts = seq!["id,"@, "kind,"@, "url,"@, "title,"@, "description,"@, "state,"@, "created_at,"@, "updated_at,"@, "closed_at,"@, "requestor"@, "VALUES (?, ?, ?, ?, ?, ?, ?, ?, ?, ?)"@];
    assert(appear_in_order(t, parts.subrange(11, 11), t.len() as int));
    assert(holds_at(t, parts[10], 139)) by { assert(t.subrange(139int, 139int + parts[10].len()) =~= parts[10]); }
    assert(parts.subrange(10, 11).drop_first() =~= parts.subrange(11, 11));
    assert(parts.subrange(10, 11)[0] == parts[10]);
    lemma_in_order_step(t, parts.subrange(10, 11), 136, 139);
    assert(holds_at(t, parts[9], 127)) by { assert(t.subrange(127int, 127int + parts[9].len()) =~= parts[9]); }
    assert(parts.subrange(9, 11).drop_first() =~= parts.subrange(10, 11));
    assert(parts.subrange(9, 11)[0] == parts[9]);
    lemma_in_order_step(t, parts.subrange(9, 11), 123, 127);
    assert(holds_at(t, parts[8], 113)) by { assert(t.subrange(113int, 113int + parts[8].len()) =~= parts[8]); }
    assert(parts.subrange(8, 11).drop_first() =~= parts.subrange(9, 11));
    assert(parts.subrange(8, 11)[0] == parts[8]);
    lemma_in_order_step(t, parts.subrange(8, 11), 109, 113);
    assert(holds_at(t, parts[7], 98)) by { assert(t.subrange(98int, 98int + parts[7].len()) =~= parts[7]); }
    assert(parts.subrange(7, 11).drop_first() =~= parts.subrange(8, 11));
    assert(parts.subrange(7, 11)[0] == parts[7]);
    lemma_in_order_step(t, parts.subrange(7, 11), 94, 98);
    assert(holds_at(t, parts[6], 83)) by { assert(t.subrange(83int, 83int + parts[6].len()) =~= parts[6]); }
    assert(parts.subrange(6, 11).drop_first() =~= parts.subrange(7, 11));
    assert(parts.subrange(6, 11)[0] == parts[6]);
    lemma_in_order_step(t, parts.subrange(6, 11), 79, 83);
    assert(holds_at(t, parts[5], 73)) by { assert(t.subrange(73int, 73int + parts[5].len()) =~= parts[5]); }
    assert(parts.subrange(5, 11).drop_first() =~= parts.subrange(6, 11));
    assert(parts.subrange(5, 11)[0] == parts[5]);
    lemma_in_order_step(t, parts.subrange(5, 11), 69, 73);
    assert(holds_at(t, parts[4], 57)) by { assert(t.subrange(57int, 57int + parts[4].len()) =~= parts[4]); }
    assert(parts.subrange(4, 11).drop_first() =~= parts.subrange(5, 11));
    assert(parts.subrange(4, 11)[0] == parts[4]);
    lemma_in_order_step(t, parts.subrange(4, 11), 53, 57);
    assert(holds_at(t, parts[3], 47)) by { assert(t.subrange(47int, 47int + parts[3].len()) =~= parts[3]); }
    assert(parts.subrange(3, 11).drop_first() =~= parts.subrange(4, 11));
    assert(parts.subrange(3, 11)[0] == parts[3]);
    lemma_in_order_step(t, parts.subrange(3, 11), 43, 47);
    assert(holds_at(t, parts[2], 39)) by { assert(t.subrange(39int, 39int + parts[2].len()) =~= parts[2]); }
    assert(parts.subrange(2, 11).drop_first() =~= parts.subrange(3, 11));
    assert(parts.subrange(2, 11)[0] == parts[2]);
    lemma_in_order_step(t, parts.subrange(2, 11), 35, 39);
    assert(holds_at(t, parts[1], 30)) by { assert(t.subrange(30int, 30int + parts[1].len()) =~= parts[1]); }
    assert(parts.subrange(1, 11).drop_first() =~= parts.subrange(2, 11));
    assert(parts.subrange(1, 11)[0] == parts[1]);
    lemma_in_order_step(t, parts.subrange(1, 11), 26, 30);
    assert(holds_at(t, parts[0], 23)) by { assert(t.subrange(23int, 23int + parts[0].len()) =~= parts[0]); }
    assert(parts.subrange(0, 11).drop_first() =~= parts.subrange(1, 11));
    assert(parts.subrange(0, 11)[0] == parts[0]);
    lemma_in_order_step(t, parts.subrange(0, 11), 0, 23);
    assert(parts.subrange(0, 11) =~= parts);
}

/// The rewrite statement sets url, title, description, state, updated_at, closed_at
/// and requestor each to a placeholder, then selects the row by kind and id, in the
/// order of `update_params`, and ends there: the state becomes the reported state,
/// whatever it was.
pub proof fn law_update_statement_sets_every_field()
    ensures
        appear_in_order(
            UPDATE_SQL@,
            seq!["url = ?"@, "title = ?"@, "description = ?"@, "state = ?"@, "updated_at = ?"@,
                "closed_at = ?"@, "requestor = ?"@, "kind = ?"@, "id = ?"@],
            0,
        ),
        holds_at(UPDATE_SQL@, "id = ?"@, UPDATE_SQL@.len() - 6),
{
    reveal_strlit("\nUPDATE tasks \n  SET url = ?, \n      title = ?, \n      description = ?, \n      state = ?, \n      updated_at = ?, \n      closed_at = ?, \n      requestor = ? \nWHERE kind = ? \n  AND id = ?");
    reveal_strlit("url = ?");
    reveal_strlit("title = ?");
    reveal_strlit("description = ?");
    reveal_strlit("state = ?");
    reveal_strlit("updated_at = ?");
    reveal_strlit("closed_at = ?");
    reveal_strlit("requestor = ?");
    reveal_strlit("kind = ?");
    reveal_strlit("id = ?");
    let t = UPDATE_SQL@;
    assert(t == "\nUPDATE tasks \n  SET url = ?, \n      title = ?, \n      description = ?, \n      state = ?, \n      updated_at = ?, \n      closed_at = ?, \n      requestor = ? \nWHERE kind = ? \n  AND id = ?"@);
    let parts = seq!["url = ?"@, "title = ?"@, "description = ?"@, "state = ?"@, "updated_at = ?"@, "closed_at = ?"@, "requestor = ?"@, "kind = ?"@, "id = ?"@];
    assert(appear_in_order(t, parts.subrange(9, 9), t.len() as int));
    assert(holds_at(t, parts[8], 179)) by { assert(t.subrange(179int, 179int + parts[8].len()) =~= parts[8]); }
    assert(parts.subrange(8, 9).drop_first() =~= parts.subrange(9, 9));
    assert(parts.subrange(8, 9)[0] == parts[8]);
    lemma_in_order_step(t, parts.subrange(8, 9), 171, 179);
    assert(holds_at(t, parts[7], 163)) by { assert(t.subrange(163int, 163int + parts[7].len()) =~= parts[7]); }
    assert(parts.subrange(7, 9).drop_first() =~= parts.subrange(8, 9));
    assert(parts.subrange(7, 9)[0] == parts[7]);
    lemma_in_order_step(t, parts.subrange(7, 9), 155, 163);
    assert(holds_at(t, parts[6], 142)) by { assert(t.subrange(142int, 142int + parts[6].len()) =~= parts[6]); }
    assert(parts.subrange(6, 9).drop_first() =~= parts.subrange(7, 9));
    assert(parts.subrange(6, 9)[0] == parts[6]);
    lemma_in_order_step(t, parts.subrange(6, 9), 133, 142);
    assert(holds_at(t, parts[5], 120)) by { assert(t.subrange(120int, 120int + parts[5].len()) =~= parts[5]); }
    assert(parts.subrange(5, 9).drop_first() =~= parts.subrange(6, 9));
    assert(parts.subrange(5, 9)[0] == parts[5]);
    lemma_in_order_step(t, parts.subrange(5, 9), 111, 120);
    assert(holds_at(t, parts[4], 97)) by { assert(t.subrange(97int, 97int + parts[4].len()) =~= parts[4]); }
    assert(parts.subrange(4, 9).drop_first() =~= parts.subrange(5, 9));
    assert(parts.subrange(4, 9)[0] == parts[4]);
    lemma_in_order_step(t, parts.subrange(4, 9), 88, 97);
    assert(holds_at(t, parts[3], 79)) by { assert(t.subrange(79int, 79int + parts[3].len()) =~= parts[3]); }
    assert(parts.subrange(3, 9).drop_first() =~= parts.subrange(4, 9));
    assert(parts.subrange(3, 9)[0] == parts[3]);
    lemma_in_order_step(t, parts.subrange(3, 9), 70, 79);
    assert(holds_at(t, parts[2], 55)) by { assert(t.subrange(55int, 55int + parts[2].len()) =~= parts[2]); }
    assert(parts.subrange(2, 9).drop_first() =~= parts.subrange(3, 9));
    assert(parts.subrange(2, 9)[0] == parts[2]);
    lemma_in_order_step(t, parts.subrange(2, 9), 46, 55);
    assert(holds_at(t, parts[1], 37)) by { assert(t.subrange(37int, 37int + parts[1].len()) =~= parts[1]); }
    assert(parts.subrange(1, 9).drop_first() =~= parts.subrange(2, 9));
    assert(parts.subrange(1, 9)[0] == parts[1]);
    lemma_in_order_step(t, parts.subrange(1, 9), 28, 37);
    assert(holds_at(t, parts[0], 21)) by { assert(t.subrange(21int, 21int + parts[0].len()) =~= parts[0]); }
    assert(parts.subrange(0, 9).drop_first() =~= parts.subrange(1, 9));
    assert(parts.subrange(0, 9)[0] == parts[0]);
    lemma_in_order_step(t, parts.subrange(0, 9), 0, 21);
    assert(parts.subrange(0, 9) =~= parts);
}

/// The close statement sets the state to `closed` on the one row whose kind and id
/// equal its placeholders, in the order of `close_params`, and ends there.
pub proof fn law_close_statement_closes_one_row()
    ensures
        appear_in_order(CLOSE_SQL@, seq!["SET state = 'closed'"@, "kind = ?"@, "id = ?"@], 0),
        holds_at(CLOSE_SQL@, "id = ?"@, CLOSE_SQL@.len() - 6),
{
    reveal_strlit("\nUPDATE tasks \n  SET state = 'closed' \nWHERE kind = ? \n  AND id = ?");
    reveal_strlit("SET state = 'closed'");
    reveal_strlit("kind = ?");
    reveal_strlit("id = ?");
    let t = CLOSE_SQL@;
    assert(t == "\nUPDATE tasks \n  SET state = 'closed' \nWHERE kind = ? \n  AND id = ?"@);
    let parts = seq!["SET state = 'closed'"@, "kind = ?"@, "id = ?"@];
    assert(appear_in_order(t, parts.subrange(3, 3), t.len() as int));
    assert(holds_at(t, parts[2], 61)) by { assert(t.subrange(61int, 61int + parts[2].len()) =~= parts[2]); }
    assert(parts.subrange(2, 3).drop_first() =~= parts.subrange(3, 3));
    assert(parts.subrange(2, 3)[0] == parts[2]);
    lemma_in_order_step(t, parts.subrange(2, 3), 53, 61);
    assert(holds_at(t, parts[1], 45)) by { assert(t.subrange(45int, 45int + parts[1].len()) =~= parts[1]); }
    assert(parts.subrange(1, 3).drop_first() =~= parts.subrange(2, 3));
    assert(parts.subrange(1, 3)[0] == parts[1]);
    lemma_in_order_step(t, parts.subrange(1, 3), 37, 45);
    assert(holds_at(t, parts[0], 17)) by { assert(t.subrange(17int, 17int + parts[0].len()) =~= parts[0]); }
    assert(parts.subrange(0, 3).drop_first() =~= parts.subrange(1, 3));
    assert(parts.subrange(0, 3)[0] == parts[0]);
    lemma_in_order_step(t, parts.subrange(0, 3), 0, 17);
    assert(parts.subrange(0, 3) =~= parts);
}

} // verus!
