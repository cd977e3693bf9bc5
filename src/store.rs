use crate::clock::now;
use crate::task::{done_toggled, pending_toggled, rank, Task, TaskModel, TaskStatus, Timestamp};
use crate::text::{contains, contains_str, entries, expand, is_compound, occurs_at, views};
use vstd::prelude::*;

verus! {

broadcast use {
    Seq::lemma_filter_push,
    Seq::lemma_filter_len,
    Seq::lemma_filter_pred,
    Seq::filter_distributes_over_add,
    Seq::lemma_filter_contains_rev,
};

/// The models of a sequence of tasks.
pub open spec fn models(v: Seq<Task>) -> Seq<TaskModel> {
    v.map_values(|t: Task| t@)
}

/// The tasks of `s` with status `st`, in their order in `s`.
pub open spec fn with_status(s: Seq<TaskModel>, st: TaskStatus) -> Seq<TaskModel> {
    s.filter(|t: TaskModel| t.status == st)
}

/// `s` sorted stably by status rank: its undone tasks, then its pending
/// tasks, then its done tasks, each group in its order in `s`.
pub open spec fn reordered(s: Seq<TaskModel>) -> Seq<TaskModel> {
    with_status(s, TaskStatus::Undone) + with_status(s, TaskStatus::Pending) + with_status(
        s,
        TaskStatus::Done,
    )
}

/// The tasks of `s` that are not done, in their order in `s`.
pub open spec fn without_done(s: Seq<TaskModel>) -> Seq<TaskModel> {
    s.filter(|t: TaskModel| t.status != TaskStatus::Done)
}

/// The tasks of `s` whose description holds `q`, in their order in `s`.
pub open spec fn matching(s: Seq<TaskModel>, q: Seq<char>) -> Seq<TaskModel> {
    s.filter(|t: TaskModel| contains(t.description, q))
}

/// The position just after the last undone task of `s`, or 0 if there is none.
pub open spec fn after_last_undone(s: Seq<TaskModel>) -> int
    decreases s.len(),
{
    if s.len() == 0 {
        0
    } else if s.last().status == TaskStatus::Undone {
        s.len() as int
    } else {
        after_last_undone(s.drop_last())
    }
}

/// A reference task was given, and new tasks go right after it.
pub open spec fn anchored(st: Option<TaskStatus>, idx: Option<usize>) -> bool {
    &&& idx is Some
    &&& (st == Some(TaskStatus::Undone) || st == Some(TaskStatus::Pending))
}

/// Where tasks added with reference status `st` and position `idx` go.
pub open spec fn insert_position(s: Seq<TaskModel>, st: Option<TaskStatus>, idx: Option<usize>) -> int {
    if anchored(st, idx) {
        idx->0 + 1
    } else {
        after_last_undone(s)
    }
}

/// The reference position, where one counts, lies within `s`.
pub open spec fn valid_reference(s: Seq<TaskModel>, st: Option<TaskStatus>, idx: Option<usize>) -> bool {
    anchored(st, idx) ==> idx->0 < s.len()
}

/// The status of tasks added with reference status `st`.
pub open spec fn new_status(st: Option<TaskStatus>) -> TaskStatus {
    if st == Some(TaskStatus::Pending) {
        TaskStatus::Pending
    } else {
        TaskStatus::Undone
    }
}

/// Tasks with descriptions `ds`, all with status `st` and creation time `c`.
pub open spec fn new_tasks(ds: Seq<Seq<char>>, st: TaskStatus, c: Option<Timestamp>) -> Seq<TaskModel> {
    ds.map_values(|d: Seq<char>| TaskModel { description: d, status: st, created_at: c })
}

/// `s` after adding description `d` with reference status `st` and position
/// `idx`, the new tasks created at `c`.
pub open spec fn added(
    s: Seq<TaskModel>,
    d: Seq<char>,
    st: Option<TaskStatus>,
    idx: Option<usize>,
    c: Option<Timestamp>,
) -> Seq<TaskModel> {
    let pos = insert_position(s, st, idx);
    s.take(pos) + new_tasks(entries(d), new_status(st), c) + s.skip(pos)
}

/// `i` is the first position in `s` of a task with description `d`.
pub open spec fn first_with_description(s: Seq<TaskModel>, d: Seq<char>, i: int) -> bool {
    &&& 0 <= i < s.len()
    &&& s[i].description == d
    &&& forall|j: int| 0 <= j < i ==> s[j].description != d
}

/// Task `t` with its status set to `st`.
pub open spec fn set_status(t: TaskModel, st: TaskStatus) -> TaskModel {
    TaskModel { status: st, ..t }
}

/// Task `t` with its description set to `d`.
pub open spec fn set_description(t: TaskModel, d: Seq<char>) -> TaskModel {
    TaskModel { description: d, ..t }
}

pub proof fn lemma_after_last_undone_bounds(s: Seq<TaskModel>)
    ensures
        0 <= after_last_undone(s) <= s.len(),
    decreases s.len(),
{
    if s.len() > 0 {
        lemma_after_last_undone_bounds(s.drop_last());
    }
}

proof fn lemma_with_status_same(s: Seq<TaskModel>, st: TaskStatus, other: TaskStatus)
    requires
        forall|i: int| 0 <= i < s.len() ==> s[i].status == st,
    ensures
        with_status(s, other) == if other == st { s } else { Seq::<TaskModel>::empty() },
    decreases s.len(),
{
    if s.len() > 0 {
        lemma_with_status_same(s.drop_last(), st, other);
        assert(s =~= s.drop_last().push(s.last()));
    } else {
        assert(s =~= Seq::<TaskModel>::empty());
        reveal(Seq::filter);
    }
}

proof fn lemma_status_partition_len(s: Seq<TaskModel>)
    ensures
        with_status(s, TaskStatus::Undone).len() + with_status(s, TaskStatus::Pending).len()
            + with_status(s, TaskStatus::Done).len() == s.len(),
    decreases s.len(),
{
    if s.len() > 0 {
        lemma_status_partition_len(s.drop_last());
        assert(s =~= s.drop_last().push(s.last()));
    } else {
        reveal(Seq::filter);
    }
}

/// After regrouping, every undone task stands before every pending task,
/// which stands before every done task; the tasks of each status keep the
/// order they had, and no task is gained or lost.
pub proof fn lemma_reorder_grouped(s: Seq<TaskModel>)
    ensures
        reordered(s).len() == s.len(),
        forall|i: int, j: int|
            0 <= i < j < reordered(s).len() ==> rank(reordered(s)[i].status) <= rank(
                reordered(s)[j].status,
            ),
        forall|st: TaskStatus| #[trigger] with_status(reordered(s), st) == with_status(s, st),
{
    let a = with_status(s, TaskStatus::Undone);
    let b = with_status(s, TaskStatus::Pending);
    let c = with_status(s, TaskStatus::Done);
    let r = reordered(s);
    lemma_status_partition_len(s);
    assert forall|k: int| 0 <= k < a.len() implies a[k].status == TaskStatus::Undone by {
        s.lemma_filter_pred(|t: TaskModel| t.status == TaskStatus::Undone, k);
    }
    assert forall|k: int| 0 <= k < b.len() implies b[k].status == TaskStatus::Pending by {
        s.lemma_filter_pred(|t: TaskModel| t.status == TaskStatus::Pending, k);
    }
    assert forall|k: int| 0 <= k < c.len() implies c[k].status == TaskStatus::Done by {
        s.lemma_filter_pred(|t: TaskModel| t.status == TaskStatus::Done, k);
    }
    assert forall|k: int| 0 <= k < r.len() implies rank(#[trigger] r[k].status) == if k < a.len() {
        0nat
    } else if k < a.len() + b.len() {
        1nat
    } else {
        2nat
    } by {
        if k < a.len() {
            assert(r[k] == a[k]);
        } else if k < a.len() + b.len() {
            assert(r[k] == b[k - a.len()]);
        } else {
            assert(r[k] == c[k - a.len() - b.len()]);
        }
    }
    assert forall|st: TaskStatus| #[trigger] with_status(r, st) == with_status(s, st) by {
        lemma_with_status_same(a, TaskStatus::Undone, st);
        lemma_with_status_same(b, TaskStatus::Pending, st);
        lemma_with_status_same(c, TaskStatus::Done, st);
        assert(with_status(r, st) == with_status(a + b, st) + with_status(c, st));
        assert(with_status(a + b, st) == with_status(a, st) + with_status(b, st));
        match st {
            TaskStatus::Undone => {
                assert(with_status(r, st) =~= a);
            },
            TaskStatus::Pending => {
                assert(with_status(r, st) =~= b);
            },
            TaskStatus::Done => {
                assert(with_status(r, st) =~= c);
            },
        }
    }
}

/// An empty query matches every task: filtering by it gives back the whole
/// collection in its order.
pub proof fn lemma_empty_query_matches_all(s: Seq<TaskModel>)
    ensures
        matching(s, Seq::<char>::empty()) == s,
    decreases s.len(),
{
    if s.len() > 0 {
        lemma_empty_query_matches_all(s.drop_last());
        assert(s =~= s.drop_last().push(s.last()));
        assert(s.last().description.subrange(0, 0) =~= Seq::<char>::empty());
        assert(occurs_at(s.last().description, Seq::<char>::empty(), 0));
    } else {
        assert(s =~= Seq::<TaskModel>::empty());
        reveal(Seq::filter);
    }
}

/// A non-empty description that is not of the compound form adds exactly
/// one task, whose description is the input itself.
pub proof fn lemma_plain_description_single(
    s: Seq<TaskModel>,
    d: Seq<char>,
    st: Option<TaskStatus>,
    idx: Option<usize>,
    c: Option<Timestamp>,
)
    requires
        valid_reference(s, st, idx),
        d.len() > 0,
        !is_compound(d),
    ensures
        added(s, d, st, idx, c) == s.insert(
            insert_position(s, st, idx),
            TaskModel { description: d, status: new_status(st), created_at: c },
        ),
{
    lemma_after_last_undone_bounds(s);
    let pos = insert_position(s, st, idx);
    let t = TaskModel { description: d, status: new_status(st), created_at: c };
    assert(entries(d) == seq![d]);
    assert(new_tasks(entries(d), new_status(st), c) =~= seq![t]);
    assert(added(s, d, st, idx, c) =~= s.insert(pos, t));
}

/// The collection of tasks, in display order.
pub struct TodoApp {
    pub tasks: Vec<Task>,
}

impl View for TodoApp {
    type V = Seq<TaskModel>;

    open spec fn view(&self) -> Seq<TaskModel> {
        models(self.tasks@)
    }
}

impl TodoApp {
    pub fn new() -> (r: TodoApp)
        ensures
            r@ == Seq::<TaskModel>::empty(),
    {
        let r = TodoApp { tasks: Vec::new() };
        assert(r@ =~= Seq::<TaskModel>::empty());
        r
    }

    /// The position just after the last undone task.
    fn undone_end(&self) -> (r: usize)
        ensures
            r == after_last_undone(self@),
    {
        let mut i = self.tasks.len();
        assert(self@.take(i as int) =~= self@);
        while i > 0 && self.tasks[i - 1].status != TaskStatus::Undone
            invariant
                i <= self.tasks.len(),
                after_last_undone(self@) == after_last_undone(self@.take(i as int)),
            decreases i,
        {
            assert(self@.take(i as int).drop_last() =~= self@.take(i - 1));
            i -= 1;
        }
        if i > 0 {
            assert(self@.take(i as int).last() == self@[i - 1]);
        }
        i
    }

    /// Adds the tasks that `description` stands for, all created at
    /// `created_at`: right after the reference task at `current_index` if
    /// its status `current_status` is undone or pending, else right after
    /// the last undone task (at the front if there is none). They are
    /// pending if the reference status is, else undone.
    pub fn add_task_at(
        &mut self,
        description: String,
        current_status: Option<TaskStatus>,
        current_index: Option<usize>,
        created_at: Option<Timestamp>,
    )
        requires
            valid_reference(old(self)@, current_status, current_index),
        ensures
            final(self)@ == added(old(self)@, description@, current_status, current_index, created_at),
    {
        let len0 = self.tasks.len();
        assert(self@.len() == len0);
        let descs = expand(description.as_str());
        let mut pos: usize = match (current_status, current_index) {
            (Some(TaskStatus::Pending), Some(i)) => {
                assert(i < len0);
                i + 1
            },
            (Some(TaskStatus::Undone), Some(i)) => {
                assert(i < len0);
                i + 1
            },
            _ => self.undone_end(),
        };
        let status = match current_status {
            Some(TaskStatus::Pending) => TaskStatus::Pending,
            _ => TaskStatus::Undone,
        };
        let ghost s0 = old(self)@;
        let ghost pos0 = pos as int;
        proof {
            lemma_after_last_undone_bounds(s0);
        }
        let mut k: usize = 0;
        assert(s0 =~= s0.take(pos0) + new_tasks(views(descs@).take(0), status, created_at) + s0.skip(pos0));
        while k < descs.len()
            invariant
                0 <= pos0 <= s0.len(),
                pos == pos0 + k,
                k <= descs.len(),
                self.tasks.len() == s0.len() + k,
                status == new_status(current_status),
                self@ == s0.take(pos0) + new_tasks(views(descs@).take(k as int), status, created_at) + s0.skip(pos0),
            decreases descs.len() - k,
        {
            let t = Task::new(descs[k].clone(), status, created_at);
            let ghost before = self@;
            self.tasks.insert(pos, t);
            // a length is a usize, which bounds pos + 1
            let len = self.tasks.len();
            proof {
                assert(self@ =~= before.insert(pos as int, t@));
                assert(views(descs@).take(k + 1) =~= views(descs@).take(k as int).push(descs@[k as int]@));
                assert(new_tasks(views(descs@).take(k + 1), status, created_at) =~= new_tasks(
                    views(descs@).take(k as int),
                    status,
                    created_at,
                ).push(t@));
                assert(self@ =~= s0.take(pos0) + new_tasks(views(descs@).take(k + 1), status, created_at) + s0.skip(pos0));
            }
            pos += 1;
            k += 1;
        }
        assert(views(descs@).take(k as int) =~= views(descs@));
    }

    /// Adds the tasks that `description` stands for, as `add_task_at` does,
    /// all stamped with the current time.
    pub fn add_task(
        &mut self,
        description: String,
        current_status: Option<TaskStatus>,
        current_index: Option<usize>,
    )
        requires
            valid_reference(old(self)@, current_status, current_index),
        ensures
            exists|t: Timestamp|
                t.wf() && final(self)@ == added(
                    old(self)@,
                    description@,
                    current_status,
                    current_index,
                    Some(t),
                ),
    {
        let t = now();
        self.add_task_at(description, current_status, current_index, Some(t));
    }

    /// Removes the task at `index`; an index past the end changes nothing.
    pub fn delete_task(&mut self, index: usize)
        ensures
            index < old(self)@.len() ==> final(self)@ == old(self)@.remove(index as int),
            index >= old(self)@.len() ==> final(self)@ == old(self)@,
    {
        if index < self.tasks.len() {
            let ghost before = self.tasks@;
            self.tasks.remove(index);
            assert(self@ =~= models(before).remove(index as int));
        }
    }

    /// Drops every done task, keeping the order of the others.
    pub fn remove_done_tasks(&mut self)
        ensures
            final(self)@ == without_done(old(self)@),
    {
        let mut kept: Vec<Task> = Vec::new();
        let mut i: usize = 0;
        assert(self@.take(0) =~= Seq::<TaskModel>::empty());
        while i < self.tasks.len()
            invariant
                i <= self.tasks.len(),
                models(kept@) == without_done(self@.take(i as int)),
            decreases self.tasks.len() - i,
        {
            assert(self@.take(i + 1) =~= self@.take(i as int).push(self@[i as int]));
            if self.tasks[i].status != TaskStatus::Done {
                let ghost before = kept@;
                let t = self.tasks[i].duplicate();
                kept.push(t);
                assert(models(kept@) =~= models(before).push(t@));
            }
            i += 1;
        }
        assert(self@.take(i as int) =~= self@);
        self.tasks = kept;
    }

    /// Sets the description of the task at `index`, keeping its status and
    /// creation time; an index past the end changes nothing.
    pub fn edit_task(&mut self, index: usize, new_description: String)
        ensures
            index < old(self)@.len() ==> final(self)@ == old(self)@.update(
                index as int,
                set_description(old(self)@[index as int], new_description@),
            ),
            index >= old(self)@.len() ==> final(self)@ == old(self)@,
    {
        if index < self.tasks.len() {
            let ghost before = self@;
            self.tasks[index].description = new_description;
            assert(self@ =~= before.update(index as int, set_description(before[index as int], new_description@)));
        }
    }

    /// Sets the status of the task at `index`.
    fn set_status_at(&mut self, index: usize, st: TaskStatus)
        requires
            index < old(self)@.len(),
        ensures
            final(self)@ == old(self)@.update(index as int, set_status(old(self)@[index as int], st)),
    {
        let ghost before = self@;
        self.tasks[index].status = st;
        assert(self@ =~= before.update(index as int, set_status(before[index as int], st)));
    }

    /// Moves the task at `index` from undone to done, and from pending or
    /// done to undone, then regroups the collection by status; an index past
    /// the end changes nothing.
    pub fn toggle_task(&mut self, index: usize)
        ensures
            index < old(self)@.len() ==> final(self)@ == reordered(
                old(self)@.update(
                    index as int,
                    set_status(old(self)@[index as int], done_toggled(old(self)@[index as int].status)),
                ),
            ),
            index >= old(self)@.len() ==> final(self)@ == old(self)@,
    {
        if index < self.tasks.len() {
            let st = self.tasks[index].status.toggle_done();
            self.set_status_at(index, st);
            self.reorder_tasks();
        }
    }

    /// Moves the task at `index` from undone or done to pending, and from
    /// pending to undone, then regroups the collection by status; an index
    /// past the end changes nothing.
    pub fn toggle_pending(&mut self, index: usize)
        ensures
            index < old(self)@.len() ==> final(self)@ == reordered(
                old(self)@.update(
                    index as int,
                    set_status(old(self)@[index as int], pending_toggled(old(self)@[index as int].status)),
                ),
            ),
            index >= old(self)@.len() ==> final(self)@ == old(self)@,
    {
        if index < self.tasks.len() {
            let st = self.tasks[index].status.toggle_pending();
            self.set_status_at(index, st);
            self.reorder_tasks();
        }
    }

    /// Sorts the collection stably by status: undone, then pending, then done.
    pub fn reorder_tasks(&mut self)
        ensures
            final(self)@ == reordered(old(self)@),
    {
        let mut undone: Vec<Task> = Vec::new();
        let mut pending: Vec<Task> = Vec::new();
        let mut done: Vec<Task> = Vec::new();
        let mut i: usize = 0;
        assert(self@.take(0) =~= Seq::<TaskModel>::empty());
        while i < self.tasks.len()
            invariant
                i <= self.tasks.len(),
                models(undone@) == with_status(self@.take(i as int), TaskStatus::Undone),
                models(pending@) == with_status(self@.take(i as int), TaskStatus::Pending),
                models(done@) == with_status(self@.take(i as int), TaskStatus::Done),
            decreases self.tasks.len() - i,
        {
            assert(self@.take(i + 1) =~= self@.take(i as int).push(self@[i as int]));
            let t = self.tasks[i].duplicate();
            match t.status {
                TaskStatus::Undone => {
                    let ghost before = undone@;
                    undone.push(t);
                    assert(models(undone@) =~= models(before).push(t@));
                },
                TaskStatus::Pending => {
                    let ghost before = pending@;
                    pending.push(t);
                    assert(models(pending@) =~= models(before).push(t@));
                },
                TaskStatus::Done => {
                    let ghost before = done@;
                    done.push(t);
                    assert(models(done@) =~= models(before).push(t@));
                },
            }
            i += 1;
        }
        assert(self@.take(i as int) =~= self@);
        let ghost (u, p, d) = (undone@, pending@, done@);
        undone.append(&mut pending);
        undone.append(&mut done);
        assert(models(undone@) =~= models(u) + models(p) + models(d));
        self.tasks = undone;
    }

    /// The tasks whose description holds `query`, in collection order.
    pub fn filter_tasks(&self, query: &str) -> (r: Vec<Task>)
        ensures
            models(r@) == matching(self@, query@),
    {
        let mut r: Vec<Task> = Vec::new();
        let mut i: usize = 0;
        assert(self@.take(0) =~= Seq::<TaskModel>::empty());
        while i < self.tasks.len()
            invariant
                i <= self.tasks.len(),
                models(r@) == matching(self@.take(i as int), query@),
            decreases self.tasks.len() - i,
        {
            assert(self@.take(i + 1) =~= self@.take(i as int).push(self@[i as int]));
            if contains_str(self.tasks[i].description.as_str(), query) {
                let ghost before = r@;
                let t = self.tasks[i].duplicate();
                r.push(t);
                assert(models(r@) =~= models(before).push(t@));
            }
            i += 1;
        }
        assert(self@.take(i as int) =~= self@);
        r
    }

    /// The number of done tasks and the number of undone tasks; pending
    /// tasks count in neither.
    pub fn completion_counts(&self) -> (r: (usize, usize))
        ensures
            r.0 == with_status(self@, TaskStatus::Done).len(),
            r.1 == with_status(self@, TaskStatus::Undone).len(),
    {
        let mut done: usize = 0;
        let mut undone: usize = 0;
        let mut i: usize = 0;
        assert(self@.take(0) =~= Seq::<TaskModel>::empty());
        while i < self.tasks.len()
            invariant
                i <= self.tasks.len(),
                done == with_status(self@.take(i as int), TaskStatus::Done).len(),
                undone == with_status(self@.take(i as int), TaskStatus::Undone).len(),
            decreases self.tasks.len() - i,
        {
            assert(self@.take(i + 1) =~= self@.take(i as int).push(self@[i as int]));
            match self.tasks[i].status {
                TaskStatus::Done => done += 1,
                TaskStatus::Undone => undone += 1,
                TaskStatus::Pending => {},
            }
            i += 1;
        }
        assert(self@.take(i as int) =~= self@);
        (done, undone)
    }

    /// The position of the first task whose description is `description`.
    /// Where several tasks share it, the first one is taken.
    pub fn index_of_description(&self, description: &String) -> (r: Option<usize>)
        ensures
            match r {
                Some(i) => first_with_description(self@, description@, i as int),
                None => forall|j: int| 0 <= j < self@.len() ==> self@[j].description != description@,
            },
    {
        let mut i: usize = 0;
        while i < self.tasks.len()
            invariant
                i <= self.tasks.len(),
                forall|j: int| 0 <= j < i ==> self@[j].description != description@,
            decreases self.tasks.len() - i,
        {
            if self.tasks[i].description.eq(description) {
                return Some(i);
            }
            i += 1;
        }
        None
    }

    /// The position in the collection of the task that stands at `selected`
    /// among those matching `query`, found by its description: where several
    /// tasks share that description, the first of them is taken.
    pub fn resolve_filtered(&self, query: &str, selected: usize) -> (r: Option<usize>)
        ensures
            r is Some <==> selected < matching(self@, query@).len(),
            r is Some ==> first_with_description(
                self@,
                matching(self@, query@)[selected as int].description,
                r->0 as int,
            ),
    {
        let shown = self.filter_tasks(query);
        if selected >= shown.len() {
            return None;
        }
        let ghost m = matching(self@, query@);
        let ghost e = m[selected as int];
        assert(models(shown@)[selected as int] == shown@[selected as int]@);
        assert(m.contains(e));
        let r = self.index_of_description(&shown[selected].description);
        proof {
            if r is None {
                let j = choose|j: int| 0 <= j < self@.len() && self@[j] == e;
                assert(self@[j].description == e.description);
            }
        }
        r
    }
}

} // verus!
