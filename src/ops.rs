use vstd::prelude::*;
use crate::model::{
    distinct_indices, has_index, indices_below, selects, task_views, well_formed, Project,
    ProjectView, Task, TaskError,
    TaskSelector, TaskView,
};
use crate::select::{find_missing, select_task, unresolved};
use crate::text::{is_blank, text_is_blank};

verus! {

/// `p` with one more task at its end, carrying the next index.
pub open spec fn added(p: ProjectView, desc: Seq<char>, completed: bool) -> ProjectView {
    ProjectView {
        name: p.name,
        tasks: p.tasks.push(TaskView { index: p.next_index, desc, completed }),
        next_index: (p.next_index + 1) as usize,
    }
}

/// `t` with its completion flag set to `value`.
pub open spec fn with_completion(t: TaskView, value: bool) -> TaskView {
    TaskView { index: t.index, desc: t.desc, completed: value }
}

/// The tasks of `ts`, those that `sel` picks marked `value`.
pub open spec fn marked(sel: TaskSelector, ts: Seq<TaskView>, value: bool) -> Seq<TaskView> {
    Seq::new(
        ts.len(),
        |i: int|
            if selects(sel, ts[i]) {
                with_completion(ts[i], value)
            } else {
                ts[i]
            },
    )
}

/// The tasks of `ts` that `sel` does not pick, in their order.
pub open spec fn kept(sel: TaskSelector, ts: Seq<TaskView>) -> Seq<TaskView>
    decreases ts.len(),
{
    if ts.len() == 0 {
        Seq::empty()
    } else {
        let rest = kept(sel, ts.drop_last());
        if selects(sel, ts.last()) {
            rest
        } else {
            rest.push(ts.last())
        }
    }
}

/// The position of the task with index `k` in `ts`.
pub open spec fn position_of(ts: Seq<TaskView>, k: usize) -> int {
    choose|i: int| 0 <= i < ts.len() && ts[i].index == k
}

fn copy_task(t: &Task) -> (r: Task)
    ensures
        r@ == t@,
{
    Task { index: t.index, desc: t.desc.clone(), completed: t.completed }
}

impl Project {
    /// Appends a task with a fresh index. A blank description is refused.
    pub fn add_task(&mut self, desc: String, completed: bool) -> (r: Result<usize, TaskError>)
        requires
            well_formed(old(self)@),
        ensures
            well_formed(final(self)@),
            is_blank(desc@) ==> r == Err::<usize, TaskError>(TaskError::EmptyDescription),
            !is_blank(desc@) && old(self).next_index == usize::MAX ==> r == Err::<
                usize,
                TaskError,
            >(TaskError::IndicesExhausted),
            !is_blank(desc@) && old(self).next_index < usize::MAX ==> r == Ok::<usize, TaskError>(
                old(self).next_index,
            ),
            r is Ok ==> final(self)@ == added(old(self)@, desc@, completed),
            r is Err ==> final(self)@ == old(self)@,
    {
        if text_is_blank(desc.as_str()) {
            return Err(TaskError::EmptyDescription);
        }
        if self.next_index == usize::MAX {
            return Err(TaskError::IndicesExhausted);
        }
        let index = self.next_index;
        self.tasks.push(Task { index, desc, completed });
        self.next_index = index + 1;
        assert(task_views(self.tasks@) == task_views(old(self).tasks@).push(
            TaskView { index, desc: desc@, completed },
        ));
        Ok(index)
    }

    /// Sets the completion flag of every task that `sel` picks. Fails, changing nothing,
    /// where an explicit index has no task.
    pub fn mark_completion(&mut self, value: bool, sel: &TaskSelector) -> (r: Result<
        (),
        TaskError,
    >)
        requires
            well_formed(old(self)@),
        ensures
            well_formed(final(self)@),
            match unresolved(*sel, old(self)@.tasks) {
                Some(k) => r == Err::<(), TaskError>(TaskError::IndexNotFound(k)) && final(self)@
                    == old(self)@,
                None => r is Ok && final(self)@ == (ProjectView {
                    tasks: marked(*sel, old(self)@.tasks, value),
                    ..old(self)@
                }),
            },
    {
        if let TaskSelector::Indexed(ids) = sel {
            if let Some(k) = find_missing(ids, &self.tasks) {
                return Err(TaskError::IndexNotFound(k));
            }
        }
        let mut i: usize = 0;
        while i < self.tasks.len()
            invariant
                i <= self.tasks@.len(),
                self.tasks@.len() == old(self).tasks@.len(),
                self.name == old(self).name,
                self.next_index == old(self).next_index,
                forall|j: int|
                    0 <= j < i ==> (#[trigger] self.tasks@[j])@ == marked(
                        *sel,
                        old(self)@.tasks,
                        value,
                    )[j],
                forall|j: int| i <= j < self.tasks@.len() ==> #[trigger] self.tasks@[j] == old(
                    self,
                ).tasks@[j],
            decreases self.tasks.len() - i,
        {
            if select_task(sel, &self.tasks[i]) {
                self.tasks[i].completed = value;
            }
            i = i + 1;
        }
        assert(task_views(self.tasks@) == marked(*sel, old(self)@.tasks, value));
        Ok(())
    }

    /// Removes every task that `sel` picks; the others keep their indices and order. Fails,
    /// changing nothing, where an explicit index has no task.
    pub fn remove_tasks(&mut self, sel: &TaskSelector) -> (r: Result<(), TaskError>)
        requires
            well_formed(old(self)@),
        ensures
            well_formed(final(self)@),
            match unresolved(*sel, old(self)@.tasks) {
                Some(k) => r == Err::<(), TaskError>(TaskError::IndexNotFound(k)) && final(self)@
                    == old(self)@,
                None => r is Ok && final(self)@ == (ProjectView {
                    tasks: kept(*sel, old(self)@.tasks),
                    ..old(self)@
                }),
            },
    {
        if let TaskSelector::Indexed(ids) = sel {
            if let Some(k) = find_missing(ids, &self.tasks) {
                return Err(TaskError::IndexNotFound(k));
            }
        }
        let mut out: Vec<Task> = Vec::new();
        let mut i: usize = 0;
        while i < self.tasks.len()
            invariant
                *self == *old(self),
                well_formed(self@),
                i <= self.tasks@.len(),
                task_views(out@) == kept(*sel, task_views(self.tasks@.subrange(0, i as int))),
            decreases self.tasks.len() - i,
        {
            assert(task_views(self.tasks@.subrange(0, i + 1)).drop_last() == task_views(
                self.tasks@.subrange(0, i as int),
            ));
            if !select_task(sel, &self.tasks[i]) {
                let t = copy_task(&self.tasks[i]);
                out.push(t);
                assert(task_views(out@) == kept(
                    *sel,
                    task_views(self.tasks@.subrange(0, i + 1)),
                ));
            }
            i = i + 1;
        }
        assert(self.tasks@.subrange(0, i as int) == self.tasks@);
        proof {
            lemma_kept_from(*sel, self@.tasks, self.next_index);
        }
        self.tasks = out;
        Ok(())
    }

    /// The description of the task with index `index`.
    pub fn description_of(&self, index: usize) -> (r: Result<String, TaskError>)
        requires
            well_formed(self@),
        ensures
            has_index(self@.tasks, index) ==> r is Ok && r->Ok_0@ == self@.tasks[position_of(
                self@.tasks,
                index,
            )].desc,
            !has_index(self@.tasks, index) ==> r == Err::<String, TaskError>(
                TaskError::IndexNotFound(index),
            ),
    {
        let mut i: usize = 0;
        while i < self.tasks.len()
            invariant
                well_formed(self@),
                i <= self.tasks@.len(),
                forall|j: int| 0 <= j < i ==> self.tasks@[j].index != index,
            decreases self.tasks.len() - i,
        {
            if self.tasks[i].index == index {
                proof {
                    lemma_position_unique(self@, i as int);
                }
                return Ok(self.tasks[i].desc.clone());
            }
            i = i + 1;
        }
        assert forall|j: int| 0 <= j < self@.tasks.len() implies (
        #[trigger] self@.tasks[j]).index != index by {
            assert(self.tasks@[j].index != index);
        }
        Err(TaskError::IndexNotFound(index))
    }

    /// Replaces the description of the task with index `index`. A blank text is refused.
    pub fn set_description(&mut self, index: usize, desc: String) -> (r: Result<(), TaskError>)
        requires
            well_formed(old(self)@),
        ensures
            well_formed(final(self)@),
            !has_index(old(self)@.tasks, index) ==> r == Err::<(), TaskError>(
                TaskError::IndexNotFound(index),
            ),
            has_index(old(self)@.tasks, index) && is_blank(desc@) ==> r == Err::<(), TaskError>(
                TaskError::EmptyDescription,
            ),
            r is Err ==> final(self)@ == old(self)@,
            r is Ok <==> has_index(old(self)@.tasks, index) && !is_blank(desc@),
            r is Ok ==> final(self)@ == (ProjectView {
                tasks: old(self)@.tasks.update(
                    position_of(old(self)@.tasks, index),
                    TaskView {
                        desc: desc@,
                        ..old(self)@.tasks[position_of(old(self)@.tasks, index)]
                    },
                ),
                ..old(self)@
            }),
    {
        let mut i: usize = 0;
        while i < self.tasks.len()
            invariant
                *self == *old(self),
                well_formed(self@),
                i <= self.tasks@.len(),
                forall|j: int| 0 <= j < i ==> self.tasks@[j].index != index,
            decreases self.tasks.len() - i,
        {
            if self.tasks[i].index == index {
                proof {
                    lemma_position_unique(self@, i as int);
                }
                if text_is_blank(desc.as_str()) {
                    return Err(TaskError::EmptyDescription);
                }
                self.tasks[i].desc = desc;
                assert(task_views(self.tasks@) == task_views(old(self).tasks@).update(
                    i as int,
                    TaskView { desc: desc@, ..old(self)@.tasks[i as int] },
                ));
                return Ok(());
            }
            i = i + 1;
        }
        assert forall|j: int| 0 <= j < self@.tasks.len() implies (
        #[trigger] self@.tasks[j]).index != index by {
            assert(self.tasks@[j].index != index);
        }
        Err(TaskError::IndexNotFound(index))
    }
}

/// In a well-formed project, the task at position `i` is the one found by its index.
pub proof fn lemma_position_unique(p: ProjectView, i: int)
    requires
        well_formed(p),
        0 <= i < p.tasks.len(),
    ensures
        has_index(p.tasks, p.tasks[i].index),
        position_of(p.tasks, p.tasks[i].index) == i,
{
    let k = p.tasks[i].index;
    assert(p.tasks[i].index == k);
    let j = position_of(p.tasks, k);
    assert(p.tasks[j].index == k);
}

/// What `kept` leaves are tasks of `ts` that `sel` does not pick, and their indices stay
/// distinct and below any bound that held of `ts`.
proof fn lemma_kept_from(sel: TaskSelector, ts: Seq<TaskView>, n: usize)
    requires
        distinct_indices(ts),
        indices_below(ts, n),
    ensures
        distinct_indices(kept(sel, ts)),
        indices_below(kept(sel, ts), n),
        forall|i: int|
            0 <= i < kept(sel, ts).len() ==> ts.contains(#[trigger] kept(sel, ts)[i]) && !selects(
                sel,
                kept(sel, ts)[i],
            ),
    decreases ts.len(),
{
    if ts.len() > 0 {
        let rest = ts.drop_last();
        lemma_kept_from(sel, rest, n);
        let k = kept(sel, ts);
        assert forall|i: int| 0 <= i < k.len() implies ts.contains(#[trigger] k[i]) && !selects(
            sel,
            k[i],
        ) by {
            if i < kept(sel, rest).len() {
                assert(rest.contains(k[i]));
                let j = choose|j: int| 0 <= j < rest.len() && rest[j] == k[i];
                assert(ts[j] == k[i]);
            } else {
                assert(ts[ts.len() - 1] == k[i]);
            }
        }
        assert forall|a: int, b: int|
            0 <= a < k.len() && 0 <= b < k.len() && a != b implies (#[trigger] k[a]).index
            != (#[trigger] k[b]).index by {
            let kr = kept(sel, rest);
            if a < kr.len() && b < kr.len() {
            } else if a < kr.len() {
                assert(rest.contains(k[a]));
                let j = choose|j: int| 0 <= j < rest.len() && rest[j] == k[a];
                assert(ts[j] == k[a]);
                assert(k[b] == ts[ts.len() - 1]);
            } else if b < kr.len() {
                assert(rest.contains(k[b]));
                let j = choose|j: int| 0 <= j < rest.len() && rest[j] == k[b];
                assert(ts[j] == k[b]);
                assert(k[a] == ts[ts.len() - 1]);
            }
        }
    }
}

} // verus!
