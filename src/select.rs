use vstd::prelude::*;
use crate::model::{has_index, selects, task_views, Task, TaskSelector, TaskView};

verus! {

/// The first of `ids`, in request order, that no task of `ts` carries.
pub open spec fn first_missing(ids: Seq<usize>, ts: Seq<TaskView>) -> Option<usize>
    decreases ids.len(),
{
    if ids.len() == 0 {
        None
    } else {
        match first_missing(ids.drop_last(), ts) {
            Some(k) => Some(k),
            None => if has_index(ts, ids.last()) {
                None
            } else {
                Some(ids.last())
            },
        }
    }
}

/// The id that makes `sel` fail against `ts`, if any.
pub open spec fn unresolved(sel: TaskSelector, ts: Seq<TaskView>) -> Option<usize> {
    match sel {
        TaskSelector::Indexed(ids) => first_missing(ids@, ts),
        _ => None,
    }
}

/// The indices of the tasks of `ts` that `sel` picks, in display order.
pub open spec fn picked(sel: TaskSelector, ts: Seq<TaskView>) -> Seq<usize>
    decreases ts.len(),
{
    if ts.len() == 0 {
        Seq::empty()
    } else {
        let rest = picked(sel, ts.drop_last());
        if selects(sel, ts.last()) {
            rest.push(ts.last().index)
        } else {
            rest
        }
    }
}

/// Whether a task of `ts` has index `k`.
pub fn contains_index(ts: &Vec<Task>, k: usize) -> (r: bool)
    ensures
        r == has_index(task_views(ts@), k),
{
    let mut i: usize = 0;
    while i < ts.len()
        invariant
            i <= ts@.len(),
            forall|j: int| 0 <= j < i ==> ts@[j].index != k,
        decreases ts.len() - i,
    {
        if ts[i].index == k {
            assert(task_views(ts@)[i as int].index == k);
            return true;
        }
        i = i + 1;
    }
    assert forall|j: int| 0 <= j < task_views(ts@).len() implies (#[trigger] task_views(
        ts@,
    )[j]).index != k by {
        assert(ts@[j].index != k);
    }
    false
}

/// The first id of `ids` that no task of `ts` carries.
pub fn find_missing(ids: &Vec<usize>, ts: &Vec<Task>) -> (r: Option<usize>)
    ensures
        r == first_missing(ids@, task_views(ts@)),
{
    let mut i: usize = 0;
    while i < ids.len()
        invariant
            i <= ids@.len(),
            first_missing(ids@.subrange(0, i as int), task_views(ts@)) is None,
        decreases ids.len() - i,
    {
        let k = ids[i];
        assert(ids@.subrange(0, i + 1).drop_last() == ids@.subrange(0, i as int));
        if !contains_index(ts, k) {
            assert(first_missing(ids@.subrange(0, i + 1), task_views(ts@)) == Some(k));
            proof {
                lemma_first_missing_extends(ids@, task_views(ts@), (i + 1) as int);
            }
            return Some(k);
        }
        i = i + 1;
    }
    assert(ids@.subrange(0, i as int) == ids@);
    None
}

/// Once a prefix of the requested ids has an id that is missing, so has the whole request.
proof fn lemma_first_missing_extends(ids: Seq<usize>, ts: Seq<TaskView>, n: int)
    requires
        0 <= n <= ids.len(),
        first_missing(ids.subrange(0, n), ts) is Some,
    ensures
        first_missing(ids, ts) == first_missing(ids.subrange(0, n), ts),
    decreases ids.len() - n,
{
    if n < ids.len() {
        assert(ids.subrange(0, n + 1).drop_last() == ids.subrange(0, n));
        lemma_first_missing_extends(ids, ts, n + 1);
    } else {
        assert(ids.subrange(0, n) == ids);
    }
}

/// Whether `sel` picks the task `t`.
pub fn select_task(sel: &TaskSelector, t: &Task) -> (r: bool)
    ensures
        r == selects(*sel, t@),
{
    match sel {
        TaskSelector::Indexed(ids) => {
            let mut i: usize = 0;
            while i < ids.len()
                invariant
                    *sel == TaskSelector::Indexed(*ids),
                    i <= ids@.len(),
                    forall|j: int| 0 <= j < i ==> ids@[j] != t.index,
                decreases ids.len() - i,
            {
                if ids[i] == t.index {
                    assert(ids@[i as int] == t.index);
                    assert(ids@.contains(t.index));
                    return true;
                }
                i = i + 1;
            }
            false
        },
        TaskSelector::All => true,
        TaskSelector::Completed => t.completed,
    }
}

/// Turns a selector into the indices of the tasks it picks, in display order. An explicit
/// index that no task carries fails the whole selection, naming the first such index.
pub fn resolve(sel: &TaskSelector, ts: &Vec<Task>) -> (r: Result<Vec<usize>, usize>)
    ensures
        match unresolved(*sel, task_views(ts@)) {
            Some(k) => r == Err::<Vec<usize>, usize>(k),
            None => r is Ok && r->Ok_0@ == picked(*sel, task_views(ts@)),
        },
{
    if let TaskSelector::Indexed(ids) = sel {
        if let Some(k) = find_missing(ids, ts) {
            return Err(k);
        }
    }
    let mut out: Vec<usize> = Vec::new();
    let mut i: usize = 0;
    while i < ts.len()
        invariant
            i <= ts@.len(),
            out@ == picked(*sel, task_views(ts@.subrange(0, i as int))),
        decreases ts.len() - i,
    {
        assert(task_views(ts@.subrange(0, i + 1)).drop_last() == task_views(
            ts@.subrange(0, i as int),
        ));
        if select_task(sel, &ts[i]) {
            out.push(ts[i].index);
        }
        i = i + 1;
    }
    assert(ts@.subrange(0, i as int) == ts@);
    Ok(out)
}

} // verus!
