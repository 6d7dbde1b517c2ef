use vstd::prelude::*;
use crate::model::{
    distinct_indices, has_index, selects, well_formed, ProjectView, TaskSelector,
    TaskView,
};
use crate::ops::{added, kept, marked};
use crate::select::{first_missing, picked, unresolved};

verus! {

/// Removing tasks leaves every other task exactly as it was, index included, and adds none.
pub proof fn lemma_removal_keeps_others(sel: TaskSelector, ts: Seq<TaskView>)
    ensures
        forall|t: TaskView| #[trigger] kept(sel, ts).contains(t) ==> ts.contains(t),
        forall|t: TaskView| ts.contains(t) && !selects(sel, t) ==> #[trigger] kept(sel, ts).contains(t),
    decreases ts.len(),
{
    if ts.len() > 0 {
        let rest = ts.drop_last();
        lemma_removal_keeps_others(sel, rest);
        assert forall|t: TaskView| #[trigger] kept(sel, ts).contains(t) implies ts.contains(t) by {
            let i = choose|i: int| 0 <= i < kept(sel, ts).len() && kept(sel, ts)[i] == t;
            if i < kept(sel, rest).len() {
                assert(kept(sel, rest)[i] == t);
                assert(kept(sel, rest).contains(t));
                assert(rest.contains(t));
                let j = choose|j: int| 0 <= j < rest.len() && rest[j] == t;
                assert(ts[j] == t);
            } else {
                assert(ts[ts.len() - 1] == t);
            }
        }
        assert forall|t: TaskView| ts.contains(t) && !selects(sel, t) implies #[trigger] kept(
            sel,
            ts,
        ).contains(t) by {
            let j = choose|j: int| 0 <= j < ts.len() && ts[j] == t;
            if j < ts.len() - 1 {
                assert(rest[j] == t);
                assert(rest.contains(t));
                assert(kept(sel, rest).contains(t));
                let i = choose|i: int| 0 <= i < kept(sel, rest).len() && kept(sel, rest)[i] == t;
                assert(kept(sel, ts)[i] == t);
            } else {
                assert(kept(sel, ts)[kept(sel, ts).len() - 1] == t);
            }
        }
    }
}

/// `p` after one added task for each of `items`, in their order.
pub open spec fn added_all(p: ProjectView, items: Seq<(Seq<char>, bool)>) -> ProjectView
    decreases items.len(),
{
    if items.len() == 0 {
        p
    } else {
        let q = added_all(p, items.drop_last());
        added(q, items.last().0, items.last().1)
    }
}

/// Starting from an empty project with no index handed out, `n` additions give the tasks
/// indices `0` to `n - 1`, in the order they were added.
pub proof fn lemma_fresh_indices_count_up(p: ProjectView, items: Seq<(Seq<char>, bool)>)
    requires
        p.tasks.len() == 0,
        p.next_index == 0,
        items.len() < usize::MAX,
    ensures
        added_all(p, items).tasks.len() == items.len(),
        added_all(p, items).next_index == items.len(),
        forall|i: int|
            0 <= i < items.len() ==> (#[trigger] added_all(p, items).tasks[i]).index == i,
    decreases items.len(),
{
    if items.len() > 0 {
        lemma_fresh_indices_count_up(p, items.drop_last());
    }
}

/// After tasks are removed, the next task added gets an index above every index the project
/// had handed out before.
pub proof fn lemma_fresh_index_after_removal(
    p: ProjectView,
    sel: TaskSelector,
    desc: Seq<char>,
    completed: bool,
)
    requires
        well_formed(p),
        p.next_index < usize::MAX,
    ensures
        ({
            let q = added(ProjectView { tasks: kept(sel, p.tasks), ..p }, desc, completed);
            &&& q.tasks.last().index == p.next_index
            &&& forall|i: int| 0 <= i < p.tasks.len() ==> (#[trigger] p.tasks[i]).index < q.tasks.last().index
            &&& q.next_index > q.tasks.last().index
        }),
{
}

/// `All` picks every task, in display order.
pub proof fn lemma_all_picks_every_task(ts: Seq<TaskView>)
    ensures
        picked(TaskSelector::All, ts) == Seq::new(ts.len(), |i: int| ts[i].index),
        unresolved(TaskSelector::All, ts) is None,
    decreases ts.len(),
{
    if ts.len() > 0 {
        lemma_all_picks_every_task(ts.drop_last());
        assert(picked(TaskSelector::All, ts) == Seq::new(ts.len(), |i: int| ts[i].index));
    }
}

/// `Completed` picks exactly the completed tasks, and never fails.
pub proof fn lemma_completed_picks_completed(ts: Seq<TaskView>)
    requires
        distinct_indices(ts),
    ensures
        forall|k: usize|
            #[trigger] picked(TaskSelector::Completed, ts).contains(k) <==> exists|i: int|
                0 <= i < ts.len() && ts[i].index == k && ts[i].completed,
        unresolved(TaskSelector::Completed, ts) is None,
    decreases ts.len(),
{
    if ts.len() > 0 {
        let rest = ts.drop_last();
        let sel = TaskSelector::Completed;
        lemma_completed_picks_completed(rest);
        assert forall|k: usize| #[trigger] picked(sel, ts).contains(k) <==> exists|i: int|
            0 <= i < ts.len() && ts[i].index == k && ts[i].completed by {
            if picked(sel, ts).contains(k) {
                if picked(sel, rest).contains(k) {
                    let i = choose|i: int| 0 <= i < rest.len() && rest[i].index == k && rest[i].completed;
                    assert(ts[i] == rest[i]);
                } else {
                    assert(ts.last().index == k && ts.last().completed);
                }
            }
            if exists|i: int| 0 <= i < ts.len() && ts[i].index == k && ts[i].completed {
                let i = choose|i: int| 0 <= i < ts.len() && ts[i].index == k && ts[i].completed;
                if i < ts.len() - 1 {
                    assert(rest[i] == ts[i]);
                    assert(picked(sel, rest).contains(k));
                    let m = choose|m: int| 0 <= m < picked(sel, rest).len() && picked(sel, rest)[m] == k;
                    assert(picked(sel, ts)[m] == k);
                } else {
                    assert(picked(sel, ts).last() == k);
                }
            }
        }
    }
}

/// One explicit index fails the selection, naming that index, exactly when no task has it.
pub proof fn lemma_single_index(ids: Vec<usize>, k: usize, ts: Seq<TaskView>)
    requires
        ids@ == seq![k],
    ensures
        !has_index(ts, k) ==> unresolved(TaskSelector::Indexed(ids), ts) == Some(k),
        has_index(ts, k) ==> unresolved(TaskSelector::Indexed(ids), ts) is None,
{
    assert(ids@.drop_last() == Seq::<usize>::empty());
    assert(first_missing(ids@.drop_last(), ts) is None);
}

/// Two selectors that pick the same tasks pick, keep and mark the same.
proof fn lemma_same_picks(a: TaskSelector, b: TaskSelector, ts: Seq<TaskView>, value: bool)
    requires
        forall|t: TaskView| selects(a, t) == selects(b, t),
    ensures
        picked(a, ts) == picked(b, ts),
        kept(a, ts) == kept(b, ts),
        marked(a, ts, value) == marked(b, ts, value),
    decreases ts.len(),
{
    if ts.len() > 0 {
        lemma_same_picks(a, b, ts.drop_last(), value);
    }
    assert(marked(a, ts, value) == marked(b, ts, value));
}

/// Naming an index twice selects just what naming it once does, for every command.
pub proof fn lemma_repeated_index(once: Vec<usize>, twice: Vec<usize>, k: usize, ts: Seq<TaskView>, value: bool)
    requires
        once@ == seq![k],
        twice@ == seq![k, k],
    ensures
        unresolved(TaskSelector::Indexed(once), ts) == unresolved(TaskSelector::Indexed(twice), ts),
        picked(TaskSelector::Indexed(once), ts) == picked(TaskSelector::Indexed(twice), ts),
        kept(TaskSelector::Indexed(once), ts) == kept(TaskSelector::Indexed(twice), ts),
        marked(TaskSelector::Indexed(once), ts, value) == marked(TaskSelector::Indexed(twice), ts, value),
{
    assert(twice@.drop_last() == once@);
    assert(once@.drop_last() == Seq::<usize>::empty());
    assert forall|t: TaskView| selects(TaskSelector::Indexed(once), t) == selects(TaskSelector::Indexed(twice), t) by {
        if twice@.contains(t.index) {
            let i = choose|i: int| 0 <= i < twice@.len() && twice@[i] == t.index;
            assert(once@[0] == t.index);
        }
        if once@.contains(t.index) {
            assert(twice@[0] == t.index);
        }
    }
    lemma_same_picks(TaskSelector::Indexed(once), TaskSelector::Indexed(twice), ts, value);
}

} // verus!
