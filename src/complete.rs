use vstd::prelude::*;
use crate::cli::words;
use crate::codec::{decimal, push_decimal};
use crate::model::{task_views, Task, TaskView};
use crate::text::{chars_of, string_of};

verus! {

/// Whether `s` begins with `p`.
pub open spec fn begins_with(s: Seq<char>, p: Seq<char>) -> bool {
    p.len() <= s.len() && s.subrange(0, p.len() as int) == p
}

/// The completions for a task index being typed: for each task in display order whose index
/// is not among the words already given (`full`) and begins with the word being typed
/// (`active`), the index in decimal and the task's description.
pub open spec fn candidates(ts: Seq<TaskView>, full: Seq<Seq<char>>, active: Seq<char>) -> Seq<
    (Seq<char>, Seq<char>),
>
    decreases ts.len(),
{
    if ts.len() == 0 {
        Seq::empty()
    } else {
        let rest = candidates(ts.drop_last(), full, active);
        let tid = decimal(ts.last().index as nat);
        if !full.contains(tid) && begins_with(tid, active) {
            rest.push((tid, ts.last().desc))
        } else {
            rest
        }
    }
}

pub open spec fn pair_views(v: Seq<(String, String)>) -> Seq<(Seq<char>, Seq<char>)> {
    v.map_values(|p: (String, String)| (p.0@, p.1@))
}

fn chars_begin_with(s: &Vec<char>, p: &Vec<char>) -> (r: bool)
    ensures
        r == begins_with(s@, p@),
{
    if p.len() > s.len() {
        return false;
    }
    let mut i: usize = 0;
    while i < p.len()
        invariant
            p@.len() <= s@.len(),
            i <= p@.len(),
            forall|j: int| 0 <= j < i ==> s@[j] == p@[j],
        decreases p.len() - i,
    {
        if s[i] != p[i] {
            assert(s@.subrange(0, p@.len() as int)[i as int] != p@[i as int]);
            return false;
        }
        i = i + 1;
    }
    assert(s@.subrange(0, p@.len() as int) == p@);
    true
}

fn chars_equal(a: &Vec<char>, b: &Vec<char>) -> (r: bool)
    ensures
        r == (a@ == b@),
{
    if a.len() != b.len() {
        return false;
    }
    let r = chars_begin_with(a, b);
    proof {
        if r {
            assert(a@.subrange(0, a@.len() as int) == a@);
        } else {
            assert(a@.subrange(0, b@.len() as int) == a@);
        }
    }
    r
}

/// Whether one of the first `n` words reads `w`.
fn among_first(input: &Vec<String>, n: usize, w: &Vec<char>) -> (r: bool)
    requires
        n <= input@.len(),
    ensures
        r == words(input@).subrange(0, n as int).contains(w@),
{
    let ghost full = words(input@).subrange(0, n as int);
    let mut j: usize = 0;
    while j < n
        invariant
            n <= input@.len(),
            j <= n,
            full == words(input@).subrange(0, n as int),
            forall|k: int| 0 <= k < j ==> full[k] != w@,
        decreases n - j,
    {
        let cs = chars_of(input[j].as_str());
        if chars_equal(&cs, w) {
            assert(full[j as int] == w@);
            return true;
        }
        j = j + 1;
    }
    false
}

/// Completions for the index being typed, the last of `input`; the words before it are indices
/// given already, which are not proposed again.
pub fn complete_indices(tasks: &Vec<Task>, input: &Vec<String>) -> (r: Vec<(String, String)>)
    requires
        input@.len() > 0,
    ensures
        pair_views(r@) == candidates(
            task_views(tasks@),
            words(input@).drop_last(),
            input@.last()@,
        ),
{
    let n = input.len() - 1;
    let active = chars_of(input[n].as_str());
    let ghost full = words(input@).drop_last();
    assert(words(input@).subrange(0, n as int) == full);
    let mut out: Vec<(String, String)> = Vec::new();
    let mut i: usize = 0;
    while i < tasks.len()
        invariant
            n + 1 == input@.len(),
            active@ == input@.last()@,
            full == words(input@).subrange(0, n as int),
            i <= tasks@.len(),
            pair_views(out@) == candidates(task_views(tasks@.subrange(0, i as int)), full, active@),
        decreases tasks.len() - i,
    {
        let ghost ts = task_views(tasks@.subrange(0, i + 1));
        assert(ts.drop_last() == task_views(tasks@.subrange(0, i as int)));
        assert(ts.last() == tasks@[i as int]@);
        let mut tid: Vec<char> = Vec::new();
        push_decimal(&mut tid, tasks[i].index);
        assert(tid@ == decimal(tasks@[i as int].index as nat));
        if !among_first(input, n, &tid) && chars_begin_with(&tid, &active) {
            let pair = (string_of(&tid), tasks[i].desc.clone());
            let ghost before = out@;
            out.push(pair);
            assert(pair_views(out@) == pair_views(before).push((tid@, tasks@[i as int].desc@)));
        }
        i = i + 1;
    }
    assert(tasks@.subrange(0, i as int) == tasks@);
    out
}

} // verus!
