use vstd::prelude::*;
use crate::digits::{all_digits, digit_value, index_of, is_digit, parse_index, value};
use crate::model::{
    distinct_indices, indices_below, opt_text, task_views, well_formed, Project, ProjectView, Task,
    TaskError, TaskView,
};
use crate::text::{chars_of, string_of};

verus! {

pub open spec fn digit_char(d: nat) -> char {
    if d == 0 { '0' } else if d == 1 { '1' } else if d == 2 { '2' } else if d == 3 { '3' }
    else if d == 4 { '4' } else if d == 5 { '5' } else if d == 6 { '6' } else if d == 7 { '7' }
    else if d == 8 { '8' } else { '9' }
}

/// The decimal digits of `n`, without leading zeros.
pub open spec fn decimal(n: nat) -> Seq<char>
    decreases n,
{
    if n < 10 {
        seq![digit_char(n)]
    } else {
        decimal(n / 10).push(digit_char(n % 10))
    }
}

/// How many digits `s` starts with.
pub open spec fn digit_run(s: Seq<char>) -> nat
    decreases s.len(),
{
    if s.len() > 0 && is_digit(s[0]) {
        1 + digit_run(s.drop_first())
    } else {
        0
    }
}

/// A number at the start of `s`, and how many characters it takes.
pub open spec fn parse_num(s: Seq<char>) -> Option<(usize, int)> {
    let m = digit_run(s);
    match index_of(s.take(m as int)) {
        Some(v) => Some((v, m as int)),
        None => None,
    }
}

/// A text written as its length, a colon and its characters.
pub open spec fn text_enc(t: Seq<char>) -> Seq<char> {
    decimal(t.len()) + seq![':'] + t
}

pub open spec fn parse_text(s: Seq<char>) -> Option<(Seq<char>, int)> {
    match parse_num(s) {
        Some((n, m)) => if m < s.len() && s[m] == ':' && m + 1 + n <= s.len() {
            Some((s.subrange(m + 1, m + 1 + n), m + 1 + n))
        } else {
            None
        },
        None => None,
    }
}

pub open spec fn flag_char(completed: bool) -> char {
    if completed { 'x' } else { '-' }
}

/// One line per task: index, flag, description.
pub open spec fn task_enc(t: TaskView) -> Seq<char> {
    decimal(t.index as nat) + seq![' ', flag_char(t.completed), ' '] + text_enc(t.desc) + seq!['\n']
}

pub open spec fn parse_task(s: Seq<char>) -> Option<(TaskView, int)> {
    match parse_num(s) {
        Some((k, m)) => if m + 3 <= s.len() && s[m] == ' ' && (s[m + 1] == 'x' || s[m + 1]
            == '-') && s[m + 2] == ' ' {
            let r = s.subrange(m + 3, s.len() as int);
            match parse_text(r) {
                Some((d, n)) => if n < r.len() && r[n] == '\n' {
                    Some((TaskView { index: k, desc: d, completed: s[m + 1] == 'x' }, m + 3 + n + 1))
                } else {
                    None
                },
                None => None,
            }
        } else {
            None
        },
        None => None,
    }
}

pub open spec fn tasks_enc(ts: Seq<TaskView>) -> Seq<char>
    decreases ts.len(),
{
    if ts.len() == 0 {
        Seq::empty()
    } else {
        task_enc(ts[0]) + tasks_enc(ts.drop_first())
    }
}

pub open spec fn parse_tasks(s: Seq<char>) -> Option<Seq<TaskView>>
    decreases s.len(),
{
    if s.len() == 0 {
        Some(Seq::empty())
    } else {
        match parse_task(s) {
            Some((t, n)) => if 0 < n <= s.len() {
                match parse_tasks(s.subrange(n, s.len() as int)) {
                    Some(rest) => Some(seq![t] + rest),
                    None => None,
                }
            } else {
                None
            },
            None => None,
        }
    }
}

pub open spec fn name_enc(name: Option<Seq<char>>) -> Seq<char> {
    match name {
        None => seq!['-', '\n'],
        Some(t) => seq!['+'] + text_enc(t) + seq!['\n'],
    }
}

pub open spec fn parse_name(s: Seq<char>) -> Option<(Option<Seq<char>>, int)> {
    if s.len() >= 2 && s[0] == '-' && s[1] == '\n' {
        Some((None, 2int))
    } else if s.len() >= 1 && s[0] == '+' {
        let r = s.drop_first();
        match parse_text(r) {
            Some((t, n)) => if n < r.len() && r[n] == '\n' {
                Some((Some(t), n + 2))
            } else {
                None
            },
            None => None,
        }
    } else {
        None
    }
}

/// The text of a project file: the next index on a line of its own, the name, then the tasks.
pub open spec fn project_enc(p: ProjectView) -> Seq<char> {
    decimal(p.next_index as nat) + seq!['\n'] + name_enc(p.name) + tasks_enc(p.tasks)
}

/// The project that the text of a project file describes, if it is a well-formed one.
pub open spec fn parse_project(s: Seq<char>) -> Option<ProjectView> {
    match parse_num(s) {
        Some((next, m)) => if m < s.len() && s[m] == '\n' {
            let r = s.subrange(m + 1, s.len() as int);
            match parse_name(r) {
                Some((name, n)) => match parse_tasks(r.subrange(n, r.len() as int)) {
                    Some(tasks) => {
                        let p = ProjectView { name, tasks, next_index: next };
                        if well_formed(p) {
                            Some(p)
                        } else {
                            None
                        }
                    },
                    None => None,
                },
                None => None,
            }
        } else {
            None
        },
        None => None,
    }
}

/// Every text in the project has a length that a `usize` can count.
pub open spec fn lengths_fit(p: ProjectView) -> bool {
    &&& (p.name matches Some(t) ==> t.len() <= usize::MAX)
    &&& forall|i: int| 0 <= i < p.tasks.len() ==> (#[trigger] p.tasks[i]).desc.len() <= usize::MAX
}

proof fn lemma_decimal(n: nat)
    ensures
        decimal(n).len() >= 1,
        all_digits(decimal(n)),
        value(decimal(n)) == n,
    decreases n,
{
    if n >= 10 {
        lemma_decimal(n / 10);
        let d = decimal(n / 10);
        assert(decimal(n).drop_last() == d);
        assert(decimal(n).last() == digit_char(n % 10));
        assert(digit_value(digit_char(n % 10)) == n % 10);
        assert(value(decimal(n)) == value(d) * 10 + n % 10);
        vstd::arithmetic::div_mod::lemma_fundamental_div_mod(n as int, 10);
    } else {
        assert(digit_value(digit_char(n)) == n);
        assert(decimal(n).drop_last() =~= Seq::<char>::empty());
        assert(value(decimal(n)) == value(Seq::<char>::empty()) * 10 + digit_value(digit_char(n)));
    }
}

proof fn lemma_digit_run(a: Seq<char>, b: Seq<char>)
    requires
        all_digits(a),
        b.len() == 0 || !is_digit(b[0]),
    ensures
        digit_run(a + b) == a.len(),
    decreases a.len(),
{
    if a.len() > 0 {
        assert((a + b).drop_first() == a.drop_first() + b);
        lemma_digit_run(a.drop_first(), b);
    } else {
        assert(a + b == b);
    }
}

proof fn lemma_parse_num(n: usize, b: Seq<char>)
    requires
        b.len() == 0 || !is_digit(b[0]),
    ensures
        parse_num(decimal(n as nat) + b) == Some((n, decimal(n as nat).len() as int)),
{
    lemma_decimal(n as nat);
    lemma_digit_run(decimal(n as nat), b);
    assert((decimal(n as nat) + b).take(decimal(n as nat).len() as int) == decimal(n as nat));
}

proof fn lemma_parse_text(t: Seq<char>, b: Seq<char>)
    requires
        t.len() <= usize::MAX,
    ensures
        parse_text(text_enc(t) + b) == Some((t, text_enc(t).len() as int)),
{
    let s = text_enc(t) + b;
    let d = decimal(t.len());
    let dl = d.len() as int;
    lemma_parse_num(t.len() as usize, seq![':'] + t + b);
    assert(s == d + (seq![':'] + t + b));
    assert(s[dl] == ':');
    assert(s.subrange(dl + 1, dl + 1 + t.len()) == t);
}

proof fn lemma_parse_task(t: TaskView, b: Seq<char>)
    requires
        t.desc.len() <= usize::MAX,
    ensures
        parse_task(task_enc(t) + b) == Some((t, task_enc(t).len() as int)),
{
    let s = task_enc(t) + b;
    let d = decimal(t.index as nat);
    let m = d.len() as int;
    let rest = text_enc(t.desc) + (seq!['\n'] + b);
    assert(s == d + (seq![' ', flag_char(t.completed), ' '] + rest));
    lemma_parse_num(t.index, seq![' ', flag_char(t.completed), ' '] + rest);
    assert(s[m] == ' ');
    assert(s[m + 1] == flag_char(t.completed));
    assert(s[m + 2] == ' ');
    assert(s.subrange(m + 3, s.len() as int) == rest);
    lemma_parse_text(t.desc, seq!['\n'] + b);
    assert(rest[text_enc(t.desc).len() as int] == '\n');
}

proof fn lemma_parse_tasks(ts: Seq<TaskView>)
    requires
        forall|i: int| 0 <= i < ts.len() ==> (#[trigger] ts[i]).desc.len() <= usize::MAX,
    ensures
        parse_tasks(tasks_enc(ts)) == Some(ts),
    decreases ts.len(),
{
    if ts.len() > 0 {
        let s = tasks_enc(ts);
        let rest = tasks_enc(ts.drop_first());
        assert(ts[0].desc.len() <= usize::MAX);
        lemma_parse_task(ts[0], rest);
        assert(s.subrange(task_enc(ts[0]).len() as int, s.len() as int) == rest);
        lemma_parse_tasks(ts.drop_first());
        assert(seq![ts[0]] + ts.drop_first() == ts);
    }
}

proof fn lemma_parse_name(name: Option<Seq<char>>, b: Seq<char>)
    requires
        name matches Some(t) ==> t.len() <= usize::MAX,
    ensures
        parse_name(name_enc(name) + b) == Some((name, name_enc(name).len() as int)),
{
    let r = name_enc(name) + b;
    match name {
        None => {
            assert(r[0] == '-' && r[1] == '\n');
        },
        Some(t) => {
            assert(r[0] == '+');
            assert(r.drop_first() == text_enc(t) + (seq!['\n'] + b));
            lemma_parse_text(t, seq!['\n'] + b);
            assert(r.drop_first()[text_enc(t).len() as int] == '\n');
        },
    }
}

/// Writing a project out and reading the text back gives the same project: the same tasks
/// with the same indices, descriptions and flags, in the same order.
pub proof fn lemma_round_trip(p: ProjectView)
    requires
        well_formed(p),
        lengths_fit(p),
    ensures
        parse_project(project_enc(p)) == Some(p),
{
    let s = project_enc(p);
    let tail = tasks_enc(p.tasks);
    let r = name_enc(p.name) + tail;
    assert(s == decimal(p.next_index as nat) + (seq!['\n'] + r));
    lemma_parse_num(p.next_index, seq!['\n'] + r);
    let m = decimal(p.next_index as nat).len() as int;
    assert(s[m] == '\n');
    assert(s.subrange(m + 1, s.len() as int) == r);
    lemma_parse_name(p.name, tail);
    assert(r.subrange(name_enc(p.name).len() as int, r.len() as int) == tail);
    lemma_parse_tasks(p.tasks);
}

fn digit_of(d: usize) -> (r: char)
    requires
        d < 10,
    ensures
        r == digit_char(d as nat),
{
    if d == 0 { '0' } else if d == 1 { '1' } else if d == 2 { '2' } else if d == 3 { '3' }
    else if d == 4 { '4' } else if d == 5 { '5' } else if d == 6 { '6' } else if d == 7 { '7' }
    else if d == 8 { '8' } else { '9' }
}

pub(crate) fn push_decimal(out: &mut Vec<char>, n: usize)
    ensures
        final(out)@ == old(out)@ + decimal(n as nat),
    decreases n,
{
    if n >= 10 {
        push_decimal(out, n / 10);
    }
    out.push(digit_of(n % 10));
    assert(decimal(n as nat) == if n < 10 {
        seq![digit_char(n as nat)]
    } else {
        decimal((n / 10) as nat).push(digit_char((n % 10) as nat))
    });
}

fn push_chars(out: &mut Vec<char>, cs: &Vec<char>)
    ensures
        final(out)@ == old(out)@ + cs@,
{
    let mut i: usize = 0;
    while i < cs.len()
        invariant
            i <= cs@.len(),
            out@ == old(out)@ + cs@.subrange(0, i as int),
        decreases cs.len() - i,
    {
        out.push(cs[i]);
        i = i + 1;
        assert(out@ == old(out)@ + cs@.subrange(0, i as int));
    }
    assert(cs@.subrange(0, i as int) == cs@);
}

fn push_text(out: &mut Vec<char>, t: &String)
    ensures
        final(out)@ == old(out)@ + text_enc(t@),
{
    let cs = chars_of(t.as_str());
    push_decimal(out, cs.len());
    out.push(':');
    push_chars(out, &cs);
}

fn push_task(out: &mut Vec<char>, t: &Task)
    ensures
        final(out)@ == old(out)@ + task_enc(t@),
{
    push_decimal(out, t.index);
    out.push(' ');
    out.push(if t.completed { 'x' } else { '-' });
    out.push(' ');
    push_text(out, &t.desc);
    out.push('\n');
}

fn push_tasks(out: &mut Vec<char>, ts: &Vec<Task>, i: usize)
    requires
        i <= ts@.len(),
    ensures
        final(out)@ == old(out)@ + tasks_enc(task_views(ts@).subrange(i as int, ts@.len() as int)),
    decreases ts@.len() - i,
{
    let ghost vs = task_views(ts@).subrange(i as int, ts@.len() as int);
    if i == ts.len() {
        assert(vs.len() == 0);
        assert(old(out)@ + tasks_enc(vs) == old(out)@);
        return;
    }
    push_task(out, &ts[i]);
    assert(vs[0] == ts@[i as int]@);
    assert(vs.drop_first() == task_views(ts@).subrange(i + 1, ts@.len() as int));
    push_tasks(out, ts, i + 1);
}

/// The text of the project file for `p`.
pub fn encode(p: &Project) -> (r: String)
    ensures
        r@ == project_enc(p@),
{
    let mut out: Vec<char> = Vec::new();
    push_decimal(&mut out, p.next_index);
    out.push('\n');
    match &p.name {
        None => {
            out.push('-');
            out.push('\n');
        },
        Some(t) => {
            out.push('+');
            push_text(&mut out, t);
            out.push('\n');
        },
    }
    push_tasks(&mut out, &p.tasks, 0);
    assert(task_views(p.tasks@).subrange(0, p.tasks@.len() as int) == task_views(p.tasks@));
    assert(out@ == project_enc(p@));
    string_of(&out)
}

/// The characters of `cs` from `i` on.
pub open spec fn from(cs: Seq<char>, i: int) -> Seq<char> {
    cs.subrange(i, cs.len() as int)
}

fn num_at(cs: &Vec<char>, i: usize) -> (r: Option<(usize, usize)>)
    requires
        i <= cs@.len(),
    ensures
        match parse_num(from(cs@, i as int)) {
            Some((v, m)) => i + m <= cs@.len() && r == Some((v, (i + m) as usize)),
            None => r is None,
        },
        r is Some ==> i <= (r->0).1 <= cs@.len(),
        r is Some ==> parse_num(from(cs@, i as int)) == Some(((r->0).0, (r->0).1 - i)),
{
    let mut digits: Vec<char> = Vec::new();
    let mut j: usize = i;
    while j < cs.len() && '0' <= cs[j] && cs[j] <= '9'
        invariant
            i <= j <= cs@.len(),
            digit_run(from(cs@, i as int)) == (j - i) + digit_run(from(cs@, j as int)),
            digits@ == cs@.subrange(i as int, j as int),
        decreases cs.len() - j,
    {
        assert(from(cs@, j as int).drop_first() == from(cs@, j + 1));
        digits.push(cs[j]);
        j = j + 1;
        assert(digits@ == cs@.subrange(i as int, j as int));
    }
    assert(digit_run(from(cs@, j as int)) == 0);
    assert(from(cs@, i as int).take(j - i) == digits@);
    match parse_index(&digits) {
        Some(v) => Some((v, j)),
        None => None,
    }
}

fn slice_string(cs: &Vec<char>, a: usize, b: usize) -> (r: String)
    requires
        a <= b <= cs@.len(),
    ensures
        r@ == cs@.subrange(a as int, b as int),
{
    let mut part: Vec<char> = Vec::new();
    let mut j: usize = a;
    while j < b
        invariant
            a <= j <= b <= cs@.len(),
            part@ == cs@.subrange(a as int, j as int),
        decreases b - j,
    {
        part.push(cs[j]);
        j = j + 1;
        assert(part@ == cs@.subrange(a as int, j as int));
    }
    string_of(&part)
}

fn text_at(cs: &Vec<char>, i: usize) -> (r: Option<(String, usize)>)
    requires
        i <= cs@.len(),
    ensures
        match parse_text(from(cs@, i as int)) {
            Some((t, n)) => r is Some && (r->0).0@ == t && (r->0).1 == i + n,
            None => r is None,
        },
        r is Some ==> i <= (r->0).1 <= cs@.len(),
{
    let ghost s = from(cs@, i as int);
    let (n, j) = match num_at(cs, i) {
        Some(x) => x,
        None => return None,
    };
    let ghost m = j - i;
    assert(parse_num(s) == Some((n, m)));
    if j < cs.len() && cs[j] == ':' && n <= cs.len() - j - 1 {
        assert(s[m] == cs@[j as int]);
        let end = j + 1 + n;
        let t = slice_string(cs, j + 1, end);
        assert(s.subrange(m + 1, m + 1 + n) == cs@.subrange(j + 1, end as int));
        assert(parse_text(s) == Some((t@, m + 1 + n)));
        Some((t, end))
    } else {
        proof {
            if j < cs.len() {
                assert(s[j - i] == cs@[j as int]);
            }
        }
        None
    }
}

fn task_at(cs: &Vec<char>, i: usize) -> (r: Option<(Task, usize)>)
    requires
        i <= cs@.len(),
    ensures
        match parse_task(from(cs@, i as int)) {
            Some((t, n)) => r is Some && (r->0).0@ == t && (r->0).1 == i + n,
            None => r is None,
        },
        r is Some ==> i < (r->0).1 <= cs@.len(),
{
    let ghost s = from(cs@, i as int);
    let (k, j) = match num_at(cs, i) {
        Some(x) => x,
        None => return None,
    };
    let m: usize = j - i;
    assert(parse_num(s) == Some((k, m as int)));
    if !(3 <= cs.len() - j && cs[j] == ' ' && (cs[j + 1] == 'x' || cs[j + 1] == '-') && cs[j + 2]
        == ' ') {
        proof {
            if 3 <= cs.len() - j {
                assert(s[m as int] == cs@[j as int]);
                assert(s[m + 1] == cs@[j + 1]);
                assert(s[m + 2] == cs@[j + 2]);
            }
        }
        return None;
    }
    assert(s[m as int] == cs@[j as int]);
    assert(s[m + 1] == cs@[j + 1]);
    assert(s[m + 2] == cs@[j + 2]);
    let completed = cs[j + 1] == 'x';
    let ghost rs = s.subrange(m + 3, s.len() as int);
    assert(rs == from(cs@, j + 3));
    let (desc, e) = match text_at(cs, j + 3) {
        Some(x) => x,
        None => return None,
    };
    if e < cs.len() && cs[e] == '\n' {
        assert(rs[e - (j + 3)] == cs@[e as int]);
        let t = Task { index: k, desc, completed };
        assert(parse_text(rs) == Some((desc@, e - (j + 3))));
        assert(parse_task(s) == Some((t@, e + 1 - i)));
        Some((t, e + 1))
    } else {
        proof {
            if e < cs.len() {
                assert(rs[e - (j + 3)] == cs@[e as int]);
            }
        }
        None
    }
}

pub open spec fn prepend_to(acc: Seq<TaskView>, o: Option<Seq<TaskView>>) -> Option<Seq<TaskView>> {
    match o {
        Some(rest) => Some(acc + rest),
        None => None,
    }
}

fn tasks_from(cs: &Vec<char>, start: usize) -> (r: Option<Vec<Task>>)
    requires
        start <= cs@.len(),
    ensures
        match parse_tasks(from(cs@, start as int)) {
            Some(ts) => r is Some && task_views(r->0@) == ts,
            None => r is None,
        },
{
    let mut out: Vec<Task> = Vec::new();
    let mut i: usize = start;
    assert(task_views(out@) + Seq::<TaskView>::empty() == Seq::<TaskView>::empty());
    while i < cs.len()
        invariant
            start <= i <= cs@.len(),
            parse_tasks(from(cs@, start as int)) == prepend_to(task_views(out@), parse_tasks(from(cs@, i as int))),
        decreases cs.len() - i,
    {
        let ghost s = from(cs@, i as int);
        match task_at(cs, i) {
            None => {
                assert(parse_tasks(s) is None);
                return None;
            },
            Some((t, j)) => {
                assert(s.subrange(j - i, s.len() as int) == from(cs@, j as int));
                let ghost acc = task_views(out@);
                proof {
                    match parse_tasks(from(cs@, j as int)) {
                        Some(rest) => {
                            assert(acc + (seq![t@] + rest) == acc.push(t@) + rest);
                        },
                        None => {},
                    }
                }
                out.push(t);
                assert(task_views(out@) == acc.push(t@));
                i = j;
            },
        }
    }
    assert(from(cs@, i as int).len() == 0);
    assert(task_views(out@) + Seq::<TaskView>::empty() == task_views(out@));
    Some(out)
}

fn name_at(cs: &Vec<char>, i: usize) -> (r: Option<(Option<String>, usize)>)
    requires
        i <= cs@.len(),
    ensures
        match parse_name(from(cs@, i as int)) {
            Some((o, n)) => r is Some && opt_text((r->0).0) == o && (r->0).1 == i + n,
            None => r is None,
        },
        r is Some ==> i <= (r->0).1 <= cs@.len(),
{
    let ghost s = from(cs@, i as int);
    if 2 <= cs.len() - i && cs[i] == '-' && cs[i + 1] == '\n' {
        assert(s[0] == cs@[i as int] && s[1] == cs@[i + 1]);
        return Some((None, i + 2));
    }
    proof {
        if 2 <= cs.len() - i {
            assert(s[0] == cs@[i as int] && s[1] == cs@[i + 1]);
        }
    }
    if i < cs.len() && cs[i] == '+' {
        assert(s[0] == cs@[i as int]);
        assert(s.drop_first() == from(cs@, i + 1));
        let (t, e) = match text_at(cs, i + 1) {
            Some(x) => x,
            None => return None,
        };
        if e < cs.len() && cs[e] == '\n' {
            assert(s.drop_first()[e - (i + 1)] == cs@[e as int]);
            Some((Some(t), e + 1))
        } else {
            proof {
                if e < cs.len() {
                    assert(s.drop_first()[e - (i + 1)] == cs@[e as int]);
                }
            }
            None
        }
    } else {
        proof {
            if i < cs.len() {
                assert(s[0] == cs@[i as int]);
            }
        }
        None
    }
}

fn check_well_formed(ts: &Vec<Task>, next: usize) -> (r: bool)
    ensures
        r == (distinct_indices(task_views(ts@)) && indices_below(task_views(ts@), next)),
{
    let ghost vs = task_views(ts@);
    let mut i: usize = 0;
    while i < ts.len()
        invariant
            i <= ts@.len(),
            vs == task_views(ts@),
            forall|a: int| 0 <= a < i ==> (#[trigger] vs[a]).index < next,
            forall|a: int, b: int|
                0 <= a < i && 0 <= b < ts@.len() && a != b ==> (#[trigger] vs[a]).index != (
                #[trigger] vs[b]).index,
        decreases ts.len() - i,
    {
        if ts[i].index >= next {
            assert(vs[i as int].index == ts@[i as int].index);
            return false;
        }
        let mut j: usize = 0;
        while j < ts.len()
            invariant
                i < ts@.len(),
                j <= ts@.len(),
                vs == task_views(ts@),
                forall|b: int| 0 <= b < j && b != i ==> vs[i as int].index != (#[trigger] vs[b]).index,
            decreases ts.len() - j,
        {
            if j != i && ts[j].index == ts[i].index {
                assert(vs[i as int].index == vs[j as int].index);
                return false;
            }
            j = j + 1;
        }
        i = i + 1;
    }
    true
}

/// Reads the text of a project file. Fails with `MalformedProjectFile` unless the text is the
/// file of a well-formed project.
#[verifier::rlimit(30)]
pub fn decode(text: &str) -> (r: Result<Project, TaskError>)
    ensures
        match parse_project(text@) {
            Some(p) => r is Ok && r->Ok_0@ == p,
            None => r == Err::<Project, TaskError>(TaskError::MalformedProjectFile),
        },
{
    let cs = chars_of(text);
    assert(from(cs@, 0) == text@);
    let (next, j) = match num_at(&cs, 0) {
        Some(x) => x,
        None => return Err(TaskError::MalformedProjectFile),
    };
    if !(j < cs.len() && cs[j] == '\n') {
        return Err(TaskError::MalformedProjectFile);
    }
    let ghost r = text@.subrange(j + 1, text@.len() as int);
    assert(r == from(cs@, j + 1));
    let (name, k) = match name_at(&cs, j + 1) {
        Some(x) => x,
        None => return Err(TaskError::MalformedProjectFile),
    };
    assert(r.subrange(k - (j + 1), r.len() as int) == from(cs@, k as int));
    let tasks = match tasks_from(&cs, k) {
        Some(ts) => ts,
        None => return Err(TaskError::MalformedProjectFile),
    };
    if !check_well_formed(&tasks, next) {
        return Err(TaskError::MalformedProjectFile);
    }
    Ok(Project { name, tasks, next_index: next })
}

} // verus!
