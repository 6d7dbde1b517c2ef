use vstd::prelude::*;
use crate::digits::{index_of, parse_index};
use crate::model::{opt_text, Command, TaskSelector};
use crate::text::{chars_of, push_char, text_eq};

verus! {

/// Why the command line was refused.
#[derive(PartialEq, Eq, Structural, Debug, Clone, Copy)]
pub enum CliError {
    UnknownCommand,
    UnknownOption,
    MissingArgument,
    UnexpectedArgument,
    InvalidIndex,
    /// Selection options conflict, or none was given where one is needed.
    InvalidSelector,
    /// No editor was named and `EDITOR` is not set.
    MissingEditor,
}

/// A selector as plain values.
pub enum SelectorView {
    Indexed(Seq<usize>),
    All,
    Completed,
}

/// A command as plain values.
pub enum CommandView {
    Show,
    NewProject { name: Option<Seq<char>>, force: bool },
    AddTask { desc: Seq<char>, completed: bool },
    MarkCompletion(bool, SelectorView),
    RemoveTask(SelectorView),
    EditTask(Seq<char>, usize),
    PrintCompletion(Seq<char>),
    RemoveProject,
}

impl View for TaskSelector {
    type V = SelectorView;

    open spec fn view(&self) -> SelectorView {
        match self {
            TaskSelector::Indexed(ids) => SelectorView::Indexed(ids@),
            TaskSelector::All => SelectorView::All,
            TaskSelector::Completed => SelectorView::Completed,
        }
    }
}

impl View for Command {
    type V = CommandView;

    open spec fn view(&self) -> CommandView {
        match self {
            Command::Show => CommandView::Show,
            Command::NewProject { name, force } => CommandView::NewProject {
                name: match name {
                    Some(n) => Some(n@),
                    None => None,
                },
                force: *force,
            },
            Command::AddTask { desc, completed } => CommandView::AddTask {
                desc: desc@,
                completed: *completed,
            },
            Command::MarkCompletion(v, sel) => CommandView::MarkCompletion(*v, sel@),
            Command::RemoveTask(sel) => CommandView::RemoveTask(sel@),
            Command::EditTask(editor, index) => CommandView::EditTask(editor@, *index),
            Command::PrintCompletion(shell) => CommandView::PrintCompletion(shell@),
            Command::RemoveProject => CommandView::RemoveProject,
        }
    }
}

/// The subcommands whose options are checked against a fixed list.
pub enum Subcommand {
    New,
    Add,
    Done,
    Remove,
    Completions,
}

pub open spec fn words(v: Seq<String>) -> Seq<Seq<char>> {
    v.map_values(|s: String| s@)
}

/// A word that starts with `-` is an option; any other is a positional argument.
pub open spec fn is_option(a: Seq<char>) -> bool {
    a.len() > 0 && a[0] == '-'
}

pub open spec fn option_allowed(sub: Subcommand, a: Seq<char>) -> bool {
    match sub {
        Subcommand::New => a == "-f"@ || a == "--force"@,
        Subcommand::Add => a == "-c"@ || a == "--completed"@,
        Subcommand::Done => a == "-!"@ || a == "--not"@ || a == "-a"@ || a == "--all"@,
        Subcommand::Remove => a == "-a"@ || a == "--all"@ || a == "-c"@ || a == "--cleanup"@ || a
            == "--project"@,
        Subcommand::Completions => false,
    }
}

pub open spec fn bad_option(sub: Subcommand, rest: Seq<Seq<char>>) -> bool {
    exists|i: int| 0 <= i < rest.len() && is_option(#[trigger] rest[i]) && !option_allowed(sub, rest[i])
}

/// The positional arguments among `rest`, in order.
pub open spec fn positionals(rest: Seq<Seq<char>>) -> Seq<Seq<char>>
    decreases rest.len(),
{
    if rest.len() == 0 {
        Seq::empty()
    } else if is_option(rest.last()) {
        positionals(rest.drop_last())
    } else {
        positionals(rest.drop_last()).push(rest.last())
    }
}

/// The words joined by single spaces.
pub open spec fn joined(ws: Seq<Seq<char>>) -> Seq<char>
    decreases ws.len(),
{
    if ws.len() == 0 {
        Seq::empty()
    } else if ws.len() == 1 {
        ws[0]
    } else {
        joined(ws.drop_last()).push(' ') + ws.last()
    }
}

/// The indices the words write, or the error for the first one that writes none.
pub open spec fn indices(ws: Seq<Seq<char>>) -> Result<Seq<usize>, CliError>
    decreases ws.len(),
{
    if ws.len() == 0 {
        Ok(Seq::empty())
    } else {
        match indices(ws.drop_last()) {
            Err(e) => Err(e),
            Ok(v) => match index_of(ws.last()) {
                Some(k) => Ok(v.push(k)),
                None => Err(CliError::InvalidIndex),
            },
        }
    }
}

pub open spec fn has(rest: Seq<Seq<char>>, short: Seq<char>, long: Seq<char>) -> bool {
    rest.contains(short) || rest.contains(long)
}

pub open spec fn new_spec(rest: Seq<Seq<char>>) -> Result<CommandView, CliError> {
    let ps = positionals(rest);
    if bad_option(Subcommand::New, rest) {
        Err(CliError::UnknownOption)
    } else if ps.len() > 1 {
        Err(CliError::UnexpectedArgument)
    } else {
        Ok(
            CommandView::NewProject {
                name: if ps.len() == 1 {
                    Some(ps[0])
                } else {
                    None
                },
                force: has(rest, "-f"@, "--force"@),
            },
        )
    }
}

pub open spec fn add_spec(rest: Seq<Seq<char>>) -> Result<CommandView, CliError> {
    let ps = positionals(rest);
    if bad_option(Subcommand::Add, rest) {
        Err(CliError::UnknownOption)
    } else if ps.len() == 0 {
        Err(CliError::MissingArgument)
    } else {
        Ok(CommandView::AddTask { desc: joined(ps), completed: has(rest, "-c"@, "--completed"@) })
    }
}

pub open spec fn indexed_spec(ps: Seq<Seq<char>>) -> Result<SelectorView, CliError> {
    match indices(ps) {
        Ok(v) => Ok(SelectorView::Indexed(v)),
        Err(e) => Err(e),
    }
}

pub open spec fn done_spec(rest: Seq<Seq<char>>) -> Result<CommandView, CliError> {
    let ps = positionals(rest);
    let all = has(rest, "-a"@, "--all"@);
    let value = !(has(rest, "-!"@, "--not"@));
    if bad_option(Subcommand::Done, rest) {
        Err(CliError::UnknownOption)
    } else if all == (ps.len() > 0) {
        Err(CliError::InvalidSelector)
    } else if all {
        Ok(CommandView::MarkCompletion(value, SelectorView::All))
    } else {
        match indexed_spec(ps) {
            Ok(s) => Ok(CommandView::MarkCompletion(value, s)),
            Err(e) => Err(e),
        }
    }
}

pub open spec fn count(b: bool) -> nat {
    if b {
        1
    } else {
        0
    }
}

pub open spec fn remove_spec(rest: Seq<Seq<char>>) -> Result<CommandView, CliError> {
    let ps = positionals(rest);
    let all = has(rest, "-a"@, "--all"@);
    let cleanup = has(rest, "-c"@, "--cleanup"@);
    let project = rest.contains("--project"@);
    if bad_option(Subcommand::Remove, rest) {
        Err(CliError::UnknownOption)
    } else if count(ps.len() > 0) + count(all) + count(cleanup) + count(project) != 1 {
        Err(CliError::InvalidSelector)
    } else if project {
        Ok(CommandView::RemoveProject)
    } else if all {
        Ok(CommandView::RemoveTask(SelectorView::All))
    } else if cleanup {
        Ok(CommandView::RemoveTask(SelectorView::Completed))
    } else {
        match indexed_spec(ps) {
            Ok(s) => Ok(CommandView::RemoveTask(s)),
            Err(e) => Err(e),
        }
    }
}

pub open spec fn is_editor_option(a: Seq<char>) -> bool {
    a == "-e"@ || a == "--editor"@
}

/// The words after `edit`: the first editor named by an option, and the positional arguments.
pub open spec fn edit_scan(rest: Seq<Seq<char>>) -> Result<
    (Option<Seq<char>>, Seq<Seq<char>>),
    CliError,
>
    decreases rest.len(),
{
    if rest.len() == 0 {
        Ok((None, Seq::empty()))
    } else if is_editor_option(rest[0]) {
        if rest.len() < 2 {
            Err(CliError::MissingArgument)
        } else {
            match edit_scan(rest.subrange(2, rest.len() as int)) {
                Ok((_, ps)) => Ok((Some(rest[1]), ps)),
                Err(e) => Err(e),
            }
        }
    } else if is_option(rest[0]) {
        Err(CliError::UnknownOption)
    } else {
        match edit_scan(rest.drop_first()) {
            Ok((e, ps)) => Ok((e, seq![rest[0]] + ps)),
            Err(e) => Err(e),
        }
    }
}

pub open spec fn edit_spec(rest: Seq<Seq<char>>, env_editor: Option<Seq<char>>) -> Result<
    CommandView,
    CliError,
> {
    match edit_scan(rest) {
        Err(e) => Err(e),
        Ok((named, ps)) => if ps.len() == 0 {
            Err(CliError::MissingArgument)
        } else if ps.len() > 1 {
            Err(CliError::UnexpectedArgument)
        } else {
            match index_of(ps[0]) {
                None => Err(CliError::InvalidIndex),
                Some(k) => match named {
                    Some(e) => Ok(CommandView::EditTask(e, k)),
                    None => match env_editor {
                        Some(e) => Ok(CommandView::EditTask(e, k)),
                        None => Err(CliError::MissingEditor),
                    },
                },
            }
        },
    }
}

pub open spec fn completions_spec(rest: Seq<Seq<char>>) -> Result<CommandView, CliError> {
    let ps = positionals(rest);
    if bad_option(Subcommand::Completions, rest) {
        Err(CliError::UnknownOption)
    } else if ps.len() == 0 {
        Err(CliError::MissingArgument)
    } else if ps.len() > 1 {
        Err(CliError::UnexpectedArgument)
    } else {
        Ok(CommandView::PrintCompletion(ps[0]))
    }
}

/// The command that the words of a command line (program name left out) ask for; `env_editor`
/// is the value of `EDITOR`, if set.
pub open spec fn command_line(args: Seq<Seq<char>>, env_editor: Option<Seq<char>>) -> Result<
    CommandView,
    CliError,
> {
    if args.len() == 0 {
        Ok(CommandView::Show)
    } else {
        let w = args[0];
        let rest = args.drop_first();
        if w == "new"@ {
            new_spec(rest)
        } else if w == "add"@ || w == "a"@ {
            add_spec(rest)
        } else if w == "done"@ || w == "d"@ {
            done_spec(rest)
        } else if w == "rm"@ {
            remove_spec(rest)
        } else if w == "edit"@ || w == "e"@ {
            edit_spec(rest, env_editor)
        } else if w == "completions"@ {
            completions_spec(rest)
        } else {
            Err(CliError::UnknownCommand)
        }
    }
}

pub open spec fn outcome(r: Result<Command, CliError>) -> Result<CommandView, CliError> {
    match r {
        Ok(c) => Ok(c@),
        Err(e) => Err(e),
    }
}

fn is_opt(a: &String) -> (r: bool)
    ensures
        r == is_option(a@),
{
    let cs = chars_of(a.as_str());
    cs.len() > 0 && cs[0] == '-'
}

fn opt_ok(sub: &Subcommand, a: &String) -> (r: bool)
    ensures
        r == option_allowed(*sub, a@),
{
    let s = a.as_str();
    match sub {
        Subcommand::New => text_eq(s, "-f") || text_eq(s, "--force"),
        Subcommand::Add => text_eq(s, "-c") || text_eq(s, "--completed"),
        Subcommand::Done => text_eq(s, "-!") || text_eq(s, "--not") || text_eq(s, "-a") || text_eq(
            s,
            "--all",
        ),
        Subcommand::Remove => text_eq(s, "-a") || text_eq(s, "--all") || text_eq(s, "-c")
            || text_eq(s, "--cleanup") || text_eq(s, "--project"),
        Subcommand::Completions => false,
    }
}

fn find_bad_option(sub: &Subcommand, rest: &Vec<String>) -> (r: bool)
    ensures
        r == bad_option(*sub, words(rest@)),
{
    let mut i: usize = 0;
    while i < rest.len()
        invariant
            i <= rest@.len(),
            forall|j: int|
                0 <= j < i ==> !(is_option(#[trigger] words(rest@)[j]) && !option_allowed(
                    *sub,
                    words(rest@)[j],
                )),
        decreases rest.len() - i,
    {
        if is_opt(&rest[i]) && !opt_ok(sub, &rest[i]) {
            assert(is_option(words(rest@)[i as int]));
            return true;
        }
        i = i + 1;
    }
    false
}

fn has_word(rest: &Vec<String>, w: &str) -> (r: bool)
    ensures
        r == words(rest@).contains(w@),
{
    let mut i: usize = 0;
    while i < rest.len()
        invariant
            i <= rest@.len(),
            forall|j: int| 0 <= j < i ==> words(rest@)[j] != w@,
        decreases rest.len() - i,
    {
        if text_eq(rest[i].as_str(), w) {
            assert(words(rest@)[i as int] == w@);
            return true;
        }
        i = i + 1;
    }
    false
}

fn collect_positionals(rest: &Vec<String>) -> (r: Vec<String>)
    ensures
        words(r@) == positionals(words(rest@)),
{
    let mut out: Vec<String> = Vec::new();
    let mut i: usize = 0;
    while i < rest.len()
        invariant
            i <= rest@.len(),
            words(out@) == positionals(words(rest@.subrange(0, i as int))),
        decreases rest.len() - i,
    {
        assert(words(rest@.subrange(0, i + 1)).drop_last() == words(rest@.subrange(0, i as int)));
        assert(words(rest@.subrange(0, i + 1)).last() == rest@[i as int]@);
        if !is_opt(&rest[i]) {
            out.push(rest[i].clone());
            assert(words(out@) == positionals(words(rest@.subrange(0, i as int))).push(
                rest@[i as int]@,
            ));
        }
        i = i + 1;
    }
    assert(rest@.subrange(0, i as int) == rest@);
    out
}

fn append_text(out: &mut String, s: &str)
    ensures
        final(out)@ == old(out)@ + s@,
{
    let cs = chars_of(s);
    let mut i: usize = 0;
    while i < cs.len()
        invariant
            i <= cs@.len(),
            cs@ == s@,
            out@ == old(out)@ + s@.subrange(0, i as int),
        decreases cs.len() - i,
    {
        push_char(out, cs[i]);
        i = i + 1;
        assert(out@ == old(out)@ + s@.subrange(0, i as int));
    }
    assert(s@.subrange(0, i as int) == s@);
}

fn join_words(ps: &Vec<String>) -> (r: String)
    ensures
        r@ == joined(words(ps@)),
{
    let mut out = String::new();
    let mut i: usize = 0;
    while i < ps.len()
        invariant
            i <= ps@.len(),
            out@ == joined(words(ps@.subrange(0, i as int))),
        decreases ps.len() - i,
    {
        assert(words(ps@.subrange(0, i + 1)).drop_last() == words(ps@.subrange(0, i as int)));
        assert(words(ps@.subrange(0, i + 1)).last() == ps@[i as int]@);
        if i > 0 {
            push_char(&mut out, ' ');
        } else {
            assert(out@ == Seq::<char>::empty());
        }
        append_text(&mut out, ps[i].as_str());
        proof {
            if i == 0 {
                assert(words(ps@.subrange(0, 1))[0] == ps@[0]@);
                assert(out@ == ps@[0]@);
            }
        }
        i = i + 1;
    }
    assert(ps@.subrange(0, i as int) == ps@);
    out
}

/// Once a prefix of the words fails to give indices, so do all of them, with the same error.
proof fn lemma_indices_error_extends(ws: Seq<Seq<char>>, n: int)
    requires
        0 <= n <= ws.len(),
        indices(ws.subrange(0, n)) is Err,
    ensures
        indices(ws) == indices(ws.subrange(0, n)),
    decreases ws.len() - n,
{
    if n < ws.len() {
        assert(ws.subrange(0, n + 1).drop_last() == ws.subrange(0, n));
        lemma_indices_error_extends(ws, n + 1);
    } else {
        assert(ws.subrange(0, n) == ws);
    }
}

fn parse_indices(ps: &Vec<String>) -> (r: Result<Vec<usize>, CliError>)
    ensures
        match indices(words(ps@)) {
            Ok(v) => r is Ok && r->Ok_0@ == v,
            Err(e) => r == Err::<Vec<usize>, CliError>(e),
        },
{
    let mut out: Vec<usize> = Vec::new();
    let mut i: usize = 0;
    while i < ps.len()
        invariant
            i <= ps@.len(),
            indices(words(ps@.subrange(0, i as int))) == Ok::<Seq<usize>, CliError>(out@),
        decreases ps.len() - i,
    {
        assert(words(ps@.subrange(0, i + 1)).drop_last() == words(ps@.subrange(0, i as int)));
        assert(words(ps@.subrange(0, i + 1)).last() == ps@[i as int]@);
        let cs = chars_of(ps[i].as_str());
        match parse_index(&cs) {
            Some(k) => {
                out.push(k);
            },
            None => {
                proof {
                    assert(words(ps@).subrange(0, i + 1) == words(ps@.subrange(0, i + 1)));
                    lemma_indices_error_extends(words(ps@), i + 1);
                }
                return Err(CliError::InvalidIndex);
            },
        }
        i = i + 1;
    }
    assert(ps@.subrange(0, i as int) == ps@);
    Ok(out)
}

fn parse_new(rest: &Vec<String>) -> (r: Result<Command, CliError>)
    ensures
        outcome(r) == new_spec(words(rest@)),
{
    if find_bad_option(&Subcommand::New, rest) {
        return Err(CliError::UnknownOption);
    }
    let ps = collect_positionals(rest);
    if ps.len() > 1 {
        return Err(CliError::UnexpectedArgument);
    }
    let force = has_word(rest, "-f") || has_word(rest, "--force");
    let name = if ps.len() == 1 {
        Some(ps[0].clone())
    } else {
        None
    };
    Ok(Command::NewProject { name, force })
}

fn parse_add(rest: &Vec<String>) -> (r: Result<Command, CliError>)
    ensures
        outcome(r) == add_spec(words(rest@)),
{
    if find_bad_option(&Subcommand::Add, rest) {
        return Err(CliError::UnknownOption);
    }
    let ps = collect_positionals(rest);
    if ps.len() == 0 {
        return Err(CliError::MissingArgument);
    }
    let completed = has_word(rest, "-c") || has_word(rest, "--completed");
    let desc = join_words(&ps);
    Ok(Command::AddTask { desc, completed })
}

fn parse_done(rest: &Vec<String>) -> (r: Result<Command, CliError>)
    ensures
        outcome(r) == done_spec(words(rest@)),
{
    if find_bad_option(&Subcommand::Done, rest) {
        return Err(CliError::UnknownOption);
    }
    let ps = collect_positionals(rest);
    let all = has_word(rest, "-a") || has_word(rest, "--all");
    let value = !(has_word(rest, "-!") || has_word(rest, "--not"));
    if all == (ps.len() > 0) {
        return Err(CliError::InvalidSelector);
    }
    if all {
        return Ok(Command::MarkCompletion(value, TaskSelector::All));
    }
    match parse_indices(&ps) {
        Ok(v) => Ok(Command::MarkCompletion(value, TaskSelector::Indexed(v))),
        Err(e) => Err(e),
    }
}

fn parse_remove(rest: &Vec<String>) -> (r: Result<Command, CliError>)
    ensures
        outcome(r) == remove_spec(words(rest@)),
{
    if find_bad_option(&Subcommand::Remove, rest) {
        return Err(CliError::UnknownOption);
    }
    let ps = collect_positionals(rest);
    let all = has_word(rest, "-a") || has_word(rest, "--all");
    let cleanup = has_word(rest, "-c") || has_word(rest, "--cleanup");
    let project = has_word(rest, "--project");
    let chosen: usize = (if ps.len() > 0 { 1usize } else { 0usize }) + (if all { 1usize } else { 0usize })
        + (if cleanup { 1usize } else { 0usize }) + (if project { 1usize } else { 0usize });
    if chosen != 1 {
        return Err(CliError::InvalidSelector);
    }
    if project {
        Ok(Command::RemoveProject)
    } else if all {
        Ok(Command::RemoveTask(TaskSelector::All))
    } else if cleanup {
        Ok(Command::RemoveTask(TaskSelector::Completed))
    } else {
        match parse_indices(&ps) {
            Ok(v) => Ok(Command::RemoveTask(TaskSelector::Indexed(v))),
            Err(e) => Err(e),
        }
    }
}

pub open spec fn scan_view(r: Result<(Option<String>, Vec<String>), CliError>) -> Result<
    (Option<Seq<char>>, Seq<Seq<char>>),
    CliError,
> {
    match r {
        Ok((e, ps)) => Ok((opt_text(e), words(ps@))),
        Err(e) => Err(e),
    }
}

fn scan_edit(rest: &Vec<String>, i: usize) -> (r: Result<(Option<String>, Vec<String>), CliError>)
    requires
        i <= rest@.len(),
    ensures
        scan_view(r) == edit_scan(words(rest@).subrange(i as int, rest@.len() as int)),
    decreases rest@.len() - i,
{
    let ghost w = words(rest@).subrange(i as int, rest@.len() as int);
    if i == rest.len() {
        let none: Vec<String> = Vec::new();
        assert(words(none@) =~= Seq::<Seq<char>>::empty());
        assert(w =~= Seq::<Seq<char>>::empty());
        return Ok((None, none));
    }
    assert(w[0] == rest@[i as int]@);
    let a = rest[i].as_str();
    if text_eq(a, "-e") || text_eq(a, "--editor") {
        if i + 1 == rest.len() {
            return Err(CliError::MissingArgument);
        }
        assert(w[1] == rest@[i + 1]@);
        assert(w.subrange(2, w.len() as int) == words(rest@).subrange(i + 2, rest@.len() as int));
        match scan_edit(rest, i + 2) {
            Ok((_, ps)) => Ok((Some(rest[i + 1].clone()), ps)),
            Err(e) => Err(e),
        }
    } else if is_opt(&rest[i]) {
        Err(CliError::UnknownOption)
    } else {
        assert(w.drop_first() == words(rest@).subrange(i + 1, rest@.len() as int));
        match scan_edit(rest, i + 1) {
            Ok((e, ps)) => {
                let mut ps = ps;
                let ghost before = words(ps@);
                ps.insert(0, rest[i].clone());
                assert(words(ps@) == seq![w[0]] + before);
                Ok((e, ps))
            },
            Err(e) => Err(e),
        }
    }
}

fn parse_edit(rest: &Vec<String>, env_editor: Option<String>) -> (r: Result<Command, CliError>)
    ensures
        outcome(r) == edit_spec(words(rest@), opt_text(env_editor)),
{
    assert(words(rest@).subrange(0, rest@.len() as int) == words(rest@));
    let (named, ps) = match scan_edit(rest, 0) {
        Ok(x) => x,
        Err(e) => return Err(e),
    };
    if ps.len() == 0 {
        return Err(CliError::MissingArgument);
    }
    if ps.len() > 1 {
        return Err(CliError::UnexpectedArgument);
    }
    assert(words(ps@)[0] == ps@[0]@);
    let cs = chars_of(ps[0].as_str());
    let k = match parse_index(&cs) {
        Some(k) => k,
        None => return Err(CliError::InvalidIndex),
    };
    match named {
        Some(e) => Ok(Command::EditTask(e, k)),
        None => match env_editor {
            Some(e) => Ok(Command::EditTask(e, k)),
            None => Err(CliError::MissingEditor),
        },
    }
}

fn parse_completions(rest: &Vec<String>) -> (r: Result<Command, CliError>)
    ensures
        outcome(r) == completions_spec(words(rest@)),
{
    if find_bad_option(&Subcommand::Completions, rest) {
        return Err(CliError::UnknownOption);
    }
    let ps = collect_positionals(rest);
    if ps.len() == 0 {
        return Err(CliError::MissingArgument);
    }
    if ps.len() > 1 {
        return Err(CliError::UnexpectedArgument);
    }
    assert(words(ps@)[0] == ps@[0]@);
    Ok(Command::PrintCompletion(ps[0].clone()))
}

/// Reads a command line (the program name left out); `env_editor` is the value of `EDITOR`,
/// if set. No words ask for the task list.
pub fn parse_cli(args: &Vec<String>, env_editor: Option<String>) -> (r: Result<Command, CliError>)
    ensures
        outcome(r) == command_line(words(args@), opt_text(env_editor)),
{
    if args.len() == 0 {
        return Ok(Command::Show);
    }
    let mut rest: Vec<String> = Vec::new();
    let mut i: usize = 1;
    while i < args.len()
        invariant
            1 <= i <= args@.len(),
            words(rest@) == words(args@).subrange(1, i as int),
        decreases args.len() - i,
    {
        let a = args[i].clone();
        let ghost before = rest@;
        rest.push(a);
        assert(rest@ == before.push(a));
        assert(words(rest@) =~= words(before).push(args@[i as int]@));
        i = i + 1;
        assert(words(rest@) =~= words(args@).subrange(1, i as int));
    }
    assert(words(rest@) == words(args@).drop_first());
    assert(words(args@)[0] == args@[0]@);
    let w = args[0].as_str();
    if text_eq(w, "new") {
        parse_new(&rest)
    } else if text_eq(w, "add") || text_eq(w, "a") {
        parse_add(&rest)
    } else if text_eq(w, "done") || text_eq(w, "d") {
        parse_done(&rest)
    } else if text_eq(w, "rm") {
        parse_remove(&rest)
    } else if text_eq(w, "edit") || text_eq(w, "e") {
        parse_edit(&rest, env_editor)
    } else if text_eq(w, "completions") {
        parse_completions(&rest)
    } else {
        Err(CliError::UnknownCommand)
    }
}

} // verus!
