//! The TODO tool's command line and its task file lines.
use vstd::prelude::*;

use crate::json_grammar::is_digit;
use crate::text::{
    all_white, char_is_whitespace, chars_of, is_white_space, slice_chars, starts_with_chars, string_of,
};

verus! {

/// What the tool is asked to do.
#[derive(Debug, PartialEq)]
pub enum Command {
    Add(String),
    List,
    Done(usize),
    Clear,
    Help,
}

/// The model of a [`Command`].
pub enum CommandView {
    Add(Seq<char>),
    List,
    Done(nat),
    Clear,
    Help,
}

impl View for Command {
    type V = CommandView;

    open spec fn view(&self) -> CommandView {
        match self {
            Command::Add(s) => CommandView::Add(s@),
            Command::List => CommandView::List,
            Command::Done(n) => CommandView::Done(*n as nat),
            Command::Clear => CommandView::Clear,
            Command::Help => CommandView::Help,
        }
    }
}

/// The command, the task file and whether to say more.
#[derive(Debug)]
pub struct Config {
    pub command: Command,
    pub file_path: String,
    pub verbose: bool,
}

/// The model of a [`Config`].
pub struct ConfigView {
    pub command: CommandView,
    pub file_path: Seq<char>,
    pub verbose: bool,
}

impl View for Config {
    type V = ConfigView;

    open spec fn view(&self) -> ConfigView {
        ConfigView { command: self.command@, file_path: self.file_path@, verbose: self.verbose }
    }
}

pub open spec fn strings_view(v: Seq<String>) -> Seq<Seq<char>> {
    v.map_values(|s: String| s@)
}

/// The options read from `args[i..]`: the file path, the verbose flag and, in
/// order, the arguments that are no option.
pub open spec fn options_from(
    args: Seq<Seq<char>>,
    i: nat,
    file: Seq<char>,
    verbose: bool,
    rest: Seq<Seq<char>>,
) -> Result<(Seq<char>, bool, Seq<Seq<char>>), Seq<char>>
    decreases args.len() - i,
{
    if i >= args.len() {
        Ok((file, verbose, rest))
    } else {
        let a = args[i as int];
        if a == "-f"@ || a == "--file"@ {
            if i + 1 >= args.len() {
                Err("--file requires a path"@)
            } else {
                options_from(args, i + 2, args[(i + 1) as int], verbose, rest)
            }
        } else if a == "-v"@ || a == "--verbose"@ {
            options_from(args, i + 1, file, true, rest)
        } else {
            options_from(args, i + 1, file, verbose, rest.push(a))
        }
    }
}

/// The words joined with single spaces.
pub open spec fn join_words(words: Seq<Seq<char>>) -> Seq<char>
    decreases words.len(),
{
    if words.len() == 0 {
        Seq::empty()
    } else if words.len() == 1 {
        words[0]
    } else {
        join_words(words.drop_last()) + " "@ + words.last()
    }
}

/// The value of a string of ASCII digits.
pub open spec fn digits_value(s: Seq<char>) -> nat
    decreases s.len(),
{
    if s.len() == 0 {
        0
    } else {
        digits_value(s.drop_last()) * 10 + (s.last() as nat - '0' as nat) as nat
    }
}

pub open spec fn all_digits(d: Seq<char>) -> bool {
    forall|i: int| 0 <= i < d.len() ==> is_digit(#[trigger] d[i])
}

/// The `usize` that `s` spells: an optional `+`, then at least one ASCII
/// digit and nothing else, with a value that fits.
pub open spec fn usize_of(s: Seq<char>) -> Option<nat> {
    let d = if s.len() > 0 && s[0] == '+' {
        s.drop_first()
    } else {
        s
    };
    if d.len() > 0 && all_digits(d) && digits_value(d) <= usize::MAX {
        Some(digits_value(d))
    } else {
        None
    }
}

/// The configuration that the arguments ask for, or why there is none.
pub open spec fn config_of(args: Seq<Seq<char>>) -> Result<ConfigView, Seq<char>> {
    match options_from(args, 0, "todo.txt"@, false, Seq::empty()) {
        Err(e) => Err(e),
        Ok((file, verbose, rest)) => {
            if rest.len() == 0 {
                Err("No command specified"@)
            } else {
                let name = rest[0];
                let command = if name == "add"@ {
                    if rest.len() < 2 {
                        Err("add requires a task description"@)
                    } else {
                        Ok(CommandView::Add(join_words(rest.subrange(1, rest.len() as int))))
                    }
                } else if name == "list"@ {
                    Ok(CommandView::List)
                } else if name == "done"@ {
                    if rest.len() < 2 {
                        Err("done requires a task ID"@)
                    } else {
                        match usize_of(rest[1]) {
                            Some(id) => Ok(CommandView::Done(id)),
                            None => Err("Invalid task ID"@),
                        }
                    }
                } else if name == "clear"@ {
                    Ok(CommandView::Clear)
                } else if name == "help"@ || name == "-h"@ || name == "--help"@ {
                    Ok(CommandView::Help)
                } else {
                    Err("Unknown command: "@ + name)
                };
                match command {
                    Ok(c) => Ok(ConfigView { command: c, file_path: file, verbose }),
                    Err(e) => Err(e),
                }
            }
        },
    }
}

/// The `usize` that `s` spells, as [`usize_of`] says.
pub fn parse_usize(s: &str) -> (r: Option<usize>)
    ensures
        match usize_of(s@) {
            Some(n) => r == Some(n as usize),
            None => r is None,
        },
{
    let chars = chars_of(s);
    let start: usize = if chars.len() > 0 && chars[0] == '+' {
        1
    } else {
        0
    };
    let ghost d = chars@.subrange(start as int, chars@.len() as int);
    assert(start == 1 ==> d =~= s@.drop_first());
    assert(start == 0 ==> d =~= s@);
    assert(d == (if s@.len() > 0 && s@[0] == '+' {
        s@.drop_first()
    } else {
        s@
    }));
    if start >= chars.len() {
        return None;
    }
    let mut value: usize = 0;
    let mut i: usize = start;
    while i < chars.len()
        invariant
            d == chars@.subrange(start as int, chars@.len() as int),
            d == (if s@.len() > 0 && s@[0] == '+' {
                s@.drop_first()
            } else {
                s@
            }),
            start <= i <= chars@.len(),
            forall|j: int| 0 <= j < i - start ==> is_digit(#[trigger] d[j]),
            value as nat == digits_value(d.subrange(0, i - start)),
        decreases chars.len() - i,
    {
        let c = chars[i];
        assert(d[i - start] == c);
        if !('0' <= c && c <= '9') {
            assert(!is_digit(d[i - start]));
            assert(!(forall|j: int| 0 <= j < d.len() ==> is_digit(#[trigger] d[j])));
            return None;
        }
        let digit = (c as u32 - '0' as u32) as usize;
        assert(d.subrange(0, i + 1 - start).drop_last() =~= d.subrange(0, i - start));
        assert(d.subrange(0, i + 1 - start).last() == c);
        assert(digits_value(d.subrange(0, i + 1 - start)) == value * 10 + digit);
        match value.checked_mul(10) {
            Some(m) => match m.checked_add(digit) {
                Some(v) => {
                    value = v;
                },
                None => {
                    proof {
                        lemma_digits_value_prefix(d, (i + 1 - start) as nat);
                    }
                    return None;
                },
            },
            None => {
                proof {
                    lemma_digits_value_prefix(d, (i + 1 - start) as nat);
                }
                return None;
            },
        }
        i += 1;
    }
    assert(d.subrange(0, d.len() as int) =~= d);
    Some(value)
}

/// A longer run of digits is worth at least as much as its prefix.
proof fn lemma_digits_value_prefix(d: Seq<char>, k: nat)
    requires
        k <= d.len(),
    ensures
        digits_value(d.subrange(0, k as int)) <= digits_value(d),
    decreases d.len() - k,
{
    if k < d.len() {
        lemma_digits_value_prefix(d, k + 1);
        assert(d.subrange(0, (k + 1) as int).drop_last() =~= d.subrange(0, k as int));
    } else {
        assert(d.subrange(0, k as int) =~= d);
    }
}

impl Config {
    /// Reads the options and the command from the arguments.
    pub fn parse(args: &[String]) -> (r: Result<Config, String>)
        ensures
            match config_of(strings_view(args@)) {
                Ok(c) => r matches Ok(x) && x@ == c,
                Err(e) => r matches Err(x) && x@ == e,
            },
    {
        let ghost a = strings_view(args@);
        let mut file_path = String::from_str("todo.txt");
        let mut verbose = false;
        let mut rest: Vec<String> = Vec::new();
        let mut i: usize = 0;
        assert(strings_view(rest@) =~= Seq::<Seq<char>>::empty());
        while i < args.len()
            invariant
                a == strings_view(args@),
                i <= args@.len(),
                options_from(a, 0, "todo.txt"@, false, Seq::empty()) == options_from(
                    a,
                    i as nat,
                    file_path@,
                    verbose,
                    strings_view(rest@),
                ),
            decreases args.len() - i,
        {
            let arg = &args[i];
            assert(a[i as int] == arg@);
            if *arg == String::from_str("-f") || *arg == String::from_str("--file") {
                if i + 1 >= args.len() {
                    return Err(String::from_str("--file requires a path"));
                }
                assert(a[i + 1] == args@[i + 1]@);
                file_path = args[i + 1].clone();
                i += 2;
            } else if *arg == String::from_str("-v") || *arg == String::from_str("--verbose") {
                verbose = true;
                i += 1;
            } else {
                let ghost before = strings_view(rest@);
                rest.push(arg.clone());
                assert(strings_view(rest@) =~= before.push(arg@));
                i += 1;
            }
        }
        let ghost r = strings_view(rest@);
        if rest.len() == 0 {
            return Err(String::from_str("No command specified"));
        }
        assert(r[0] == rest@[0]@);
        let name = &rest[0];
        let command = if *name == String::from_str("add") {
            if rest.len() < 2 {
                return Err(String::from_str("add requires a task description"));
            }
            Command::Add(join_from(&rest, 1))
        } else if *name == String::from_str("list") {
            Command::List
        } else if *name == String::from_str("done") {
            if rest.len() < 2 {
                return Err(String::from_str("done requires a task ID"));
            }
            assert(r[1] == rest@[1]@);
            match parse_usize(rest[1].as_str()) {
                Some(id) => Command::Done(id),
                None => {
                    return Err(String::from_str("Invalid task ID"));
                },
            }
        } else if *name == String::from_str("clear") {
            Command::Clear
        } else if *name == String::from_str("help") || *name == String::from_str("-h")
            || *name == String::from_str("--help") {
            Command::Help
        } else {
            let mut message = String::from_str("Unknown command: ");
            message.append(name.as_str());
            return Err(message);
        };
        Ok(Config { command, file_path, verbose })
    }
}

/// The words from index `from` on, joined with single spaces.
fn join_from(words: &Vec<String>, from: usize) -> (r: String)
    requires
        from <= words@.len(),
    ensures
        r@ == join_words(strings_view(words@).subrange(from as int, words@.len() as int)),
{
    let ghost w = strings_view(words@);
    let mut out = String::new();
    let mut i: usize = from;
    assert(w.subrange(from as int, from as int) =~= Seq::<Seq<char>>::empty());
    while i < words.len()
        invariant
            w == strings_view(words@),
            from <= i <= words@.len(),
            out@ == join_words(w.subrange(from as int, i as int)),
        decreases words.len() - i,
    {
        if i > from {
            out.append(" ");
        }
        out.append(words[i].as_str());
        assert(w.subrange(from as int, i + 1).drop_last() =~= w.subrange(from as int, i as int));
        i += 1;
        if i - 1 == from {
            assert(w.subrange(from as int, i as int) =~= seq![w[from as int]]);
            assert(out@ =~= join_words(w.subrange(from as int, i as int)));
        } else {
            assert(out@ =~= join_words(w.subrange(from as int, i as int)));
        }
    }
    out
}

/// One task of the task file.
#[derive(Debug)]
pub struct Task {
    pub id: usize,
    pub description: String,
    pub done: bool,
}

/// The model of a [`Task`].
pub struct TaskView {
    pub id: nat,
    pub description: Seq<char>,
    pub done: bool,
}

impl View for Task {
    type V = TaskView;

    open spec fn view(&self) -> TaskView {
        TaskView { id: self.id as nat, description: self.description@, done: self.done }
    }
}

/// Whether `line` begins with `prefix`.
pub open spec fn has_prefix(line: Seq<char>, prefix: Seq<char>) -> bool {
    prefix.len() <= line.len() && line.subrange(0, prefix.len() as int) == prefix
}

/// The task that a line of the task file holds: `[x] ` marks it done, `[ ] `
/// open; a line with neither is an open task as it stands.
pub open spec fn task_of(id: nat, line: Seq<char>) -> TaskView {
    let done = has_prefix(line, "[x] "@);
    TaskView {
        id,
        description: if done || has_prefix(line, "[ ] "@) {
            line.subrange("[x] "@.len() as int, line.len() as int)
        } else {
            line
        },
        done,
    }
}

/// A task as one line: its mark, a space, its description.
pub open spec fn line_of(t: TaskView) -> Seq<char> {
    (if t.done {
        "[x]"@
    } else {
        "[ ]"@
    }) + " "@ + t.description
}

/// The tasks of the lines from `i` on: the task on line `k` (counted from 1)
/// has id `k`; blank lines hold none.
pub open spec fn tasks_from(lines: Seq<Seq<char>>, i: nat) -> Seq<TaskView>
    decreases lines.len() - i,
{
    if i >= lines.len() {
        Seq::empty()
    } else if all_white(lines[i as int]) {
        tasks_from(lines, i + 1)
    } else {
        seq![task_of(i + 1, lines[i as int])] + tasks_from(lines, i + 1)
    }
}

/// The lines of the tasks, joined with newlines.
pub open spec fn joined_lines(ts: Seq<TaskView>) -> Seq<char>
    decreases ts.len(),
{
    if ts.len() == 0 {
        Seq::empty()
    } else if ts.len() == 1 {
        line_of(ts[0])
    } else {
        joined_lines(ts.drop_last()) + "\n"@ + line_of(ts.last())
    }
}

/// The task file's text: the lines of the tasks, each ended by a newline.
pub open spec fn tasks_text(ts: Seq<TaskView>) -> Seq<char> {
    joined_lines(ts) + "\n"@
}

pub open spec fn task_views(ts: Seq<Task>) -> Seq<TaskView> {
    ts.map_values(|t: Task| t@)
}

/// The number of tasks done.
pub open spec fn done_count(ts: Seq<TaskView>) -> nat
    decreases ts.len(),
{
    if ts.len() == 0 {
        0
    } else {
        done_count(ts.drop_last()) + if ts.last().done {
            1nat
        } else {
            0nat
        }
    }
}

/// The tasks whose `done` is `done`, in order.
pub open spec fn with_status(ts: Seq<TaskView>, done: bool) -> Seq<TaskView>
    decreases ts.len(),
{
    if ts.len() == 0 {
        Seq::empty()
    } else if ts.last().done == done {
        with_status(ts.drop_last(), done).push(ts.last())
    } else {
        with_status(ts.drop_last(), done)
    }
}

/// `i` is the first index of a task with id `id`.
pub open spec fn is_first_id(ts: Seq<TaskView>, id: nat, i: int) -> bool {
    &&& 0 <= i < ts.len()
    &&& ts[i].id == id
    &&& forall|j: int| 0 <= j < i ==> ts[j].id != id
}

/// What marking a task done came to.
#[derive(Debug, PartialEq, Eq)]
pub enum MarkOutcome {
    /// No task has the id.
    NotFound,
    /// The task was done already; nothing changed.
    AlreadyDone,
    /// The task is now done.
    Marked,
}

impl Task {
    /// The task that a line of the task file holds.
    pub fn from_line(id: usize, line: &str) -> (t: Task)
        ensures
            t@ == task_of(id as nat, line@),
    {
        let chars = chars_of(line);
        let done_mark = chars_of("[x] ");
        let open_mark = chars_of("[ ] ");
        proof {
            reveal_strlit("[x] ");
            reveal_strlit("[ ] ");
        }
        let done = starts_with_chars(&chars, &done_mark);
        let description = if done || starts_with_chars(&chars, &open_mark) {
            string_of(&slice_chars(&chars, 4, chars.len()))
        } else {
            String::from_str(line)
        };
        Task { id, description, done }
    }

    /// The task as one line: its mark, a space, its description.
    pub fn to_line(&self) -> (r: String)
        ensures
            r@ == line_of(self@),
    {
        let mut line = if self.done {
            String::from_str("[x]")
        } else {
            String::from_str("[ ]")
        };
        line.append(" ");
        line.append(self.description.as_str());
        line
    }
}

fn is_blank(line: &str) -> (r: bool)
    ensures
        r == all_white(line@),
{
    let chars = chars_of(line);
    let mut i: usize = 0;
    while i < chars.len()
        invariant
            chars@ == line@,
            i <= chars@.len(),
            forall|j: int| 0 <= j < i ==> is_white_space(#[trigger] chars@[j]),
        decreases chars.len() - i,
    {
        if !char_is_whitespace(chars[i]) {
            return false;
        }
        i += 1;
    }
    true
}

/// The tasks that the lines of a task file hold.
pub fn tasks_from_lines(lines: &Vec<String>) -> (r: Vec<Task>)
    ensures
        task_views(r@) == tasks_from(strings_view(lines@), 0),
{
    let ghost ls = strings_view(lines@);
    let mut out: Vec<Task> = Vec::new();
    let mut i: usize = 0;
    assert(task_views(out@) =~= Seq::<TaskView>::empty());
    while i < lines.len()
        invariant
            ls == strings_view(lines@),
            i <= lines@.len(),
            tasks_from(ls, 0) == task_views(out@) + tasks_from(ls, i as nat),
        decreases lines.len() - i,
    {
        assert(ls[i as int] == lines@[i as int]@);
        if !is_blank(lines[i].as_str()) {
            let ghost before = task_views(out@);
            out.push(Task::from_line(i + 1, lines[i].as_str()));
            assert(task_views(out@) =~= before.push(task_of((i + 1) as nat, ls[i as int])));
            assert(task_views(out@) + tasks_from(ls, (i + 1) as nat) =~= before + tasks_from(ls, i as nat));
        }
        i += 1;
    }
    assert(task_views(out@) + tasks_from(ls, i as nat) =~= task_views(out@));
    out
}

/// The text of the task file that holds `tasks`.
pub fn tasks_to_text(tasks: &Vec<Task>) -> (r: String)
    ensures
        r@ == tasks_text(task_views(tasks@)),
{
    let ghost ts = task_views(tasks@);
    let mut out = String::new();
    let mut i: usize = 0;
    assert(ts.subrange(0, 0) =~= Seq::<TaskView>::empty());
    while i < tasks.len()
        invariant
            ts == task_views(tasks@),
            i <= tasks@.len(),
            out@ == joined_lines(ts.subrange(0, i as int)),
        decreases tasks.len() - i,
    {
        if i > 0 {
            out.append("\n");
        }
        let line = tasks[i].to_line();
        out.append(line.as_str());
        assert(ts.subrange(0, (i + 1) as int).drop_last() =~= ts.subrange(0, i as int));
        if i == 0 {
            assert(out@ =~= joined_lines(ts.subrange(0, 1)));
        } else {
            assert(out@ =~= joined_lines(ts.subrange(0, (i + 1) as int)));
        }
        i += 1;
    }
    assert(ts.subrange(0, i as int) =~= ts);
    out.append("\n");
    out
}

/// The number of tasks done.
pub fn count_done(tasks: &Vec<Task>) -> (n: usize)
    ensures
        n == done_count(task_views(tasks@)),
{
    let ghost ts = task_views(tasks@);
    let mut n: usize = 0;
    let mut i: usize = 0;
    assert(ts.subrange(0, 0) =~= Seq::<TaskView>::empty());
    while i < tasks.len()
        invariant
            ts == task_views(tasks@),
            i <= tasks@.len(),
            n == done_count(ts.subrange(0, i as int)),
            n <= i,
        decreases tasks.len() - i,
    {
        assert(ts.subrange(0, (i + 1) as int).drop_last() =~= ts.subrange(0, i as int));
        if tasks[i].done {
            n += 1;
        }
        i += 1;
    }
    assert(ts.subrange(0, i as int) =~= ts);
    n
}

/// Marks the first task with id `id` done.
pub fn mark_done(tasks: &mut Vec<Task>, id: usize) -> (r: MarkOutcome)
    ensures
        match r {
            MarkOutcome::NotFound => task_views(final(tasks)@) == task_views(old(tasks)@) && !exists|
                i: int,
            | is_first_id(task_views(old(tasks)@), id as nat, i),
            MarkOutcome::AlreadyDone => task_views(final(tasks)@) == task_views(old(tasks)@) && exists|
                i: int,
            | is_first_id(task_views(old(tasks)@), id as nat, i) && task_views(old(tasks)@)[i].done,
            MarkOutcome::Marked => exists|i: int|
                is_first_id(task_views(old(tasks)@), id as nat, i) && !task_views(old(tasks)@)[i].done
                    && task_views(final(tasks)@) == task_views(old(tasks)@).update(
                    i,
                    TaskView { done: true, ..task_views(old(tasks)@)[i] },
                ),
        },
{
    let ghost ts = task_views(tasks@);
    let mut i: usize = 0;
    while i < tasks.len()
        invariant
            ts == task_views(tasks@),
            tasks@ == old(tasks)@,
            i <= tasks@.len(),
            forall|j: int| 0 <= j < i ==> ts[j].id != id,
        decreases tasks.len() - i,
    {
        if tasks[i].id == id {
            assert(is_first_id(ts, id as nat, i as int));
            if tasks[i].done {
                return MarkOutcome::AlreadyDone;
            }
            let mut task = tasks.remove(i);
            task.done = true;
            tasks.insert(i, task);
            assert(task_views(tasks@) =~= ts.update(i as int, TaskView { done: true, ..ts[i as int] }));
            return MarkOutcome::Marked;
        }
        i += 1;
    }
    MarkOutcome::NotFound
}

/// Splits the tasks into those done and those still open, each in order.
pub fn split_done(tasks: Vec<Task>) -> (r: (Vec<Task>, Vec<Task>))
    ensures
        task_views(r.0@) == with_status(task_views(tasks@), true),
        task_views(r.1@) == with_status(task_views(tasks@), false),
{
    let ghost ts = task_views(tasks@);
    let mut rest = tasks;
    let mut reversed: Vec<Task> = Vec::new();
    while rest.len() > 0
        invariant
            task_views(rest@) + task_views(reversed@).reverse() == ts,
        decreases rest.len(),
    {
        let ghost rv = task_views(rest@);
        let ghost bv = task_views(reversed@);
        let t = rest.pop().unwrap();
        reversed.push(t);
        assert(task_views(rest@) =~= rv.drop_last());
        assert(task_views(reversed@) =~= bv.push(rv.last()));
        assert(task_views(reversed@).reverse() =~= seq![rv.last()] + bv.reverse());
        assert(task_views(rest@) + task_views(reversed@).reverse() =~= rv + bv.reverse());
    }
    assert(task_views(reversed@).reverse() =~= ts);
    let mut done: Vec<Task> = Vec::new();
    let mut open: Vec<Task> = Vec::new();
    let ghost n = ts.len();
    assert(ts.subrange(0, 0) =~= Seq::<TaskView>::empty());
    assert(task_views(done@) =~= Seq::<TaskView>::empty());
    assert(task_views(open@) =~= Seq::<TaskView>::empty());
    while reversed.len() > 0
        invariant
            n == ts.len(),
            reversed@.len() <= n,
            task_views(reversed@).reverse() == ts.subrange(n - reversed@.len(), n as int),
            task_views(done@) == with_status(ts.subrange(0, n - reversed@.len()), true),
            task_views(open@) == with_status(ts.subrange(0, n - reversed@.len()), false),
        decreases reversed.len(),
    {
        let ghost k = n - reversed@.len();
        let ghost bv = task_views(reversed@);
        let t = reversed.pop().unwrap();
        assert(bv.reverse()[0] == t@);
        assert(ts[k] == t@) by {
            assert(ts.subrange(k, n as int)[0] == ts[k]);
        }
        assert(task_views(reversed@) =~= bv.drop_last());
        assert(task_views(reversed@).reverse() =~= ts.subrange(k + 1, n as int)) by {
            assert(bv.drop_last().reverse() =~= bv.reverse().drop_first());
            assert(ts.subrange(k, n as int).drop_first() =~= ts.subrange(k + 1, n as int));
        }
        assert(ts.subrange(0, k + 1).drop_last() =~= ts.subrange(0, k));
        let ghost dv = task_views(done@);
        let ghost ov = task_views(open@);
        if t.done {
            done.push(t);
            assert(task_views(done@) =~= dv.push(ts[k]));
        } else {
            open.push(t);
            assert(task_views(open@) =~= ov.push(ts[k]));
        }
    }
    assert(ts.subrange(0, n as int) =~= ts);
    (done, open)
}

} // verus!
