//! `todo` — the model's own checklist for a multi-step turn.
//!
//! Stateless by construction: the list is handed in and handed back. At most
//! one task is ever in progress, and the runtime, not the model, promotes the
//! next pending task when none is.

use vstd::prelude::*;

use crate::errors::{strings_view, ToolError};
use crate::text::{decimal, push_decimal};
use crate::tool_types::{Task, TodoStatus, ToolResult};

verus! {

/// A checklist longer than this is not a plan. A write that would exceed it
/// fails outright rather than silently truncating.
pub const MAX_TASKS: usize = 20;

/// The two statuses the model may set.
#[derive(Debug, Clone, Copy, PartialEq, Eq)]
pub enum TodoUpdateStatus {
    Completed,
    Cancelled,
}

/// One call of the tool: append tasks, or settle one.
#[derive(Debug, Clone, PartialEq, Eq)]
pub enum TodoArgs {
    Write { tasks: Vec<String> },
    Update { id: Option<String>, status: TodoUpdateStatus, note: Option<String> },
}

/// A task with its texts as character sequences.
pub struct TaskView {
    pub id: Seq<char>,
    pub title: Seq<char>,
    pub status: TodoStatus,
    pub note: Option<Seq<char>>,
}

pub open spec fn opt_view(o: Option<String>) -> Option<Seq<char>> {
    match o {
        Some(s) => Some(s@),
        None => None,
    }
}

impl View for Task {
    type V = TaskView;

    open spec fn view(&self) -> TaskView {
        TaskView { id: self.id@, title: self.title@, status: self.status, note: opt_view(self.note) }
    }
}

pub open spec fn tasks_view(v: Seq<Task>) -> Seq<TaskView> {
    v.map_values(|t: Task| t@)
}

pub open spec fn status_of(s: TodoUpdateStatus) -> TodoStatus {
    match s {
        TodoUpdateStatus::Completed => TodoStatus::Completed,
        TodoUpdateStatus::Cancelled => TodoStatus::Cancelled,
    }
}

// ------------------------------------------------------------ ids

pub open spec fn is_digit(c: char) -> bool {
    '0' <= c && c <= '9'
}

pub open spec fn digit_value(c: char) -> nat {
    (c as u32 - '0' as u32) as nat
}

/// The number a run of decimal digits spells.
pub open spec fn digits_value(s: Seq<char>) -> nat
    decreases s.len(),
{
    if s.len() == 0 {
        0
    } else {
        digits_value(s.drop_last()) * 10 + digit_value(s.last())
    }
}

/// `s` without a leading `+`.
pub open spec fn unsigned_part(s: Seq<char>) -> Seq<char> {
    if s.len() > 0 && s[0] == '+' {
        s.subrange(1, s.len() as int)
    } else {
        s
    }
}

pub open spec fn all_digits(s: Seq<char>) -> bool {
    forall|i: int| 0 <= i < s.len() ==> is_digit(#[trigger] s[i])
}

/// `str::parse::<usize>`: an optional `+`, then at least one decimal digit,
/// of a value that fits.
pub open spec fn parse_usize(s: Seq<char>) -> Option<nat> {
    let digits = unsigned_part(s);
    if digits.len() > 0 && all_digits(digits) && digits_value(digits) <= usize::MAX {
        Some(digits_value(digits))
    } else {
        None
    }
}

/// The number in a task id of the form `t<n>`.
pub open spec fn id_number(id: Seq<char>) -> Option<nat> {
    if id.len() > 0 && id[0] == 't' {
        parse_usize(id.subrange(1, id.len() as int))
    } else {
        None
    }
}

/// The highest id number among the first `n` tasks, 0 without any.
pub open spec fn max_id(tasks: Seq<TaskView>, n: int) -> nat
    decreases n,
{
    if n <= 0 {
        0
    } else {
        let rest = max_id(tasks, n - 1);
        match id_number(tasks[n - 1].id) {
            Some(k) => if k > rest {
                k
            } else {
                rest
            },
            None => rest,
        }
    }
}

pub open spec fn task_id(n: nat) -> Seq<char> {
    seq!['t'] + decimal(n)
}

fn parse_usize_exec(s: &[char], from: usize) -> (r: Option<usize>)
    requires
        from <= s@.len(),
    ensures
        match r {
            Some(n) => parse_usize(s@.subrange(from as int, s@.len() as int)) == Some(n as nat),
            None => parse_usize(s@.subrange(from as int, s@.len() as int)) is None,
        },
{
    let ghost whole = s@.subrange(from as int, s@.len() as int);
    let mut i = from;
    if i < s.len() && s[i] == '+' {
        i = i + 1;
    }
    let ghost digits = s@.subrange(i as int, s@.len() as int);
    proof {
        assert(whole.len() > 0 ==> whole[0] == s@[from as int]);
        if whole.len() > 0 && whole[0] == '+' {
            assert(digits =~= whole.subrange(1, whole.len() as int));
        } else {
            assert(digits =~= whole);
        }
    }
    if i == s.len() {
        proof {
            assert(digits.len() == 0);
            let dd = if whole.len() > 0 && whole[0] == '+' { whole.subrange(1, whole.len() as int) } else { whole };
            assert(dd == digits);
        }
        return None;
    }
    let start = i;
    let mut value: usize = 0;
    while i < s.len()
        invariant
            start <= i <= s@.len(),
            whole == s@.subrange(from as int, s@.len() as int),
            digits == (if whole.len() > 0 && whole[0] == '+' { whole.subrange(1, whole.len() as int) } else { whole }),
            digits == s@.subrange(start as int, s@.len() as int),
            forall|j: int| start <= j < i ==> is_digit(#[trigger] s@[j]),
            value as nat == digits_value(s@.subrange(start as int, i as int)),
        decreases s.len() - i,
    {
        let c = s[i];
        let ghost pre = s@.subrange(start as int, i + 1);
        proof {
            assert(pre.drop_last() =~= s@.subrange(start as int, i as int));
            assert(pre.last() == c);
        }
        if !('0' <= c && c <= '9') {
            proof {
                assert(digits[i - start] == c);
                assert(!is_digit(digits[i - start]));
                let dd = if whole.len() > 0 && whole[0] == '+' { whole.subrange(1, whole.len() as int) } else { whole };
                assert(dd == digits);
                assert(!(forall|j: int| 0 <= j < digits.len() ==> is_digit(#[trigger] digits[j])));
                assert(parse_usize(whole) is None);
            }
            return None;
        }
        let d = (c as u32 - '0' as u32) as usize;
        if value > (usize::MAX - d) / 10 {
            proof {
                lemma_digits_value_grows(digits, i - start + 1);
                assert(digits.subrange(0, i - start + 1) =~= pre);
                assert(digits_value(pre) == value * 10 + d) by (nonlinear_arith)
                    requires
                        digits_value(pre) == digits_value(pre.drop_last()) * 10 + digit_value(pre.last()),
                        digits_value(pre.drop_last()) == value,
                        digit_value(pre.last()) == d,
                ;
                assert(value * 10 + d > usize::MAX) by (nonlinear_arith)
                    requires
                        value > (usize::MAX - d) / 10,
                        d <= 9,
                ;
            }
            return None;
        }
        value = value * 10 + d;
        i = i + 1;
    }
    proof {
        assert(s@.subrange(start as int, s@.len() as int) =~= digits);
    }
    Some(value)
}

proof fn lemma_digits_value_grows(s: Seq<char>, n: int)
    requires
        0 <= n <= s.len(),
    ensures
        digits_value(s.subrange(0, n)) <= digits_value(s),
    decreases s.len() - n,
{
    if n < s.len() {
        lemma_digits_value_grows(s, n + 1);
        let t = s.subrange(0, n + 1);
        assert(t.drop_last() =~= s.subrange(0, n));
        assert(digits_value(t) >= digits_value(t.drop_last())) by (nonlinear_arith)
            requires
                digits_value(t) == digits_value(t.drop_last()) * 10 + digit_value(t.last()),
        ;
    } else {
        assert(s.subrange(0, n) =~= s);
    }
}

proof fn lemma_digit_char(k: nat)
    requires
        k < 10,
    ensures
        is_digit(crate::text::digit_char(k)),
        digit_value(crate::text::digit_char(k)) == k,
        crate::text::digit_char(k) != '+',
{
}

proof fn lemma_decimal_digits(n: nat)
    ensures
        decimal(n).len() > 0,
        forall|i: int| 0 <= i < decimal(n).len() ==> is_digit(#[trigger] decimal(n)[i]),
        digits_value(decimal(n)) == n,
        decimal(n)[0] != '+',
    decreases n,
{
    if n < 10 {
        lemma_digit_char(n);
        let d = decimal(n);
        assert(d.drop_last() =~= Seq::<char>::empty());
        assert(digits_value(d.drop_last()) == 0);
        assert(d.last() == crate::text::digit_char(n));
        assert(digits_value(d) == digit_value(d.last()));
    } else {
        lemma_digit_char(n % 10);
        lemma_decimal_digits(n / 10);
        let d = decimal(n);
        assert((n / 10) * 10 + n % 10 == n) by (nonlinear_arith);
        assert(d.drop_last() =~= decimal(n / 10));
        assert(d.last() == crate::text::digit_char(n % 10));
        assert(digits_value(d) == digits_value(decimal(n / 10)) * 10 + digit_value(d.last()));
        assert(d.drop_last() =~= decimal(n / 10));
        assert(d[0] == decimal(n / 10)[0]);
        assert forall|i: int| 0 <= i < d.len() implies is_digit(#[trigger] d[i]) by {
            if i < d.len() - 1 {
                assert(d[i] == decimal(n / 10)[i]);
            }
        }
    }
}

/// A generated id reads back as the number it was made from.
pub proof fn lemma_task_id_round_trip(n: nat)
    requires
        n <= usize::MAX,
    ensures
        id_number(task_id(n)) == Some(n),
{
    lemma_decimal_digits(n);
    let id = task_id(n);
    assert(id.subrange(1, id.len() as int) =~= decimal(n));
}

/// The highest id number in the list.
fn last_id(tasks: &Vec<Task>) -> (r: usize)
    ensures
        r as nat == max_id(tasks_view(tasks@), tasks@.len() as int),
{
    let ghost tv = tasks_view(tasks@);
    let mut best: usize = 0;
    let mut i: usize = 0;
    while i < tasks.len()
        invariant
            i <= tasks@.len(),
            tv == tasks_view(tasks@),
            best as nat == max_id(tv, i as int),
        decreases tasks.len() - i,
    {
        let id = crate::text::chars_of(tasks[i].id.as_str());
        proof {
            assert(tv[i as int].id == id@);
        }
        if id.len() > 0 && id[0] == 't' {
            match parse_usize_exec(&id, 1) {
                Some(k) => {
                    if k > best {
                        best = k;
                    }
                },
                None => {},
            }
        }
        i = i + 1;
    }
    best
}

// ------------------------------------------------------------ operations

/// Whether every task on the list is completed or cancelled.
pub open spec fn all_finished(tasks: Seq<TaskView>) -> bool {
    forall|i: int|
        0 <= i < tasks.len() ==> #[trigger] tasks[i].status == TodoStatus::Completed || tasks[i].status
            == TodoStatus::Cancelled
}

pub open spec fn has_status(tasks: Seq<TaskView>, s: TodoStatus) -> bool {
    exists|i: int| 0 <= i < tasks.len() && #[trigger] tasks[i].status == s
}

/// The position of the first task with status `s` from `i` on, or the
/// length.
pub open spec fn first_with(tasks: Seq<TaskView>, s: TodoStatus, i: int) -> int
    decreases tasks.len() - i,
{
    if i >= tasks.len() || i < 0 {
        tasks.len() as int
    } else if tasks[i].status == s {
        i
    } else {
        first_with(tasks, s, i + 1)
    }
}

/// The next pending task promoted when nothing is in progress.
pub open spec fn spec_advance(tasks: Seq<TaskView>) -> Seq<TaskView> {
    if has_status(tasks, TodoStatus::InProgress) {
        tasks
    } else {
        let p = first_with(tasks, TodoStatus::Pending, 0);
        if p < tasks.len() {
            tasks.update(p, TaskView { status: TodoStatus::InProgress, ..tasks[p] })
        } else {
            tasks
        }
    }
}

pub open spec fn new_task(id: nat, title: Seq<char>) -> TaskView {
    TaskView { id: task_id(id), title, status: TodoStatus::Pending, note: None }
}

/// `write`: titles appended as pending tasks, numbered on from the highest id
/// there was; a finished list is replaced rather than extended.
pub open spec fn spec_write(tasks: Seq<TaskView>, titles: Seq<Seq<char>>) -> Result<Seq<TaskView>, crate::errors::ErrorView> {
    let kept = if all_finished(tasks) { Seq::<TaskView>::empty() } else { tasks };
    if kept.len() + titles.len() > MAX_TASKS {
        Err(crate::errors::ErrorView::TooManyTasks { current: kept.len(), adding: titles.len(), max: MAX_TASKS as nat })
    } else {
        let last = max_id(tasks, tasks.len() as int);
        Ok(spec_advance(kept + Seq::new(titles.len(), |k: int| new_task(last + k as nat + 1, titles[k]))))
    }
}

/// The position of the first task with this id from `i` on, or the length.
pub open spec fn find_id(tasks: Seq<TaskView>, id: Seq<char>, i: int) -> int
    decreases tasks.len() - i,
{
    if i >= tasks.len() || i < 0 {
        tasks.len() as int
    } else if tasks[i].id == id {
        i
    } else {
        find_id(tasks, id, i + 1)
    }
}

pub open spec fn ids_of(tasks: Seq<TaskView>) -> Seq<Seq<char>> {
    tasks.map_values(|t: TaskView| t.id)
}

/// `update`: the named task — or the one in progress — settled with
/// `status`, its note replaced when one is given.
pub open spec fn spec_update(
    tasks: Seq<TaskView>,
    id: Option<Seq<char>>,
    status: TodoStatus,
    note: Option<Seq<char>>,
) -> Result<Seq<TaskView>, crate::errors::ErrorView> {
    let active = first_with(tasks, TodoStatus::InProgress, 0);
    match id {
        None if active >= tasks.len() => Err(
            crate::errors::ErrorView::TaskNotFound { id: Seq::empty(), available: Some(ids_of(tasks)) },
        ),
        _ => {
            let target = match id {
                Some(i) => i,
                None => tasks[active].id,
            };
            let p = find_id(tasks, target, 0);
            if p >= tasks.len() {
                Err(crate::errors::ErrorView::TaskNotFound { id: target, available: Some(ids_of(tasks)) })
            } else {
                let t = tasks[p];
                Ok(
                    spec_advance(
                        tasks.update(
                            p,
                            TaskView {
                                status,
                                note: match note {
                                    Some(n) => Some(n),
                                    None => t.note,
                                },
                                ..t
                            },
                        ),
                    ),
                )
            }
        },
    }
}

pub open spec fn spec_todo(tasks: Seq<TaskView>, args: TodoArgs) -> Result<Seq<TaskView>, crate::errors::ErrorView> {
    match args {
        TodoArgs::Write { tasks: titles } => spec_write(tasks, strings_view(titles@)),
        TodoArgs::Update { id, status, note } => spec_update(tasks, opt_view(id), status_of(status), opt_view(note)),
    }
}

proof fn lemma_first_with(tasks: Seq<TaskView>, s: TodoStatus, i: int)
    requires
        0 <= i <= tasks.len(),
    ensures
        i <= first_with(tasks, s, i) <= tasks.len(),
        first_with(tasks, s, i) < tasks.len() ==> tasks[first_with(tasks, s, i)].status == s,
        forall|j: int| i <= j < first_with(tasks, s, i) ==> #[trigger] tasks[j].status != s,
    decreases tasks.len() - i,
{
    if i < tasks.len() && tasks[i].status != s {
        lemma_first_with(tasks, s, i + 1);
    }
}

proof fn lemma_find_id(tasks: Seq<TaskView>, id: Seq<char>, i: int)
    requires
        0 <= i <= tasks.len(),
    ensures
        i <= find_id(tasks, id, i) <= tasks.len(),
        find_id(tasks, id, i) < tasks.len() ==> tasks[find_id(tasks, id, i)].id == id,
    decreases tasks.len() - i,
{
    if i < tasks.len() && tasks[i].id != id {
        lemma_find_id(tasks, id, i + 1);
    }
}

fn copy_string(s: &String) -> (r: String)
    ensures
        r@ == s@,
{
    s.clone()
}

fn copy_opt(o: &Option<String>) -> (r: Option<String>)
    ensures
        opt_view(r) == opt_view(*o),
{
    match o {
        Some(s) => Some(copy_string(s)),
        None => None,
    }
}

fn copy_task(t: &Task) -> (r: Task)
    ensures
        r@ == t@,
{
    Task { id: copy_string(&t.id), title: copy_string(&t.title), status: t.status, note: copy_opt(&t.note) }
}

fn copy_tasks(v: &Vec<Task>) -> (r: Vec<Task>)
    ensures
        tasks_view(r@) == tasks_view(v@),
{
    let mut r: Vec<Task> = Vec::new();
    let mut i: usize = 0;
    while i < v.len()
        invariant
            i <= v@.len(),
            tasks_view(r@) == tasks_view(v@).subrange(0, i as int),
        decreases v.len() - i,
    {
        let t = copy_task(&v[i]);
        proof {
            assert(tasks_view(r@.push(t)) =~= tasks_view(r@).push(t@));
            assert(tasks_view(v@).subrange(0, i + 1) =~= tasks_view(v@).subrange(0, i as int).push(
                v@[i as int]@,
            ));
        }
        r.push(t);
        i = i + 1;
    }
    assert(tasks_view(v@).subrange(0, v@.len() as int) =~= tasks_view(v@));
    r
}

fn first_with_exec(tasks: &Vec<Task>, s: TodoStatus) -> (r: usize)
    ensures
        r as int == first_with(tasks_view(tasks@), s, 0),
{
    let ghost tv = tasks_view(tasks@);
    let mut i: usize = 0;
    while i < tasks.len()
        invariant
            i <= tasks@.len(),
            tv == tasks_view(tasks@),
            first_with(tv, s, i as int) == first_with(tv, s, 0),
        decreases tasks.len() - i,
    {
        if tasks[i].status == s {
            return i;
        }
        i = i + 1;
    }
    i
}

fn advance(tasks: Vec<Task>) -> (r: Vec<Task>)
    ensures
        tasks_view(r@) == spec_advance(tasks_view(tasks@)),
{
    let ghost tv = tasks_view(tasks@);
    let active = first_with_exec(&tasks, TodoStatus::InProgress);
    proof {
        lemma_first_with(tv, TodoStatus::InProgress, 0);
        if has_status(tv, TodoStatus::InProgress) {
            let j = choose|j: int| 0 <= j < tv.len() && #[trigger] tv[j].status == TodoStatus::InProgress;
            assert(j >= active);
        }
    }
    if active < tasks.len() {
        return tasks;
    }
    let p = first_with_exec(&tasks, TodoStatus::Pending);
    proof {
        lemma_first_with(tv, TodoStatus::Pending, 0);
    }
    let mut tasks = tasks;
    if p < tasks.len() {
        let t = copy_task(&tasks[p]);
        let promoted = Task { status: TodoStatus::InProgress, ..t };
        tasks.set(p, promoted);
        proof {
            assert(tasks_view(tasks@) =~= tv.update(p as int, TaskView { status: TodoStatus::InProgress, ..tv[p as int] }));
        }
    }
    tasks
}

fn strings_eq(a: &String, b: &String) -> (r: bool)
    ensures
        r == (a@ == b@),
{
    crate::text::str_eq(a.as_str(), b.as_str())
}

fn find_id_exec(tasks: &Vec<Task>, id: &String) -> (r: usize)
    ensures
        r as int == find_id(tasks_view(tasks@), id@, 0),
{
    let ghost tv = tasks_view(tasks@);
    let mut i: usize = 0;
    while i < tasks.len()
        invariant
            i <= tasks@.len(),
            tv == tasks_view(tasks@),
            find_id(tv, id@, i as int) == find_id(tv, id@, 0),
        decreases tasks.len() - i,
    {
        if strings_eq(&tasks[i].id, id) {
            return i;
        }
        i = i + 1;
    }
    i
}

fn ids_exec(tasks: &Vec<Task>) -> (r: Vec<String>)
    ensures
        strings_view(r@) == ids_of(tasks_view(tasks@)),
{
    let mut r: Vec<String> = Vec::new();
    let mut i: usize = 0;
    while i < tasks.len()
        invariant
            i <= tasks@.len(),
            strings_view(r@) == ids_of(tasks_view(tasks@)).subrange(0, i as int),
        decreases tasks.len() - i,
    {
        let id = copy_string(&tasks[i].id);
        proof {
            assert(strings_view(r@.push(id)) =~= strings_view(r@).push(id@));
            assert(ids_of(tasks_view(tasks@)).subrange(0, i + 1) =~= ids_of(tasks_view(tasks@)).subrange(
                0,
                i as int,
            ).push(tasks@[i as int].id@));
        }
        r.push(id);
        i = i + 1;
    }
    assert(ids_of(tasks_view(tasks@)).subrange(0, tasks@.len() as int) =~= ids_of(tasks_view(tasks@)));
    r
}

fn all_finished_exec(tasks: &Vec<Task>) -> (r: bool)
    ensures
        r == all_finished(tasks_view(tasks@)),
{
    let mut i: usize = 0;
    while i < tasks.len()
        invariant
            i <= tasks@.len(),
            forall|j: int|
                0 <= j < i ==> #[trigger] tasks_view(tasks@)[j].status == TodoStatus::Completed
                    || tasks_view(tasks@)[j].status == TodoStatus::Cancelled,
        decreases tasks.len() - i,
    {
        if !(tasks[i].status == TodoStatus::Completed || tasks[i].status == TodoStatus::Cancelled) {
            assert(tasks_view(tasks@)[i as int].status == tasks@[i as int].status);
            return false;
        }
        i = i + 1;
    }
    true
}

fn write(todos: &Vec<Task>, titles: &Vec<String>) -> (r: Result<Vec<Task>, ToolError>)
    requires
        max_id(tasks_view(todos@), todos@.len() as int) + titles@.len() <= usize::MAX,
    ensures
        match r {
            Ok(v) => spec_write(tasks_view(todos@), strings_view(titles@)) == Ok::<Seq<TaskView>, crate::errors::ErrorView>(tasks_view(v@)),
            Err(e) => spec_write(tasks_view(todos@), strings_view(titles@)) == Err::<Seq<TaskView>, crate::errors::ErrorView>(e@),
        },
{
    let finished = all_finished_exec(todos);
    let mut updated: Vec<Task> = if finished { Vec::new() } else { copy_tasks(todos) };
    let kept_len = updated.len();
    if titles.len() > MAX_TASKS || kept_len > MAX_TASKS - titles.len() {
        return Err(ToolError::TooManyTasks { current: kept_len, adding: titles.len(), max: MAX_TASKS });
    }
    let last = last_id(todos);
    let ghost kept = tasks_view(updated@);
    let ghost tv = tasks_view(todos@);
    let ghost tl = strings_view(titles@);
    let ghost fresh = Seq::new(tl.len(), |k: int| new_task(last as nat + k as nat + 1, tl[k]));
    let mut k: usize = 0;
    while k < titles.len()
        invariant
            k <= titles@.len(),
            last as nat == max_id(tv, tv.len() as int),
            last + titles@.len() <= usize::MAX,
            tl == strings_view(titles@),
            fresh == Seq::new(tl.len(), |k: int| new_task(last as nat + k as nat + 1, tl[k])),
            tasks_view(updated@) == kept + fresh.subrange(0, k as int),
        decreases titles.len() - k,
    {
        let mut id = String::new();
        push_char_t(&mut id);
        push_decimal(&mut id, (last + k + 1) as u128);
        let t = Task { id, title: copy_string(&titles[k]), status: TodoStatus::Pending, note: None };
        proof {
            assert(t@ == fresh[k as int]);
            assert(tasks_view(updated@.push(t)) =~= tasks_view(updated@).push(t@));
            assert(fresh.subrange(0, k + 1) =~= fresh.subrange(0, k as int).push(fresh[k as int]));
        }
        updated.push(t);
        k = k + 1;
    }
    proof {
        assert(fresh.subrange(0, tl.len() as int) =~= fresh);
    }
    Ok(advance(updated))
}

fn push_char_t(s: &mut String)
    ensures
        final(s)@ == old(s)@.push('t'),
{
    crate::text::push_char(s, 't');
}

fn update(todos: &Vec<Task>, id: &Option<String>, status: TodoStatus, note: &Option<String>) -> (r: Result<
    Vec<Task>,
    ToolError,
>)
    ensures
        match r {
            Ok(v) => spec_update(tasks_view(todos@), opt_view(*id), status, opt_view(*note)) == Ok::<
                Seq<TaskView>,
                crate::errors::ErrorView,
            >(tasks_view(v@)),
            Err(e) => spec_update(tasks_view(todos@), opt_view(*id), status, opt_view(*note)) == Err::<
                Seq<TaskView>,
                crate::errors::ErrorView,
            >(e@),
        },
{
    let ghost tv = tasks_view(todos@);
    let active = first_with_exec(todos, TodoStatus::InProgress);
    proof {
        lemma_first_with(tv, TodoStatus::InProgress, 0);
    }
    let target = match id {
        Some(i) => copy_string(i),
        None => {
            if active >= todos.len() {
                return Err(ToolError::TaskNotFound { id: String::new(), available: Some(ids_exec(todos)) });
            }
            copy_string(&todos[active].id)
        },
    };
    let p = find_id_exec(todos, &target);
    proof {
        lemma_find_id(tv, target@, 0);
    }
    if p >= todos.len() {
        return Err(ToolError::TaskNotFound { id: target, available: Some(ids_exec(todos)) });
    }
    let mut updated = copy_tasks(todos);
    let t = copy_task(&todos[p]);
    let new_note = match note {
        Some(n) => Some(copy_string(n)),
        None => t.note,
    };
    let settled = Task { id: t.id, title: t.title, status, note: new_note };
    updated.set(p, settled);
    proof {
        assert(tasks_view(updated@) =~= tv.update(
            p as int,
            TaskView {
                status,
                note: match opt_view(*note) {
                    Some(n) => Some(n),
                    None => tv[p as int].note,
                },
                ..tv[p as int]
            },
        ));
    }
    Ok(advance(updated))
}

/// Runs one `todo` call against the caller's list. The list is replaced only
/// when the whole operation succeeds; a failed call leaves it as it was.
pub fn todo(todos: &mut Vec<Task>, args: &TodoArgs) -> (r: Result<ToolResult, ToolError>)
    requires
        args matches TodoArgs::Write { tasks } ==> max_id(tasks_view(old(todos)@), old(todos)@.len() as int)
            + tasks@.len() <= usize::MAX,
    ensures
        match r {
            Ok(ToolResult::Todo { tasks }) => spec_todo(tasks_view(old(todos)@), *args) == Ok::<
                Seq<TaskView>,
                crate::errors::ErrorView,
            >(tasks_view(final(todos)@)) && tasks_view(tasks@) == tasks_view(final(todos)@),
            Ok(_) => false,
            Err(e) => spec_todo(tasks_view(old(todos)@), *args) == Err::<Seq<TaskView>, crate::errors::ErrorView>(e@)
                && final(todos)@ == old(todos)@,
        },
{
    let updated = match args {
        TodoArgs::Write { tasks } => write(todos, tasks)?,
        TodoArgs::Update { id, status, note } => {
            let s = match status {
                TodoUpdateStatus::Completed => TodoStatus::Completed,
                TodoUpdateStatus::Cancelled => TodoStatus::Cancelled,
            };
            update(todos, id, s, note)?
        },
    };
    let shown = copy_tasks(&updated);
    *todos = updated;
    Ok(ToolResult::Todo { tasks: shown })
}

// ------------------------------------------------------------ laws

/// No two tasks are in progress at once.
pub open spec fn at_most_one_active(ts: Seq<TaskView>) -> bool {
    forall|i: int, j: int|
        0 <= i < ts.len() && 0 <= j < ts.len() && #[trigger] ts[i].status == TodoStatus::InProgress
            && #[trigger] ts[j].status == TodoStatus::InProgress ==> i == j
}

/// Whenever work is pending, some task is being worked on.
pub open spec fn work_is_active(ts: Seq<TaskView>) -> bool {
    has_status(ts, TodoStatus::Pending) ==> has_status(ts, TodoStatus::InProgress)
}

proof fn lemma_advance_keeps_order(ts: Seq<TaskView>)
    requires
        at_most_one_active(ts),
    ensures
        at_most_one_active(spec_advance(ts)),
        work_is_active(spec_advance(ts)),
        spec_advance(ts).len() == ts.len(),
        forall|i: int| 0 <= i < ts.len() ==> #[trigger] spec_advance(ts)[i].id == ts[i].id,
{
    lemma_first_with(ts, TodoStatus::Pending, 0);
    if !has_status(ts, TodoStatus::InProgress) {
        let p = first_with(ts, TodoStatus::Pending, 0);
        let r = spec_advance(ts);
        if p < ts.len() {
            assert(r[p].status == TodoStatus::InProgress);
            assert forall|i: int, j: int|
                0 <= i < r.len() && 0 <= j < r.len() && #[trigger] r[i].status == TodoStatus::InProgress
                    && #[trigger] r[j].status == TodoStatus::InProgress implies i == j by {
                if i != p {
                    assert(r[i] == ts[i]);
                }
                if j != p {
                    assert(r[j] == ts[j]);
                }
            }
        } else {
            assert forall|i: int| 0 <= i < ts.len() implies #[trigger] ts[i].status != TodoStatus::Pending by {
            }
        }
    }
}

/// The runtime keeps the order of work: after any call that succeeds on a
/// list with at most one task in progress, there is still at most one, and
/// there is one whenever any task is pending.
pub proof fn law_one_task_in_progress(tasks: Seq<TaskView>, args: TodoArgs)
    requires
        at_most_one_active(tasks),
        spec_todo(tasks, args) is Ok,
    ensures
        at_most_one_active(spec_todo(tasks, args)->Ok_0),
        work_is_active(spec_todo(tasks, args)->Ok_0),
{
    match args {
        TodoArgs::Write { tasks: titles } => {
            let tl = strings_view(titles@);
            let kept = if all_finished(tasks) { Seq::<TaskView>::empty() } else { tasks };
            let last = max_id(tasks, tasks.len() as int);
            let all = kept + Seq::new(tl.len(), |k: int| new_task(last + k as nat + 1, tl[k]));
            assert forall|i: int, j: int|
                0 <= i < all.len() && 0 <= j < all.len() && #[trigger] all[i].status == TodoStatus::InProgress
                    && #[trigger] all[j].status == TodoStatus::InProgress implies i == j by {
                assert(i < kept.len() && j < kept.len());
                assert(all[i] == kept[i] && all[j] == kept[j]);
            }
            lemma_advance_keeps_order(all);
        },
        TodoArgs::Update { id, status, note } => {
            let st = status_of(status);
            let active = first_with(tasks, TodoStatus::InProgress, 0);
            lemma_first_with(tasks, TodoStatus::InProgress, 0);
            let target = match opt_view(id) {
                Some(i) => i,
                None => tasks[active].id,
            };
            let p = find_id(tasks, target, 0);
            lemma_find_id(tasks, target, 0);
            let t = tasks[p];
            let nt = match opt_view(note) {
                Some(n) => Some(n),
                None => t.note,
            };
            let u = tasks.update(p, TaskView { status: st, note: nt, ..t });
            assert forall|i: int, j: int|
                0 <= i < u.len() && 0 <= j < u.len() && #[trigger] u[i].status == TodoStatus::InProgress
                    && #[trigger] u[j].status == TodoStatus::InProgress implies i == j by {
                assert(i != p && j != p);
                assert(u[i] == tasks[i] && u[j] == tasks[j]);
            }
            lemma_advance_keeps_order(u);
        },
    }
}

proof fn lemma_max_id_bounds(tasks: Seq<TaskView>, n: int)
    requires
        0 <= n <= tasks.len(),
    ensures
        forall|i: int|
            0 <= i < n ==> (#[trigger] id_number(tasks[i].id) matches Some(k) ==> k <= max_id(tasks, n)),
    decreases n,
{
    if n > 0 {
        lemma_max_id_bounds(tasks, n - 1);
    }
}

/// An id is never reused: every task a write adds is numbered above every
/// id the list had, the tasks a finished list dropped included.
pub proof fn law_new_ids_are_fresh(tasks: Seq<TaskView>, titles: Seq<Seq<char>>)
    requires
        spec_write(tasks, titles) is Ok,
        max_id(tasks, tasks.len() as int) + titles.len() <= usize::MAX,
    ensures
        ({
            let r = spec_write(tasks, titles)->Ok_0;
            let added = r.len() - titles.len();
            forall|j: int, i: int|
                0 <= j < titles.len() && 0 <= i < tasks.len() ==> (#[trigger] id_number(r[added + j].id)
                    matches Some(n) && (#[trigger] id_number(tasks[i].id) matches Some(k) ==> k < n))
        }),
{
    let kept = if all_finished(tasks) { Seq::<TaskView>::empty() } else { tasks };
    let last = max_id(tasks, tasks.len() as int);
    let fresh = Seq::new(titles.len(), |k: int| new_task(last + k as nat + 1, titles[k]));
    let all = kept + fresh;
    lemma_max_id_bounds(tasks, tasks.len() as int);
    lemma_advance_keeps_order_ids(all);
    let r = spec_write(tasks, titles)->Ok_0;
    assert forall|j: int, i: int|
        0 <= j < titles.len() && 0 <= i < tasks.len() implies (#[trigger] id_number(r[kept.len() + j].id)
        matches Some(n) && (#[trigger] id_number(tasks[i].id) matches Some(k) ==> k < n)) by {
        assert(r[kept.len() + j].id == all[kept.len() + j].id);
        assert(all[kept.len() + j] == fresh[j]);
        lemma_task_id_round_trip(last + j as nat + 1);
    }
}

proof fn lemma_advance_keeps_order_ids(ts: Seq<TaskView>)
    ensures
        spec_advance(ts).len() == ts.len(),
        forall|i: int| 0 <= i < ts.len() ==> #[trigger] spec_advance(ts)[i].id == ts[i].id,
{
    lemma_first_with(ts, TodoStatus::Pending, 0);
}

/// Once every task is completed or cancelled, the next write starts a new
/// list: it holds exactly the new tasks.
pub proof fn law_finished_list_starts_over(tasks: Seq<TaskView>, titles: Seq<Seq<char>>)
    requires
        all_finished(tasks),
        spec_write(tasks, titles) is Ok,
    ensures
        spec_write(tasks, titles)->Ok_0.len() == titles.len(),
{
    let last = max_id(tasks, tasks.len() as int);
    let fresh = Seq::new(titles.len(), |k: int| new_task(last + k as nat + 1, titles[k]));
    lemma_advance_keeps_order_ids(Seq::<TaskView>::empty() + fresh);
}

} // verus!
