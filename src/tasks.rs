//! Counting checked and unchecked task bullets.
use vstd::prelude::*;

use crate::text::{chars_of, line_spans, lines_of, spans_match, skip_ws_forward, trim_start};

verus! {

/// The character inside the brackets of a task bullet (`- [?]` or `* [?]`,
/// after leading whitespace), if the line is one.
pub open spec fn task_mark(line: Seq<char>) -> Option<char> {
    let t = trim_start(line);
    if t.len() > 3 && (t[0] == '-' || t[0] == '*') && t[1] == ' ' && t[2] == '[' {
        Some(t[3])
    } else {
        None
    }
}

pub open spec fn is_done_task(line: Seq<char>) -> bool {
    task_mark(line) == Some('x') || task_mark(line) == Some('X')
}

pub open spec fn is_todo_task(line: Seq<char>) -> bool {
    task_mark(line) == Some(' ')
}

/// Number of checked task bullets among `lines`.
pub open spec fn count_done(lines: Seq<Seq<char>>) -> nat
    decreases lines.len(),
{
    if lines.len() == 0 {
        0
    } else {
        count_done(lines.drop_last()) + if is_done_task(lines.last()) {
            1nat
        } else {
            0nat
        }
    }
}

/// Number of unchecked task bullets among `lines`.
pub open spec fn count_todo(lines: Seq<Seq<char>>) -> nat
    decreases lines.len(),
{
    if lines.len() == 0 {
        0
    } else {
        count_todo(lines.drop_last()) + if is_todo_task(lines.last()) {
            1nat
        } else {
            0nat
        }
    }
}

/// Task mark of the line `v[lo..hi]`.
fn line_task_mark(v: &Vec<char>, lo: usize, hi: usize) -> (r: Option<char>)
    requires
        lo <= hi <= v.len(),
    ensures
        r == task_mark(v@.subrange(lo as int, hi as int)),
{
    let a = skip_ws_forward(v, lo, hi);
    let ghost t = v@.subrange(a as int, hi as int);
    if hi - a > 3 && (v[a] == '-' || v[a] == '*') && v[a + 1] == ' ' && v[a + 2] == '[' {
        assert(t[0] == v@[a as int] && t[1] == v@[a + 1] && t[2] == v@[a + 2]);
        assert(t[3] == v@[a + 3]);
        Some(v[a + 3])
    } else {
        assert(t.len() > 3 ==> t[0] == v@[a as int] && t[1] == v@[a + 1] && t[2] == v@[a + 2]);
        None
    }
}

/// Counts the task bullets of `content`: `(done, todo, total)` with
/// `total == done + todo`.
pub fn count_tasks(content: &str) -> (r: (usize, usize, usize))
    ensures
        r.0 == count_done(lines_of(content@)),
        r.1 == count_todo(lines_of(content@)),
        r.2 == r.0 + r.1,
{
    let v = chars_of(content);
    let spans = line_spans(&v);
    let ghost lines = lines_of(v@);
    let mut done: usize = 0;
    let mut todo: usize = 0;
    let mut i: usize = 0;
    while i < spans.len()
        invariant
            lines == lines_of(v@),
            spans.len() == lines.len(),
            spans.len() <= v.len(),
            forall|j: int|
                0 <= j < spans.len() ==> #[trigger] spans@[j].0 <= spans@[j].1 <= v.len()
                    && v@.subrange(spans@[j].0 as int, spans@[j].1 as int) == lines[j],
            i <= spans.len(),
            done + todo <= i,
            done == count_done(lines.take(i as int)),
            todo == count_todo(lines.take(i as int)),
        decreases spans.len() - i,
    {
        let (lo, hi) = spans[i];
        assert(spans@[i as int].0 <= spans@[i as int].1);
        let mark = line_task_mark(&v, lo, hi);
        assert(lines.take(i + 1).drop_last() =~= lines.take(i as int));
        assert(lines.take(i + 1).last() == lines[i as int]);
        match mark {
            Some(c) => {
                if c == 'x' || c == 'X' {
                    done = done + 1;
                } else if c == ' ' {
                    todo = todo + 1;
                }
            },
            None => {},
        }
        i = i + 1;
    }
    assert(lines.take(i as int) =~= lines);
    (done, todo, done + todo)
}

} // verus!
