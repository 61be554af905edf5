//! Recognising a summary line that an earlier run wrote.
use vstd::prelude::*;

use crate::text::{
    chars_of, contains, line_spans, lines_of, spans_match, skip_ws_backward, skip_ws_forward, starts_with,
    trim, vec_contains, vec_starts_with,
};

verus! {

pub open spec fn is_mark(c: char) -> bool {
    c == '*' || c == '_'
}

/// `s` with every emphasis character (`*`, `_`) removed, wherever it stands.
pub open spec fn strip_marks(s: Seq<char>) -> Seq<char>
    decreases s.len(),
{
    if s.len() == 0 {
        s
    } else if is_mark(s.last()) {
        strip_marks(s.drop_last())
    } else {
        strip_marks(s.drop_last()).push(s.last())
    }
}

/// The loose test on a line with emphasis removed.
pub open spec fn is_stats_text(t: Seq<char>) -> bool {
    starts_with(t, "今日未完成目标 "@) || contains(t, "今日进度"@) || contains(t, "By Seedling"@)
}

/// A line is a summary line when, trimmed and stripped of emphasis
/// characters, it passes `is_stats_text`.
pub open spec fn is_stats(line: Seq<char>) -> bool {
    is_stats_text(strip_marks(trim(line)))
}

/// The first line of `s`, or the empty line when `s` has none.
pub open spec fn first_line(s: Seq<char>) -> Seq<char> {
    if lines_of(s).len() > 0 {
        lines_of(s)[0]
    } else {
        Seq::empty()
    }
}

/// The last line of `lines` that is not blank, or the empty line.
pub open spec fn last_nonblank(lines: Seq<Seq<char>>) -> Seq<char>
    decreases lines.len(),
{
    if lines.len() == 0 {
        Seq::empty()
    } else if trim(lines.last()).len() > 0 {
        lines.last()
    } else {
        last_nonblank(lines.drop_last())
    }
}

/// The first line of `s` is a summary line.
pub open spec fn starts_with_stats(s: Seq<char>) -> bool {
    is_stats(first_line(s))
}

/// The last non-blank line of `s` is a summary line.
pub open spec fn ends_with_stats(s: Seq<char>) -> bool {
    is_stats(last_nonblank(lines_of(s)))
}

/// `is_stats` on the line `v[lo..hi]`.
fn is_stats_range(v: &Vec<char>, lo: usize, hi: usize) -> (r: bool)
    requires
        lo <= hi <= v.len(),
    ensures
        r == is_stats(v@.subrange(lo as int, hi as int)),
{
    let a = skip_ws_forward(v, lo, hi);
    let b = skip_ws_backward(v, a, hi);
    let mut t: Vec<char> = Vec::new();
    let mut k = a;
    assert(v@.subrange(a as int, a as int) =~= Seq::<char>::empty());
    while k < b
        invariant
            a <= k <= b <= v.len(),
            t@ == strip_marks(v@.subrange(a as int, k as int)),
        decreases b - k,
    {
        let c = v[k];
        assert(v@.subrange(a as int, k + 1).drop_last() =~= v@.subrange(a as int, k as int));
        if !(c == '*' || c == '_') {
            t.push(c);
        }
        k = k + 1;
    }
    let p_open = chars_of("今日未完成目标 ");
    let p_progress = chars_of("今日进度");
    let p_sign = chars_of("By Seedling");
    vec_starts_with(&t, &p_open) || vec_contains(&t, &p_progress) || vec_contains(&t, &p_sign)
}

/// Whether `l` is a summary line: trimmed, with `*` and `_` removed
/// everywhere, it starts with `"今日未完成目标 "` or contains `"今日进度"` or
/// `"By Seedling"`.
pub fn is_stats_line(l: &str) -> (r: bool)
    ensures
        r == is_stats(l@),
{
    let v = chars_of(l);
    assert(v@.subrange(0, v.len() as int) =~= v@);
    is_stats_range(&v, 0, v.len())
}

/// Whether the first line of `s` is a summary line.
pub fn starts_with_stats_header(s: &str) -> (r: bool)
    ensures
        r == starts_with_stats(s@),
{
    let v = chars_of(s);
    let spans = line_spans(&v);
    if spans.len() == 0 {
        assert(v@.subrange(0, 0) =~= Seq::<char>::empty());
        is_stats_range(&v, 0, 0)
    } else {
        let (lo, hi) = spans[0];
        assert(spans@[0].0 <= spans@[0].1);
        is_stats_range(&v, lo, hi)
    }
}

/// Whether the last non-blank line of `s` is a summary line.
pub fn ends_with_stats_header(s: &str) -> (r: bool)
    ensures
        r == ends_with_stats(s@),
{
    let v = chars_of(s);
    let spans = line_spans(&v);
    let ghost lines = lines_of(v@);
    let mut i = spans.len();
    assert(lines.take(i as int) =~= lines);
    while i > 0
        invariant
            v@ == s@,
            lines == lines_of(v@),
            spans_match(v@, spans@, lines),
            i <= spans.len(),
            last_nonblank(lines.take(i as int)) == last_nonblank(lines),
        decreases i,
    {
        let (lo, hi) = spans[i - 1];
        assert(spans@[i - 1].0 <= spans@[i - 1].1);
        let a = skip_ws_forward(&v, lo, hi);
        let b = skip_ws_backward(&v, a, hi);
        assert(lines.take(i as int).last() == lines[i - 1]);
        assert(lines.take(i as int).drop_last() =~= lines.take(i - 1));
        assert(trim(v@.subrange(lo as int, hi as int)) == v@.subrange(a as int, b as int));
        if a < b {
            assert(lines[i - 1] == v@.subrange(lo as int, hi as int));
            assert(trim(lines.take(i as int).last()).len() > 0);
            assert(last_nonblank(lines.take(i as int)) == lines[i - 1]);
            return is_stats_range(&v, lo, hi);
        }
        i = i - 1;
    }
    assert(v@.subrange(0, 0) =~= Seq::<char>::empty());
    is_stats_range(&v, 0, 0)
}

} // verus!
