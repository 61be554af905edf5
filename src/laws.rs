//! Facts about the summary line and the laws that the engine obeys.
use vstd::prelude::*;

use crate::render::{decimal, digit, filled_segments, header_text, progress_bar, repeat};
use crate::stats::{
    ends_with_stats, first_line, is_mark, is_stats, last_nonblank, starts_with_stats, strip_marks,
};
use crate::upsert::{
    last_nl, replace_first, trim_end_newlines, upsert, upsert_first, upsert_last,
};
use crate::text::{
    contains, first_nl, is_ws, lemma_first_nl, lines_of, strip_cr, trim, trim_end, trim_start,
};

verus! {

/// `s` holds neither a line feed nor a carriage return.
pub open spec fn no_break(s: Seq<char>) -> bool {
    forall|i: int| 0 <= i < s.len() ==> #[trigger] s[i] != '\n' && s[i] != '\r'
}

/// `s` holds no emphasis character.
pub open spec fn no_marks(s: Seq<char>) -> bool {
    forall|i: int| 0 <= i < s.len() ==> !is_mark(#[trigger] s[i])
}

/// What the engine needs of a summary line: one line, not blank at either
/// end, recognised as a summary line.
pub open spec fn well_formed_header(h: Seq<char>) -> bool {
    &&& no_break(h)
    &&& h.len() > 0
    &&& !is_ws(h[0])
    &&& !is_ws(h.last())
    &&& is_stats(h)
}

proof fn lemma_no_break_concat(a: Seq<char>, b: Seq<char>)
    requires
        no_break(a),
        no_break(b),
    ensures
        no_break(a + b),
{
    assert forall|i: int| 0 <= i < (a + b).len() implies #[trigger] (a + b)[i] != '\n' && (a
        + b)[i] != '\r' by {
        if i < a.len() {
            assert((a + b)[i] == a[i]);
        } else {
            assert((a + b)[i] == b[i - a.len()]);
        }
    }
}

proof fn lemma_digit(d: nat)
    requires
        d < 10,
    ensures
        digit(d) != '\n' && digit(d) != '\r' && !is_mark(digit(d)),
{
    reveal_strlit("0123456789");
}

proof fn lemma_decimal_no_break(n: nat)
    ensures
        no_break(decimal(n)),
    decreases n,
{
    if n < 10 {
        lemma_digit(n);
    } else {
        lemma_decimal_no_break(n / 10);
        lemma_digit(n % 10);
        lemma_no_break_concat(decimal(n / 10), seq![digit(n % 10)]);
        assert(decimal(n) =~= decimal(n / 10) + seq![digit(n % 10)]);
    }
}

proof fn lemma_repeat_no_break(p: Seq<char>, n: nat)
    requires
        no_break(p),
    ensures
        no_break(repeat(p, n)),
    decreases n,
{
    if n > 0 {
        lemma_repeat_no_break(p, (n - 1) as nat);
        lemma_no_break_concat(repeat(p, (n - 1) as nat), p);
    }
}

proof fn lemma_strip_concat(a: Seq<char>, b: Seq<char>)
    ensures
        strip_marks(a + b) == strip_marks(a) + strip_marks(b),
    decreases b.len(),
{
    if b.len() == 0 {
        assert(a + b =~= a);
        assert(strip_marks(a) + strip_marks(b) =~= strip_marks(a));
    } else {
        lemma_strip_concat(a, b.drop_last());
        assert((a + b).drop_last() =~= a + b.drop_last());
        assert((a + b).last() == b.last());
        if is_mark(b.last()) {
        } else {
            assert(strip_marks(a) + strip_marks(b) =~= (strip_marks(a) + strip_marks(
                b.drop_last(),
            )).push(b.last()));
        }
    }
}

proof fn lemma_strip_no_marks(s: Seq<char>)
    requires
        no_marks(s),
    ensures
        strip_marks(s) == s,
    decreases s.len(),
{
    if s.len() > 0 {
        lemma_strip_no_marks(s.drop_last());
        assert(s.drop_last().push(s.last()) =~= s);
    }
}

/// A rendered summary line is a single line, starts and ends with `*`,
/// and is recognised as a summary line.
pub proof fn lemma_header_well_formed(done: nat, todo: nat, total: nat)
    ensures
        well_formed_header(header_text(done, todo, total)),
        header_text(done, todo, total)[0] == '*',
        header_text(done, todo, total).last() == '*',
{
    reveal_strlit("**");
    reveal_strlit("[");
    reveal_strlit("]");
    reveal_strlit("█");
    reveal_strlit("░");
    reveal_strlit(" ⚡ 今日进度 ");
    reveal_strlit("/");
    reveal_strlit(" | ⏳ 未完成 <u>");
    reveal_strlit("</u> | ✅ 已完成 ");
    reveal_strlit(" · _By Seedling_ 🌱**");
    reveal_strlit("今日进度");
    let f = filled_segments(done, total);
    let bar = progress_bar(done, total);
    lemma_repeat_no_break("█"@, f);
    lemma_repeat_no_break("░"@, (10 - f) as nat);
    lemma_no_break_concat("["@, repeat("█"@, f));
    lemma_no_break_concat("["@ + repeat("█"@, f), repeat("░"@, (10 - f) as nat));
    lemma_no_break_concat("["@ + repeat("█"@, f) + repeat("░"@, (10 - f) as nat), "]"@);
    lemma_decimal_no_break(done);
    lemma_decimal_no_break(todo);
    lemma_decimal_no_break(total);
    let a = "**"@ + bar;
    let l = " ⚡ 今日进度 "@;
    let rest = decimal(done) + "/"@ + decimal(total) + " | ⏳ 未完成 <u>"@ + decimal(todo)
        + "</u> | ✅ 已完成 "@ + decimal(done) + " · _By Seedling_ 🌱**"@;
    let h = header_text(done, todo, total);
    assert(h =~= (a + l) + rest);
    lemma_no_break_concat("**"@, bar);
    lemma_no_break_concat(a, l);
    lemma_no_break_concat(decimal(done), "/"@);
    lemma_no_break_concat(decimal(done) + "/"@, decimal(total));
    lemma_no_break_concat(decimal(done) + "/"@ + decimal(total), " | ⏳ 未完成 <u>"@);
    lemma_no_break_concat(
        decimal(done) + "/"@ + decimal(total) + " | ⏳ 未完成 <u>"@,
        decimal(todo),
    );
    lemma_no_break_concat(
        decimal(done) + "/"@ + decimal(total) + " | ⏳ 未完成 <u>"@ + decimal(todo),
        "</u> | ✅ 已完成 "@,
    );
    lemma_no_break_concat(
        decimal(done) + "/"@ + decimal(total) + " | ⏳ 未完成 <u>"@ + decimal(todo)
            + "</u> | ✅ 已完成 "@,
        decimal(done),
    );
    lemma_no_break_concat(
        decimal(done) + "/"@ + decimal(total) + " | ⏳ 未完成 <u>"@ + decimal(todo)
            + "</u> | ✅ 已完成 "@ + decimal(done),
        " · _By Seedling_ 🌱**"@,
    );
    lemma_no_break_concat(a + l, rest);
    assert(h[0] == '*');
    assert(h.last() == '*');
    assert(trim_start(h) == h);
    assert(trim_end(h) == h);
    assert(no_marks(l));
    lemma_strip_no_marks(l);
    lemma_strip_concat(a + l, rest);
    lemma_strip_concat(a, l);
    let sa = strip_marks(a);
    let t = strip_marks(h);
    assert(t == sa + l + strip_marks(rest));
    let i: int = sa.len() + 3int;
    assert(t.subrange(i, i + 4) =~= "今日进度"@);
    assert(t.subrange(i, i + "今日进度"@.len()) == "今日进度"@);
    assert(contains(t, "今日进度"@));
}

/// A bar for `done == total > 0` is all solid; one for `done == 0` is all light.
pub proof fn lemma_bar_extremes(total: nat)
    requires
        total > 0,
    ensures
        filled_segments(total, total) == 10,
        filled_segments(0, total) == 0,
{
    assert((20 * total + total) / (2 * total) == 10) by (nonlinear_arith)
        requires
            total > 0,
    {
        assert(20 * total + total == 10 * (2 * total) + total);
    }
    assert(total / (2 * total) == 0) by (nonlinear_arith)
        requires
            total > 0,
    ;
}

proof fn lemma_first_nl_props(s: Seq<char>)
    ensures
        first_nl(s) <= s.len(),
        forall|j: int| 0 <= j < first_nl(s) ==> s[j] != '\n',
        first_nl(s) < s.len() ==> s[first_nl(s) as int] == '\n',
    decreases s.len(),
{
    if s.len() > 0 && s[0] != '\n' {
        let t = s.drop_first();
        lemma_first_nl_props(t);
        assert forall|j: int| 0 <= j < first_nl(s) implies s[j] != '\n' by {
            if j > 0 {
                assert(s[j] == t[j - 1]);
            }
        }
    }
}

/// A nonempty line without line feed is the only line of itself.
proof fn lemma_lines_single(h: Seq<char>)
    requires
        no_break(h),
        h.len() > 0,
    ensures
        lines_of(h) == seq![h],
{
    lemma_first_nl(h, h.len() as int);
}

/// Text that ends in a line feed and then `h` has `h` as its last line.
proof fn lemma_lines_last(p: Seq<char>, h: Seq<char>)
    requires
        no_break(h),
        h.len() > 0,
    ensures
        lines_of(p + seq!['\n'] + h).len() > 0,
        lines_of(p + seq!['\n'] + h).last() == h,
    decreases p.len(),
{
    let s = p + seq!['\n'] + h;
    lemma_first_nl_props(s);
    assert(s[p.len() as int] == '\n');
    let k: int = first_nl(s) as int;
    if k < p.len() {
        assert(s.skip(k + 1) =~= p.skip(k + 1) + seq!['\n'] + h);
        lemma_lines_last(p.skip(k + 1), h);
    } else {
        assert(s.skip(k + 1) =~= h);
        lemma_lines_single(h);
    }
}

proof fn lemma_trim_header(h: Seq<char>)
    requires
        h.len() > 0,
        !is_ws(h[0]),
        !is_ws(h.last()),
    ensures
        trim(h) == h,
{
}

/// After the bottom pass the last non-blank line is the summary line.
proof fn lemma_upsert_last_line(x: Seq<char>, h: Seq<char>, nl: Seq<char>)
    requires
        well_formed_header(h),
        nl == "\n"@ || nl == "\r\n"@,
    ensures
        last_nonblank(lines_of(upsert_last(x, h, nl))) == h,
{
    reveal_strlit("\n");
    reveal_strlit("\r\n");
    lemma_trim_header(h);
    let y = upsert_last(x, h, nl);
    if y == h {
        lemma_lines_single(h);
        assert(seq![h].drop_last() =~= Seq::<Seq<char>>::empty());
    } else {
        let q = y.take(y.len() - h.len() - 1);
        assert(y.len() >= h.len() + 1);
        assert(y =~= q + seq!['\n'] + h);
        lemma_lines_last(q, h);
    }
}

proof fn lemma_trim_end_newlines(s: Seq<char>)
    ensures
        trim_end_newlines(s).len() <= s.len(),
        trim_end_newlines(s) == s.take(trim_end_newlines(s).len() as int),
        forall|j: int|
            trim_end_newlines(s).len() <= j < s.len() ==> s[j] == '\r' || s[j] == '\n',
        trim_end_newlines(s).len() > 0 ==> trim_end_newlines(s).last() != '\r'
            && trim_end_newlines(s).last() != '\n',
    decreases s.len(),
{
    if s.len() > 0 && (s.last() == '\r' || s.last() == '\n') {
        let t = s.drop_last();
        lemma_trim_end_newlines(t);
        assert forall|j: int|
            trim_end_newlines(s).len() <= j < s.len() implies s[j] == '\r' || s[j] == '\n' by {
            if j < s.len() - 1 {
                assert(s[j] == t[j]);
            }
        }
        assert(t.take(trim_end_newlines(t).len() as int) =~= s.take(
            trim_end_newlines(t).len() as int,
        ));
    } else {
        assert(s.take(s.len() as int) =~= s);
    }
}

proof fn lemma_last_nl(s: Seq<char>)
    ensures
        -1 <= last_nl(s) < s.len(),
        last_nl(s) >= 0 ==> s[last_nl(s)] == '\n',
        forall|j: int| last_nl(s) < j < s.len() ==> s[j] != '\n',
    decreases s.len(),
{
    if s.len() > 0 && s.last() != '\n' {
        let t = s.drop_last();
        lemma_last_nl(t);
        assert forall|j: int| last_nl(s) < j < s.len() implies s[j] != '\n' by {
            if j < s.len() - 1 {
                assert(s[j] == t[j]);
            }
        }
    }
}

/// The first line of text that continues with a line feed after `p`.
proof fn lemma_first_line(p: Seq<char>, r: Seq<char>)
    requires
        forall|j: int| 0 <= j < p.len() ==> p[j] != '\n',
    ensures
        first_line(p + seq!['\n'] + r) == strip_cr(p),
{
    let y = p + seq!['\n'] + r;
    lemma_first_nl(y, p.len() as int);
    assert(y.take(p.len() as int) =~= p);
}

/// Text that starts with `h` and then `nl` has `h` as its first line.
proof fn lemma_first_line_led(y: Seq<char>, h: Seq<char>, nl: Seq<char>)
    requires
        well_formed_header(h),
        nl == "\n"@ || nl == "\r\n"@,
        y.len() >= h.len() + nl.len(),
        y.take(h.len() + nl.len() as int) == h + nl,
    ensures
        first_line(y) == h,
{
    reveal_strlit("\n");
    reveal_strlit("\r\n");
    let n = h.len() + nl.len();
    let p = h + nl.drop_last();
    assert forall|j: int| 0 <= j < h.len() implies h[j] != '\n' by {
        assert(h[j] != '\n' && h[j] != '\r');
    }
    let z = p + seq!['\n'] + y.skip(n as int);
    assert forall|j: int| 0 <= j < y.len() implies y[j] == z[j] by {
        if j < n {
            assert(y[j] == y.take(n as int)[j]);
            assert(y.take(n as int)[j] == (h + nl)[j]);
        }
    }
    assert(y =~= z);
    lemma_first_line(p, y.skip(n as int));
    if nl == "\r\n"@ {
        assert(p.drop_last() =~= h);
    } else {
        assert(p =~= h);
        assert(h.last() != '\r');
    }
}

/// A carriage return and a line feed stand at `i` in `x`.
pub open spec fn crlf_at(x: Seq<char>, i: int) -> bool {
    0 <= i && i + 1 < x.len() && x[i] == '\r' && x[i + 1] == '\n'
}

/// Text led by `h` and then `nl`.
pub open spec fn led_by(y: Seq<char>, h: Seq<char>, nl: Seq<char>) -> bool {
    y.len() >= h.len() + nl.len() && y.take(h.len() + nl.len() as int) == h + nl
}

/// Text that ends in `nl` and then `h`.
pub open spec fn closed_by(y: Seq<char>, h: Seq<char>, nl: Seq<char>) -> bool {
    y.len() >= h.len() + nl.len() && y.skip(y.len() - h.len() - nl.len()) == nl + h
}

/// The bottom pass on text that is `h`, or is led by `h` and `nl`, gives
/// text of the same kind; with `"\n"` it leaves a carriage return before its
/// final line feed only where `x` holds a `"\r\n"` after `h` and `nl`.
proof fn lemma_bottom_led(x: Seq<char>, h: Seq<char>, nl: Seq<char>)
    requires
        well_formed_header(h),
        nl == "\n"@ || nl == "\r\n"@,
        x == h || led_by(x, h, nl),
    ensures
        upsert_last(x, h, nl) == h || led_by(upsert_last(x, h, nl), h, nl),
        upsert_last(x, h, nl) == h || closed_by(upsert_last(x, h, nl), h, nl),
        ({
            let y = upsert_last(x, h, nl);
            (nl == "\n"@ && y != h && y.len() >= h.len() + 2 && y[y.len() - h.len() - 2]
                == '\r') ==> exists|i: int| h.len() + nl.len() <= i && #[trigger] crlf_at(x, i)
        }),
{
    reveal_strlit("\n");
    reveal_strlit("\r\n");
    let y = upsert_last(x, h, nl);
    let b = trim_end_newlines(x);
    let n = h.len() + nl.len();
    lemma_trim_end_newlines(x);
    lemma_last_nl(b);
    assert forall|j: int| 0 <= j < h.len() implies x[j] == h[j] by {
        if x != h {
            assert(x.take(n as int)[j] == (h + nl)[j]);
        }
    }
    assert(h[h.len() - 1] != '\n' && h[h.len() - 1] != '\r');
    assert(b.len() >= h.len()) by {
        if b.len() < h.len() {
            assert(x[h.len() - 1] == h.last());
        }
    }
    assert forall|j: int| 0 <= j < h.len() implies b[j] != '\n' && b[j] != '\r' by {
        assert(b[j] == x[j]);
        assert(h[j] != '\n' && h[j] != '\r');
    }
    if x != h {
        assert(x[h.len() as int] == x.take(n as int)[h.len() as int]);
        assert(x[n - 1] == x.take(n as int)[n - 1]);
    }
    if y != h {
        assert(y.skip(y.len() - h.len() - nl.len()) =~= nl + h);
    }
    if y == h {
    } else if ends_with_stats(b) {
        let l = last_nl(b);
        assert(l >= h.len());
        let t = b.take(l);
        let st = strip_cr(t);
        assert(y == st + nl + h);
        if l >= n {
            assert(b[n - 1] == '\n');
            if t.last() == '\r' {
                assert(l > n);
                assert(st =~= b.take(l - 1));
            } else {
                assert(st == t);
            }
            assert(y.take(n as int) =~= x.take(n as int));
            if nl == "\n"@ && st.last() == '\r' {
                assert(t.last() == '\r');
                assert(x[l - 1] == '\r' && x[l] == '\n');
                assert(crlf_at(x, l - 1));
            }
        } else {
            if nl == "\r\n"@ {
                assert(l == h.len() + 1);
            } else {
                assert(l == h.len());
            }
            assert(t =~= h + nl.drop_last());
            assert(st =~= h);
            assert(y.take(n as int) =~= h + nl);
        }
    } else {
        if b.len() >= n {
            assert(y.take(n as int) =~= x.take(n as int));
        } else if b.len() == h.len() {
            assert(b =~= h);
            assert(y.take(n as int) =~= h + nl);
        } else {
            assert(b.last() == x[h.len() as int]);
        }
    }
}

/// Text that is `h`, or is led by `h` and `nl`, has `h` as its first line.
proof fn lemma_first_line_is_header(y: Seq<char>, h: Seq<char>, nl: Seq<char>)
    requires
        well_formed_header(h),
        nl == "\n"@ || nl == "\r\n"@,
        y == h || led_by(y, h, nl),
    ensures
        first_line(y) == h,
{
    if y == h {
        lemma_lines_single(h);
    } else {
        lemma_first_line_led(y, h, nl);
    }
}

/// The top pass on any document gives `h`, or text led by `h` and `nl`.
proof fn lemma_top_led(c: Seq<char>, h: Seq<char>, nl: Seq<char>)
    ensures
        upsert_first(c, h, nl) == h || led_by(upsert_first(c, h, nl), h, nl),
{
    let x = upsert_first(c, h, nl);
    let n = h.len() + nl.len();
    if starts_with_stats(c) && first_nl(c) >= c.len() {
        assert(x == h);
    } else if starts_with_stats(c) {
        assert(x == h + nl + c.skip(first_nl(c) + 1 as int));
        assert(x.take(n as int) =~= h + nl);
    } else {
        assert(x.take(n as int) =~= h + nl);
    }
}

/// Whatever the document, once the summary line for some counts has been
/// upserted, the first line is exactly that summary line.
pub proof fn lemma_upsert_starts_with_header(
    c: Seq<char>,
    done: nat,
    todo: nat,
    total: nat,
    nl: Seq<char>,
)
    requires
        nl == "\n"@ || nl == "\r\n"@,
    ensures
        first_line(upsert(c, header_text(done, todo, total), nl)) == header_text(
            done,
            todo,
            total,
        ),
        starts_with_stats(upsert(c, header_text(done, todo, total), nl)),
{
    lemma_header_well_formed(done, todo, total);
    let h = header_text(done, todo, total);
    let x = upsert_first(c, h, nl);
    lemma_top_led(c, h, nl);
    lemma_bottom_led(x, h, nl);
    lemma_first_line_is_header(upsert(c, h, nl), h, nl);
}

/// The top pass leaves `h`, or text led by `h` and `nl`, as it is.
proof fn lemma_top_fixed(y: Seq<char>, h: Seq<char>, nl: Seq<char>)
    requires
        well_formed_header(h),
        nl == "\n"@ || nl == "\r\n"@,
        y == h || led_by(y, h, nl),
    ensures
        upsert_first(y, h, nl) == y,
{
    reveal_strlit("\n");
    reveal_strlit("\r\n");
    let n = h.len() + nl.len();
    assert forall|j: int| 0 <= j < h.len() implies h[j] != '\n' && h[j] != '\r' by {
        assert(no_break(h));
    }
    lemma_trim_header(h);
    lemma_first_line_is_header(y, h, nl);
    if y == h {
        lemma_first_nl(h, h.len() as int);
    } else {
        assert forall|j: int| 0 <= j < n - 1 implies y[j] != '\n' by {
            assert(y[j] == y.take(n as int)[j]);
        }
        assert(y[n - 1] == y.take(n as int)[n - 1]);
        lemma_first_nl(y, n - 1);
        assert(replace_first(y, h, nl) =~= y);
    }
}

/// The bottom pass leaves `h`, or text closed by `nl` and `h` whose last
/// non-blank line is `h`, as it is, where with `"\n"` no carriage return
/// stands before the final line feed.
proof fn lemma_bottom_fixed(y: Seq<char>, h: Seq<char>, nl: Seq<char>)
    requires
        well_formed_header(h),
        nl == "\n"@ || nl == "\r\n"@,
        last_nonblank(lines_of(y)) == h,
        y == h || closed_by(y, h, nl),
        nl == "\n"@ && y != h && y.len() >= h.len() + 2 ==> y[y.len() - h.len() - 2] != '\r',
    ensures
        upsert_last(y, h, nl) == y,
{
    reveal_strlit("\n");
    reveal_strlit("\r\n");
    assert(h[h.len() - 1] != '\n' && h[h.len() - 1] != '\r');
    let m = y.len() - h.len() - nl.len();
    assert(y.last() == h.last()) by {
        if y != h {
            assert(y.last() == y.skip(m)[nl.len() + h.len() - 1]);
        }
    }
    assert(trim_end_newlines(y) == y);
    lemma_last_nl(y);
    if y == h {
        assert forall|j: int| 0 <= j < h.len() implies h[j] != '\n' by {
            assert(h[j] != '\n' && h[j] != '\r');
        }
    } else {
        let q = y.len() - h.len() - 1;
        assert(y[q] == y.skip(m)[nl.len() - 1]);
        assert forall|j: int| q < j < y.len() implies y[j] != '\n' by {
            assert(y[j] == y.skip(m)[j - m]);
            assert(h[j - q - 1] != '\n' && h[j - q - 1] != '\r');
        }
        assert(last_nl(y) == q);
        assert(y =~= y.take(m) + y.skip(m));
        assert(y.take(m) + y.skip(m) == y.take(m) + nl + h);
        if nl == "\r\n"@ {
            assert(y[q - 1] == y.skip(m)[0]);
            assert(strip_cr(y.take(q)) =~= y.take(m));
        } else {
            assert(q == m);
            if q > 0 {
                assert(y[q - 1] != '\r');
            }
            assert(strip_cr(y.take(q)) == y.take(q));
        }
    }
}

/// Whatever the document, once the summary line for some counts has been
/// upserted, the last non-blank line is exactly that summary line.
pub proof fn lemma_upsert_ends_with_header(
    c: Seq<char>,
    done: nat,
    todo: nat,
    total: nat,
    nl: Seq<char>,
)
    requires
        nl == "\n"@ || nl == "\r\n"@,
    ensures
        last_nonblank(lines_of(upsert(c, header_text(done, todo, total), nl))) == header_text(
            done,
            todo,
            total,
        ),
        ends_with_stats(upsert(c, header_text(done, todo, total), nl)),
{
    lemma_header_well_formed(done, todo, total);
    let h = header_text(done, todo, total);
    lemma_upsert_last_line(upsert_first(c, h, nl), h, nl);
}

/// Upserting the same summary line a second time changes nothing, where the
/// line ending is the document's own: `"\r\n"`, or `"\n"` for a document
/// without `"\r\n"`.
pub proof fn lemma_upsert_idempotent(
    c: Seq<char>,
    done: nat,
    todo: nat,
    total: nat,
    nl: Seq<char>,
)
    requires
        nl == "\r\n"@ || (nl == "\n"@ && !contains(c, "\r\n"@)),
    ensures
        upsert(upsert(c, header_text(done, todo, total), nl), header_text(done, todo, total), nl)
            == upsert(c, header_text(done, todo, total), nl),
{
    reveal_strlit("\n");
    reveal_strlit("\r\n");
    lemma_header_well_formed(done, todo, total);
    let h = header_text(done, todo, total);
    let x = upsert_first(c, h, nl);
    let y = upsert(c, h, nl);
    let n = h.len() + nl.len();
    lemma_top_led(c, h, nl);
    lemma_bottom_led(x, h, nl);
    lemma_upsert_last_line(x, h, nl);
    if nl == "\n"@ && y != h && y.len() >= h.len() + 2 && y[y.len() - h.len() - 2] == '\r' {
        let i = choose|i: int| n <= i && #[trigger] crlf_at(x, i);
        let k: int = if starts_with_stats(c) {
            first_nl(c) + 1int
        } else {
            0
        };
        assert(x =~= h + nl + c.skip(k));
        let j = i - n + k;
        assert(c.subrange(j, j + "\r\n"@.len()) =~= "\r\n"@);
        assert(false);
    }
    lemma_top_fixed(y, h, nl);
    lemma_bottom_fixed(y, h, nl);
}

} // verus!
