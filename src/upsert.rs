//! Inserting or replacing the summary line at the top and bottom of a document.
use vstd::prelude::*;

use crate::stats::{ends_with_stats, ends_with_stats_header, starts_with_stats, starts_with_stats_header};
use crate::text::{chars_of, contains, find_newline, first_nl, strip_cr, vec_contains};

verus! {

/// Line terminator convention of a document.
#[derive(Clone, Copy, Debug, PartialEq, Eq, Structural)]
pub enum LineEnding {
    CRLF,
    LF,
}

/// The terminator text of `e`.
pub open spec fn newline_of(e: LineEnding) -> Seq<char> {
    match e {
        LineEnding::CRLF => "\r\n"@,
        LineEnding::LF => "\n"@,
    }
}

impl LineEnding {
    /// The terminator text: `"\r\n"` or `"\n"`.
    pub fn as_str(&self) -> (r: &'static str)
        ensures
            r@ == newline_of(*self),
    {
        match self {
            LineEnding::CRLF => "\r\n",
            LineEnding::LF => "\n",
        }
    }
}

/// `CRLF` when `s` holds a carriage return followed by a line feed.
pub open spec fn line_ending_of(s: Seq<char>) -> LineEnding {
    if contains(s, "\r\n"@) {
        LineEnding::CRLF
    } else {
        LineEnding::LF
    }
}

/// `CRLF` when `s` holds `"\r\n"` anywhere, else `LF`.
pub fn detect_line_ending(s: &str) -> (r: LineEnding)
    ensures
        r == line_ending_of(s@),
{
    let v = chars_of(s);
    let crlf = chars_of("\r\n");
    if vec_contains(&v, &crlf) {
        LineEnding::CRLF
    } else {
        LineEnding::LF
    }
}

/// `c` with its first line, terminator included, replaced by `h` and `nl`;
/// just `h` when `c` has no line feed.
pub open spec fn replace_first(c: Seq<char>, h: Seq<char>, nl: Seq<char>) -> Seq<char> {
    if first_nl(c) < c.len() {
        h + nl + c.skip(first_nl(c) + 1 as int)
    } else {
        h
    }
}

/// The top pass: replace a summary first line, or put `h` and `nl` before `c`.
pub open spec fn upsert_first(c: Seq<char>, h: Seq<char>, nl: Seq<char>) -> Seq<char> {
    if starts_with_stats(c) {
        replace_first(c, h, nl)
    } else {
        h + nl + c
    }
}

/// `s` without its trailing carriage returns and line feeds.
pub open spec fn trim_end_newlines(s: Seq<char>) -> Seq<char>
    decreases s.len(),
{
    if s.len() > 0 && (s.last() == '\r' || s.last() == '\n') {
        trim_end_newlines(s.drop_last())
    } else {
        s
    }
}

/// Index of the last line feed of `s`, or -1.
pub open spec fn last_nl(s: Seq<char>) -> int
    decreases s.len(),
{
    if s.len() == 0 {
        -1
    } else if s.last() == '\n' {
        s.len() - 1
    } else {
        last_nl(s.drop_last())
    }
}

/// The bottom pass: with trailing line breaks trimmed, replace a summary
/// last line (everything after the last line feed, and the carriage return
/// of a `"\r\n"` before it), or append `nl` and `h`.
pub open spec fn upsert_last(c: Seq<char>, h: Seq<char>, nl: Seq<char>) -> Seq<char> {
    let b = trim_end_newlines(c);
    if ends_with_stats(b) {
        if last_nl(b) >= 0 {
            strip_cr(b.take(last_nl(b))) + nl + h
        } else {
            h
        }
    } else {
        b + nl + h
    }
}

/// Both passes, top first.
pub open spec fn upsert(c: Seq<char>, h: Seq<char>, nl: Seq<char>) -> Seq<char> {
    upsert_last(upsert_first(c, h, nl), h, nl)
}

/// Replaces the first line of `content`, up to and including its line feed,
/// by `header` and `newline`; a text without a line feed becomes `header`.
pub fn replace_first_line(content: &str, header: &str, newline: &str) -> (r: String)
    ensures
        r@ == replace_first(content@, header@, newline@),
{
    let v = chars_of(content);
    let q = find_newline(&v, 0);
    assert(v@.skip(0) =~= v@);
    if q < v.len() {
        let mut s = String::from_str(header);
        s.append(newline);
        s.append(content.substring_char(q + 1, v.len()));
        assert(content@.subrange(q + 1, v.len() as int) =~= content@.skip(q + 1));
        s
    } else {
        String::from_str(header)
    }
}

/// Ensures `header` is the last line of `content`: trailing line breaks are
/// trimmed, then a summary last line is replaced together with the line
/// terminator before it, or `newline` and `header` are appended.
pub fn upsert_last_line(content: &str, header: &str, newline: &str) -> (r: String)
    ensures
        r@ == upsert_last(content@, header@, newline@),
{
    let v = chars_of(content);
    let mut e = v.len();
    assert(v@.subrange(0, e as int) =~= v@);
    while e > 0 && (v[e - 1] == '\r' || v[e - 1] == '\n')
        invariant
            e <= v.len(),
            trim_end_newlines(v@.subrange(0, e as int)) == trim_end_newlines(v@),
        decreases e,
    {
        assert(v@.subrange(0, e as int).drop_last() =~= v@.subrange(0, e - 1));
        e = e - 1;
    }
    let ghost b = v@.subrange(0, e as int);
    assert(trim_end_newlines(b) == b);
    let base = content.substring_char(0, e);
    if ends_with_stats_header(base) {
        let mut k = e;
        while k > 0 && v[k - 1] != '\n'
            invariant
                k <= e <= v.len(),
                b == v@.subrange(0, e as int),
                last_nl(b) == last_nl(v@.subrange(0, k as int)),
            decreases k,
        {
            assert(v@.subrange(0, k as int).drop_last() =~= v@.subrange(0, k - 1));
            k = k - 1;
        }
        if k > 0 {
            assert(last_nl(b) == k - 1);
            let cut = if k > 1 && v[k - 2] == '\r' {
                k - 2
            } else {
                k - 1
            };
            let mut s = String::from_str(content.substring_char(0, cut));
            s.append(newline);
            s.append(header);
            assert(strip_cr(b.take(k - 1)) =~= v@.subrange(0, cut as int));
            s
        } else {
            assert(last_nl(v@.subrange(0, 0)) == -1);
            String::from_str(header)
        }
    } else {
        let mut s = String::from_str(base);
        s.append(newline);
        s.append(header);
        s
    }
}

/// Both passes: `header` becomes the first and the last line of `content`.
pub fn upsert_header(content: &str, header: &str, newline: &str) -> (r: String)
    ensures
        r@ == upsert(content@, header@, newline@),
{
    let top = if starts_with_stats_header(content) {
        replace_first_line(content, header, newline)
    } else {
        let mut s = String::from_str(header);
        s.append(newline);
        s.append(content);
        s
    };
    upsert_last_line(top.as_str(), header, newline)
}

} // verus!
