//! One document from text to updated text, and which files are documents.
use vstd::prelude::*;

use crate::render::{format_header_line, header_text};
use crate::tasks::{count_done, count_tasks, count_todo};
use crate::text::{chars_of, lines_of};
use crate::upsert::{detect_line_ending, line_ending_of, newline_of, upsert, upsert_header};

verus! {

pub open spec fn is_bom(c: char) -> bool {
    c == '\u{feff}'
}

/// `s` without its byte-order mark, when it starts with one.
pub open spec fn strip_bom(s: Seq<char>) -> Seq<char> {
    if s.len() > 0 && is_bom(s[0]) {
        s.drop_first()
    } else {
        s
    }
}

/// What a document becomes: `None` when its body (byte-order mark left
/// out) has no task bullet; otherwise the body with the summary line for
/// its counts upserted at top and bottom in its own line ending, behind one
/// byte-order mark when the document started with one.
pub open spec fn updated_document(c: Seq<char>) -> Option<Seq<char>> {
    let body = strip_bom(c);
    let done = count_done(lines_of(body));
    let todo = count_todo(lines_of(body));
    if done + todo == 0 {
        None
    } else {
        let out = upsert(
            body,
            header_text(done, todo, done + todo),
            newline_of(line_ending_of(body)),
        );
        Some(
            if c.len() > 0 && is_bom(c[0]) {
                seq!['\u{feff}'] + out
            } else {
                out
            },
        )
    }
}

/// The new text of a document, or `None` when it has no task and is to be
/// left as it is.
pub fn update_document(content: &str) -> (r: Option<String>)
    ensures
        r is None <==> count_done(lines_of(strip_bom(content@))) + count_todo(
            lines_of(strip_bom(content@)),
        ) == 0,
        r is None ==> updated_document(content@) is None,
        r is Some ==> updated_document(content@) == Some(r->0@),
{
    let v = chars_of(content);
    let k: usize = if v.len() > 0 && v[0] == '\u{feff}' {
        1
    } else {
        0
    };
    let body = content.substring_char(k, v.len());
    assert(body@ =~= strip_bom(content@));
    let (done, todo, total) = count_tasks(body);
    if total == 0 {
        return None;
    }
    let header = format_header_line(done, todo, total);
    let ending = detect_line_ending(body);
    let out = upsert_header(body, header.as_str(), ending.as_str());
    if k > 0 {
        let mut s = String::from_str("\u{feff}");
        s.append(out.as_str());
        proof {
            reveal_strlit("\u{feff}");
        }
        assert(s@ =~= seq!['\u{feff}'] + out@);
        Some(s)
    } else {
        Some(out)
    }
}

/// `ext` equals `"md"` up to ASCII case.
pub open spec fn is_md_ext(ext: Seq<char>) -> bool {
    ext.len() == 2 && (ext[0] == 'm' || ext[0] == 'M') && (ext[1] == 'd' || ext[1] == 'D')
}

/// Whether a file extension marks a Markdown document (`md`, any ASCII case).
pub fn is_md_extension(ext: &str) -> (r: bool)
    ensures
        r == is_md_ext(ext@),
{
    let v = chars_of(ext);
    v.len() == 2 && (v[0] == 'm' || v[0] == 'M') && (v[1] == 'd' || v[1] == 'D')
}

} // verus!
