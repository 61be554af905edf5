//! Character-level models of the text operations the engine relies on.
use vstd::prelude::*;
use vstd::std_specs::iter::IteratorSpec;

verus! {

/// Collects the characters of `s` into a vector.
pub fn chars_of(s: &str) -> (r: Vec<char>)
    ensures
        r@ == s@,
{
    let mut r: Vec<char> = Vec::new();
    let mut it = s.chars();
    let ghost total = s@;
    loop
        invariant
            r@ + it.remaining() == total,
            it.obeys_prophetic_iter_laws(),
            it.decrease() is Some,
        ensures
            r@ == total,
        decreases it.decrease()->0,
    {
        match it.next() {
            Some(c) => {
                r.push(c);
            },
            None => {
                assert(r@ + it.remaining() =~= r@);
                break;
            },
        }
    }
    r
}


/// Unicode `White_Space`, the set that `str::trim` removes.
pub open spec fn is_ws(c: char) -> bool {
    let u = c as u32;
    (9 <= u && u <= 13) || u == 32 || u == 0x85 || u == 0xA0 || u == 0x1680 || (0x2000 <= u
        && u <= 0x200A) || u == 0x2028 || u == 0x2029 || u == 0x202F || u == 0x205F || u == 0x3000
}

/// Whether `c` is Unicode whitespace.
pub fn is_whitespace_char(c: char) -> (r: bool)
    ensures
        r == is_ws(c),
{
    let u = c as u32;
    (9 <= u && u <= 13) || u == 32 || u == 0x85 || u == 0xA0 || u == 0x1680 || (0x2000 <= u
        && u <= 0x200A) || u == 0x2028 || u == 0x2029 || u == 0x202F || u == 0x205F || u == 0x3000
}

/// `s` without its leading whitespace.
pub open spec fn trim_start(s: Seq<char>) -> Seq<char>
    decreases s.len(),
{
    if s.len() > 0 && is_ws(s[0]) {
        trim_start(s.drop_first())
    } else {
        s
    }
}

/// `s` without its trailing whitespace.
pub open spec fn trim_end(s: Seq<char>) -> Seq<char>
    decreases s.len(),
{
    if s.len() > 0 && is_ws(s.last()) {
        trim_end(s.drop_last())
    } else {
        s
    }
}

/// `s` without whitespace at either end.
pub open spec fn trim(s: Seq<char>) -> Seq<char> {
    trim_end(trim_start(s))
}

/// Index of the first `'\n'` in `s`, or `s.len()` when there is none.
pub open spec fn first_nl(s: Seq<char>) -> nat
    decreases s.len(),
{
    if s.len() == 0 || s[0] == '\n' {
        0
    } else {
        1 + first_nl(s.drop_first())
    }
}

/// Drops one carriage return that ends a line terminated by `"\r\n"`.
pub open spec fn strip_cr(s: Seq<char>) -> Seq<char> {
    if s.len() > 0 && s.last() == '\r' {
        s.drop_last()
    } else {
        s
    }
}

/// The lines of `s`: split at `"\n"` or `"\r\n"`, where a final terminator
/// starts no further line and an empty text has no lines.
pub open spec fn lines_of(s: Seq<char>) -> Seq<Seq<char>>
    decreases s.len(),
{
    if s.len() == 0 {
        seq![]
    } else if first_nl(s) < s.len() {
        seq![strip_cr(s.take(first_nl(s) as int))] + lines_of(s.skip(first_nl(s) + 1 as int))
    } else {
        seq![s]
    }
}

/// The first line feed of `s` stands at `k` (or there is none and `k` is the length).
pub proof fn lemma_first_nl(s: Seq<char>, k: int)
    requires
        0 <= k <= s.len(),
        forall|j: int| 0 <= j < k ==> s[j] != '\n',
        k == s.len() || s[k] == '\n',
    ensures
        first_nl(s) == k,
    decreases k,
{
    if k > 0 {
        lemma_first_nl(s.drop_first(), k - 1);
    }
}

/// Returns the first index at or after `from` that holds `'\n'`, or `v.len()`.
pub fn find_newline(v: &Vec<char>, from: usize) -> (q: usize)
    requires
        from <= v.len(),
    ensures
        from <= q <= v.len(),
        q == from + first_nl(v@.skip(from as int)),
        forall|j: int| from <= j < q ==> v@[j] != '\n',
        q < v.len() ==> v@[q as int] == '\n',
{
    let mut q = from;
    while q < v.len() && v[q] != '\n'
        invariant
            from <= q <= v.len(),
            forall|j: int| from <= j < q ==> v@[j] != '\n',
        decreases v.len() - q,
    {
        q = q + 1;
    }
    proof {
        lemma_first_nl(v@.skip(from as int), q - from);
    }
    q
}

/// First index in `lo..hi` whose character is not whitespace, or `hi`.
pub fn skip_ws_forward(v: &Vec<char>, lo: usize, hi: usize) -> (a: usize)
    requires
        lo <= hi <= v.len(),
    ensures
        lo <= a <= hi,
        v@.subrange(a as int, hi as int) == trim_start(v@.subrange(lo as int, hi as int)),
{
    let mut a = lo;
    while a < hi && is_whitespace_char(v[a])
        invariant
            lo <= a <= hi <= v.len(),
            trim_start(v@.subrange(a as int, hi as int)) == trim_start(
                v@.subrange(lo as int, hi as int),
            ),
        decreases hi - a,
    {
        assert(v@.subrange(a as int, hi as int).drop_first() =~= v@.subrange(a + 1, hi as int));
        a = a + 1;
    }
    a
}

/// End of `lo..hi` once trailing whitespace is dropped.
pub fn skip_ws_backward(v: &Vec<char>, lo: usize, hi: usize) -> (b: usize)
    requires
        lo <= hi <= v.len(),
    ensures
        lo <= b <= hi,
        v@.subrange(lo as int, b as int) == trim_end(v@.subrange(lo as int, hi as int)),
{
    let mut b = hi;
    while b > lo && is_whitespace_char(v[b - 1])
        invariant
            lo <= b <= hi <= v.len(),
            trim_end(v@.subrange(lo as int, b as int)) == trim_end(
                v@.subrange(lo as int, hi as int),
            ),
        decreases b - lo,
    {
        assert(v@.subrange(lo as int, b as int).drop_last() =~= v@.subrange(lo as int, b - 1));
        b = b - 1;
    }
    b
}

/// `p` occurs in `s` at some position.
pub open spec fn contains(s: Seq<char>, p: Seq<char>) -> bool {
    exists|i: int| 0 <= i && i + p.len() <= s.len() && #[trigger] s.subrange(i, i + p.len()) == p
}

/// `p` is a prefix of `s`.
pub open spec fn starts_with(s: Seq<char>, p: Seq<char>) -> bool {
    p.len() <= s.len() && s.take(p.len() as int) == p
}

/// Whether `p` occurs in `s` at position `i`.
pub fn matches_at(s: &Vec<char>, i: usize, p: &Vec<char>) -> (r: bool)
    requires
        i + p.len() <= s.len(),
    ensures
        r == (s@.subrange(i as int, i + p.len()) == p@),
{
    let mut j: usize = 0;
    while j < p.len()
        invariant
            i + p.len() <= s.len(),
            j <= p.len(),
            forall|k: int| 0 <= k < j ==> s@[i + k] == p@[k],
        decreases p.len() - j,
    {
        if s[i + j] != p[j] {
            assert(s@.subrange(i as int, i + p.len())[j as int] != p@[j as int]);
            return false;
        }
        j = j + 1;
    }
    assert(s@.subrange(i as int, i + p.len()) =~= p@);
    true
}

/// Whether `p` occurs anywhere in `s`.
pub fn vec_contains(s: &Vec<char>, p: &Vec<char>) -> (r: bool)
    ensures
        r == contains(s@, p@),
{
    if p.len() > s.len() {
        return false;
    }
    let last = s.len() - p.len();
    let mut i: usize = 0;
    loop
        invariant
            last + p.len() == s.len(),
            i <= last,
            forall|k: int| 0 <= k < i ==> #[trigger] s@.subrange(k, k + p.len()) != p@,
        decreases last - i,
    {
        if matches_at(s, i, p) {
            return true;
        }
        if i == last {
            return false;
        }
        i = i + 1;
    }
}

/// Whether `p` is a prefix of `s`.
pub fn vec_starts_with(s: &Vec<char>, p: &Vec<char>) -> (r: bool)
    ensures
        r == starts_with(s@, p@),
{
    if p.len() > s.len() {
        return false;
    }
    assert(s@.take(p.len() as int) =~= s@.subrange(0, 0 + p.len()));
    matches_at(s, 0, p)
}

/// Each span of `spans` lies in `v` and covers the matching entry of `lines`.
pub open spec fn spans_match(v: Seq<char>, spans: Seq<(usize, usize)>, lines: Seq<Seq<char>>) -> bool {
    &&& spans.len() == lines.len()
    &&& forall|i: int|
        0 <= i < spans.len() ==> #[trigger] spans[i].0 <= spans[i].1 <= v.len() && v.subrange(
            spans[i].0 as int,
            spans[i].1 as int,
        ) == lines[i]
}

proof fn lemma_spans_push(
    v: Seq<char>,
    spans: Seq<(usize, usize)>,
    lines: Seq<Seq<char>>,
    lo: usize,
    hi: usize,
)
    requires
        spans_match(v, spans, lines),
        lo <= hi <= v.len(),
    ensures
        spans_match(v, spans.push((lo, hi)), lines.push(v.subrange(lo as int, hi as int))),
{
    let s2 = spans.push((lo, hi));
    let l2 = lines.push(v.subrange(lo as int, hi as int));
    assert forall|i: int| 0 <= i < s2.len() implies #[trigger] s2[i].0 <= s2[i].1 <= v.len()
        && v.subrange(s2[i].0 as int, s2[i].1 as int) == l2[i] by {
        if i < spans.len() {
            assert(s2[i] == spans[i]);
            assert(l2[i] == lines[i]);
        }
    }
}

/// Start and end of each line of `v`, in order, terminators excluded.
pub fn line_spans(v: &Vec<char>) -> (r: Vec<(usize, usize)>)
    ensures
        spans_match(v@, r@, lines_of(v@)),
        r.len() <= v.len(),
{
    let mut r: Vec<(usize, usize)> = Vec::new();
    let mut p: usize = 0;
    let ghost mut seen: Seq<Seq<char>> = seq![];
    assert(v@.skip(0) =~= v@);
    while p < v.len()
        invariant
            p <= v.len(),
            r.len() <= p,
            seen + lines_of(v@.skip(p as int)) == lines_of(v@),
            spans_match(v@, r@, seen),
        decreases v.len() - p,
    {
        let q = find_newline(v, p);
        let ghost rest = v@.skip(p as int);
        let end = if q < v.len() && q > p && v[q - 1] == '\r' {
            q - 1
        } else {
            q
        };
        proof {
            if q < v.len() {
                assert(rest.take(q - p) =~= v@.subrange(p as int, q as int));
                assert(strip_cr(rest.take(q - p)) =~= v@.subrange(p as int, end as int));
                assert(rest.skip(q - p + 1) =~= v@.skip(q + 1));
            } else {
                assert(rest =~= v@.subrange(p as int, v.len() as int));
                assert(v@.skip(v.len() as int) =~= Seq::<char>::empty());
            }
            lemma_spans_push(v@, r@, seen, p, end);
            seen = seen.push(v@.subrange(p as int, end as int));
        }
        r.push((p, end));
        p = if q < v.len() {
            q + 1
        } else {
            q
        };
        assert(seen + lines_of(v@.skip(p as int)) =~= lines_of(v@));
    }
    assert(v@.skip(p as int) =~= Seq::<char>::empty());
    assert(seen =~= lines_of(v@));
    r
}

} // verus!
