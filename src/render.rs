//! Rendering the progress-summary line.
use vstd::prelude::*;

verus! {

/// Decimal digit `d` as a character.
pub open spec fn digit(d: nat) -> char {
    "0123456789"@[d as int]
}

/// Decimal notation of `n`, without leading zeros.
pub open spec fn decimal(n: nat) -> Seq<char>
    decreases n,
{
    if n < 10 {
        seq![digit(n)]
    } else {
        decimal(n / 10).push(digit(n % 10))
    }
}

/// `p` written `n` times.
pub open spec fn repeat(p: Seq<char>, n: nat) -> Seq<char>
    decreases n,
{
    if n == 0 {
        Seq::empty()
    } else {
        repeat(p, (n - 1) as nat) + p
    }
}

/// Number of solid segments of the ten-segment bar: `done / total * 10`
/// rounded half away from zero, at most 10; none when `total` is zero.
pub open spec fn filled_segments(done: nat, total: nat) -> nat {
    if total == 0 {
        0
    } else if (20 * done + total) / (2 * total) > 10 {
        10
    } else {
        (20 * done + total) / (2 * total)
    }
}

/// `[` then the solid segments, then the light ones up to ten, then `]`.
pub open spec fn progress_bar(done: nat, total: nat) -> Seq<char> {
    "["@ + repeat("█"@, filled_segments(done, total)) + repeat(
        "░"@,
        (10 - filled_segments(done, total)) as nat,
    ) + "]"@
}

/// The summary line for the given counts.
pub open spec fn header_text(done: nat, todo: nat, total: nat) -> Seq<char> {
    "**"@ + progress_bar(done, total) + " ⚡ 今日进度 "@ + decimal(done) + "/"@ + decimal(total)
        + " | ⏳ 未完成 <u>"@ + decimal(todo) + "</u> | ✅ 已完成 "@ + decimal(done)
        + " · _By Seedling_ 🌱**"@
}

/// Appends the decimal notation of `n` to `s`.
fn push_decimal(s: &mut String, n: usize)
    ensures
        final(s)@ == old(s)@ + decimal(n as nat),
    decreases n,
{
    if n >= 10 {
        push_decimal(s, n / 10);
    }
    let d = n % 10;
    let digits = "0123456789";
    proof {
        reveal_strlit("0123456789");
    }
    let one = digits.substring_char(d, d + 1);
    assert(one@ =~= seq![digit(d as nat)]);
    s.append(one);
    assert(s@ =~= old(s)@ + decimal(n as nat));
}

/// Appends `p` to `s` `n` times.
fn push_repeat(s: &mut String, p: &str, n: usize)
    ensures
        final(s)@ == old(s)@ + repeat(p@, n as nat),
{
    let mut k: usize = 0;
    assert(old(s)@ + repeat(p@, 0) =~= old(s)@);
    while k < n
        invariant
            k <= n,
            s@ == old(s)@ + repeat(p@, k as nat),
        decreases n - k,
    {
        s.append(p);
        assert(s@ =~= old(s)@ + repeat(p@, (k + 1) as nat));
        k = k + 1;
    }
}

/// Ten-segment progress bar of `done` out of `total`.
pub fn make_progress_bar(done: usize, total: usize) -> (r: String)
    ensures
        r@ == progress_bar(done as nat, total as nat),
{
    let filled: usize = if total == 0 {
        0
    } else {
        let q: u128 = (20 * (done as u128) + total as u128) / (2 * (total as u128));
        if q > 10 {
            10
        } else {
            q as usize
        }
    };
    let mut s = String::from_str("[");
    push_repeat(&mut s, "█", filled);
    push_repeat(&mut s, "░", 10 - filled);
    s.append("]");
    s
}

/// The summary line: a progress bar and the counts, wrapped in `**`.
pub fn format_header_line(done: usize, todo: usize, total: usize) -> (r: String)
    ensures
        r@ == header_text(done as nat, todo as nat, total as nat),
{
    let bar = make_progress_bar(done, total);
    let mut s = String::from_str("**");
    s.append(bar.as_str());
    s.append(" ⚡ 今日进度 ");
    push_decimal(&mut s, done);
    s.append("/");
    push_decimal(&mut s, total);
    s.append(" | ⏳ 未完成 <u>");
    push_decimal(&mut s, todo);
    s.append("</u> | ✅ 已完成 ");
    push_decimal(&mut s, done);
    s.append(" · _By Seedling_ 🌱**");
    s
}

} // verus!
