//! Rendering of output lines: `Port {port}: {status text}`, and the
//! banner printed before a scan.

use vstd::prelude::*;

use crate::status::ProbeResult;
use crate::status::spec_status_text;

verus! {

/// The decimal digit character for `d`, `0 <= d <= 9`.
pub open spec fn digit_char(d: int) -> char {
    if d == 0 {
        '0'
    } else if d == 1 {
        '1'
    } else if d == 2 {
        '2'
    } else if d == 3 {
        '3'
    } else if d == 4 {
        '4'
    } else if d == 5 {
        '5'
    } else if d == 6 {
        '6'
    } else if d == 7 {
        '7'
    } else if d == 8 {
        '8'
    } else {
        '9'
    }
}

/// The decimal rendering of `n >= 0`, most significant digit first,
/// without leading zeros (`0` renders as the single digit `0`).
pub open spec fn dec_seq(n: int) -> Seq<char>
    decreases n,
{
    if n < 10 {
        seq![digit_char(n)]
    } else {
        dec_seq(n / 10).push(digit_char(n % 10))
    }
}

/// The one-character string of decimal digit `d`.
fn digit_str(d: u64) -> (r: &'static str)
    requires
        d < 10,
    ensures
        r@ == seq![digit_char(d as int)],
{
    proof {
        reveal_strlit("0");
        reveal_strlit("1");
        reveal_strlit("2");
        reveal_strlit("3");
        reveal_strlit("4");
        reveal_strlit("5");
        reveal_strlit("6");
        reveal_strlit("7");
        reveal_strlit("8");
        reveal_strlit("9");
        assert("0"@ =~= seq![digit_char(0)]);
        assert("1"@ =~= seq![digit_char(1)]);
        assert("2"@ =~= seq![digit_char(2)]);
        assert("3"@ =~= seq![digit_char(3)]);
        assert("4"@ =~= seq![digit_char(4)]);
        assert("5"@ =~= seq![digit_char(5)]);
        assert("6"@ =~= seq![digit_char(6)]);
        assert("7"@ =~= seq![digit_char(7)]);
        assert("8"@ =~= seq![digit_char(8)]);
        assert("9"@ =~= seq![digit_char(9)]);
    }
    if d == 0 {
        "0"
    } else if d == 1 {
        "1"
    } else if d == 2 {
        "2"
    } else if d == 3 {
        "3"
    } else if d == 4 {
        "4"
    } else if d == 5 {
        "5"
    } else if d == 6 {
        "6"
    } else if d == 7 {
        "7"
    } else if d == 8 {
        "8"
    } else {
        "9"
    }
}

/// Appends the decimal rendering of `n` to `s`.
pub fn append_dec(s: &mut String, n: u64)
    ensures
        final(s)@ == old(s)@ + dec_seq(n as int),
    decreases n,
{
    if n < 10 {
        s.append(digit_str(n));
    } else {
        append_dec(s, n / 10);
        s.append(digit_str(n % 10));
        proof {
            assert(s@ =~= old(s)@ + dec_seq(n as int));
        }
    }
}

/// The full output line owed for a result:
/// `Port {port}: {status text}`.
pub open spec fn spec_line(r: ProbeResult) -> Seq<char> {
    "Port "@ + dec_seq(r.port as int) + ": "@ + spec_status_text(r.status)
}

/// Renders a result's output line.
pub fn render_line(r: &ProbeResult) -> (line: String)
    ensures
        line@ == spec_line(*r),
{
    let mut s = String::from_str("Port ");
    append_dec(&mut s, r.port as u64);
    s.append(": ");
    let text = r.status.text();
    s.append(text.as_str());
    proof {
        assert(s@ =~= spec_line(*r));
    }
    s
}

/// The banner printed before a scan:
/// `Scanning {count} ports on {host} using {workers} threads`.
pub open spec fn spec_banner(count: int, host: Seq<char>, workers: int) -> Seq<char> {
    "Scanning "@ + dec_seq(count) + " ports on "@ + host + " using "@ + dec_seq(workers)
        + " threads"@
}

/// Renders the scan banner.
pub fn render_banner(count: usize, host: &str, workers: usize) -> (line: String)
    ensures
        line@ == spec_banner(count as int, host@, workers as int),
{
    let mut s = String::from_str("Scanning ");
    append_dec(&mut s, count as u64);
    s.append(" ports on ");
    s.append(host);
    s.append(" using ");
    append_dec(&mut s, workers as u64);
    s.append(" threads");
    proof {
        assert(s@ =~= spec_banner(count as int, host@, workers as int));
    }
    s
}

} // verus!
