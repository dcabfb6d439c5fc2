//! `focus`: a countdown timer whose sessions are logged; and the `sys` lines that
//! are not measurements. Waiting, printing and the session log live in the binary.
use vstd::prelude::*;
use crate::cli::FocusOpts;
use crate::text::{append_str, decimal, push_char, push_decimal};
use crate::util::{append_padded_right, bytes_text, duration_text, format_bytes, format_duration, pad_right, spaces};

verus! {

broadcast use vstd::string::group_string_axioms;

/// The length of the progress bar, in characters.
pub const BAR_WIDTH: u64 = 30;

/// The session length in seconds; refused for zero minutes.
pub fn focus_seconds(opts: &FocusOpts) -> (r: Result<u64, String>)
    requires
        opts.minutes * 60 <= u64::MAX,
    ensures
        opts.minutes == 0 ==> (r matches Err(m) && m@ == "minutes must be > 0"@),
        opts.minutes > 0 ==> r == Ok::<u64, String>((opts.minutes * 60) as u64),
{
    if opts.minutes == 0 {
        return Err(String::from_str("minutes must be > 0"));
    }
    Ok(opts.minutes * 60)
}

/// The session's label: the one given, else `focus`.
pub open spec fn session_label(opts: FocusOpts) -> Seq<char> {
    match opts.label {
        Some(l) => l@,
        None => "focus"@,
    }
}

pub fn start_message(opts: &FocusOpts) -> (s: String)
    ensures
        s@ == "Starting "@ + session_label(*opts) + " session: "@ + decimal(opts.minutes as nat) + " minute(s)"@,
{
    let mut s = String::from_str("Starting ");
    match &opts.label {
        Some(l) => append_str(&mut s, l.as_str()),
        None => append_str(&mut s, "focus"),
    }
    append_str(&mut s, " session: ");
    push_decimal(&mut s, opts.minutes);
    append_str(&mut s, " minute(s)");
    s
}

/// `c` repeated `n` times.
pub open spec fn repeat(c: char, n: nat) -> Seq<char> {
    Seq::new(n, |i: int| c)
}

/// `n` printed with at least two digits (`{:02}`).
pub open spec fn two_digit(n: nat) -> Seq<char> {
    if n < 10 {
        seq!['0'] + decimal(n)
    } else {
        decimal(n)
    }
}

/// How many of the bar's cells are filled after `elapsed` of `total` seconds.
pub open spec fn filled_cells(elapsed: nat, total: nat) -> nat {
    if total == 0 {
        BAR_WIDTH as nat
    } else {
        ((elapsed * BAR_WIDTH) as nat / total) as nat
    }
}

/// One frame of the countdown: the bar, then the time left as `mm:ss`.
pub open spec fn frame_text(elapsed: nat, total: nat) -> Seq<char> {
    let remaining = (total - elapsed) as nat;
    let filled = filled_cells(elapsed, total);
    seq!['\r', '['] + repeat('#', filled) + repeat('-', (BAR_WIDTH - filled) as nat) + seq![']', ' ']
        + two_digit(remaining / 60) + seq![':'] + two_digit(remaining % 60) + " remaining"@
}

fn push_repeat(s: &mut String, c: char, n: u64)
    ensures
        final(s)@ == old(s)@ + repeat(c, n as nat),
{
    let mut i: u64 = 0;
    while i < n
        invariant
            i <= n,
            s@ == old(s)@ + repeat(c, i as nat),
        decreases n - i,
    {
        push_char(s, c);
        i += 1;
        assert(s@ =~= old(s)@ + repeat(c, i as nat));
    }
}

fn push_two_digit(s: &mut String, n: u64)
    ensures
        final(s)@ == old(s)@ + two_digit(n as nat),
{
    if n < 10 {
        push_char(s, '0');
    }
    push_decimal(s, n);
    assert(s@ =~= old(s)@ + two_digit(n as nat));
}

pub fn timer_frame(elapsed: u64, total_secs: u64) -> (s: String)
    requires
        elapsed <= total_secs,
        total_secs * BAR_WIDTH <= u64::MAX,
    ensures
        s@ == frame_text(elapsed as nat, total_secs as nat),
{
    let remaining = total_secs - elapsed;
    let filled = if total_secs == 0 {
        BAR_WIDTH
    } else {
        assert(elapsed * BAR_WIDTH <= total_secs * BAR_WIDTH) by (nonlinear_arith)
            requires elapsed <= total_secs;
        (elapsed * BAR_WIDTH) / total_secs
    };
    assert(filled <= BAR_WIDTH) by (nonlinear_arith)
        requires
            elapsed <= total_secs,
            total_secs == 0 ==> filled == BAR_WIDTH,
            total_secs > 0 ==> filled as int == (elapsed * BAR_WIDTH) as int / total_secs as int,
    ;
    let mut s = String::new();
    push_char(&mut s, '\r');
    push_char(&mut s, '[');
    push_repeat(&mut s, '#', filled);
    push_repeat(&mut s, '-', BAR_WIDTH - filled);
    push_char(&mut s, ']');
    push_char(&mut s, ' ');
    push_two_digit(&mut s, remaining / 60);
    push_char(&mut s, ':');
    push_two_digit(&mut s, remaining % 60);
    append_str(&mut s, " remaining");
    assert(s@ =~= frame_text(elapsed as nat, total_secs as nat));
    s
}

/// Uptimes beyond ten years are reported as unavailable.
pub const MAX_REASONABLE_UPTIME_SECS: u64 = 315_360_000;

pub fn uptime_line(uptime: u64) -> (s: String)
    ensures
        uptime > MAX_REASONABLE_UPTIME_SECS ==> s@ == "Uptime:    unavailable"@,
        uptime <= MAX_REASONABLE_UPTIME_SECS ==> s@ == "Uptime:    "@ + duration_text(uptime as nat),
{
    if uptime > MAX_REASONABLE_UPTIME_SECS {
        String::from_str("Uptime:    unavailable")
    } else {
        let mut s = String::from_str("Uptime:    ");
        let d = format_duration(uptime);
        append_str(&mut s, d.as_str());
        s
    }
}

/// The line of one disk: mount point padded to 20, used and total space, name.
pub open spec fn disk_text(mount: Seq<char>, total: nat, available: nat, name: Seq<char>) -> Seq<char> {
    let used = if total >= available {
        (total - available) as nat
    } else {
        0
    };
    pad_right(mount, 20) + " "@ + bytes_text(used) + " used / "@ + bytes_text(total) + " total ("@ + name + ")"@
}

pub fn disk_line(mount: &str, total: u64, available: u64, name: &str) -> (s: String)
    ensures
        s@ == disk_text(mount@, total as nat, available as nat, name@),
{
    let used = if total >= available { total - available } else { 0 };
    let mut s = String::new();
    append_padded_right(&mut s, mount, 20);
    append_str(&mut s, " ");
    let u = format_bytes(used);
    append_str(&mut s, u.as_str());
    append_str(&mut s, " used / ");
    let t = format_bytes(total);
    append_str(&mut s, t.as_str());
    append_str(&mut s, " total (");
    append_str(&mut s, name);
    append_str(&mut s, ")");
    assert(s@ =~= disk_text(mount@, total as nat, available as nat, name@));
    s
}

} // verus!
