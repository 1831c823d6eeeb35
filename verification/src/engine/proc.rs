//! Process liveness and port signals for engine status checks.
//!
//! Status is derived from two independent signals — a live pid and an open
//! port — because either alone lies: a stale pidfile outlives a crashed
//! process, and a port can be briefly closed while a healthy server reloads.
//! An instance is considered up when *either* holds. Reading the pidfile,
//! looking a process up and probing a port are the caller's; this module
//! decides what their results mean.

use vstd::prelude::*;
use crate::engine::Status;
use crate::text::{before, chars_of, dec, find_from, push_dec, slice_chars, trim, trim_chars};

verus! {

/// Whether `c` is an ASCII decimal digit.
pub open spec fn is_digit(c: char) -> bool {
    '0' <= c && c <= '9'
}

/// Every character of `d` is a decimal digit.
pub open spec fn all_digits(d: Seq<char>) -> bool {
    forall|i: int| 0 <= i < d.len() ==> is_digit(#[trigger] d[i])
}

/// The value of a string of decimal digits.
pub open spec fn digits_value(s: Seq<char>) -> nat
    decreases s.len(),
{
    if s.len() == 0 {
        0
    } else {
        digits_value(s.drop_last()) * 10 + ((s.last() as int) - ('0' as int)) as nat
    }
}

/// What `u32::from_str` makes of `s`: an optional `+` followed by at least
/// one decimal digit and nothing else, whose value fits in a `u32`.
pub open spec fn spec_parse_u32(s: Seq<char>) -> Option<u32> {
    let d = if s.len() > 0 && s[0] == '+' {
        s.drop_first()
    } else {
        s
    };
    if d.len() > 0 && all_digits(d) && digits_value(d) <= u32::MAX {
        Some(digits_value(d) as u32)
    } else {
        None
    }
}

/// Parses a decimal `u32` as `u32::from_str` does.
pub fn parse_u32(s: &str) -> (r: Option<u32>)
    ensures
        r == spec_parse_u32(s@),
{
    let v = chars_of(s);
    let start: usize = if v.len() > 0 && v[0] == '+' {
        1
    } else {
        0
    };
    let ghost d = if s@.len() > 0 && s@[0] == '+' {
        s@.drop_first()
    } else {
        s@
    };
    proof {
        assert(d =~= v@.skip(start as int));
    }
    if start >= v.len() {
        return None;
    }
    let mut i: usize = start;
    let mut value: u64 = 0;
    let mut over = false;
    while i < v.len()
        invariant
            start <= i <= v@.len(),
            v@ == s@,
            d == (if s@.len() > 0 && s@[0] == '+' {
                s@.drop_first()
            } else {
                s@
            }),
            d.len() > 0,
            d == v@.skip(start as int),
            forall|k: int| 0 <= k < i - start ==> is_digit(#[trigger] d[k]),
            !over ==> value == digits_value(d.take(i - start)) && value <= u32::MAX,
            over ==> digits_value(d.take(i - start)) > u32::MAX,
        decreases v@.len() - i,
    {
        let c = v[i];
        if !('0' <= c && c <= '9') {
            proof {
                assert(d[i - start] == c);
                assert(!is_digit(d[i - start]));
                assert(!all_digits(d));
            }
            return None;
        }
        proof {
            assert(d.take(i + 1 - start).drop_last() =~= d.take(i - start));
            assert(d.take(i + 1 - start).last() == c);
        }
        if !over {
            value = value * 10 + ((c as u32) - ('0' as u32)) as u64;
            if value > 0xFFFF_FFFF {
                over = true;
            }
        }
        i = i + 1;
    }
    proof {
        assert(d.take(i - start) =~= d);
    }
    if over {
        None
    } else {
        Some(value as u32)
    }
}

/// The first line of a pidfile's text, trimmed; nothing when the text is
/// blank. (Postgres writes several lines; only the first is the pid.)
pub open spec fn spec_pid_line(data: Seq<char>) -> Option<Seq<char>> {
    if trim(data).len() == 0 {
        None
    } else {
        Some(trim(before(trim(data), '\n')))
    }
}

/// The pid a pidfile records: its first line parsed as a `u32`; nothing for
/// blank or malformed text, or for pid 0, which is never a real process.
pub open spec fn spec_parse_pid(data: Seq<char>) -> Option<u32> {
    match spec_pid_line(data) {
        None => None,
        Some(line) => match spec_parse_u32(line) {
            Some(p) => if p != 0 {
                Some(p)
            } else {
                None
            },
            None => None,
        },
    }
}

/// The pid a pidfile's text records (see [`spec_parse_pid`]).
pub fn parse_pid(data: &str) -> (r: Option<u32>)
    ensures
        r == spec_parse_pid(data@),
{
    let t = trim_chars(&chars_of(data));
    if t.len() == 0 {
        return None;
    }
    let end = find_from(&t, '\n', 0);
    proof {
        assert(t@.skip(0) =~= t@);
    }
    let first = trim_chars(&slice_chars(&t, 0, end));
    let line = crate::text::string_of(&first);
    match parse_u32(line.as_str()) {
        Some(p) => if p != 0 {
            Some(p)
        } else {
            None
        },
        None => None,
    }
}

/// The directory under which the process `pid` is listed while it lives.
pub fn proc_dir(pid: u32) -> (r: String)
    ensures
        r@ == "/proc/"@ + dec(pid as nat),
{
    let mut s = "/proc/".to_owned();
    push_dec(&mut s, pid as u64);
    s
}

/// The arguments to `kill` that ask the process `pid` to shut down (SIGINT).
pub fn interrupt_args(pid: u32) -> (r: Vec<String>)
    ensures
        r@.len() == 2,
        r@[0]@ == "-INT"@,
        r@[1]@ == dec(pid as nat),
{
    let mut args: Vec<String> = Vec::new();
    args.push("-INT".to_owned());
    let mut p = String::new();
    push_dec(&mut p, pid as u64);
    args.push(p);
    args
}

/// An instance's status from the two signals: running when its recorded
/// process is alive or its port accepts connections, stopped otherwise.
pub fn status_from(pid_alive: bool, port_open: bool) -> (r: Status)
    ensures
        r == if pid_alive || port_open {
            Status::Running
        } else {
            Status::Stopped
        },
{
    if pid_alive || port_open {
        Status::Running
    } else {
        Status::Stopped
    }
}

} // verus!
