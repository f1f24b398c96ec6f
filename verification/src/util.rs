//! Pure text helpers: pluralized counts and the elapsed-time wording used in
//! notifications, with explicit unit rollover (weeks, days, hours, minutes,
//! and seconds only when nothing larger is present).

use vstd::prelude::*;
use vstd::string::StringExecFns;

verus! {

/// The decimal digit character of `d`.
pub open spec fn spec_digit(d: nat) -> char {
    if d == 0 {
        '0'
    } else if d == 1 {
        '1'
    } else if d == 2 {
        '2'
    } else if d == 3 {
        '3'
    } else if d == 4 {
        '4'
    } else if d == 5 {
        '5'
    } else if d == 6 {
        '6'
    } else if d == 7 {
        '7'
    } else if d == 8 {
        '8'
    } else {
        '9'
    }
}

/// The decimal rendering of a natural number, without leading zeros.
pub open spec fn dec_str(n: nat) -> Seq<char>
    decreases n,
{
    if n < 10 {
        seq![spec_digit(n)]
    } else {
        dec_str(n / 10).push(spec_digit(n % 10))
    }
}

/// The decimal rendering of an integer: a minus sign before the magnitude.
pub open spec fn int_str(n: int) -> Seq<char> {
    if n < 0 {
        seq!['-'] + dec_str((-n) as nat)
    } else {
        dec_str(n as nat)
    }
}

fn digit_str(d: u64) -> (r: &'static str)
    requires
        d < 10,
    ensures
        r@ == seq![spec_digit(d as nat)],
{
    proof {
        reveal_strlit("0");
        reveal_strlit("1");
        reveal_strlit("2");
        reveal_strlit("3");
        reveal_strlit("4");
        reveal_strlit("5");
        reveal_strlit("6");
        reveal_strlit("7");
        reveal_strlit("8");
        reveal_strlit("9");
    }
    let r = match d {
        0 => "0",
        1 => "1",
        2 => "2",
        3 => "3",
        4 => "4",
        5 => "5",
        6 => "6",
        7 => "7",
        8 => "8",
        _ => "9",
    };
    proof {
        assert(r@ =~= seq![spec_digit(d as nat)]);
    }
    r
}

/// Render a number in decimal.
pub fn u64_string(n: u64) -> (s: String)
    ensures
        s@ == dec_str(n as nat),
    decreases n,
{
    if n < 10 {
        digit_str(n).to_owned()
    } else {
        let mut s = u64_string(n / 10);
        s.append(digit_str(n % 10));
        proof {
            assert(s@ =~= dec_str((n / 10) as nat).push(spec_digit((n % 10) as nat)));
        }
        s
    }
}

/// Render a signed number in decimal.
pub fn i64_string(n: i64) -> (s: String)
    ensures
        s@ == int_str(n as int),
{
    if n >= 0 {
        u64_string(n as u64)
    } else {
        let magnitude: u64 = (-(n + 1)) as u64 + 1;
        proof {
            reveal_strlit("-");
        }
        let mut s = "-".to_owned();
        s.append(u64_string(magnitude).as_str());
        proof {
            assert(s@ =~= seq!['-'] + dec_str((-(n as int)) as nat));
        }
        s
    }
}

/// The count wording: `zero` for 0, `one` for 1, and the number followed by
/// a space and `many` otherwise.
pub open spec fn spec_localize(num: int, zero: Seq<char>, one: Seq<char>, many: Seq<char>) -> Seq<
    char,
> {
    if num == 0 {
        zero
    } else if num == 1 {
        one
    } else {
        int_str(num) + seq![' '] + many
    }
}

/// Pick the wording of a count: `zero` for 0, `one` for 1, and
/// `"{num} {many}"` otherwise.
pub fn localize(num: i64, zero: &str, one: &str, many: &str) -> (r: String)
    ensures
        r@ == spec_localize(num as int, zero@, one@, many@),
{
    if num == 0 {
        zero.to_owned()
    } else if num == 1 {
        one.to_owned()
    } else {
        proof {
            reveal_strlit(" ");
        }
        let mut s = i64_string(num);
        s.append(" ");
        s.append(many);
        proof {
            assert(s@ =~= int_str(num as int) + seq![' '] + many@);
        }
        s
    }
}

/// The elapsed-time wording: week, day, hour and minute counts with zero
/// counts left out, and the plain seconds only when everything larger is
/// zero.
pub open spec fn spec_elapsed(total: int) -> Seq<char> {
    let weeks = total / 604800;
    let days = (total % 604800) / 86400;
    let hours = (total % 86400) / 3600;
    let minutes = (total % 3600) / 60;
    let secs = total % 60;
    let head = spec_localize(weeks, ""@, "1 week "@, "weeks "@) + spec_localize(
        days,
        ""@,
        "1 day "@,
        "days "@,
    ) + spec_localize(hours, ""@, "1 hour "@, "hours "@) + spec_localize(
        minutes,
        ""@,
        "1 minute "@,
        "minutes "@,
    );
    if head.len() == 0 {
        spec_localize(secs, ""@, "1 second "@, "seconds "@)
    } else {
        head
    }
}

/// Word an elapsed duration, given in whole seconds.
pub fn formatted_elapsed(seconds: u64) -> (r: String)
    ensures
        r@ == spec_elapsed(seconds as int),
{
    let weeks = seconds / 604800;
    let days = (seconds % 604800) / 86400;
    let hours = (seconds % 86400) / 3600;
    let minutes = (seconds % 3600) / 60;
    let secs = seconds % 60;

    let mut result = localize(weeks as i64, "", "1 week ", "weeks ");
    result.append(localize(days as i64, "", "1 day ", "days ").as_str());
    result.append(localize(hours as i64, "", "1 hour ", "hours ").as_str());
    result.append(localize(minutes as i64, "", "1 minute ", "minutes ").as_str());

    if result.as_str().is_empty() {
        result.append(localize(secs as i64, "", "1 second ", "seconds ").as_str());
        proof {
            assert(result@ =~= spec_elapsed(seconds as int));
        }
    }
    result
}

} // verus!
