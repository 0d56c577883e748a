//! Display-boundary formatting: decimal rendering of lap totals, lap times
//! (three decimals) and per-session averages (one decimal, comma separator).
//! Values stay numeric through the whole aggregation; only these functions
//! turn them into text.

use vstd::prelude::*;
use vstd::string::StringExecFns;

verus! {

/// The character for one decimal digit.
pub open spec fn dec_digit(d: nat) -> char
    recommends
        d < 10,
{
    if d == 0 {
        '0'
    } else if d == 1 {
        '1'
    } else if d == 2 {
        '2'
    } else if d == 3 {
        '3'
    } else if d == 4 {
        '4'
    } else if d == 5 {
        '5'
    } else if d == 6 {
        '6'
    } else if d == 7 {
        '7'
    } else if d == 8 {
        '8'
    } else {
        '9'
    }
}

/// Decimal notation of a natural number, without leading zeros.
pub open spec fn dec_digits(n: nat) -> Seq<char>
    decreases n,
{
    if n < 10 {
        seq![dec_digit(n)]
    } else {
        dec_digits(n / 10).push(dec_digit(n % 10))
    }
}

/// A lap time in thousandths of a second, shown with three decimals.
pub open spec fn time_text(t: nat) -> Seq<char> {
    dec_digits(t / 1000) + seq!['.', dec_digit(t / 100 % 10), dec_digit(t / 10 % 10), dec_digit(t % 10)]
}

/// The displayed best time: the recorded value, or "0.000" when the pilot
/// never recorded a valid lap.
pub open spec fn best_time_text(o: Option<u64>) -> Seq<char> {
    match o {
        Some(t) => time_text(t as nat),
        None => time_text(0),
    }
}

/// Average laps per session in tenths, rounded half up; zero when no
/// session had laps.
pub open spec fn avg_tenths(laps: nat, sessions: nat) -> nat {
    if sessions == 0 {
        0
    } else {
        (20 * laps + sessions) / (2 * sessions)
    }
}

/// The displayed average: one decimal with a comma as separator.
pub open spec fn avg_text(laps: nat, sessions: nat) -> Seq<char> {
    dec_digits(avg_tenths(laps, sessions) / 10) + seq![','] + seq![
        dec_digit(avg_tenths(laps, sessions) % 10),
    ]
}

/// One digit as borrowed text.
fn digit_str(d: u128) -> (r: &'static str)
    requires
        d < 10,
    ensures
        r@ == seq![dec_digit(d as nat)],
{
    proof {
        reveal_strlit("0");
        reveal_strlit("1");
        reveal_strlit("2");
        reveal_strlit("3");
        reveal_strlit("4");
        reveal_strlit("5");
        reveal_strlit("6");
        reveal_strlit("7");
        reveal_strlit("8");
        reveal_strlit("9");
    }
    let r = if d == 0 {
        "0"
    } else if d == 1 {
        "1"
    } else if d == 2 {
        "2"
    } else if d == 3 {
        "3"
    } else if d == 4 {
        "4"
    } else if d == 5 {
        "5"
    } else if d == 6 {
        "6"
    } else if d == 7 {
        "7"
    } else if d == 8 {
        "8"
    } else {
        "9"
    };
    proof {
        assert(r@ =~= seq![dec_digit(d as nat)]);
    }
    r
}

/// Decimal rendering of a (wide) natural number.
pub fn u128_to_string(n: u128) -> (s: String)
    ensures
        s@ == dec_digits(n as nat),
    decreases n,
{
    if n < 10 {
        digit_str(n).to_owned()
    } else {
        let mut s = u128_to_string(n / 10);
        s.append(digit_str(n % 10));
        proof {
            assert(s@ =~= dec_digits(n as nat));
        }
        s
    }
}

/// Decimal rendering of a lap count or total.
pub fn u64_to_string(n: u64) -> (s: String)
    ensures
        s@ == dec_digits(n as nat),
{
    u128_to_string(n as u128)
}

/// Decimal rendering of a penalty count, with a leading minus sign when
/// negative.
pub fn i64_to_string(n: i64) -> (s: String)
    ensures
        n >= 0 ==> s@ == dec_digits(n as nat),
        n < 0 ==> s@ == seq!['-'] + dec_digits((-(n as int)) as nat),
{
    proof {
        reveal_strlit("-");
    }
    if n >= 0 {
        u128_to_string(n as u128)
    } else {
        let mut s = "-".to_owned();
        let mag_wide: i128 = -(n as i128);
        proof {
            assert(0 < mag_wide <= u128::MAX);
        }
        let mag: u128 = mag_wide as u128;
        proof {
            assert(mag as int == -(n as int));
        }
        s.append(u128_to_string(mag).as_str());
        proof {
            assert(s@ =~= seq!['-'] + dec_digits((-(n as int)) as nat));
        }
        s
    }
}

/// A lap time in thousandths, formatted to three decimals.
pub fn fmt_thousandths(t: u64) -> (s: String)
    ensures
        s@ == time_text(t as nat),
{
    proof {
        reveal_strlit(".");
    }
    let mut s = u128_to_string((t / 1000) as u128);
    s.append(".");
    s.append(digit_str((t as u128) / 100 % 10));
    s.append(digit_str((t as u128) / 10 % 10));
    s.append(digit_str((t as u128) % 10));
    proof {
        assert(s@ =~= time_text(t as nat));
    }
    s
}

/// The displayed best time of a pilot.
pub fn fmt_best_time(o: Option<u64>) -> (s: String)
    ensures
        s@ == best_time_text(o),
{
    match o {
        Some(t) => fmt_thousandths(t),
        None => fmt_thousandths(0),
    }
}

/// The displayed average laps per session.
pub fn fmt_average(laps: u64, sessions: u64) -> (s: String)
    ensures
        s@ == avg_text(laps as nat, sessions as nat),
{
    proof {
        reveal_strlit(",");
    }
    let tenths: u128 = if sessions == 0 {
        0
    } else {
        (20 * (laps as u128) + (sessions as u128)) / (2 * (sessions as u128))
    };
    proof {
        assert(tenths as nat == avg_tenths(laps as nat, sessions as nat));
    }
    let mut s = u128_to_string(tenths / 10);
    s.append(",");
    s.append(digit_str(tenths % 10));
    proof {
        assert(s@ =~= avg_text(laps as nat, sessions as nat));
    }
    s
}

/// The no-valid-lap display is exactly "0.000".
pub proof fn lemma_zero_time_text()
    ensures
        time_text(0) == "0.000"@,
{
    reveal_strlit("0.000");
    assert(time_text(0) =~= "0.000"@);
}

} // verus!
