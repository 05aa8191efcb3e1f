//! Times of day and spans of time as they are shown to people.

use vstd::prelude::*;
use vstd::string::*;

use crate::text::append_decimal;

verus! {

/// The seconds that `SystemTime::elapsed` gives between the Unix epoch and now, or
/// `None` where it fails because the clock stands before the epoch. Nothing is said
/// of the number: it is the time.
#[verifier::external_body]
fn seconds_since_epoch() -> (r: Option<u64>) {
    match std::time::UNIX_EPOCH.elapsed() {
        Ok(passed) => Some(passed.as_secs()),
        Err(_) => None,
    }
}

/// A number below a hundred in two digits.
pub open spec fn two_digits(n: nat) -> Seq<char> {
    seq![crate::text::digit_char(n / 10), crate::text::digit_char(n % 10)]
}

/// The time of day in UTC, `HH:MM:SS`, at a number of seconds since the epoch.
pub open spec fn time_of_day(now: nat) -> Seq<char> {
    two_digits((now / 3600) % 24) + ":"@ + two_digits((now / 60) % 60) + ":"@ + two_digits(now % 60)
}

/// A span of seconds in its two largest units, or in seconds alone below a minute.
pub open spec fn duration_text(secs: nat) -> Seq<char> {
    let hours = secs / 3600;
    let mins = (secs % 3600) / 60;
    if hours > 0 {
        crate::text::decimal(hours) + "h "@ + crate::text::decimal(mins) + "m"@
    } else if mins > 0 {
        crate::text::decimal(mins) + "m "@ + crate::text::decimal(secs % 60) + "s"@
    } else {
        crate::text::decimal(secs % 60) + "s"@
    }
}

fn append_two_digits(out: &mut String, n: u64)
    requires
        n < 100,
    ensures
        final(out)@ == old(out)@ + two_digits(n as nat),
{
    let tens: u8 = (n / 10) as u8;
    let units: u8 = (n % 10) as u8;
    out.push((48 + tens) as char);
    out.push((48 + units) as char);
    assert(out@ =~= old(out)@ + two_digits(n as nat));
}

/// The time of day in UTC, `HH:MM:SS`, at a number of seconds since the epoch.
pub fn clock_text(now: u64) -> (r: String)
    ensures
        r@ == time_of_day(now as nat),
{
    let mut out = String::new();
    append_two_digits(&mut out, (now / 3600) % 24);
    assert(out@ =~= two_digits(((now / 3600) % 24) as nat));
    out.append(":");
    append_two_digits(&mut out, (now / 60) % 60);
    out.append(":");
    append_two_digits(&mut out, now % 60);
    out
}

/// The time of day for log lines, from what a clock gives: a number of seconds since the
/// Unix epoch, or nothing where it stands before the epoch.
pub fn timestamp_at(now: Option<u64>) -> (r: Option<String>)
    ensures
        match now {
            Some(secs) => r matches Some(text) && text@ == time_of_day(secs as nat),
            None => r is None,
        },
{
    match now {
        Some(secs) => Some(clock_text(secs)),
        None => None,
    }
}

/// The current time of day for log lines, or `None` where the clock stands before
/// the Unix epoch.
pub fn chrono_timestamp() -> (r: Option<String>)
    ensures
        r matches Some(text) ==> exists|now: u64| text@ == #[trigger] time_of_day(now as nat),
{
    timestamp_at(seconds_since_epoch())
}

/// A span of whole seconds for people to read: `1h 23m`, `5m 30s` or `12s`.
pub fn format_duration(total_secs: u64) -> (r: String)
    ensures
        r@ == duration_text(total_secs as nat),
{
    let hours: u64 = total_secs / 3600;
    let mins: u64 = (total_secs % 3600) / 60;
    let s: u64 = total_secs % 60;
    let mut out = String::new();
    if hours > 0 {
        append_decimal(&mut out, hours);
        assert(out@ =~= crate::text::decimal(hours as nat));
        out.append("h ");
        append_decimal(&mut out, mins);
        out.append("m");
    } else if mins > 0 {
        append_decimal(&mut out, mins);
        assert(out@ =~= crate::text::decimal(mins as nat));
        out.append("m ");
        append_decimal(&mut out, s);
        out.append("s");
    } else {
        append_decimal(&mut out, s);
        assert(out@ =~= crate::text::decimal(s as nat));
        out.append("s");
    }
    out
}

/// The time left for people to read. `None` stands for an estimate that is not
/// positive or not finite.
pub fn format_eta(secs: Option<u64>) -> (r: String)
    ensures
        r@ == match secs {
            Some(n) => duration_text(n as nat),
            None => "--"@,
        },
{
    match secs {
        Some(n) => format_duration(n),
        None => "--".to_owned(),
    }
}

/// Something that is done again and again, each time a period after the last. Times are
/// nanoseconds since some fixed moment.
pub struct Recurring {
    pub last: u128,
    pub period: u128,
}

impl Recurring {
    /// Whether the period is over. If so, the next one starts.
    pub fn is_over(&mut self, now: u128) -> (r: bool)
        ensures
            r == (now - old(self).last >= old(self).period),
            *final(self) == (Recurring {
                last: if r {
                    now
                } else {
                    old(self).last
                },
                ..*old(self)
            }),
    {
        if now >= self.last && now - self.last >= self.period {
            self.last = now;
            return true;
        }
        false
    }
}

// ---------------------------------------------------------------------------
// Laws
// ---------------------------------------------------------------------------

/// The number that two decimal digits of a text stand for.
pub open spec fn pair_value(s: Seq<char>, at: int) -> int {
    10 * (s[at] as int - '0' as int) + (s[at + 1] as int - '0' as int)
}

/// A time of day is eight characters, `HH:MM:SS`, and hours, minutes and seconds together
/// give the seconds since midnight.
pub proof fn law_clock_shows_the_seconds_of_the_day(now: nat)
    ensures
        ({
            let s = time_of_day(now);
            let hours = pair_value(s, 0);
            let minutes = pair_value(s, 3);
            let seconds = pair_value(s, 6);
            &&& s.len() == 8
            &&& s[2] == ':' && s[5] == ':'
            &&& forall|i: int| 0 <= i < 8 && i != 2 && i != 5 ==> '0' <= #[trigger] s[i] <= '9'
            &&& 0 <= hours < 24
            &&& 0 <= minutes < 60
            &&& 0 <= seconds < 60
            &&& hours * 3600 + minutes * 60 + seconds == now % 86400
        }),
{
    reveal_strlit(":");
    let s = time_of_day(now);
    let h = ((now / 3600) % 24) as int;
    let m = ((now / 60) % 60) as int;
    let sec = (now % 60) as int;
    assert(s[0] == two_digits(h as nat)[0] && s[1] == two_digits(h as nat)[1]);
    assert(s[3] == two_digits(m as nat)[0] && s[4] == two_digits(m as nat)[1]);
    assert(s[6] == two_digits(sec as nat)[0] && s[7] == two_digits(sec as nat)[1]);
}

/// The time of day comes again after a day, and after nothing less.
pub proof fn law_clock_repeats_daily(now: nat, later: nat)
    ensures
        time_of_day(now) == time_of_day(later) <==> now % 86400 == later % 86400,
{
    law_clock_shows_the_seconds_of_the_day(now);
    law_clock_shows_the_seconds_of_the_day(later);
    if now % 86400 == later % 86400 {
        assert((now / 3600) % 24 == (later / 3600) % 24);
        assert((now / 60) % 60 == (later / 60) % 60);
        assert(now % 60 == later % 60);
    }
}

/// A span is shown in hours and minutes from an hour on, in minutes and seconds from a
/// minute on, and in seconds below; what is smaller than the units shown is dropped.
pub proof fn law_spans_are_shown_in_two_units(hours: nat, minutes: nat, seconds: nat)
    requires
        minutes < 60,
        seconds < 60,
    ensures
        hours > 0 ==> duration_text(hours * 3600 + minutes * 60 + seconds)
            == crate::text::decimal(hours) + "h "@ + crate::text::decimal(minutes) + "m"@,
        minutes > 0 ==> duration_text(minutes * 60 + seconds) == crate::text::decimal(minutes)
            + "m "@ + crate::text::decimal(seconds) + "s"@,
        duration_text(seconds) == crate::text::decimal(seconds) + "s"@,
{
    let all = hours * 3600 + minutes * 60 + seconds;
    assert(all / 3600 == hours);
    assert(all % 3600 == minutes * 60 + seconds);
    assert((minutes * 60 + seconds) / 60 == minutes);
    assert((minutes * 60 + seconds) % 60 == seconds);
}

} // verus!
