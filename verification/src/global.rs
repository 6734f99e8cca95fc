//! Request logging.

use vstd::prelude::*;
use crate::api::{all_digits, is_digit};
use crate::config::opt_text;
use crate::statistics::{IpAddress, LogEntry, ProxyDomainStats};
use crate::text::{append_str, decimal, decimal_string};
use std::time::Instant;

verus! {

/// The outside clock reading type.
#[verifier::external_type_specification]
#[verifier::external_body]
pub struct ExInstant(Instant);

/// The whole milliseconds since `start`, `start.elapsed().as_millis()`.
///
/// The result depends on the clock: nothing is stated of it.
#[verifier::external_body]
fn millis_since(start: &Instant) -> u128 {
    start.elapsed().as_millis()
}

/// The layout of the times in the log: `day/month/year, hours:minutes:seconds`.
pub open spec fn log_date_format() -> Seq<char> {
    "%d/%m/%Y, %H:%M:%S"@
}

/// A year as `chrono` writes `%Y`: four digits, or a sign and at least four
/// digits outside the years 0 to 9999.
pub open spec fn is_year_text(y: Seq<char>) -> bool {
    ||| y.len() == 4 && all_digits(y)
    ||| y.len() >= 5 && (y[0] == '+' || y[0] == '-') && all_digits(y.drop_first())
}

/// A time in the layout of `log_date_format`: two-digit day and month, the
/// year, then `, ` and two-digit hours, minutes and seconds.
pub open spec fn is_date_text(t: Seq<char>) -> bool {
    let n = t.len() as int;
    &&& n >= 20
    &&& is_digit(t[0]) && is_digit(t[1]) && t[2] == '/'
    &&& is_digit(t[3]) && is_digit(t[4]) && t[5] == '/'
    &&& is_year_text(t.subrange(6, n - 10))
    &&& t[n - 10] == ',' && t[n - 9] == ' '
    &&& is_digit(t[n - 8]) && is_digit(t[n - 7]) && t[n - 6] == ':'
    &&& is_digit(t[n - 5]) && is_digit(t[n - 4]) && t[n - 3] == ':'
    &&& is_digit(t[n - 2]) && is_digit(t[n - 1])
}

/// The local time now, `chrono::Local::now().format(fmt).to_string()`, for
/// the one layout the log uses.
///
/// With that layout every directive is valid, so formatting cannot fail;
/// `chrono` writes each field but the year as two zero-padded digits. Which
/// time it is depends on the clock and is not stated.
#[verifier::external_body]
fn local_time_formatted(fmt: &str) -> (r: String)
    requires
        fmt@ == log_date_format(),
    ensures
        is_date_text(r@),
{
    chrono::Local::now().format(fmt).to_string()
}

/// The time of a log entry: the request's age in milliseconds, a space, and
/// the date.
pub open spec fn log_time(elapsed_millis: u128, date: Seq<char>) -> Seq<char> {
    decimal(elapsed_millis as nat).push(' ') + date
}

/// Logs one request in `domain_stats`, with `now_text` as the time of last
/// activity and `date_text` as the date in the entry's time.
pub fn append_log_entry(
    domain_stats: &mut ProxyDomainStats,
    domain: &str,
    ip: IpAddress,
    path: Option<String>,
    event: &'static str,
    elapsed_millis: u128,
    now_text: String,
    date_text: String,
)
    ensures
        crate::statistics::logged(*old(domain_stats), *final(domain_stats), domain@, ip, opt_text(path), event),
        final(domain_stats).log@[old(domain_stats).log@.len() as int].path == path,
        final(domain_stats).log@[old(domain_stats).log@.len() as int].time@ == log_time(elapsed_millis, date_text@),
        final(domain_stats).last_active@ == now_text@,
{
    domain_stats.last_active = now_text;
    let mut time = decimal_string(elapsed_millis);
    append_str(&mut time, " ");
    append_str(&mut time, date_text.as_str());
    let mut name = String::new();
    append_str(&mut name, domain);
    let ghost n = domain_stats.log@.len();
    domain_stats.log.push(LogEntry { domain: name, ip, path, event, time });
    proof {
        reveal_strlit(" ");
        assert(domain_stats.log@.subrange(0, n as int) =~= old(domain_stats).log@);
        assert(decimal(elapsed_millis as nat) + " "@ =~= decimal(elapsed_millis as nat).push(' '));
        assert(name@ =~= domain@);
    }
}

/// Logs one request for `domain` from `ip`, stamped with the milliseconds
/// since `start_time`, when the request arrived, and with the local time.
pub fn logger(
    domain: &str,
    ip: IpAddress,
    path: Option<String>,
    event: &'static str,
    domain_stats: &mut ProxyDomainStats,
    start_time: Instant,
)
    ensures
        crate::statistics::logged(*old(domain_stats), *final(domain_stats), domain@, ip, opt_text(path), event),
        final(domain_stats).log@[old(domain_stats).log@.len() as int].path == path,
        exists|ms: u128, date: Seq<char>|
            is_date_text(date) && final(domain_stats).log@[old(domain_stats).log@.len() as int].time@
                == #[trigger] log_time(ms, date),
        is_date_text(final(domain_stats).last_active@),
{
    let last_active = local_time_formatted("%d/%m/%Y, %H:%M:%S");
    let formatted_date = local_time_formatted("%d/%m/%Y, %H:%M:%S");
    let elapsed = millis_since(&start_time);
    append_log_entry(domain_stats, domain, ip, path, event, elapsed, last_active, formatted_date);
}

} // verus!
