use vstd::prelude::*;
use vstd::string::StringExecFns;

use crate::calendar::{
    date_of_day, lemma_date_of_day_period, days_before_month, days_before_year, days_in_month, days_in_year,
    lemma_date_of_day, lemma_days_before_month_bounds, lemma_days_before_year_lower,
    lemma_months_fill_year, weekday_of_day,
};
use crate::decimal::{decimal, push_decimal};

verus! {

/// Three-letter English name of a day of the week (0 is Monday).
pub open spec fn day_name(week_day: int) -> Seq<char> {
    if week_day == 0 {
        "Mon"@
    } else if week_day == 1 {
        "Tue"@
    } else if week_day == 2 {
        "Wed"@
    } else if week_day == 3 {
        "Thu"@
    } else if week_day == 4 {
        "Fri"@
    } else if week_day == 5 {
        "Sat"@
    } else {
        "Sun"@
    }
}

/// Three-letter English name of a month (1 is January).
pub open spec fn month_name(month: int) -> Seq<char> {
    if month == 1 {
        "Jan"@
    } else if month == 2 {
        "Feb"@
    } else if month == 3 {
        "Mar"@
    } else if month == 4 {
        "Apr"@
    } else if month == 5 {
        "May"@
    } else if month == 6 {
        "Jun"@
    } else if month == 7 {
        "Jul"@
    } else if month == 8 {
        "Aug"@
    } else if month == 9 {
        "Sep"@
    } else if month == 10 {
        "Oct"@
    } else if month == 11 {
        "Nov"@
    } else {
        "Dec"@
    }
}

/// Decimal representation of `n`, with a leading zero below ten.
pub open spec fn two_digits(n: nat) -> Seq<char> {
    if n <= 9 {
        seq!['0'] + decimal(n)
    } else {
        decimal(n)
    }
}

/// The date line `"Www, DD Mmm YYYY hh:mm:ss UTC"` of the given fields.
pub open spec fn date_text(
    week_day: int,
    day: nat,
    month: int,
    year: nat,
    hour: nat,
    minute: nat,
    second: nat,
) -> Seq<char> {
    day_name(week_day) + ", "@ + two_digits(day) + " "@ + month_name(month) + " "@ + decimal(year)
        + " "@ + two_digits(hour) + ":"@ + two_digits(minute) + ":"@ + two_digits(second)
        + " UTC"@
}

/// The day of January 1970 that the date line names wrongly: its last day,
/// 31 January, which reads as day 0 of February.
pub open spec fn last_day_of_january_1970() -> int {
    30
}

/// The `(year, month, day)` that the date line gives for the day `total_days`
/// after 1 January 1970: its calendar date, except that 31 January 1970 reads
/// as day 0 of February 1970.
pub open spec fn date_line_fields(total_days: int) -> (int, int, int) {
    if total_days == last_day_of_january_1970() {
        (1970, 2, 0)
    } else {
        date_of_day(total_days)
    }
}

/// The date line of the instant `total_seconds` seconds after
/// 1 January 1970 00:00:00 UTC.
pub open spec fn http_date(total_seconds: nat) -> Seq<char> {
    let total_days = total_seconds / 86400;
    let (year, month, day) = date_line_fields(total_days as int);
    date_text(
        weekday_of_day(total_days as int),
        day as nat,
        month,
        year as nat,
        (total_seconds / 3600) % 24,
        (total_seconds / 60) % 60,
        total_seconds % 60,
    )
}

/// The day part of a date line: `"Www, DD Mmm YYYY"`.
pub open spec fn day_text(total_days: int) -> Seq<char> {
    let (year, month, day) = date_line_fields(total_days);
    day_name(weekday_of_day(total_days)) + ", "@ + two_digits(day as nat) + " "@ + month_name(month)
        + " "@ + decimal(year as nat)
}

/// The time part of a date line: `"hh:mm:ss"` of a second of the day.
pub open spec fn time_text(second_of_day: nat) -> Seq<char> {
    two_digits(second_of_day / 3600) + ":"@ + two_digits((second_of_day / 60) % 60) + ":"@
        + two_digits(second_of_day % 60)
}

/// The hour, minute and second of an instant depend on its second of the day
/// alone.
proof fn lemma_time_of_day(total_seconds: nat)
    ensures
        (total_seconds / 3600) % 24 == (total_seconds % 86400) / 3600,
        (total_seconds / 60) % 60 == ((total_seconds % 86400) / 60) % 60,
        total_seconds % 60 == (total_seconds % 86400) % 60,
{
    let r = total_seconds % 86400;
    let q = total_seconds / 86400;
    assert(total_seconds == 86400 * q + r);
    assert((total_seconds / 3600) % 24 == r / 3600) by (nonlinear_arith)
        requires
            total_seconds == 86400 * q + r,
            0 <= r < 86400,
            q >= 0,
    ;
    assert((total_seconds / 60) % 60 == (r / 60) % 60) by (nonlinear_arith)
        requires
            total_seconds == 86400 * q + r,
            0 <= r < 86400,
            q >= 0,
    ;
    assert(total_seconds % 60 == r % 60) by (nonlinear_arith)
        requires
            total_seconds == 86400 * q + r,
            0 <= r < 86400,
            q >= 0,
    ;
}

/// A date line is the day part of its day, then the time part of its second
/// of the day: the date depends on the day alone, the time on the second of
/// the day alone.
#[verifier::spinoff_prover]
#[verifier::rlimit(50)]
pub proof fn lemma_http_date_parts(total_seconds: nat)
    ensures
        http_date(total_seconds) == day_text((total_seconds / 86400) as int) + " "@ + time_text(
            total_seconds % 86400,
        ) + " UTC"@,
{
    let r = total_seconds % 86400;
    let q = total_seconds / 86400;
    lemma_time_of_day(total_seconds);
    assert(http_date(total_seconds) =~= day_text(q as int) + " "@ + time_text(r) + " UTC"@);
}

/// The day names are the English three-letter abbreviations, from Monday
/// (day 0 of the week) to Sunday (day 6).
pub proof fn lemma_day_names_table()
    ensures
        ({
        &&& day_name(0) == seq!['M', 'o', 'n']
        &&& day_name(1) == seq!['T', 'u', 'e']
        &&& day_name(2) == seq!['W', 'e', 'd']
        &&& day_name(3) == seq!['T', 'h', 'u']
        &&& day_name(4) == seq!['F', 'r', 'i']
        &&& day_name(5) == seq!['S', 'a', 't']
        &&& day_name(6) == seq!['S', 'u', 'n']
        }),
{
    reveal_strlit("Mon");
    reveal_strlit("Tue");
    reveal_strlit("Wed");
    reveal_strlit("Thu");
    reveal_strlit("Fri");
    reveal_strlit("Sat");
    reveal_strlit("Sun");
}

/// Different days of the week have different names.
pub proof fn lemma_day_names_distinct(a: int, b: int)
    requires
        0 <= a < 7,
        0 <= b < 7,
    ensures
        day_name(a) == day_name(b) <==> a == b,
{
    reveal_strlit("Mon");
    reveal_strlit("Tue");
    reveal_strlit("Wed");
    reveal_strlit("Thu");
    reveal_strlit("Fri");
    reveal_strlit("Sat");
    reveal_strlit("Sun");
    if a != b {
        assert(day_name(a)[0] != day_name(b)[0] || day_name(a)[1] != day_name(b)[1]);
    }
}

/// A date line starts with the name of its weekday: two instants share it
/// exactly when their day counts agree modulo seven.
#[verifier::spinoff_prover]
#[verifier::rlimit(50)]
pub proof fn lemma_http_date_weekday(s1: nat, s2: nat)
    ensures
        http_date(s1).take(3) == day_name(weekday_of_day((s1 / 86400) as int)),
        (http_date(s1).take(3) == http_date(s2).take(3)) <==> ((s1 / 86400) % 7 == (s2 / 86400)
            % 7),
{
    reveal_strlit("Mon");
    reveal_strlit("Tue");
    reveal_strlit("Wed");
    reveal_strlit("Thu");
    reveal_strlit("Fri");
    reveal_strlit("Sat");
    reveal_strlit("Sun");
    let w1 = weekday_of_day((s1 / 86400) as int);
    let w2 = weekday_of_day((s2 / 86400) as int);
    assert(day_name(w1).len() == 3);
    assert(day_name(w2).len() == 3);
    assert(http_date(s1).take(3) =~= day_name(w1));
    assert(http_date(s2).take(3) =~= day_name(w2));
    lemma_day_names_distinct(w1, w2);
    assert(w1 == w2 <==> (s1 / 86400) % 7 == (s2 / 86400) % 7);
}

/// The date line repeats after 400 years (146097 days, a whole number of
/// weeks): the same weekday, day, month and time, with the year 400 more.
#[verifier::spinoff_prover]
#[verifier::rlimit(50)]
pub proof fn lemma_http_date_period(total_seconds: nat)
    requires
        total_seconds >= 2678400,
    ensures
        ({
            let total_days = total_seconds / 86400;
            let (year, month, day) = date_of_day(total_days as int);
            let date = |y: int|
                date_text(
                    weekday_of_day(total_days as int),
                    day as nat,
                    month,
                    y as nat,
                    (total_seconds / 3600) % 24,
                    (total_seconds / 60) % 60,
                    total_seconds % 60,
                );
            &&& http_date(total_seconds) == date(year)
            &&& http_date(total_seconds + 12622780800) == date(year + 400)
        }),
{
    let total_days = total_seconds / 86400;
    let later = total_seconds + 12622780800;
    let x = total_seconds as int;
    let q = x / 86400;
    let r = x % 86400;
    assert(later == 86400 * (q + 146097) + r);
    vstd::arithmetic::div_mod::lemma_div_multiples_vanish_fancy(q + 146097, r, 86400);
    vstd::arithmetic::div_mod::lemma_mod_multiples_vanish(q + 146097, r, 86400);
    vstd::arithmetic::div_mod::lemma_small_mod(r as nat, 86400);
    assert(later / 86400 == total_days + 146097);
    assert(later % 86400 == total_seconds % 86400);
    lemma_time_of_day(total_seconds);
    lemma_time_of_day(later);
    lemma_date_of_day_period(total_days as int);
    crate::calendar::lemma_date_of_day_exists(total_days as int);
    let (y, m, d) = date_of_day(total_days as int);
    assert(crate::calendar::is_date_of_day(total_days as int, y, m, d));
    crate::calendar::lemma_days_before_year_lower(y);
}

/// The month names are the English three-letter abbreviations, January to
/// December, and no two months share a name: the date line tells its month.
pub proof fn lemma_month_names(a: int, b: int)
    requires
        1 <= a <= 12,
        1 <= b <= 12,
    ensures
        ({
        &&& month_name(1) == seq!['J', 'a', 'n']
        &&& month_name(2) == seq!['F', 'e', 'b']
        &&& month_name(3) == seq!['M', 'a', 'r']
        &&& month_name(4) == seq!['A', 'p', 'r']
        &&& month_name(5) == seq!['M', 'a', 'y']
        &&& month_name(6) == seq!['J', 'u', 'n']
        &&& month_name(7) == seq!['J', 'u', 'l']
        &&& month_name(8) == seq!['A', 'u', 'g']
        &&& month_name(9) == seq!['S', 'e', 'p']
        &&& month_name(10) == seq!['O', 'c', 't']
        &&& month_name(11) == seq!['N', 'o', 'v']
        &&& month_name(12) == seq!['D', 'e', 'c']
        }),
        month_name(a).len() == 3,
        month_name(a) == month_name(b) <==> a == b,
{
    reveal_strlit("Jan");
    reveal_strlit("Feb");
    reveal_strlit("Mar");
    reveal_strlit("Apr");
    reveal_strlit("May");
    reveal_strlit("Jun");
    reveal_strlit("Jul");
    reveal_strlit("Aug");
    reveal_strlit("Sep");
    reveal_strlit("Oct");
    reveal_strlit("Nov");
    reveal_strlit("Dec");
    if a != b {
        assert(month_name(a)[0] != month_name(b)[0] || month_name(a)[1] != month_name(b)[1]
            || month_name(a)[2] != month_name(b)[2]);
    }
}

pub const HTTP_CONTINUE: i32 = 100;
pub const HTTP_OK: i32 = 200;
pub const HTTP_CREATED: i32 = 201;
pub const HTTP_ACCEPTED: i32 = 202;
pub const HTTP_NOT_AUTHORITATIVE: i32 = 203;
pub const HTTP_NO_CONTENT: i32 = 204;
pub const HTTP_RESET: i32 = 205;
pub const HTTP_PARTIAL: i32 = 206;
pub const HTTP_MULT_CHOICE: i32 = 300;
pub const HTTP_MOVED_PERM: i32 = 301;
pub const HTTP_MOVED_TEMP: i32 = 302;
pub const HTTP_SEE_OTHER: i32 = 303;
pub const HTTP_NOT_MODIFIED: i32 = 304;
pub const HTTP_USE_PROXY: i32 = 305;
pub const HTTP_BAD_REQUEST: i32 = 400;
pub const HTTP_UNAUTHORIZED: i32 = 401;
pub const HTTP_PAYMENT_REQUIRED: i32 = 402;
pub const HTTP_FORBIDDEN: i32 = 403;
pub const HTTP_NOT_FOUND: i32 = 404;
pub const HTTP_BAD_METHOD: i32 = 405;
pub const HTTP_NOT_ACCEPTABLE: i32 = 406;
pub const HTTP_PROXY_AUTH: i32 = 407;
pub const HTTP_CLIENT_TIMEOUT: i32 = 408;
pub const HTTP_CONFLICT: i32 = 409;
pub const HTTP_GONE: i32 = 410;
pub const HTTP_LENGTH_REQUIRED: i32 = 411;
pub const HTTP_PRECON_FAILED: i32 = 412;
pub const HTTP_ENTITY_TOO_LARGE: i32 = 413;
pub const HTTP_REQ_TOO_LONG: i32 = 414;
pub const HTTP_UNSUPPORTED_TYPE: i32 = 415;
pub const HTTP_INTERNAL_ERROR: i32 = 500;
pub const HTTP_NOT_IMPLEMENTED: i32 = 501;
pub const HTTP_BAD_GATEWAY: i32 = 502;
pub const HTTP_UNAVAILABLE: i32 = 503;
pub const HTTP_GATEWAY_TIMEOUT: i32 = 504;
pub const HTTP_VERSION: i32 = 505;

/// Reason phrase of a status code, led by a space; a lone space for a code
/// without one.
pub open spec fn code_text(code: i32) -> Seq<char> {
    if code == HTTP_OK {
        " OK"@
    } else if code == HTTP_CONTINUE {
        " Continue"@
    } else if code == HTTP_CREATED {
        " Created"@
    } else if code == HTTP_ACCEPTED {
        " Accepted"@
    } else if code == HTTP_NOT_AUTHORITATIVE {
        " Non-Authoritative Information"@
    } else if code == HTTP_NO_CONTENT {
        " No Content"@
    } else if code == HTTP_RESET {
        " Reset Content"@
    } else if code == HTTP_PARTIAL {
        " Partial Content"@
    } else if code == HTTP_MULT_CHOICE {
        " Multiple Choices"@
    } else if code == HTTP_MOVED_PERM {
        " Moved Permanently"@
    } else if code == HTTP_MOVED_TEMP {
        " Temporary Redirect"@
    } else if code == HTTP_SEE_OTHER {
        " See Other"@
    } else if code == HTTP_NOT_MODIFIED {
        " Not Modified"@
    } else if code == HTTP_USE_PROXY {
        " Use Proxy"@
    } else if code == HTTP_BAD_REQUEST {
        " Bad Request"@
    } else if code == HTTP_UNAUTHORIZED {
        " Unauthorized"@
    } else if code == HTTP_PAYMENT_REQUIRED {
        " Payment Required"@
    } else if code == HTTP_FORBIDDEN {
        " Forbidden"@
    } else if code == HTTP_NOT_FOUND {
        " Not Found"@
    } else if code == HTTP_BAD_METHOD {
        " Method Not Allowed"@
    } else if code == HTTP_NOT_ACCEPTABLE {
        " Not Acceptable"@
    } else if code == HTTP_PROXY_AUTH {
        " Proxy Authentication Required"@
    } else if code == HTTP_CLIENT_TIMEOUT {
        " Request Time-Out"@
    } else if code == HTTP_CONFLICT {
        " Conflict"@
    } else if code == HTTP_GONE {
        " Gone"@
    } else if code == HTTP_LENGTH_REQUIRED {
        " Length Required"@
    } else if code == HTTP_PRECON_FAILED {
        " Precondition Failed"@
    } else if code == HTTP_ENTITY_TOO_LARGE {
        " Request Entity Too Large"@
    } else if code == HTTP_REQ_TOO_LONG {
        " Request-URI Too Large"@
    } else if code == HTTP_UNSUPPORTED_TYPE {
        " Unsupported Media Type"@
    } else if code == HTTP_INTERNAL_ERROR {
        " Internal Server Error"@
    } else if code == HTTP_NOT_IMPLEMENTED {
        " Not Implemented"@
    } else if code == HTTP_BAD_GATEWAY {
        " Bad Gateway"@
    } else if code == HTTP_UNAVAILABLE {
        " Service Unavailable"@
    } else if code == HTTP_GATEWAY_TIMEOUT {
        " Gateway Timeout"@
    } else if code == HTTP_VERSION {
        " HTTP Version Not Supported"@
    } else {
        " "@
    }
}

/// Whether `code` is one of the status codes that have a reason phrase.
pub open spec fn is_named_code(code: i32) -> bool {
    code == HTTP_OK || code == HTTP_CONTINUE || code == HTTP_CREATED || code == HTTP_ACCEPTED || code == HTTP_NOT_AUTHORITATIVE || code == HTTP_NO_CONTENT || code == HTTP_RESET || code == HTTP_PARTIAL || code == HTTP_MULT_CHOICE || code == HTTP_MOVED_PERM || code == HTTP_MOVED_TEMP || code == HTTP_SEE_OTHER || code == HTTP_NOT_MODIFIED || code == HTTP_USE_PROXY || code == HTTP_BAD_REQUEST || code == HTTP_UNAUTHORIZED || code == HTTP_PAYMENT_REQUIRED || code == HTTP_FORBIDDEN || code == HTTP_NOT_FOUND || code == HTTP_BAD_METHOD || code == HTTP_NOT_ACCEPTABLE || code == HTTP_PROXY_AUTH || code == HTTP_CLIENT_TIMEOUT || code == HTTP_CONFLICT || code == HTTP_GONE || code == HTTP_LENGTH_REQUIRED || code == HTTP_PRECON_FAILED || code == HTTP_ENTITY_TOO_LARGE || code == HTTP_REQ_TOO_LONG || code == HTTP_UNSUPPORTED_TYPE || code == HTTP_INTERNAL_ERROR || code == HTTP_NOT_IMPLEMENTED || code == HTTP_BAD_GATEWAY || code == HTTP_UNAVAILABLE || code == HTTP_GATEWAY_TIMEOUT || code == HTTP_VERSION
}

/// The reason phrases are the standard ones, each led by a space; a code
/// without one reads as a lone space; only 200 reads `" OK"`; and no two codes
/// share a phrase, so the status line tells its code's phrase apart.
#[verifier::rlimit(100)]
pub proof fn lemma_code_texts(a: i32, b: i32)
    ensures
        ({
        &&& code_text(HTTP_OK) == seq![' ', 'O', 'K']
        &&& code_text(HTTP_CONTINUE) == seq![' ', 'C', 'o', 'n', 't', 'i', 'n', 'u', 'e']
        &&& code_text(HTTP_CREATED) == seq![' ', 'C', 'r', 'e', 'a', 't', 'e', 'd']
        &&& code_text(HTTP_ACCEPTED) == seq![' ', 'A', 'c', 'c', 'e', 'p', 't', 'e', 'd']
        &&& code_text(HTTP_NOT_AUTHORITATIVE) == seq![' ', 'N', 'o', 'n', '-', 'A', 'u', 't', 'h', 'o', 'r', 'i', 't', 'a', 't', 'i', 'v', 'e', ' ', 'I', 'n', 'f', 'o', 'r', 'm', 'a', 't', 'i', 'o', 'n']
        &&& code_text(HTTP_NO_CONTENT) == seq![' ', 'N', 'o', ' ', 'C', 'o', 'n', 't', 'e', 'n', 't']
        &&& code_text(HTTP_RESET) == seq![' ', 'R', 'e', 's', 'e', 't', ' ', 'C', 'o', 'n', 't', 'e', 'n', 't']
        &&& code_text(HTTP_PARTIAL) == seq![' ', 'P', 'a', 'r', 't', 'i', 'a', 'l', ' ', 'C', 'o', 'n', 't', 'e', 'n', 't']
        &&& code_text(HTTP_MULT_CHOICE) == seq![' ', 'M', 'u', 'l', 't', 'i', 'p', 'l', 'e', ' ', 'C', 'h', 'o', 'i', 'c', 'e', 's']
        &&& code_text(HTTP_MOVED_PERM) == seq![' ', 'M', 'o', 'v', 'e', 'd', ' ', 'P', 'e', 'r', 'm', 'a', 'n', 'e', 'n', 't', 'l', 'y']
        &&& code_text(HTTP_MOVED_TEMP) == seq![' ', 'T', 'e', 'm', 'p', 'o', 'r', 'a', 'r', 'y', ' ', 'R', 'e', 'd', 'i', 'r', 'e', 'c', 't']
        &&& code_text(HTTP_SEE_OTHER) == seq![' ', 'S', 'e', 'e', ' ', 'O', 't', 'h', 'e', 'r']
        &&& code_text(HTTP_NOT_MODIFIED) == seq![' ', 'N', 'o', 't', ' ', 'M', 'o', 'd', 'i', 'f', 'i', 'e', 'd']
        &&& code_text(HTTP_USE_PROXY) == seq![' ', 'U', 's', 'e', ' ', 'P', 'r', 'o', 'x', 'y']
        &&& code_text(HTTP_BAD_REQUEST) == seq![' ', 'B', 'a', 'd', ' ', 'R', 'e', 'q', 'u', 'e', 's', 't']
        &&& code_text(HTTP_UNAUTHORIZED) == seq![' ', 'U', 'n', 'a', 'u', 't', 'h', 'o', 'r', 'i', 'z', 'e', 'd']
        &&& code_text(HTTP_PAYMENT_REQUIRED) == seq![' ', 'P', 'a', 'y', 'm', 'e', 'n', 't', ' ', 'R', 'e', 'q', 'u', 'i', 'r', 'e', 'd']
        &&& code_text(HTTP_FORBIDDEN) == seq![' ', 'F', 'o', 'r', 'b', 'i', 'd', 'd', 'e', 'n']
        &&& code_text(HTTP_NOT_FOUND) == seq![' ', 'N', 'o', 't', ' ', 'F', 'o', 'u', 'n', 'd']
        &&& code_text(HTTP_BAD_METHOD) == seq![' ', 'M', 'e', 't', 'h', 'o', 'd', ' ', 'N', 'o', 't', ' ', 'A', 'l', 'l', 'o', 'w', 'e', 'd']
        &&& code_text(HTTP_NOT_ACCEPTABLE) == seq![' ', 'N', 'o', 't', ' ', 'A', 'c', 'c', 'e', 'p', 't', 'a', 'b', 'l', 'e']
        &&& code_text(HTTP_PROXY_AUTH) == seq![' ', 'P', 'r', 'o', 'x', 'y', ' ', 'A', 'u', 't', 'h', 'e', 'n', 't', 'i', 'c', 'a', 't', 'i', 'o', 'n', ' ', 'R', 'e', 'q', 'u', 'i', 'r', 'e', 'd']
        &&& code_text(HTTP_CLIENT_TIMEOUT) == seq![' ', 'R', 'e', 'q', 'u', 'e', 's', 't', ' ', 'T', 'i', 'm', 'e', '-', 'O', 'u', 't']
        &&& code_text(HTTP_CONFLICT) == seq![' ', 'C', 'o', 'n', 'f', 'l', 'i', 'c', 't']
        &&& code_text(HTTP_GONE) == seq![' ', 'G', 'o', 'n', 'e']
        &&& code_text(HTTP_LENGTH_REQUIRED) == seq![' ', 'L', 'e', 'n', 'g', 't', 'h', ' ', 'R', 'e', 'q', 'u', 'i', 'r', 'e', 'd']
        &&& code_text(HTTP_PRECON_FAILED) == seq![' ', 'P', 'r', 'e', 'c', 'o', 'n', 'd', 'i', 't', 'i', 'o', 'n', ' ', 'F', 'a', 'i', 'l', 'e', 'd']
        &&& code_text(HTTP_ENTITY_TOO_LARGE) == seq![' ', 'R', 'e', 'q', 'u', 'e', 's', 't', ' ', 'E', 'n', 't', 'i', 't', 'y', ' ', 'T', 'o', 'o', ' ', 'L', 'a', 'r', 'g', 'e']
        &&& code_text(HTTP_REQ_TOO_LONG) == seq![' ', 'R', 'e', 'q', 'u', 'e', 's', 't', '-', 'U', 'R', 'I', ' ', 'T', 'o', 'o', ' ', 'L', 'a', 'r', 'g', 'e']
        &&& code_text(HTTP_UNSUPPORTED_TYPE) == seq![' ', 'U', 'n', 's', 'u', 'p', 'p', 'o', 'r', 't', 'e', 'd', ' ', 'M', 'e', 'd', 'i', 'a', ' ', 'T', 'y', 'p', 'e']
        &&& code_text(HTTP_INTERNAL_ERROR) == seq![' ', 'I', 'n', 't', 'e', 'r', 'n', 'a', 'l', ' ', 'S', 'e', 'r', 'v', 'e', 'r', ' ', 'E', 'r', 'r', 'o', 'r']
        &&& code_text(HTTP_NOT_IMPLEMENTED) == seq![' ', 'N', 'o', 't', ' ', 'I', 'm', 'p', 'l', 'e', 'm', 'e', 'n', 't', 'e', 'd']
        &&& code_text(HTTP_BAD_GATEWAY) == seq![' ', 'B', 'a', 'd', ' ', 'G', 'a', 't', 'e', 'w', 'a', 'y']
        &&& code_text(HTTP_UNAVAILABLE) == seq![' ', 'S', 'e', 'r', 'v', 'i', 'c', 'e', ' ', 'U', 'n', 'a', 'v', 'a', 'i', 'l', 'a', 'b', 'l', 'e']
        &&& code_text(HTTP_GATEWAY_TIMEOUT) == seq![' ', 'G', 'a', 't', 'e', 'w', 'a', 'y', ' ', 'T', 'i', 'm', 'e', 'o', 'u', 't']
        &&& code_text(HTTP_VERSION) == seq![' ', 'H', 'T', 'T', 'P', ' ', 'V', 'e', 'r', 's', 'i', 'o', 'n', ' ', 'N', 'o', 't', ' ', 'S', 'u', 'p', 'p', 'o', 'r', 't', 'e', 'd']
        }),
        !is_named_code(a) ==> code_text(a) == seq![' '],
        code_text(a) == seq![' ', 'O', 'K'] <==> a == HTTP_OK,
        is_named_code(a) && is_named_code(b) && code_text(a) == code_text(b) ==> a == b,
{
    reveal_strlit(" OK");
    reveal_strlit(" Continue");
    reveal_strlit(" Created");
    reveal_strlit(" Accepted");
    reveal_strlit(" Non-Authoritative Information");
    reveal_strlit(" No Content");
    reveal_strlit(" Reset Content");
    reveal_strlit(" Partial Content");
    reveal_strlit(" Multiple Choices");
    reveal_strlit(" Moved Permanently");
    reveal_strlit(" Temporary Redirect");
    reveal_strlit(" See Other");
    reveal_strlit(" Not Modified");
    reveal_strlit(" Use Proxy");
    reveal_strlit(" Bad Request");
    reveal_strlit(" Unauthorized");
    reveal_strlit(" Payment Required");
    reveal_strlit(" Forbidden");
    reveal_strlit(" Not Found");
    reveal_strlit(" Method Not Allowed");
    reveal_strlit(" Not Acceptable");
    reveal_strlit(" Proxy Authentication Required");
    reveal_strlit(" Request Time-Out");
    reveal_strlit(" Conflict");
    reveal_strlit(" Gone");
    reveal_strlit(" Length Required");
    reveal_strlit(" Precondition Failed");
    reveal_strlit(" Request Entity Too Large");
    reveal_strlit(" Request-URI Too Large");
    reveal_strlit(" Unsupported Media Type");
    reveal_strlit(" Internal Server Error");
    reveal_strlit(" Not Implemented");
    reveal_strlit(" Bad Gateway");
    reveal_strlit(" Service Unavailable");
    reveal_strlit(" Gateway Timeout");
    reveal_strlit(" HTTP Version Not Supported");
    reveal_strlit(" ");
    if a != HTTP_OK {
        assert(code_text(a).len() != 3 || code_text(a)[1] != 'O' || code_text(a)[2] != 'K');
        assert(code_text(a) != seq![' ', 'O', 'K']);
    } else {
        assert(code_text(a) =~= seq![' ', 'O', 'K']);
    }
    if is_named_code(a) && is_named_code(b) && a != b {
        assert(code_text(a).len() != code_text(b).len() || code_text(a)[1] != code_text(b)[1]
            || code_text(a)[2] != code_text(b)[2] || code_text(a)[3] != code_text(b)[3]
            || code_text(a)[4] != code_text(b)[4] || code_text(a)[5] != code_text(b)[5]
            || code_text(a)[6] != code_text(b)[6]);
    }
}


/// The first instant that `HttpConstants::get_formatted_date` formats:
/// 31 January 1970 00:00:00 UTC. Before it the day loop would step back past
/// the start of January.
pub const FIRST_FORMATTED_SECOND: u64 = 2592000;

#[verifier::external_type_specification]
#[verifier::external_body]
pub struct ExSystemTime(std::time::SystemTime);

/// Calls `std::time::SystemTime::now`. Nothing is stated of the result: it is
/// the time of the call.
#[verifier::external_body]
fn clock_now() -> (res: std::time::SystemTime) {
    std::time::SystemTime::now()
}

/// Calls `SystemTime::duration_since(UNIX_EPOCH)`: the time from
/// 1 January 1970 UTC to `time`, or `None` for the call's error, which it gives
/// where `time` is earlier. Nothing is stated of the duration, whose contents
/// Verus does not see.
#[verifier::external_body]
fn elapsed_since_epoch(time: &std::time::SystemTime) -> (res: Option<std::time::Duration>) {
    time.duration_since(std::time::UNIX_EPOCH).ok()
}

/// Calls `Duration::as_secs`: the whole seconds of `duration`. Nothing is
/// stated of the result, since Verus does not see inside a `Duration`.
#[verifier::external_body]
fn whole_seconds(duration: &std::time::Duration) -> (res: u64) {
    duration.as_secs()
}

/// Reads the system clock: whole seconds since 1 January 1970 UTC, or `None`
/// where the clock is set before that instant.
fn system_clock_seconds() -> (res: Option<u64>) {
    let now = clock_now();
    match elapsed_since_epoch(&now) {
        Some(elapsed) => Some(whole_seconds(&elapsed)),
        None => None,
    }
}

/// Date formatting and the reason phrases of status codes.
pub struct HttpConstants {}

impl HttpConstants {
    /// The date line of the current time, read from the system clock; `None`
    /// where the clock reads before 31 January 1970, which the date line cannot
    /// be formed for.
    pub fn get_current_formatted_date() -> (res: Option<String>)
        ensures
            res matches Some(text) ==> exists|t: nat|
                t >= FIRST_FORMATTED_SECOND && #[trigger] http_date(t) == text@,
    {
        Self::format_clock_reading(system_clock_seconds())
    }

    /// The date line of a clock reading in seconds since 1970: `Some` exactly
    /// where the reading is present and at least `FIRST_FORMATTED_SECOND`.
    pub fn format_clock_reading(reading: Option<u64>) -> (res: Option<String>)
        ensures
            match reading {
                Some(t) => if t >= FIRST_FORMATTED_SECOND {
                    res matches Some(text) && text@ == http_date(t as nat)
                } else {
                    res is None
                },
                None => res is None,
            },
    {
        match reading {
            Some(t) => if t >= FIRST_FORMATTED_SECOND {
                Some(Self::get_formatted_date(t))
            } else {
                None
            },
            None => None,
        }
    }

    /// Formats the instant `total_seconds` seconds after 1 January 1970 UTC as
    /// an HTTP date line, e.g. `"Thu, 01 Jan 2015 00:00:00 UTC"`. The last day
    /// of January 1970 reads as `"Sat, 00 Feb 1970"`.
    pub fn get_formatted_date(total_seconds: u64) -> (res: String)
        requires
            total_seconds >= FIRST_FORMATTED_SECOND,
        ensures
            res@ == http_date(total_seconds as nat),
    {
        let seconds = total_seconds % 60;
        let mut minutes = total_seconds / 60;
        let mut hours = minutes / 60;
        minutes %= 60;
        let mut days = 1 + hours / 24;
        let total_days = days - 1;
        hours %= 24;
        let mut months: u64 = 0;
        let mut years: u64 = 1970;
        let mut month_length: u64 = 0;
        proof {
            vstd::arithmetic::div_mod::lemma_div_denominator(total_seconds as int, 60, 60);
            vstd::arithmetic::div_mod::lemma_div_denominator(total_seconds as int, 3600, 24);
            assert(total_days == total_seconds / 86400);
            assert(total_days <= 0xffff_ffff_ffff_ffffu64 / 86400);
        }
        while days > month_length
            invariant
                total_days == total_seconds / 86400,
                total_days <= 0xffff_ffff_ffff_ffffu64 / 86400,
                total_days >= 30,
                months < 12,
                1 <= days || (total_days == 30 && months == 1 && years == 1970 && days == 0
                    && month_length == 28),
                total_days == 30 && month_length != 0 ==> days == 0,
                years >= 1970,
                days_before_year(years as int) + days_before_month(months + 1, years as int) + days
                    - 1 == total_days,
                month_length == 0 ==> months == 0 && years == 1970 && days == total_days + 1,
                month_length != 0 ==> month_length == days_in_month(months + 1, years as int),
            decreases days,
        {
            proof {
                lemma_days_before_month_bounds(months + 1, years as int);
                lemma_days_before_year_lower(years as int);
            }
            month_length = Self::get_month_length(months + 1, years);
            months = (months + 1) % 12;
            days -= month_length;
            month_length = Self::get_month_length(months + 1, years);
            if months == 0 {
                proof {
                    lemma_months_fill_year(years as int);
                    assert(days_before_year(years + 1) == days_before_year(years as int)
                        + days_in_year(years as int));
                }
                years += 1;
            }
        }
        proof {
            if days > 0 {
                lemma_date_of_day(total_days as int, years as int, months + 1, days as int);
            }
        }
        let format_months = months + 1;
        let week_day = (3 + total_days) % 7;

        let mut res = Self::get_day_name(week_day);
        res.append(", ");
        let day_text = Self::buffer_number(days);
        res.append(day_text.as_str());
        res.append(" ");
        let month_text = Self::get_month_name(format_months);
        res.append(month_text.as_str());
        res.append(" ");
        push_decimal(&mut res, years);
        res.append(" ");
        let hour_text = Self::buffer_number(hours);
        res.append(hour_text.as_str());
        res.append(":");
        let minute_text = Self::buffer_number(minutes);
        res.append(minute_text.as_str());
        res.append(":");
        let second_text = Self::buffer_number(seconds);
        res.append(second_text.as_str());
        res.append(" UTC");
        res
    }

    /// Reason phrase of `code`, led by a space (`" OK"` for 200); a lone space
    /// for a code without one.
    pub fn get_code_text(code: i32) -> (res: &'static str)
        ensures
            res@ == code_text(code),
    {
        if code == HTTP_OK {
            " OK"
        } else if code == HTTP_CONTINUE {
            " Continue"
        } else if code == HTTP_CREATED {
            " Created"
        } else if code == HTTP_ACCEPTED {
            " Accepted"
        } else if code == HTTP_NOT_AUTHORITATIVE {
            " Non-Authoritative Information"
        } else if code == HTTP_NO_CONTENT {
            " No Content"
        } else if code == HTTP_RESET {
            " Reset Content"
        } else if code == HTTP_PARTIAL {
            " Partial Content"
        } else if code == HTTP_MULT_CHOICE {
            " Multiple Choices"
        } else if code == HTTP_MOVED_PERM {
            " Moved Permanently"
        } else if code == HTTP_MOVED_TEMP {
            " Temporary Redirect"
        } else if code == HTTP_SEE_OTHER {
            " See Other"
        } else if code == HTTP_NOT_MODIFIED {
            " Not Modified"
        } else if code == HTTP_USE_PROXY {
            " Use Proxy"
        } else if code == HTTP_BAD_REQUEST {
            " Bad Request"
        } else if code == HTTP_UNAUTHORIZED {
            " Unauthorized"
        } else if code == HTTP_PAYMENT_REQUIRED {
            " Payment Required"
        } else if code == HTTP_FORBIDDEN {
            " Forbidden"
        } else if code == HTTP_NOT_FOUND {
            " Not Found"
        } else if code == HTTP_BAD_METHOD {
            " Method Not Allowed"
        } else if code == HTTP_NOT_ACCEPTABLE {
            " Not Acceptable"
        } else if code == HTTP_PROXY_AUTH {
            " Proxy Authentication Required"
        } else if code == HTTP_CLIENT_TIMEOUT {
            " Request Time-Out"
        } else if code == HTTP_CONFLICT {
            " Conflict"
        } else if code == HTTP_GONE {
            " Gone"
        } else if code == HTTP_LENGTH_REQUIRED {
            " Length Required"
        } else if code == HTTP_PRECON_FAILED {
            " Precondition Failed"
        } else if code == HTTP_ENTITY_TOO_LARGE {
            " Request Entity Too Large"
        } else if code == HTTP_REQ_TOO_LONG {
            " Request-URI Too Large"
        } else if code == HTTP_UNSUPPORTED_TYPE {
            " Unsupported Media Type"
        } else if code == HTTP_INTERNAL_ERROR {
            " Internal Server Error"
        } else if code == HTTP_NOT_IMPLEMENTED {
            " Not Implemented"
        } else if code == HTTP_BAD_GATEWAY {
            " Bad Gateway"
        } else if code == HTTP_UNAVAILABLE {
            " Service Unavailable"
        } else if code == HTTP_GATEWAY_TIMEOUT {
            " Gateway Timeout"
        } else if code == HTTP_VERSION {
            " HTTP Version Not Supported"
        } else {
            " "
        }
    }

    /// Number of days of month `months` (1 = January) in `year`; 30 for a
    /// number that names no month.
    pub fn get_month_length(months: u64, year: u64) -> (res: u64)
        ensures
            res == days_in_month(months as int, year as int),
    {
        if months == 1 || months == 3 || months == 5 || months == 7 || months == 8 || months == 10
            || months == 12 {
            return 31;
        } else if months == 2 {
            if year % 4 == 0 && (year % 100 != 0 || year % 400 == 0) {
                return 29;
            }
            return 28;
        }
        30
    }

    /// Three-letter name of `month` (1 = January .. 12 = December).
    pub fn get_month_name(month: u64) -> (res: String)
        requires
            1 <= month <= 12,
        ensures
            res@ == month_name(month as int),
    {
        let name = if month == 1 {
            "Jan"
        } else if month == 2 {
            "Feb"
        } else if month == 3 {
            "Mar"
        } else if month == 4 {
            "Apr"
        } else if month == 5 {
            "May"
        } else if month == 6 {
            "Jun"
        } else if month == 7 {
            "Jul"
        } else if month == 8 {
            "Aug"
        } else if month == 9 {
            "Sep"
        } else if month == 10 {
            "Oct"
        } else if month == 11 {
            "Nov"
        } else {
            "Dec"
        };
        String::from_str(name)
    }

    /// Three-letter name of a day of the week (0 = Monday .. 6 = Sunday).
    pub fn get_day_name(week_day: u64) -> (res: String)
        requires
            week_day < 7,
        ensures
            res@ == day_name(week_day as int),
    {
        let name = if week_day == 0 {
            "Mon"
        } else if week_day == 1 {
            "Tue"
        } else if week_day == 2 {
            "Wed"
        } else if week_day == 3 {
            "Thu"
        } else if week_day == 4 {
            "Fri"
        } else if week_day == 5 {
            "Sat"
        } else {
            "Sun"
        };
        String::from_str(name)
    }

    /// Decimal text of `number`, padded with a leading zero below ten.
    pub fn buffer_number(number: u64) -> (res: String)
        ensures
            res@ == two_digits(number as nat),
    {
        let mut format_number;
        if number <= 9 {
            format_number = String::from_str("0");
            proof {
                reveal_strlit("0");
            }
        } else {
            format_number = String::new();
        }
        push_decimal(&mut format_number, number);
        format_number
    }
}

} // verus!
