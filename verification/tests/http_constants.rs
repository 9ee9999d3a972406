use lib::http_constants::{HttpConstants, FIRST_FORMATTED_SECOND, HTTP_CLIENT_TIMEOUT, HTTP_NOT_FOUND, HTTP_OK};

#[test]
fn formats_first_formatted_second() {
    assert_eq!(HttpConstants::get_formatted_date(FIRST_FORMATTED_SECOND), "Sat, 00 Feb 1970 00:00:00 UTC");
}

#[test]
fn last_day_of_january_1970_reads_as_day_zero_of_february() {
    assert_eq!(HttpConstants::get_formatted_date(2678399), "Sat, 00 Feb 1970 23:59:59 UTC");
    assert_eq!(HttpConstants::get_formatted_date(2678400), "Sun, 01 Feb 1970 00:00:00 UTC");
}

#[test]
fn formats_new_year_2015() {
    assert_eq!(HttpConstants::get_formatted_date(1420070400), "Thu, 01 Jan 2015 00:00:00 UTC");
}

#[test]
fn formats_leap_day_2000() {
    assert_eq!(HttpConstants::get_formatted_date(951782400), "Tue, 29 Feb 2000 00:00:00 UTC");
}

#[test]
fn formats_time_of_day() {
    assert_eq!(HttpConstants::get_formatted_date(1700000000), "Tue, 14 Nov 2023 22:13:20 UTC");
}

#[test]
fn formats_first_of_march_after_common_and_leap_february() {
    assert_eq!(HttpConstants::get_formatted_date(5097600), "Sun, 01 Mar 1970 00:00:00 UTC");
    assert_eq!(HttpConstants::get_formatted_date(68256000), "Wed, 01 Mar 1972 00:00:00 UTC");
    assert_eq!(HttpConstants::get_formatted_date(4107542400), "Mon, 01 Mar 2100 00:00:00 UTC");
}

#[test]
fn formats_last_second_of_year_9999() {
    assert_eq!(HttpConstants::get_formatted_date(253402300799), "Fri, 31 Dec 9999 23:59:59 UTC");
}

#[test]
fn formats_year_3000() {
    assert_eq!(HttpConstants::get_formatted_date(32503680000), "Wed, 01 Jan 3000 00:00:00 UTC");
}

#[test]
fn clock_readings_before_31_january_1970_give_no_date() {
    assert_eq!(HttpConstants::format_clock_reading(None), None);
    assert_eq!(HttpConstants::format_clock_reading(Some(0)), None);
    assert_eq!(HttpConstants::format_clock_reading(Some(FIRST_FORMATTED_SECOND - 1)), None);
    assert_eq!(
        HttpConstants::format_clock_reading(Some(FIRST_FORMATTED_SECOND)),
        Some("Sat, 00 Feb 1970 00:00:00 UTC".to_string())
    );
}

#[test]
fn current_date_is_a_date_line() {
    let text = HttpConstants::get_current_formatted_date().unwrap();
    assert!(text.ends_with(" UTC"));
    assert_eq!(text.len(), "Thu, 01 Jan 2015 00:00:00 UTC".len());
}

#[test]
fn month_lengths() {
    assert_eq!(HttpConstants::get_month_length(1, 2023), 31);
    assert_eq!(HttpConstants::get_month_length(2, 2023), 28);
    assert_eq!(HttpConstants::get_month_length(2, 2024), 29);
    assert_eq!(HttpConstants::get_month_length(2, 1900), 28);
    assert_eq!(HttpConstants::get_month_length(2, 2000), 29);
    assert_eq!(HttpConstants::get_month_length(4, 2023), 30);
    assert_eq!(HttpConstants::get_month_length(8, 2023), 31);
    assert_eq!(HttpConstants::get_month_length(12, 2023), 31);
    assert_eq!(HttpConstants::get_month_length(0, 2023), 30);
    assert_eq!(HttpConstants::get_month_length(13, 2023), 30);
}

#[test]
fn month_and_day_names() {
    assert_eq!(HttpConstants::get_month_name(1), "Jan");
    assert_eq!(HttpConstants::get_month_name(6), "Jun");
    assert_eq!(HttpConstants::get_month_name(12), "Dec");
    assert_eq!(HttpConstants::get_day_name(0), "Mon");
    assert_eq!(HttpConstants::get_day_name(3), "Thu");
    assert_eq!(HttpConstants::get_day_name(6), "Sun");
}

#[test]
fn buffer_number_pads_below_ten() {
    assert_eq!(HttpConstants::buffer_number(0), "00");
    assert_eq!(HttpConstants::buffer_number(7), "07");
    assert_eq!(HttpConstants::buffer_number(9), "09");
    assert_eq!(HttpConstants::buffer_number(10), "10");
    assert_eq!(HttpConstants::buffer_number(59), "59");
    assert_eq!(HttpConstants::buffer_number(2024), "2024");
}

#[test]
fn code_texts() {
    assert_eq!(HttpConstants::get_code_text(HTTP_OK), " OK");
    assert_eq!(HttpConstants::get_code_text(HTTP_NOT_FOUND), " Not Found");
    assert_eq!(HttpConstants::get_code_text(HTTP_CLIENT_TIMEOUT), " Request Time-Out");
    assert_eq!(HttpConstants::get_code_text(100), " Continue");
    assert_eq!(HttpConstants::get_code_text(302), " Temporary Redirect");
    assert_eq!(HttpConstants::get_code_text(505), " HTTP Version Not Supported");
    assert_eq!(HttpConstants::get_code_text(299), " ");
    assert_eq!(HttpConstants::get_code_text(-1), " ");
}

#[test]
fn date_line_repeats_after_four_hundred_years() {
    for t in [2678400u64, 951782400, 1700000000, 4107542400] {
        let now = HttpConstants::get_formatted_date(t);
        let later = HttpConstants::get_formatted_date(t + 12622780800);
        let year: u64 = now.split(' ').nth(3).unwrap().parse().unwrap();
        assert_eq!(later, now.replacen(&format!(" {} ", year), &format!(" {} ", year + 400), 1));
    }
}

#[test]
fn date_part_and_time_part_are_independent() {
    let a = HttpConstants::get_formatted_date(1700000000);
    let b = HttpConstants::get_formatted_date(1700000000 - 1700000000 % 86400);
    let c = HttpConstants::get_formatted_date(1700000000 - 86400 * 3);
    assert_eq!(a[..a.len() - 13], b[..b.len() - 13]);
    assert_eq!(a[a.len() - 12..], c[c.len() - 12..]);
    assert_ne!(a[..3], c[..3]);
}
