use vert_frag_viewer::calendar::{civil_from_days, date_from_unix_seconds};

#[test]
fn epoch_is_first_of_january_1970() {
    assert_eq!(civil_from_days(0), (1970, 1, 1));
}

#[test]
fn day_before_epoch() {
    assert_eq!(civil_from_days(-1), (1969, 12, 31));
}

#[test]
fn known_dates() {
    assert_eq!(civil_from_days(19723), (2024, 1, 1));
    assert_eq!(civil_from_days(11016), (2000, 2, 29));
    assert_eq!(civil_from_days(-135080), (1600, 3, 1));
    assert_eq!(civil_from_days(47540), (2100, 2, 28));
    assert_eq!(civil_from_days(47541), (2100, 3, 1));
}

#[test]
fn consecutive_days_are_consecutive_dates() {
    let mut previous = civil_from_days(-800);
    for days in -799..800 {
        let date = civil_from_days(days);
        let (y, m, d) = previous;
        let expected_next = if d < days_in_month(y, m) {
            (y, m, d + 1)
        } else if m < 12 {
            (y, m + 1, 1)
        } else {
            (y + 1, 1, 1)
        };
        assert_eq!(date, expected_next);
        previous = date;
    }
}

fn days_in_month(y: i64, m: u32) -> u32 {
    let leap = (y % 4 == 0 && y % 100 != 0) || y % 400 == 0;
    match m {
        2 => if leap { 29 } else { 28 },
        4 | 6 | 9 | 11 => 30,
        _ => 31,
    }
}

#[test]
fn unix_seconds_split_into_date_and_time_of_day() {
    assert_eq!(date_from_unix_seconds(0), (1970, 1, 1, 0));
    assert_eq!(date_from_unix_seconds(-1), (1969, 12, 31, 86_399));
    assert_eq!(date_from_unix_seconds(19723 * 86_400 + 3_661), (2024, 1, 1, 3_661));
}

#[test]
fn largest_unix_second_has_a_date() {
    let (_, month, day, time_of_day) = date_from_unix_seconds(i64::MAX);
    assert!((1..=12).contains(&month));
    assert!((1..=31).contains(&day));
    assert!((0..86_400).contains(&time_of_day));
}
