use sidekwest::resolver::{
    get_next_day, get_next_day_from, parse_time_of_day, resolve, Date, LocalDateTime, TimeError,
    TimeOfDay,
};
use sidekwest::schedule::event_timestamps;

// 1999-09-03, a Friday, as chrono counts days from the common era.
const FRIDAY: i32 = 730_000;
const MONDAY: i32 = FRIDAY + 3;
const TUESDAY: i32 = FRIDAY + 4;

fn day(n: i32) -> Date {
    Date { days_from_ce: n }
}

#[test]
fn weekday_numbers_follow_chrono() {
    assert_eq!(day(1).weekday(), 0);
    assert_eq!(day(FRIDAY).weekday(), 4);
    assert_eq!(day(0).weekday(), 6);
    assert_eq!(day(-1).weekday(), 5);
    assert_eq!(day(i32::MIN).weekday(), ((i32::MIN as i64 + 6).rem_euclid(7)) as u8);
}

#[test]
fn monday_from_tuesday_advances_six_days() {
    let r = resolve("mon", "9:00AM", day(TUESDAY)).unwrap();
    assert_eq!(r.date, day(TUESDAY + 6));
    assert_eq!(r.time, TimeOfDay { hour: 9, minute: 0 });
}

#[test]
fn monday_from_monday_is_same_day() {
    let r = resolve("mon", "9:00AM", day(MONDAY)).unwrap();
    assert_eq!(r.date, day(MONDAY));
}

#[test]
fn every_prefix_resolves_within_window_to_matching_day() {
    let names = ["mon", "tue", "wed", "thu", "fri", "sat", "sun"];
    let prefixes = ["m", "Tu", "WED", "th", "f", "sa", "SU", "t", "s", ""];
    for start in FRIDAY - 3..FRIDAY + 10 {
        for p in prefixes {
            let d = get_next_day_from(p, day(start)).unwrap();
            let k = d.days_from_ce - start;
            assert!((0..=9).contains(&k));
            let name = names[d.weekday() as usize];
            assert!(name.starts_with(&p.to_ascii_lowercase()));
            for j in 0..k {
                let earlier = names[day(start + j).weekday() as usize];
                assert!(!earlier.starts_with(&p.to_ascii_lowercase()));
            }
        }
    }
}

#[test]
fn prefix_longer_than_three_is_invalid() {
    assert_eq!(get_next_day_from("mond", day(FRIDAY)), Err(TimeError::InvalidInput));
    assert_eq!(resolve("monday", "9AM", day(FRIDAY)), Err(TimeError::InvalidInput));
}

#[test]
fn prefix_of_no_weekday_finds_no_match() {
    assert_eq!(get_next_day_from("xyz", day(FRIDAY)), Err(TimeError::NoMatch));
    assert_eq!(get_next_day_from("mo ", day(FRIDAY)), Err(TimeError::NoMatch));
}

#[test]
fn scan_stops_at_last_representable_day() {
    // i32::MAX is a day whose successor a Date cannot hold.
    let last = day(i32::MAX);
    let w = last.weekday();
    let names = ["mon", "tue", "wed", "thu", "fri", "sat", "sun"];
    assert_eq!(get_next_day_from(names[w as usize], last), Ok(last));
    let other = names[((w + 1) % 7) as usize];
    assert_eq!(get_next_day_from(other, last), Err(TimeError::NoMatch));
}

#[test]
fn time_with_minutes_pm() {
    assert_eq!(parse_time_of_day("7:30PM"), Ok(TimeOfDay { hour: 19, minute: 30 }));
}

#[test]
fn time_without_minutes_am() {
    assert_eq!(parse_time_of_day("7AM"), Ok(TimeOfDay { hour: 7, minute: 0 }));
}

#[test]
fn twelve_pm_keeps_literal_add_twelve() {
    assert_eq!(parse_time_of_day("12PM"), Ok(TimeOfDay { hour: 24, minute: 0 }));
    assert_eq!(parse_time_of_day("12AM"), Ok(TimeOfDay { hour: 12, minute: 0 }));
}

#[test]
fn malformed_time_is_invalid() {
    assert_eq!(parse_time_of_day("25:99XM"), Err(TimeError::InvalidInput));
    assert_eq!(parse_time_of_day(""), Err(TimeError::InvalidInput));
    assert_eq!(parse_time_of_day("7"), Err(TimeError::InvalidInput));
    assert_eq!(parse_time_of_day("7:3PM"), Err(TimeError::InvalidInput));
    assert_eq!(parse_time_of_day("7:60PM"), Err(TimeError::InvalidInput));
    assert_eq!(parse_time_of_day("123PM"), Err(TimeError::InvalidInput));
    assert_eq!(parse_time_of_day("7M"), Err(TimeError::InvalidInput));
    assert_eq!(parse_time_of_day("x7PM"), Err(TimeError::InvalidInput));
}

#[test]
fn time_pattern_details() {
    assert_eq!(parse_time_of_day("  7 pm"), Ok(TimeOfDay { hour: 19, minute: 0 }));
    assert_eq!(parse_time_of_day("\t09:05 a"), Ok(TimeOfDay { hour: 9, minute: 5 }));
    assert_eq!(parse_time_of_day("1:15Pmore"), Ok(TimeOfDay { hour: 13, minute: 15 }));
    assert_eq!(parse_time_of_day("19PM"), Ok(TimeOfDay { hour: 31, minute: 0 }));
    assert_eq!(parse_time_of_day("0AM"), Ok(TimeOfDay { hour: 0, minute: 0 }));
    assert_eq!(parse_time_of_day("\u{3000}8\u{a0}PM"), Ok(TimeOfDay { hour: 20, minute: 0 }));
}

#[test]
fn resolve_checks_weekday_before_time() {
    assert_eq!(resolve("xyz", "bad", day(FRIDAY)), Err(TimeError::NoMatch));
    assert_eq!(resolve("fri", "bad", day(FRIDAY)), Err(TimeError::InvalidInput));
    assert_eq!(
        resolve("Fri", "8PM", day(FRIDAY)),
        Ok(LocalDateTime { date: day(FRIDAY), time: TimeOfDay { hour: 20, minute: 0 } })
    );
}

#[test]
fn hour_twenty_four_has_no_local_timestamp() {
    let dt = LocalDateTime { date: day(FRIDAY), time: TimeOfDay { hour: 24, minute: 0 } };
    assert_eq!(event_timestamps(&vec![None, Some(dt)]), Err(TimeError::InvalidInput));
    let ok = LocalDateTime { date: day(FRIDAY), time: TimeOfDay { hour: 20, minute: 0 } };
    let ts = event_timestamps(&vec![Some(ok)]).unwrap();
    // 1999-09-03 20:00 lies within a day of 1999-09-03 20:00 UTC, whatever the zone.
    assert!((ts[0] - 936_388_800).abs() <= 86_400);
}

#[test]
fn next_day_from_today_matches_prefix() {
    let names = ["mon", "tue", "wed", "thu", "fri", "sat", "sun"];
    for p in ["mon", "Fr", "s"] {
        let d = get_next_day(p).unwrap();
        assert!(names[d.weekday() as usize].starts_with(&p.to_ascii_lowercase()));
    }
    assert_eq!(get_next_day("sunday"), Err(TimeError::InvalidInput));
}
