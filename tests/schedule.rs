use sidekwest::resolver::{Date, TimeError};
use sidekwest::schedule::{
    compile, event_timestamps, messages_to_delete, ping_message, render_announcement,
    resolve_events, Event, PostLocation, Schedule, ScheduleConfig,
};
use sidekwest::snowflake::Snowflake;
use sidekwest::webhook::Webhook;

const FRIDAY: i32 = 730_000;

fn sf(n: u64) -> Snowflake {
    Snowflake::new(n).unwrap()
}

fn event(title: &str, day: &str, time: &str, over: Option<&str>, skip: Option<bool>) -> Event {
    Event {
        title: title.to_string(),
        day_of_week: day.to_string(),
        time_of_day: time.to_string(),
        override_mesg: over.map(str::to_string),
        skip,
    }
}

fn schedule(events: Vec<Event>, header: Option<&str>, footer: Option<&str>) -> Schedule {
    Schedule {
        config: ScheduleConfig {
            timezone: "UTC".to_string(),
            ping_role: sf(555),
            ping_message: "Schedule is up!".to_string(),
            schedule_header: header.map(str::to_string),
            schedule_footer: footer.map(str::to_string),
        },
        post_location: PostLocation {
            guild_id: sf(1),
            channel_id: sf(2),
            message_id: None,
            webhook: Webhook::new(sf(3), "sealed".to_string()),
        },
        events,
    }
}

#[test]
fn renders_header_items_footer_and_update_time() {
    let s = schedule(
        vec![
            event("Raid Night", "Fri", "8PM", None, None),
            event("Chill", "sat", "1PM", Some("Saturday: chill stream"), Some(false)),
            event("Gone", "sun", "2PM", None, Some(true)),
        ],
        Some("Hello!"),
        Some("See you"),
    );
    let text = render_announcement(&s, &vec![1700000000, 5, 6], 1690000000);
    assert_eq!(
        text,
        "Hello!\nStream Schedule:\n- <t:1700000000:F> \u{2b95} Raid Night\n- Saturday: chill stream\n\nSee you\nUpdated at <t:1690000000:f>"
    );
}

#[test]
fn renders_without_header_or_footer() {
    let s = schedule(vec![], None, None);
    assert_eq!(render_announcement(&s, &vec![], 0), "Stream Schedule:\n\nUpdated at <t:0:f>");
}

#[test]
fn skipped_event_never_appears() {
    let s = schedule(
        vec![
            event("Hidden", "xx", "nonsense", None, Some(true)),
            event("Shown", "mon", "9AM", None, None),
        ],
        None,
        None,
    );
    let text = compile(&s, Date { days_from_ce: FRIDAY }, 100).unwrap();
    assert!(!text.contains("Hidden"));
    assert_eq!(text.matches("\n- ").count(), 1);
    assert!(text.contains("\u{2b95} Shown"));
}

#[test]
fn override_is_verbatim_even_with_invalid_day_and_time() {
    let s = schedule(
        vec![event("Title", "nonsense-day", "not a time", Some("Override <b>text</b>"), None)],
        None,
        None,
    );
    let text = compile(&s, Date { days_from_ce: FRIDAY }, 100).unwrap();
    assert_eq!(text, "Stream Schedule:\n- Override <b>text</b>\n\nUpdated at <t:100:f>");
}

#[test]
fn raid_night_end_to_end() {
    let s = schedule(vec![event("Raid Night", "Fri", "8PM", None, None)], None, None);
    let text = s.events_to_message().unwrap();
    assert!(text.contains("\u{2b95} Raid Night"));
    assert_eq!(text.matches("\n- ").count(), 1);
    assert!(text.starts_with("Stream Schedule:\n- <t:"));
}

#[test]
fn resolution_failure_aborts_compilation() {
    let today = Date { days_from_ce: FRIDAY };
    let s = schedule(vec![event("A", "fri", "8PM", None, None), event("B", "mond", "8PM", None, None)], None, None);
    assert_eq!(compile(&s, today, 0), Err(TimeError::InvalidInput));
    let s = schedule(vec![event("A", "qq", "8PM", None, None)], None, None);
    assert_eq!(compile(&s, today, 0), Err(TimeError::NoMatch));
    let s = schedule(vec![event("A", "fri", "12PM", None, None)], None, None);
    assert_eq!(compile(&s, today, 0), Err(TimeError::InvalidInput));
}

#[test]
fn resolution_skips_events_without_time() {
    let today = Date { days_from_ce: FRIDAY };
    let events = vec![
        event("A", "bad", "bad", None, Some(true)),
        event("B", "bad", "bad", Some("x"), None),
        event("C", "sat", "7:30pm", None, Some(false)),
    ];
    let r = resolve_events(&events, today).unwrap();
    assert_eq!(r[0], None);
    assert_eq!(r[1], None);
    let c = r[2].unwrap();
    assert_eq!(c.date.days_from_ce, FRIDAY + 1);
    assert_eq!((c.time.hour, c.time.minute), (19, 30));
    let ts = event_timestamps(&r).unwrap();
    assert_eq!(ts[0], 0);
    assert_eq!(ts[1], 0);
    assert!(ts[2] > 0);
}

#[test]
fn ping_message_mentions_role() {
    let s = schedule(vec![], None, None);
    assert_eq!(ping_message(&s.config), "Schedule is up!\n\n<@&555>");
}

#[test]
fn deletion_set_keeps_sticky_message() {
    let all = vec![sf(5), sf(6), sf(7), sf(6)];
    let del = messages_to_delete(&all, Some(sf(6)));
    assert_eq!(del, vec![sf(5), sf(7)]);
    assert_eq!(messages_to_delete(&all, None), all);
    assert_eq!(messages_to_delete(&all, Some(sf(9))), all);
}

#[test]
fn event_line_is_override_or_time_and_title() {
    let e = event("Raid Night", "fri", "8PM", None, None);
    assert_eq!(e.to_msg_line(1717000000), "<t:1717000000:F> \u{2b95} Raid Night");
    let o = event("Raid Night", "fri", "8PM", Some("custom"), None);
    assert_eq!(o.to_msg_line(1717000000), "custom");
}

#[test]
fn compile_without_times_needs_no_clock() {
    let s = schedule(
        vec![
            event("Off", "zzzz", "never", None, Some(true)),
            event("Over", "qqqq", "nope", Some("Fixed line"), Some(false)),
        ],
        Some("Head"),
        None,
    );
    let text = compile(&s, Date { days_from_ce: FRIDAY }, 42).unwrap();
    assert_eq!(text, "Head\nStream Schedule:\n- Fixed line\n\nUpdated at <t:42:f>");
    assert!(s.events_to_message().unwrap().starts_with("Head\nStream Schedule:\n- Fixed line\n\nUpdated at <t:"));
}
