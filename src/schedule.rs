//! The schedule document and the compilation of its events into one
//! announcement text.

use vstd::prelude::*;
use vstd::string::*;

use crate::digits::{push_signed_decimal, signed_decimal};
use crate::resolver::{
    local_timestamp, local_today, resolve, resolve_spec, utc_now, Date, LocalDateTime, TimeError,
};
use crate::snowflake::Snowflake;
use crate::webhook::Webhook;

verus! {

/// Settings of the announcement.
pub struct ScheduleConfig {
    /// Informational only: times are resolved in the machine's time zone.
    pub timezone: String,
    pub ping_role: Snowflake,
    pub ping_message: String,
    pub schedule_header: Option<String>,
    pub schedule_footer: Option<String>,
}

/// Where the announcement goes.
pub struct PostLocation {
    pub guild_id: Snowflake,
    pub channel_id: Snowflake,
    /// The sticky message to edit instead of posting a new one.
    pub message_id: Option<Snowflake>,
    pub webhook: Webhook,
}

/// One scheduled event.
pub struct Event {
    pub title: String,
    /// A weekday prefix of at most three characters, such as `mon` or `tu`.
    pub day_of_week: String,
    /// A time on a 12-hour clock, such as `7:30PM`.
    pub time_of_day: String,
    /// When present, the event's line is this text, verbatim.
    pub override_mesg: Option<String>,
    /// When `Some(true)`, the event is left out.
    pub skip: Option<bool>,
}

/// The whole schedule document.
pub struct Schedule {
    pub config: ScheduleConfig,
    pub post_location: PostLocation,
    pub events: Vec<Event>,
}

/// Whether the event is left out of the announcement.
pub open spec fn is_skipped(e: Event) -> bool {
    e.skip == Some(true)
}

/// Whether the event's line needs its resolved time: it is shown and has
/// no override.
pub open spec fn needs_time(e: Event) -> bool {
    !is_skipped(e) && e.override_mesg is None
}

/// The line of a shown event: its override, or its time token and title.
pub open spec fn event_line(e: Event, time: i64) -> Seq<char> {
    match e.override_mesg {
        Some(m) => m@,
        None => "<t:"@ + signed_decimal(time as int) + ":F> \u{2b95} "@ + e.title@,
    }
}

/// What one event adds to the announcement: nothing when skipped, else a
/// list item with its line.
pub open spec fn entry(e: Event, time: i64) -> Seq<char> {
    if is_skipped(e) {
        Seq::empty()
    } else {
        "- "@ + event_line(e, time) + "\n"@
    }
}

/// The list items of `events` in order; event `i` is shown with `times[i]`.
pub open spec fn entries(events: Seq<Event>, times: Seq<i64>) -> Seq<char>
    decreases events.len(),
{
    if events.len() == 0 {
        Seq::empty()
    } else {
        entries(events.drop_last(), times) + entry(events.last(), times[events.len() - 1])
    }
}

/// An optional line: the text and a line feed, or nothing.
pub open spec fn optional_line(s: Option<String>) -> Seq<char> {
    match s {
        Some(t) => t@ + "\n"@,
        None => Seq::empty(),
    }
}

/// The announcement text: optional header, the schedule label, one item per
/// shown event, a blank line, optional footer and the update time token.
pub open spec fn announcement(s: Schedule, times: Seq<i64>, now: i64) -> Seq<char> {
    optional_line(s.config.schedule_header) + "Stream Schedule:\n"@ + entries(s.events@, times)
        + "\n"@ + optional_line(s.config.schedule_footer) + "Updated at <t:"@ + signed_decimal(
        now as int,
    ) + ":f>"@
}

/// How one event resolves from `today`: no time is needed for a skipped or
/// overridden event.
pub open spec fn event_resolution(e: Event, today: Date) -> Result<Option<LocalDateTime>, TimeError> {
    if needs_time(e) {
        match resolve_spec(e.day_of_week@, e.time_of_day@, today) {
            Ok(dt) => Ok(Some(dt)),
            Err(x) => Err(x),
        }
    } else {
        Ok(None)
    }
}

/// Whether the first `k` events all resolve.
pub open spec fn all_resolve(events: Seq<Event>, today: Date, k: int) -> bool {
    forall|j: int| 0 <= j < k ==> (#[trigger] event_resolution(events[j], today)) is Ok
}

/// The list items of two runs of events are those of each, one after the
/// other.
pub proof fn lemma_entries_append(a: Seq<Event>, b: Seq<Event>, ta: Seq<i64>, tb: Seq<i64>)
    requires
        ta.len() == a.len(),
        tb.len() == b.len(),
    ensures
        entries(a + b, ta + tb) == entries(a, ta) + entries(b, tb),
    decreases b.len(),
{
    if b.len() == 0 {
        assert(a + b =~= a);
        lemma_entries_prefix_times(a, ta, ta + tb);
        assert(entries(b, tb) =~= Seq::<char>::empty());
        assert(entries(a, ta) + entries(b, tb) =~= entries(a, ta));
    } else {
        let tb1 = tb.drop_last();
        lemma_entries_append(a, b.drop_last(), ta, tb1);
        assert((a + b).drop_last() =~= a + b.drop_last());
        lemma_entries_prefix_times(a + b.drop_last(), ta + tb1, ta + tb);
        lemma_entries_prefix_times(b.drop_last(), tb1, tb);
        assert((ta + tb)[(a + b).len() - 1] == tb[b.len() - 1]);
        assert(entries(a + b, ta + tb) =~= entries(a, ta) + entries(b, tb));
    }
}

/// Times past the events do not matter.
proof fn lemma_entries_prefix_times(events: Seq<Event>, t1: Seq<i64>, t2: Seq<i64>)
    requires
        events.len() <= t1.len(),
        events.len() <= t2.len(),
        forall|i: int| 0 <= i < events.len() ==> t1[i] == t2[i],
    ensures
        entries(events, t1) == entries(events, t2),
    decreases events.len(),
{
    if events.len() > 0 {
        lemma_entries_prefix_times(events.drop_last(), t1, t2);
    }
}

/// A skipped event never shows: leaving it out, with its time, gives the
/// same list items.
pub proof fn lemma_skipped_event_absent(events: Seq<Event>, times: Seq<i64>, i: int)
    requires
        0 <= i < events.len(),
        times.len() == events.len(),
        is_skipped(events[i]),
    ensures
        entries(events, times) == entries(events.remove(i), times.remove(i)),
{
    let a = events.subrange(0, i);
    let b = events.subrange(i + 1, events.len() as int);
    let ta = times.subrange(0, i);
    let tb = times.subrange(i + 1, times.len() as int);
    let one = seq![events[i]];
    let tone = seq![times[i]];
    assert(events =~= a + (one + b));
    assert(times =~= ta + (tone + tb));
    lemma_entries_append(a, one + b, ta, tone + tb);
    lemma_entries_append(one, b, tone, tb);
    assert(one.drop_last() =~= Seq::<Event>::empty());
    reveal_with_fuel(entries, 2);
    assert(entries(one, tone) =~= Seq::<char>::empty());
    assert(events.remove(i) =~= a + b);
    assert(times.remove(i) =~= ta + tb);
    lemma_entries_append(a, b, ta, tb);
    assert(entries(one + b, tone + tb) =~= entries(b, tb));
}

/// A shown event with an override adds exactly `- {override}` and a line
/// feed, whatever its weekday, time of day, title and time are.
pub proof fn lemma_override_verbatim(events: Seq<Event>, times: Seq<i64>, i: int)
    requires
        0 <= i < events.len(),
        times.len() == events.len(),
        !is_skipped(events[i]),
        events[i].override_mesg is Some,
    ensures
        entries(events, times) == entries(events.subrange(0, i), times.subrange(0, i)) + "- "@
            + events[i].override_mesg->0@ + "\n"@ + entries(
            events.subrange(i + 1, events.len() as int),
            times.subrange(i + 1, times.len() as int),
        ),
        needs_time(events[i]) == false,
{
    let a = events.subrange(0, i);
    let b = events.subrange(i + 1, events.len() as int);
    let ta = times.subrange(0, i);
    let tb = times.subrange(i + 1, times.len() as int);
    let one = seq![events[i]];
    let tone = seq![times[i]];
    assert(events =~= a + (one + b));
    assert(times =~= ta + (tone + tb));
    lemma_entries_append(a, one + b, ta, tone + tb);
    lemma_entries_append(one, b, tone, tb);
    assert(one.drop_last() =~= Seq::<Event>::empty());
    reveal_with_fuel(entries, 2);
    assert(entries(one, tone) =~= entry(events[i], times[i]));
    assert(entries(events, times) =~= entries(a, ta) + "- "@ + events[i].override_mesg->0@ + "\n"@
        + entries(b, tb));
}

/// Appends an optional line to `r`.
fn push_optional_line(r: &mut String, s: &Option<String>)
    ensures
        final(r)@ == old(r)@ + optional_line(*s),
{
    match s {
        Some(t) => {
            r.append(t.as_str());
            r.append("\n");
        },
        None => {
            assert(old(r)@ + optional_line(*s) =~= old(r)@);
        },
    }
}

/// Renders the announcement for `schedule`, showing event `i` with time
/// `times[i]` (ignored for skipped and overridden events) and `now` as the
/// update time.
pub fn render_announcement(schedule: &Schedule, times: &Vec<i64>, now: i64) -> (r: String)
    requires
        times@.len() == schedule.events@.len(),
    ensures
        r@ == announcement(*schedule, times@, now),
{
    let mut r = String::new();
    push_optional_line(&mut r, &schedule.config.schedule_header);
    r.append("Stream Schedule:\n");
    let ghost head = r@;
    let events = &schedule.events;
    let mut i: usize = 0;
    while i < events.len()
        invariant
            times@.len() == events@.len(),
            i <= events@.len(),
            r@ == head + entries(events@.subrange(0, i as int), times@),
        decreases events@.len() - i,
    {
        let e = &events[i];
        let ghost before = events@.subrange(0, i as int);
        assert(events@.subrange(0, i + 1).drop_last() =~= before);
        if !matches!(e.skip, Some(true)) {
            r.append("- ");
            let line = e.to_msg_line(times[i]);
            r.append(line.as_str());
            r.append("\n");
        }
        i = i + 1;
        assert(r@ =~= head + entries(events@.subrange(0, i as int), times@));
    }
    assert(events@.subrange(0, i as int) =~= events@);
    r.append("\n");
    push_optional_line(&mut r, &schedule.config.schedule_footer);
    r.append("Updated at <t:");
    push_signed_decimal(&mut r, now);
    r.append(":f>");
    assert(r@ =~= announcement(*schedule, times@, now));
    r
}

/// Resolves, from `today`, the date and time of every event that needs one,
/// in order; the first failure ends the work.
pub fn resolve_events(events: &Vec<Event>, today: Date) -> (r: Result<
    Vec<Option<LocalDateTime>>,
    TimeError,
>)
    ensures
        r is Ok <==> all_resolve(events@, today, events@.len() as int),
        r matches Ok(v) ==> v@.len() == events@.len() && forall|i: int|
            0 <= i < v@.len() ==> event_resolution(events@[i], today) == Ok::<
                Option<LocalDateTime>,
                TimeError,
            >(#[trigger] v@[i]),
        r matches Err(x) ==> exists|i: int|
            0 <= i < events@.len() && all_resolve(events@, today, i) && event_resolution(
                #[trigger] events@[i],
                today,
            ) == Err::<Option<LocalDateTime>, TimeError>(x),
{
    let mut v: Vec<Option<LocalDateTime>> = Vec::new();
    let mut i: usize = 0;
    while i < events.len()
        invariant
            i <= events@.len(),
            v@.len() == i,
            all_resolve(events@, today, i as int),
            forall|j: int|
                0 <= j < i ==> event_resolution(events@[j], today) == Ok::<
                    Option<LocalDateTime>,
                    TimeError,
                >(#[trigger] v@[j]),
        decreases events@.len() - i,
    {
        let e = &events[i];
        if matches!(e.skip, Some(true)) || e.override_mesg.is_some() {
            v.push(None);
        } else {
            match resolve(e.day_of_week.as_str(), e.time_of_day.as_str(), today) {
                Ok(dt) => {
                    v.push(Some(dt));
                },
                Err(x) => {
                    assert(event_resolution(events@[i as int], today) is Err);
                    return Err(x);
                },
            }
        }
        i = i + 1;
        assert(all_resolve(events@, today, i as int)) by {
            assert forall|j: int| 0 <= j < i implies (#[trigger] event_resolution(
                events@[j],
                today,
            )) is Ok by {
                if j < i - 1 {
                    assert(event_resolution(events@[j], today) == Ok::<
                        Option<LocalDateTime>,
                        TimeError,
                    >(v@[j]));
                }
            }
        }
    }
    Ok(v)
}

/// `n` zero timestamps.
pub open spec fn zero_times(n: nat) -> Seq<i64> {
    Seq::new(n, |i: int| 0i64)
}

/// Whether no event of `events` needs a resolved time.
pub open spec fn no_time_needed(events: Seq<Event>) -> bool {
    forall|i: int| 0 <= i < events.len() ==> !needs_time(#[trigger] events[i])
}

/// Whether some event that needs a time resolves, from `today`, to an hour
/// from 24 on, which no local clock shows.
pub open spec fn resolves_past_midnight(events: Seq<Event>, today: Date) -> bool {
    exists|i: int|
        0 <= i < events.len() && (#[trigger] event_resolution(events[i], today) matches Ok(
            Some(dt),
        ) && dt.time.hour >= 24)
}

/// Whether event `i` is the first whose resolution fails, with error `x`.
pub open spec fn first_failure(events: Seq<Event>, today: Date, i: int, x: TimeError) -> bool {
    &&& 0 <= i < events.len()
    &&& all_resolve(events, today, i)
    &&& event_resolution(events[i], today) == Err::<Option<LocalDateTime>, TimeError>(x)
}

/// What compiling `schedule` from `today` with update time `now` gives,
/// whatever the machine's time zone makes of the resolved local times.
pub open spec fn compile_outcome(schedule: Schedule, today: Date, now: i64, r: Result<
    String,
    TimeError,
>) -> bool {
    let events = schedule.events@;
    let n = events.len();
    &&& !all_resolve(events, today, n as int) ==> (r matches Err(x) && exists|i: int|
        #[trigger] first_failure(events, today, i, x))
    &&& (all_resolve(events, today, n as int) && resolves_past_midnight(events, today)) ==> r
        == Err::<String, TimeError>(TimeError::InvalidInput)
    &&& no_time_needed(events) ==> (r matches Ok(text) && text@ == announcement(
        schedule,
        zero_times(n),
        now,
    ))
    &&& r matches Err(x) ==> ((x == TimeError::InvalidInput && all_resolve(events, today, n as int)
        && exists|i: int| 0 <= i < n && needs_time(#[trigger] events[i])) || exists|i: int|
        #[trigger] first_failure(events, today, i, x))
    &&& r matches Ok(text) ==> exists|times: Seq<i64>|
        times.len() == n && text@ == announcement(schedule, times, now)
}

/// Converts resolved local times into Unix timestamps in the machine's time
/// zone; events without a time get 0. A local time that does not exist,
/// such as hour 24, fails with `InvalidInput`.
pub fn event_timestamps(resolved: &Vec<Option<LocalDateTime>>) -> (r: Result<Vec<i64>, TimeError>)
    ensures
        r matches Ok(v) ==> v@.len() == resolved@.len() && forall|i: int|
            0 <= i < v@.len() && resolved@[i] is None ==> #[trigger] v@[i] == 0,
        (forall|i: int| 0 <= i < resolved@.len() ==> (#[trigger] resolved@[i]) is None) ==> (r matches Ok(v)
            && v@ == zero_times(resolved@.len())),
        (exists|i: int|
            0 <= i < resolved@.len() && (#[trigger] resolved@[i] matches Some(dt) && dt.time.hour
                >= 24)) ==> r is Err,
        r matches Err(x) ==> x == TimeError::InvalidInput && exists|i: int|
            0 <= i < resolved@.len() && (#[trigger] resolved@[i]) is Some,
{
    let mut v: Vec<i64> = Vec::new();
    let mut i: usize = 0;
    while i < resolved.len()
        invariant
            i <= resolved@.len(),
            v@.len() == i,
            forall|j: int| 0 <= j < i && resolved@[j] is None ==> #[trigger] v@[j] == 0,
            forall|j: int|
                0 <= j < i ==> !(#[trigger] resolved@[j] matches Some(dt) && dt.time.hour >= 24),
        decreases resolved@.len() - i,
    {
        match resolved[i] {
            None => {
                v.push(0);
            },
            Some(dt) => match local_timestamp(dt) {
                Some(ts) => {
                    v.push(ts);
                },
                None => {
                    assert(resolved@[i as int] is Some);
                    return Err(TimeError::InvalidInput);
                },
            },
        }
        i = i + 1;
    }
    proof {
        if forall|j: int| 0 <= j < resolved@.len() ==> (#[trigger] resolved@[j]) is None {
            assert(v@ =~= zero_times(resolved@.len()));
        }
    }
    Ok(v)
}

/// Compiles the announcement: resolves every shown, non-overridden event
/// from `today`, converts the results to timestamps and renders the text
/// with `now` as the update time. Any failure discards the whole text.
pub fn compile(schedule: &Schedule, today: Date, now: i64) -> (r: Result<String, TimeError>)
    ensures
        compile_outcome(*schedule, today, now, r),
{
    let ghost events = schedule.events@;
    let ghost n = events.len();
    let resolved = match resolve_events(&schedule.events, today) {
        Ok(v) => v,
        Err(x) => {
            proof {
                let i = choose|i: int|
                    0 <= i < events.len() && all_resolve(events, today, i) && event_resolution(
                        #[trigger] events[i],
                        today,
                    ) == Err::<Option<LocalDateTime>, TimeError>(x);
                assert(first_failure(events, today, i, x));
            }
            return Err(x);
        },
    };
    proof {
        assert forall|i: int| 0 <= i < n implies (#[trigger] resolved@[i] is Some) == needs_time(
            events[i],
        ) by {
            assert(event_resolution(events[i], today) == Ok::<Option<LocalDateTime>, TimeError>(
                resolved@[i],
            ));
        }
        if resolves_past_midnight(events, today) {
            let i = choose|i: int|
                0 <= i < events.len() && (#[trigger] event_resolution(events[i], today) matches Ok(
                    Some(dt),
                ) && dt.time.hour >= 24);
            assert(event_resolution(events[i], today) == Ok::<Option<LocalDateTime>, TimeError>(
                resolved@[i],
            ));
        }
        if no_time_needed(events) {
            assert forall|i: int| 0 <= i < resolved@.len() implies (#[trigger] resolved@[i]) is None by {
                assert(!needs_time(events[i]));
            }
        }
    }
    let times = match event_timestamps(&resolved) {
        Ok(v) => v,
        Err(x) => {
            proof {
                let i = choose|i: int| 0 <= i < resolved@.len() && (#[trigger] resolved@[i]) is Some;
                assert(needs_time(events[i]));
            }
            return Err(x);
        },
    };
    let text = render_announcement(schedule, &times, now);
    Ok(text)
}

impl Event {
    /// The event's line: its override verbatim, or its time token and title.
    pub fn to_msg_line(&self, time: i64) -> (r: String)
        ensures
            r@ == event_line(*self, time),
    {
        match &self.override_mesg {
            Some(m) => String::from_str(m.as_str()),
            None => {
                let mut r = String::from_str("<t:");
                push_signed_decimal(&mut r, time);
                r.append(":F> \u{2b95} ");
                r.append(self.title.as_str());
                r
            },
        }
    }
}

impl Schedule {
    /// Compiles the announcement from today's local date, with the current
    /// time as the update time.
    pub fn events_to_message(&self) -> (r: Result<String, TimeError>)
        ensures
            exists|today: Date, now: i64| compile_outcome(*self, today, now, r),
    {
        let today = local_today();
        let now = utc_now();
        let r = compile(self, today, now);
        assert(compile_outcome(*self, today, now, r));
        r
    }
}

/// The ping message: the configured text, a blank line and the role mention.
pub open spec fn ping_text(c: ScheduleConfig) -> Seq<char> {
    c.ping_message@ + "\n\n<@&"@ + crate::digits::decimal(c.ping_role@ as nat) + ">"@
}

/// Builds the message that pings the configured role.
pub fn ping_message(config: &ScheduleConfig) -> (r: String)
    ensures
        r@ == ping_text(*config),
{
    let mut r = String::from_str(config.ping_message.as_str());
    r.append("\n\n<@&");
    config.ping_role.push_to(&mut r);
    r.append(">");
    r
}

/// The messages of `messages` other than `keep`, in order.
pub open spec fn without(messages: Seq<Snowflake>, keep: Option<Snowflake>) -> Seq<Snowflake>
    decreases messages.len(),
{
    if messages.len() == 0 {
        Seq::empty()
    } else {
        let rest = without(messages.drop_last(), keep);
        if keep == Some(messages.last()) {
            rest
        } else {
            rest.push(messages.last())
        }
    }
}

/// The messages to delete before publishing: every listed message but the
/// sticky one, in the listed order.
pub fn messages_to_delete(messages: &Vec<Snowflake>, keep: Option<Snowflake>) -> (r: Vec<Snowflake>)
    ensures
        r@ == without(messages@, keep),
{
    let mut r: Vec<Snowflake> = Vec::new();
    let mut i: usize = 0;
    while i < messages.len()
        invariant
            i <= messages@.len(),
            r@ == without(messages@.subrange(0, i as int), keep),
        decreases messages@.len() - i,
    {
        let m = messages[i];
        assert(messages@.subrange(0, i + 1).drop_last() =~= messages@.subrange(0, i as int));
        let kept = match keep {
            Some(k) => k == m,
            None => false,
        };
        if !kept {
            r.push(m);
        }
        i = i + 1;
    }
    assert(messages@.subrange(0, i as int) =~= messages@);
    r
}

} // verus!
