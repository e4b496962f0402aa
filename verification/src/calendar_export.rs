use vstd::prelude::*;

use icalendar::Component;
use icalendar::EventLike;

use crate::activity_to_event::CalendarEvent;

verus! {

/// `t` starts with `p`.
pub open spec fn text_starts_with(t: Seq<char>, p: Seq<char>) -> bool {
    p.len() <= t.len() && t.subrange(0, p.len() as int) == p
}

/// `t` ends with `p`.
pub open spec fn text_ends_with(t: Seq<char>, p: Seq<char>) -> bool {
    p.len() <= t.len() && t.subrange(t.len() - p.len(), t.len() as int) == p
}

/// How many positions of `t` open an occurrence of `p`.
pub open spec fn occurrence_count(t: Seq<char>, p: Seq<char>) -> int
    decreases t.len(),
{
    if p.len() == 0 || t.len() < p.len() {
        0
    } else {
        (if t.subrange(0, p.len() as int) == p {
            1int
        } else {
            0int
        }) + occurrence_count(t.drop_first(), p)
    }
}

/// icalendar's event component, declared so that values of it can pass
/// between the wrappers below.
#[verifier::external_type_specification]
#[verifier::external_body]
pub struct ExEvent(icalendar::Event);

/// Relies on icalendar's `Event` builder — `Event::new`, `uid`, `summary`,
/// `starts`, `ends`, `location`, `description`, `done` — and on
/// `chrono::DateTime::from_timestamp`: builds the VEVENT component that
/// carries the record's fields. A timestamp outside chrono's representable
/// range falls back to the epoch. The component is opaque here; what the
/// fields hold is pinned down where the record is built.
#[verifier::external_body]
fn event_to_ical(e: &CalendarEvent) -> icalendar::Event {
    let mut ev = icalendar::Event::new();
    ev.uid(&e.uid);
    ev.summary(&e.summary);
    ev.starts(chrono::DateTime::<chrono::Utc>::from_timestamp(e.start, 0).unwrap_or_default());
    ev.ends(chrono::DateTime::<chrono::Utc>::from_timestamp(e.end, 0).unwrap_or_default());
    if let Some(loc) = &e.location {
        ev.location(loc);
    }
    ev.description(&e.description);
    ev.done()
}

/// Relies on icalendar's `Calendar`: collects the components into one
/// calendar and renders it as iCalendar text. The rendering stamps each
/// component with the wall clock (DTSTAMP), so the exact text depends on
/// more than the events; what holds of every outcome is that the text is
/// one VCALENDAR wrapper — its first line and its last — and that every
/// component contributes its own BEGIN:VEVENT line.
#[verifier::external_body]
fn calendar_text(events: Vec<icalendar::Event>) -> (r: String)
    ensures
        text_starts_with(r@, "BEGIN:VCALENDAR\r\n"@),
        text_ends_with(r@, "END:VCALENDAR\r\n"@),
        occurrence_count(r@, "BEGIN:VEVENT"@) >= events@.len(),
{
    events.into_iter().collect::<icalendar::Calendar>().to_string()
}

/// Renders the events as one iCalendar document via the icalendar crate.
///
/// The text opens with the BEGIN:VCALENDAR line, closes with the
/// END:VCALENDAR line, and holds at least one BEGIN:VEVENT occurrence per
/// event. The rendering carries a wall-clock stamp per component, so no
/// more of the text is a function of the events; the exact field contents
/// are stated where the event records are built.
#[verifier::loop_isolation(false)]
pub fn events_to_ics(events: &Vec<CalendarEvent>) -> (r: String)
    ensures
        text_starts_with(r@, "BEGIN:VCALENDAR\r\n"@),
        text_ends_with(r@, "END:VCALENDAR\r\n"@),
        occurrence_count(r@, "BEGIN:VEVENT"@) >= events@.len(),
{
    let mut components: Vec<icalendar::Event> = Vec::new();
    let mut i: usize = 0;
    while i < events.len()
        invariant
            i <= events@.len(),
            components@.len() == i,
        decreases events@.len() - i,
    {
        components.push(event_to_ical(&events[i]));
        i += 1;
    }
    calendar_text(components)
}

} // verus!
