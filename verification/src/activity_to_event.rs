use vstd::prelude::*;

use vstd::string::StringExecFns;

use crate::types::{Activity, ActivityV, Room, RoomV, StaffMember, StaffMemberV};

verus! {

/// One calendar event, ready to be rendered into the calendar document.
/// `start` and `end` are timestamps in seconds since the Unix epoch, UTC.
#[derive(Clone, Debug, PartialEq, Eq)]
pub struct CalendarEvent {
    pub uid: String,
    pub summary: String,
    pub start: i64,
    pub end: i64,
    pub location: Option<String>,
    pub description: String,
}

/// Mathematical value of a `CalendarEvent`.
pub ghost struct CalendarEventV {
    pub uid: Seq<char>,
    pub summary: Seq<char>,
    pub start: int,
    pub end: int,
    pub location: Option<Seq<char>>,
    pub description: Seq<char>,
}

impl View for CalendarEvent {
    type V = CalendarEventV;

    open spec fn view(&self) -> CalendarEventV {
        CalendarEventV {
            uid: self.uid@,
            summary: self.summary@,
            start: self.start as int,
            end: self.end as int,
            location: match self.location {
                Some(ref l) => Some(l@),
                None => None,
            },
            description: self.description@,
        }
    }
}

impl DeepView for CalendarEvent {
    type V = CalendarEventV;

    open spec fn deep_view(&self) -> CalendarEventV {
        self.view()
    }
}

/// The event summary: the custom name when one is supplied for the query,
/// else the course code and the activity title, space-separated.
pub open spec fn event_summary(a: ActivityV, custom: Option<Seq<char>>) -> Seq<char> {
    match custom {
        Some(n) => n,
        None => a.course_code + seq![' '] + a.title,
    }
}

/// A room shown as its name with the building in parentheses.
pub open spec fn room_label(r: RoomV) -> Seq<char> {
    r.name + seq![' ', '('] + r.building_name + seq![')']
}

/// A room's line in the description: its label, a colon, and its URL.
pub open spec fn room_line(r: RoomV) -> Seq<char> {
    room_label(r) + seq![':', ' '] + r.url
}

/// A staff member shown as first name, space, last name.
pub open spec fn staff_label(s: StaffMemberV) -> Seq<char> {
    s.first_name + seq![' '] + s.last_name
}

/// The items joined with the separator between neighbours.
pub open spec fn joined(items: Seq<Seq<char>>, sep: Seq<char>) -> Seq<char>
    decreases items.len(),
{
    if items.len() == 0 {
        Seq::empty()
    } else if items.len() == 1 {
        items[0]
    } else {
        items[0] + sep + joined(items.drop_first(), sep)
    }
}

/// The staff list: comma-joined staff labels.
pub open spec fn staff_list(staff: Seq<StaffMemberV>) -> Seq<char> {
    joined(staff.map_values(|s: StaffMemberV| staff_label(s)), seq![',', ' '])
}

/// The room list: newline-joined room lines, in input order.
pub open spec fn room_list(rooms: Seq<RoomV>) -> Seq<char> {
    joined(rooms.map_values(|r: RoomV| room_line(r)), seq!['\n'])
}

/// The event description: the summary line, a blank line, the staff list, a
/// blank line, and the room lines.
pub open spec fn event_description(a: ActivityV, custom: Option<Seq<char>>) -> Seq<char> {
    event_summary(a, custom) + seq!['\n', '\n'] + staff_list(a.staff_members) + seq!['\n', '\n']
        + room_list(a.rooms)
}

/// The event location: the first room's label, when any room exists.
pub open spec fn event_location(a: ActivityV) -> Option<Seq<char>> {
    if a.rooms.len() > 0 {
        Some(room_label(a.rooms[0]))
    } else {
        None
    }
}

/// The calendar event an activity projects to under a query.
pub open spec fn event_of(a: ActivityV, custom: Option<Seq<char>>) -> CalendarEventV {
    CalendarEventV {
        uid: a.id,
        summary: event_summary(a, custom),
        start: a.start,
        end: a.end,
        location: event_location(a),
        description: event_description(a, custom),
    }
}

/// Joining one more item appends a separator (unless nothing was joined yet)
/// and the item.
proof fn lemma_joined_snoc(items: Seq<Seq<char>>, x: Seq<char>, sep: Seq<char>)
    ensures
        joined(items.push(x), sep) == if items.len() == 0 {
            x
        } else {
            joined(items, sep) + sep + x
        },
    decreases items.len(),
{
    if items.len() == 0 {
        assert(items.push(x) =~= seq![x]);
        assert(joined(seq![x], sep) == x);
    } else if items.len() == 1 {
        assert(items.push(x).drop_first() =~= seq![x]);
        assert(items.push(x)[0] == items[0]);
        assert(joined(seq![x], sep) == x);
        assert(joined(items.push(x), sep) == items[0] + sep + x);
        assert(joined(items, sep) == items[0]);
    } else {
        assert(items.push(x).drop_first() =~= items.drop_first().push(x));
        lemma_joined_snoc(items.drop_first(), x, sep);
        assert(joined(items.push(x), sep) == items[0] + sep + joined(
            items.drop_first().push(x),
            sep,
        ));
        assert(joined(items, sep) == items[0] + sep + joined(items.drop_first(), sep));
        assert(items[0] + sep + (joined(items.drop_first(), sep) + sep + x) =~= (items[0] + sep
            + joined(items.drop_first(), sep)) + sep + x);
    }
}

/// The room label, as a string.
fn room_label_exec(r: &Room) -> (out: String)
    ensures
        out@ == room_label(r@),
{
    proof {
        reveal_strlit(" (");
        reveal_strlit(")");
        assert(" ("@ =~= seq![' ', '(']);
        assert(")"@ =~= seq![')']);
    }
    let mut out = r.name.clone();
    out.append(" (");
    out.append(r.building_name.as_str());
    out.append(")");
    out
}

/// A room's description line, as a string.
fn room_line_exec(r: &Room) -> (out: String)
    ensures
        out@ == room_line(r@),
{
    proof {
        reveal_strlit(": ");
        assert(": "@ =~= seq![':', ' ']);
    }
    let mut out = room_label_exec(r);
    out.append(": ");
    out.append(r.url.as_str());
    out
}

/// A staff member's label, as a string.
fn staff_label_exec(s: &StaffMember) -> (out: String)
    ensures
        out@ == staff_label(s@),
{
    proof {
        reveal_strlit(" ");
        assert(" "@ =~= seq![' ']);
    }
    let mut out = s.first_name.clone();
    out.append(" ");
    out.append(s.last_name.as_str());
    out
}

/// The comma-joined staff list, as a string.
#[verifier::loop_isolation(false)]
fn staff_list_exec(staff: &Vec<StaffMember>) -> (out: String)
    ensures
        out@ == staff_list(staff.deep_view()),
{
    proof {
        reveal_strlit(", ");
        assert(", "@ =~= seq![',', ' ']);
    }
    let ghost labels = staff.deep_view().map_values(|s: StaffMemberV| staff_label(s));
    let mut out = String::new();
    let mut i: usize = 0;
    while i < staff.len()
        invariant
            i <= staff@.len(),
            out@ == joined(labels.take(i as int), seq![',', ' ']),
        decreases staff@.len() - i,
    {
        if i > 0 {
            out.append(", ");
        }
        let label = staff_label_exec(&staff[i]);
        out.append(label.as_str());
        proof {
            assert(labels[i as int] == staff_label(staff.deep_view()[i as int]));
            assert(staff.deep_view()[i as int] == staff@[i as int]@);
            lemma_joined_snoc(labels.take(i as int), labels[i as int], seq![',', ' ']);
            assert(labels.take(i + 1) =~= labels.take(i as int).push(labels[i as int]));
        }
        i += 1;
    }
    proof {
        assert(labels.take(staff@.len() as int) =~= labels);
    }
    out
}

/// The newline-joined room lines, as a string.
#[verifier::loop_isolation(false)]
fn room_list_exec(rooms: &Vec<Room>) -> (out: String)
    ensures
        out@ == room_list(rooms.deep_view()),
{
    proof {
        reveal_strlit("\n");
        assert("\n"@ =~= seq!['\n']);
    }
    let ghost lines = rooms.deep_view().map_values(|r: RoomV| room_line(r));
    let mut out = String::new();
    let mut i: usize = 0;
    while i < rooms.len()
        invariant
            i <= rooms@.len(),
            out@ == joined(lines.take(i as int), seq!['\n']),
        decreases rooms@.len() - i,
    {
        if i > 0 {
            out.append("\n");
        }
        let line = room_line_exec(&rooms[i]);
        out.append(line.as_str());
        proof {
            assert(lines[i as int] == room_line(rooms.deep_view()[i as int]));
            assert(rooms.deep_view()[i as int] == rooms@[i as int]@);
            lemma_joined_snoc(lines.take(i as int), lines[i as int], seq!['\n']);
            assert(lines.take(i + 1) =~= lines.take(i as int).push(lines[i as int]));
        }
        i += 1;
    }
    proof {
        assert(lines.take(rooms@.len() as int) =~= lines);
    }
    out
}

/// Projects one activity to one calendar event under a query.
///
/// The uid is the activity's id; start and end are copied verbatim; the
/// summary is the query's custom name when one is supplied, else the course
/// code and title; the location is the first room's label when any room
/// exists, else absent; the description holds the summary line, the staff
/// list, and one line per room in input order.
pub fn activity_to_event(activity: &Activity, custom_name: &Option<String>) -> (r: CalendarEvent)
    ensures
        r@ == event_of(
            activity@,
            match custom_name {
                Some(n) => Some(n@),
                None => None,
            },
        ),
{
    proof {
        reveal_strlit(" ");
        reveal_strlit("\n\n");
        assert(" "@ =~= seq![' ']);
        assert("\n\n"@ =~= seq!['\n', '\n']);
    }
    let summary: String = match custom_name {
        Some(n) => n.clone(),
        None => {
            let mut s = activity.course_code.clone();
            s.append(" ");
            s.append(activity.title.as_str());
            s
        },
    };
    let location: Option<String> = if activity.rooms.len() > 0 {
        Some(room_label_exec(&activity.rooms[0]))
    } else {
        None
    };
    let mut description = summary.clone();
    description.append("\n\n");
    let staff_text = staff_list_exec(&activity.staff_members);
    description.append(staff_text.as_str());
    description.append("\n\n");
    let rooms_text = room_list_exec(&activity.rooms);
    description.append(rooms_text.as_str());
    CalendarEvent {
        uid: activity.id.clone(),
        summary,
        start: activity.start,
        end: activity.end,
        location,
        description,
    }
}

} // verus!
