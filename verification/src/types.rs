use vstd::prelude::*;

use crate::error::AppError;

verus! {

// ---------------------------------------------------------------------------
// Rooms and staff
// ---------------------------------------------------------------------------

/// A teaching room, with the building it stands in and an information URL.
#[derive(Clone, Debug, PartialEq, Eq)]
pub struct Room {
    pub name: String,
    pub building_name: String,
    pub url: String,
}

/// Mathematical value of a `Room`.
pub ghost struct RoomV {
    pub name: Seq<char>,
    pub building_name: Seq<char>,
    pub url: Seq<char>,
}

impl View for Room {
    type V = RoomV;

    open spec fn view(&self) -> RoomV {
        RoomV { name: self.name@, building_name: self.building_name@, url: self.url@ }
    }
}

impl DeepView for Room {
    type V = RoomV;

    open spec fn deep_view(&self) -> RoomV {
        self.view()
    }
}

/// A member of the teaching staff of an activity.
#[derive(Clone, Debug, PartialEq, Eq)]
pub struct StaffMember {
    pub first_name: String,
    pub last_name: String,
}

/// Mathematical value of a `StaffMember`.
pub ghost struct StaffMemberV {
    pub first_name: Seq<char>,
    pub last_name: Seq<char>,
}

impl View for StaffMember {
    type V = StaffMemberV;

    open spec fn view(&self) -> StaffMemberV {
        StaffMemberV { first_name: self.first_name@, last_name: self.last_name@ }
    }
}

impl DeepView for StaffMember {
    type V = StaffMemberV;

    open spec fn deep_view(&self) -> StaffMemberV {
        self.view()
    }
}

// ---------------------------------------------------------------------------
// Courses and their identifiers
// ---------------------------------------------------------------------------

/// A course as listed in the course catalog, keyed externally by its code.
#[derive(Clone, Debug, PartialEq, Eq)]
pub struct Course {
    pub name: String,
    pub amount_of_terms: i32,
}

/// Mathematical value of a `Course`.
pub ghost struct CourseV {
    pub name: Seq<char>,
    pub amount_of_terms: int,
}

impl View for Course {
    type V = CourseV;

    open spec fn view(&self) -> CourseV {
        CourseV { name: self.name@, amount_of_terms: self.amount_of_terms as int }
    }
}

impl DeepView for Course {
    type V = CourseV;

    open spec fn deep_view(&self) -> CourseV {
        self.view()
    }
}

/// Composite key addressing a specific offering of a course:
/// course code, term number, and semester code.
#[derive(Clone, Debug, PartialEq, Eq, Hash)]
pub struct CourseIdentifier {
    pub course_code: String,
    pub course_term: i32,
    pub semester: String,
}

/// Mathematical value of a `CourseIdentifier`.
pub ghost struct CourseIdentifierV {
    pub course_code: Seq<char>,
    pub course_term: int,
    pub semester: Seq<char>,
}

impl View for CourseIdentifier {
    type V = CourseIdentifierV;

    open spec fn view(&self) -> CourseIdentifierV {
        CourseIdentifierV {
            course_code: self.course_code@,
            course_term: self.course_term as int,
            semester: self.semester@,
        }
    }
}

impl DeepView for CourseIdentifier {
    type V = CourseIdentifierV;

    open spec fn deep_view(&self) -> CourseIdentifierV {
        self.view()
    }
}

impl CourseIdentifier {
    /// An identical copy.
    pub fn dup(&self) -> (r: Self)
        ensures
            r@ == self@,
    {
        CourseIdentifier {
            course_code: self.course_code.clone(),
            course_term: self.course_term,
            semester: self.semester.clone(),
        }
    }
}

// ---------------------------------------------------------------------------
// Activities
// ---------------------------------------------------------------------------

/// One scheduled teaching session for a course-term-semester combination.
/// `start` and `end` are timestamps in seconds since the Unix epoch, UTC.
#[derive(Clone, Debug, PartialEq, Eq)]
pub struct Activity {
    pub id: String,
    pub course_code: String,
    pub week: i32,
    pub start: i64,
    pub end: i64,
    pub title: String,
    pub summary: String,
    pub staff_members: Vec<StaffMember>,
    pub student_groups: Vec<String>,
    pub rooms: Vec<Room>,
}

/// Mathematical value of an `Activity`.
pub ghost struct ActivityV {
    pub id: Seq<char>,
    pub course_code: Seq<char>,
    pub week: int,
    pub start: int,
    pub end: int,
    pub title: Seq<char>,
    pub summary: Seq<char>,
    pub staff_members: Seq<StaffMemberV>,
    pub student_groups: Seq<Seq<char>>,
    pub rooms: Seq<RoomV>,
}

impl View for Activity {
    type V = ActivityV;

    open spec fn view(&self) -> ActivityV {
        ActivityV {
            id: self.id@,
            course_code: self.course_code@,
            week: self.week as int,
            start: self.start as int,
            end: self.end as int,
            title: self.title@,
            summary: self.summary@,
            staff_members: self.staff_members.deep_view(),
            student_groups: self.student_groups.deep_view(),
            rooms: self.rooms.deep_view(),
        }
    }
}

impl DeepView for Activity {
    type V = ActivityV;

    open spec fn deep_view(&self) -> ActivityV {
        self.view()
    }
}

impl StaffMember {
    /// A copy with the same mathematical value.
    pub fn dup(&self) -> (r: Self)
        ensures
            r@ == self@,
    {
        StaffMember { first_name: self.first_name.clone(), last_name: self.last_name.clone() }
    }
}

impl Room {
    /// A copy with the same mathematical value.
    pub fn dup(&self) -> (r: Self)
        ensures
            r@ == self@,
    {
        Room {
            name: self.name.clone(),
            building_name: self.building_name.clone(),
            url: self.url.clone(),
        }
    }
}

/// A copy of a string list with the same mathematical value.
#[verifier::loop_isolation(false)]
pub fn dup_strings(v: &Vec<String>) -> (r: Vec<String>)
    ensures
        r.deep_view() == v.deep_view(),
{
    let mut out: Vec<String> = Vec::new();
    let mut i: usize = 0;
    while i < v.len()
        invariant
            i == out@.len() <= v@.len(),
            forall|p: int| 0 <= p < i ==> out.deep_view()[p] == v.deep_view()[p],
        decreases v@.len() - i,
    {
        out.push(v[i].clone());
        i += 1;
    }
    proof {
        assert(out.deep_view() =~= v.deep_view());
    }
    out
}

impl Activity {
    /// Data-model invariant: an activity never ends before it starts.
    pub open spec fn wf(self) -> bool {
        self@.start <= self@.end
    }

    /// A copy with the same mathematical value.
    #[verifier::loop_isolation(false)]
    pub fn dup(&self) -> (r: Self)
        ensures
            r@ == self@,
    {
        let mut staff_members: Vec<StaffMember> = Vec::new();
        let mut i: usize = 0;
        while i < self.staff_members.len()
            invariant
                i == staff_members@.len() <= self.staff_members@.len(),
                forall|p: int| 0 <= p < i ==> #[trigger] staff_members@[p]@
                    == self.staff_members@[p]@,
            decreases self.staff_members@.len() - i,
        {
            staff_members.push(self.staff_members[i].dup());
            i += 1;
        }
        let mut rooms: Vec<Room> = Vec::new();
        let mut j: usize = 0;
        while j < self.rooms.len()
            invariant
                j == rooms@.len() <= self.rooms@.len(),
                forall|p: int| 0 <= p < j ==> #[trigger] rooms@[p]@ == self.rooms@[p]@,
            decreases self.rooms@.len() - j,
        {
            rooms.push(self.rooms[j].dup());
            j += 1;
        }
        let r = Activity {
            id: self.id.clone(),
            course_code: self.course_code.clone(),
            week: self.week,
            start: self.start,
            end: self.end,
            title: self.title.clone(),
            summary: self.summary.clone(),
            staff_members,
            student_groups: dup_strings(&self.student_groups),
            rooms,
        };
        proof {
            assert forall|p: int|
                0 <= p < r.staff_members.deep_view().len() implies r.staff_members.deep_view()[p]
                == self.staff_members.deep_view()[p] by {
                assert(r.staff_members@[p]@ == self.staff_members@[p]@);
            }
            assert(r.staff_members.deep_view() =~= self.staff_members.deep_view());
            assert forall|p: int|
                0 <= p < r.rooms.deep_view().len() implies r.rooms.deep_view()[p]
                == self.rooms.deep_view()[p] by {
                assert(r.rooms@[p]@ == self.rooms@[p]@);
            }
            assert(r.rooms.deep_view() =~= self.rooms.deep_view());
        }
        r
    }
}

/// A copy of an activity list with the same mathematical value.
#[verifier::loop_isolation(false)]
pub fn dup_activities(v: &Vec<Activity>) -> (r: Vec<Activity>)
    ensures
        r.deep_view() == v.deep_view(),
{
    let mut out: Vec<Activity> = Vec::new();
    let mut i: usize = 0;
    while i < v.len()
        invariant
            i == out@.len() <= v@.len(),
            forall|p: int| 0 <= p < i ==> out.deep_view()[p] == v.deep_view()[p],
        decreases v@.len() - i,
    {
        out.push(v[i].dup());
        i += 1;
    }
    proof {
        assert(out.deep_view() =~= v.deep_view());
    }
    out
}

// ---------------------------------------------------------------------------
// Semesters
// ---------------------------------------------------------------------------

/// A semester as offered by the timetable site; keyed externally by its code.
#[derive(Clone, Debug, PartialEq, Eq)]
pub struct Semester {
    pub name: String,
}

/// Mathematical value of a `Semester`.
pub ghost struct SemesterV {
    pub name: Seq<char>,
}

impl View for Semester {
    type V = SemesterV;

    open spec fn view(&self) -> SemesterV {
        SemesterV { name: self.name@ }
    }
}

impl DeepView for Semester {
    type V = SemesterV;

    open spec fn deep_view(&self) -> SemesterV {
        self.view()
    }
}

/// All known semesters together with the code of the current one.
///
/// The semester map is an association list from semester code to semester;
/// its keys are unique and the current code always references an entry.
#[derive(Clone, Debug, PartialEq, Eq)]
pub struct SemestersWithCurrent {
    pub semesters: Vec<(String, Semester)>,
    pub current_semester: String,
}

impl View for SemestersWithCurrent {
    type V = SemestersWithCurrentV;

    open spec fn view(&self) -> SemestersWithCurrentV {
        SemestersWithCurrentV {
            semesters: Seq::new(
                self.semesters@.len(),
                |i: int| (self.semesters@[i].0@, self.semesters@[i].1@),
            ),
            current_semester: self.current_semester@,
        }
    }
}

/// Mathematical value of `SemestersWithCurrent`.
pub ghost struct SemestersWithCurrentV {
    pub semesters: Seq<(Seq<char>, SemesterV)>,
    pub current_semester: Seq<char>,
}

impl SemestersWithCurrentV {
    /// The semester codes, in listing order.
    pub open spec fn codes(self) -> Seq<Seq<char>> {
        self.semesters.map_values(|e: (Seq<char>, SemesterV)| e.0)
    }

    /// Invariant: codes are unique and the current code references an entry.
    pub open spec fn wf(self) -> bool {
        &&& forall|i: int, j: int|
            0 <= i < self.semesters.len() && 0 <= j < self.semesters.len()
                && self.semesters[i].0 == self.semesters[j].0 ==> i == j
        &&& self.codes().contains(self.current_semester)
    }
}

/// The mathematical value that `SemestersWithCurrent::new` would give these
/// entries and current code.
pub open spec fn semesters_model(
    semesters: Seq<(String, Semester)>,
    current_semester: Seq<char>,
) -> SemestersWithCurrentV {
    SemestersWithCurrentV {
        semesters: Seq::new(semesters.len(), |i: int| (semesters[i].0@, semesters[i].1@)),
        current_semester: current_semester,
    }
}

impl SemestersWithCurrent {
    /// Builds the collection, rejecting input that breaks the invariant:
    /// a repeated semester code, or a current code that no entry carries.
    #[verifier::loop_isolation(false)]
    pub fn new(semesters: Vec<(String, Semester)>, current_semester: String) -> (r: Result<
        Self,
        AppError,
    >)
        ensures
            match r {
                Ok(s) => {
                    &&& s@ == semesters_model(semesters@, current_semester@)
                    &&& s@.wf()
                },
                Err(e) => {
                    &&& e == AppError::ParsingError
                    &&& !semesters_model(semesters@, current_semester@).wf()
                },
            },
    {
        let ghost model = semesters_model(semesters@, current_semester@);
        let mut found_current = false;
        let mut i: usize = 0;
        while i < semesters.len()
            invariant
                0 <= i <= semesters.len(),
                model.semesters.len() == semesters@.len(),
                forall|k: int|
                    0 <= k < semesters@.len() ==> model.semesters[k] == (
                    semesters@[k].0@,
                    semesters@[k].1@,
                ),
                model.current_semester == current_semester@,
                found_current == model.codes().take(i as int).contains(current_semester@),
                forall|p: int, q: int|
                    0 <= p < q < i && model.semesters[p].0 == model.semesters[q].0 ==> false,
            decreases semesters.len() - i,
        {
            let mut j: usize = 0;
            while j < i
                invariant
                    0 <= j <= i < semesters.len(),
                    model.semesters.len() == semesters@.len(),
                    forall|k: int|
                        0 <= k < semesters@.len() ==> model.semesters[k] == (
                        semesters@[k].0@,
                        semesters@[k].1@,
                    ),
                    forall|p: int|
                        0 <= p < j ==> model.semesters[p].0 != model.semesters[i as int].0,
                decreases i - j,
            {
                if semesters[j].0 == semesters[i].0 {
                    proof {
                        assert(model.semesters[j as int].0 == model.semesters[i as int].0);
                        assert(j as int != i as int);
                        assert(!model.wf());
                    }
                    return Err(AppError::ParsingError);
                }
                j += 1;
            }
            if semesters[i].0 == current_semester {
                found_current = true;
            }
            proof {
                assert(model.codes().take(i + 1).drop_last() =~= model.codes().take(i as int));
                assert(model.codes().take(i + 1).last() == model.semesters[i as int].0);
            }
            i += 1;
        }
        proof {
            assert(model.codes().take(semesters@.len() as int) =~= model.codes());
        }
        if found_current {
            let r = SemestersWithCurrent { semesters, current_semester };
            proof {
                assert(r@.semesters =~= model.semesters);
            }
            Ok(r)
        } else {
            proof {
                if model.codes().contains(current_semester@) {
                    let w = choose|w: int|
                        0 <= w < model.codes().len() && model.codes()[w] == current_semester@;
                    assert(model.codes().take(semesters@.len() as int)[w] == current_semester@);
                }
            }
            Err(AppError::ParsingError)
        }
    }

    /// Whether a semester with the given code is listed.
    pub fn has_semester(&self, code: &String) -> (r: bool)
        ensures
            r == self@.codes().contains(code@),
    {
        let mut i: usize = 0;
        while i < self.semesters.len()
            invariant
                0 <= i <= self.semesters.len(),
                forall|k: int| 0 <= k < i ==> self@.codes()[k] != code@,
            decreases self.semesters.len() - i,
        {
            if self.semesters[i].0 == *code {
                assert(self@.codes()[i as int] == code@);
                return true;
            }
            i += 1;
        }
        false
    }
}

// ---------------------------------------------------------------------------
// Calendar queries
// ---------------------------------------------------------------------------

/// A request for a subset of a course's activities, filtered by student-group
/// membership, optionally tagged with a display name for the calendar.
#[derive(Clone, Debug, PartialEq, Eq)]
pub struct CalendarQuery {
    pub identifier: CourseIdentifier,
    pub student_groups: Vec<String>,
    pub custom_name: Option<String>,
}

/// Mathematical value of a `CalendarQuery`.
pub ghost struct CalendarQueryV {
    pub identifier: CourseIdentifierV,
    pub student_groups: Seq<Seq<char>>,
    pub custom_name: Option<Seq<char>>,
}

impl View for CalendarQuery {
    type V = CalendarQueryV;

    open spec fn view(&self) -> CalendarQueryV {
        CalendarQueryV {
            identifier: self.identifier@,
            student_groups: self.student_groups.deep_view(),
            custom_name: match self.custom_name {
                Some(ref n) => Some(n@),
                None => None,
            },
        }
    }
}

impl DeepView for CalendarQuery {
    type V = CalendarQueryV;

    open spec fn deep_view(&self) -> CalendarQueryV {
        self.view()
    }
}

/// The previous schema of a calendar query, which had no custom name.
#[derive(Clone, Debug, PartialEq, Eq)]
pub struct OldCalendarQuery {
    pub identifier: CourseIdentifier,
    pub student_groups: Vec<String>,
}

/// Mathematical value of an `OldCalendarQuery`.
pub ghost struct OldCalendarQueryV {
    pub identifier: CourseIdentifierV,
    pub student_groups: Seq<Seq<char>>,
}

impl View for OldCalendarQuery {
    type V = OldCalendarQueryV;

    open spec fn view(&self) -> OldCalendarQueryV {
        OldCalendarQueryV {
            identifier: self.identifier@,
            student_groups: self.student_groups.deep_view(),
        }
    }
}

impl DeepView for OldCalendarQuery {
    type V = OldCalendarQueryV;

    open spec fn deep_view(&self) -> OldCalendarQueryV {
        self.view()
    }
}

impl OldCalendarQueryV {
    /// Upgrading a legacy query defaults the missing custom name to absent.
    pub open spec fn upgrade(self) -> CalendarQueryV {
        CalendarQueryV {
            identifier: self.identifier,
            student_groups: self.student_groups,
            custom_name: None,
        }
    }
}

impl OldCalendarQuery {
    /// Upgrades a legacy query, defaulting the custom name to absent.
    pub fn upgrade(self) -> (r: CalendarQuery)
        ensures
            r@ == self@.upgrade(),
    {
        CalendarQuery {
            identifier: self.identifier,
            student_groups: self.student_groups,
            custom_name: None,
        }
    }
}

/// A list of calendar queries, the unit the query token encodes.
#[derive(Clone, Debug, PartialEq, Eq)]
pub struct CalendarQueries {
    pub queries: Vec<CalendarQuery>,
}

impl View for CalendarQueries {
    type V = Seq<CalendarQueryV>;

    open spec fn view(&self) -> Seq<CalendarQueryV> {
        self.queries.deep_view()
    }
}

// ---------------------------------------------------------------------------
// Plain request shapes of the API surface
// ---------------------------------------------------------------------------

/// Query parameters of the course-catalog endpoint.
#[derive(Clone, Debug, PartialEq, Eq)]
pub struct CoursesQuery {
    pub semester: String,
}

/// One timetable request: a course offering and the student groups asked for.
#[derive(Clone, Debug, PartialEq, Eq)]
pub struct TimetableQuery {
    pub course: CourseIdentifier,
    pub target_student_groups: Vec<String>,
}

/// Query parameters of the calendar-export endpoint: the opaque token.
#[derive(Clone, Debug, PartialEq, Eq)]
pub struct HandlerQuery {
    pub query: String,
}

} // verus!
