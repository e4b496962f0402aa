use vstd::prelude::*;

use crate::types::{Course, Room, StaffMember};

verus! {

/// A course as the query API presents it: its catalog entry together with
/// the course code it is keyed by.
pub struct CourseModel {
    pub course_code: String,
    pub course: Course,
}

impl CourseModel {
    /// The course code.
    pub fn id(&self) -> (r: &String)
        ensures
            r@ == self.course_code@,
    {
        &self.course_code
    }

    /// The course name.
    pub fn name(&self) -> (r: &String)
        ensures
            r@ == self.course.name@,
    {
        &self.course.name
    }

    /// How many terms the course runs.
    pub fn amount_of_terms(&self) -> (r: i32)
        ensures
            r == self.course.amount_of_terms,
    {
        self.course.amount_of_terms
    }
}

/// A semester as the query API presents it: its code and display name.
pub struct SemesterModel {
    pub code: String,
    pub name: String,
}

impl SemesterModel {
    /// The semester code.
    pub fn id(&self) -> (r: &String)
        ensures
            r@ == self.code@,
    {
        &self.code
    }

    /// The display name.
    pub fn name(&self) -> (r: &String)
        ensures
            r@ == self.name@,
    {
        &self.name
    }
}

/// A staff member as the query API presents it.
pub struct StaffMemberModel(pub StaffMember);

impl StaffMemberModel {
    /// The first name.
    pub fn first_name(&self) -> (r: &String)
        ensures
            r@ == self.0.first_name@,
    {
        &self.0.first_name
    }

    /// The last name.
    pub fn last_name(&self) -> (r: &String)
        ensures
            r@ == self.0.last_name@,
    {
        &self.0.last_name
    }
}

/// A room as the query API presents it.
pub struct RoomModel(pub Room);

impl RoomModel {
    /// The room name.
    pub fn name(&self) -> (r: &String)
        ensures
            r@ == self.0.name@,
    {
        &self.0.name
    }

    /// The building the room stands in.
    pub fn building_name(&self) -> (r: &String)
        ensures
            r@ == self.0.building_name@,
    {
        &self.0.building_name
    }

    /// The information URL.
    pub fn url(&self) -> (r: &String)
        ensures
            r@ == self.0.url@,
    {
        &self.0.url
    }
}

} // verus!
