//! A verified core for a course-timetable backend: typed records scraped
//! from a university timetable site are cached with fixed times to live,
//! filtered by student group, projected into calendar events, and addressed
//! through a compact, URL-safe query token.
//!
//! The library holds the logic worth proving — the TTL caches with their
//! degrade-gracefully retry policy, the activity-to-event projection, and
//! the reversible token codec — with contracts over mathematical models of
//! every type. The network, the HTML scraping, and the HTTP surface live
//! outside, handing plain values in and out.

pub mod activities_cache;
pub mod activities_for_courses;
pub mod activity_to_event;
pub mod cache;
pub mod calendar_export;
pub mod courses_cache;
pub mod encode_query;
pub mod error;
pub mod models;
pub mod msgpack;
pub mod projector;
pub mod semesters_cache;
pub mod types;
