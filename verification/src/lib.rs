//! Schedule and attendance logic of the etu-schedule server: week days and
//! lesson positions, the merge of a freshly fetched schedule into the stored
//! one, note grouping, and the decisions taken on the replies of the ETU
//! attendance service.

pub mod week_day;
pub mod schedule;
pub mod merge;
pub mod notes;
pub mod attendance_api;
pub mod merge_effect;
