//! Timetable planning for a roaming observer: given a weekly school timetable and a
//! desired subject mix, pick one class per observable period so that the chosen
//! lessons follow the subject mix while visiting as few distinct classes as possible.
pub mod document;
pub mod grid;
pub mod model;
pub mod plan;
pub mod projection;
pub mod records;
pub mod search;
pub mod tables;
pub mod text;
pub mod upload;
pub mod weights;
