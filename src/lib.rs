//! Layout of a Gantt chart: the dates of a schedule become month columns,
//! rows of bars and milestones, resource colours and a tree of drawing
//! primitives.
pub mod calendar;
pub mod color;
pub mod layout;
pub mod scene;
