use vstd::prelude::*;

verus! {

/// One tracked span of time inside a project.
#[derive(Clone, Debug, PartialEq, Eq)]
pub struct TimeInterval {
    pub id: usize,
    pub start_in_milliseconds: usize,
    pub stop_in_milliseconds: usize,
    pub is_registered: bool,
}

/// A project with its tracked intervals, in the order they were received.
#[derive(Clone, Debug, PartialEq, Eq)]
pub struct Project {
    pub id: usize,
    pub name: String,
    pub time_intervals: Vec<TimeInterval>,
}

/// One complete backup payload, received in a single request.
#[derive(Clone, Debug, PartialEq, Eq)]
pub struct BackupSubmission {
    pub projects: Vec<Project>,
}

} // verus!
