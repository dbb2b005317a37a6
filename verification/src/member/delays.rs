//! How long tasks are put off, and how many members are asked at once.
use crate::duration::Duration;
use vstd::prelude::*;

verus! {

/// A schedule for tasks. The delays depend on how often the task has been performed.
pub trait Delays: Sized {
    spec fn coord_delay(&self, counter: usize) -> Duration;

    spec fn parent_delay(&self, counter: usize) -> Duration;

    spec fn coord_recipients(&self, counter: usize) -> usize;

    spec fn parent_recipients(&self, counter: usize) -> usize;

    spec fn rebroadcast_min(&self) -> Duration;

    spec fn rebroadcast_max(&self) -> Duration;

    /// How long a request for a unit is put off.
    fn coord_request_delay(&self, counter: usize) -> (delay: Duration)
        ensures
            delay == self.coord_delay(counter),
    ;

    /// How long a request for the parents of a unit is put off.
    fn parent_request_delay(&self, counter: usize) -> (delay: Duration)
        ensures
            delay == self.parent_delay(counter),
    ;

    /// How many members are asked for a unit.
    fn coord_request_recipients(&self, counter: usize) -> (n: usize)
        ensures
            n == self.coord_recipients(counter),
    ;

    /// How many members are asked for the parents of a unit.
    fn parent_request_recipients(&self, counter: usize) -> (n: usize)
        ensures
            n == self.parent_recipients(counter),
    ;

    /// How long a broadcast is put off at least, in whole milliseconds.
    fn unit_rebroadcast_interval_min(&self) -> (delay: Duration)
        ensures
            delay == self.rebroadcast_min(),
    ;

    /// What a broadcast is put off for less than, in whole milliseconds.
    fn unit_rebroadcast_interval_max(&self) -> (delay: Duration)
        ensures
            delay == self.rebroadcast_max(),
    ;
}

/// A schedule in which nothing depends on how often a task has been performed.
pub struct ConstantDelays {
    pub request_delay: Duration,
    pub request_recipients: usize,
    pub rebroadcast_interval_min: Duration,
    pub rebroadcast_interval_max: Duration,
}

impl Delays for ConstantDelays {
    open spec fn coord_delay(&self, counter: usize) -> Duration {
        self.request_delay
    }

    open spec fn parent_delay(&self, counter: usize) -> Duration {
        self.request_delay
    }

    open spec fn coord_recipients(&self, counter: usize) -> usize {
        self.request_recipients
    }

    open spec fn parent_recipients(&self, counter: usize) -> usize {
        self.request_recipients
    }

    open spec fn rebroadcast_min(&self) -> Duration {
        self.rebroadcast_interval_min
    }

    open spec fn rebroadcast_max(&self) -> Duration {
        self.rebroadcast_interval_max
    }

    fn coord_request_delay(&self, counter: usize) -> (delay: Duration) {
        self.request_delay
    }

    fn parent_request_delay(&self, counter: usize) -> (delay: Duration) {
        self.request_delay
    }

    fn coord_request_recipients(&self, counter: usize) -> (n: usize) {
        self.request_recipients
    }

    fn parent_request_recipients(&self, counter: usize) -> (n: usize) {
        self.request_recipients
    }

    fn unit_rebroadcast_interval_min(&self) -> (delay: Duration) {
        self.rebroadcast_interval_min
    }

    fn unit_rebroadcast_interval_max(&self) -> (delay: Duration) {
        self.rebroadcast_interval_max
    }
}

} // verus!
