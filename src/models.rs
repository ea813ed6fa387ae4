use vstd::prelude::*;
use crate::state::StateBag;
use crate::tags::Dimensions;

verus! {

/// A job with a single task.
pub struct Single {
    pub dimens: Dimensions,
}

/// A job made of several tasks that are served together.
pub struct Multi {
    pub jobs: Vec<Single>,
    pub dimens: Dimensions,
}

/// A unit of work.
pub enum Job {
    Single(Single),
    Multi(Multi),
}

/// The tag bag of a job.
pub open spec fn job_dimens(job: Job) -> Dimensions {
    match job {
        Job::Single(s) => s.dimens,
        Job::Multi(m) => m.dimens,
    }
}

impl Job {
    pub fn dimens(&self) -> (r: &Dimensions)
        ensures
            *r == job_dimens(*self),
    {
        match self {
            Job::Single(s) => &s.dimens,
            Job::Multi(m) => &m.dimens,
        }
    }
}

/// The vehicle, driver and operating detail that a route is built against.
/// Actors are told apart by `id`, which the fleet gives each of them once.
#[derive(Clone, Copy)]
pub struct Actor {
    pub id: usize,
    pub vehicle: usize,
    pub driver: usize,
    pub detail: usize,
}

/// A stop of a route; the depot stops have no job.
pub struct Activity {
    pub job: Option<Job>,
}

/// One route: the actor that serves it, its stops in order, and what
/// constraint modules derived about it.
pub struct RouteContext {
    pub actor: Actor,
    pub activities: Vec<Activity>,
    pub state: StateBag,
}

/// All routes of a solution, what constraint modules derived about them
/// together, and the jobs that are not assigned yet.
pub struct SolutionContext {
    pub routes: Vec<RouteContext>,
    pub state: StateBag,
    pub unassigned: Vec<Job>,
}

} // verus!
