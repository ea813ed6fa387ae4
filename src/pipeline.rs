use vstd::prelude::*;
use crate::group::{ConstraintVariant, RouteConstraintViolation};
use crate::models::{Activity, Actor, Job, RouteContext, SolutionContext};
use crate::state::StateView;

verus! {

/// A pluggable constraint: it judges candidate insertions and keeps the
/// state it derives up to date as the solution changes.
pub trait ConstraintModule: Sized {
    /// The state keys that the module owns.
    spec fn keys(&self) -> Seq<i32>;

    /// The constraints that the module contributes.
    spec fn constraints(&self) -> Seq<ConstraintVariant>;

    /// The module can judge `job` against a solution in state `state`.
    spec fn can_evaluate(&self, state: Map<i32, StateView>, job: Job) -> bool;

    /// The verdict on inserting `job` into `route`.
    spec fn verdict(&self, state: Map<i32, StateView>, route: RouteContext, job: Job) -> Option<
        RouteConstraintViolation,
    >;

    /// The module can record the insertion of `job` into route `index`.
    spec fn can_accept_insertion(
        &self,
        state: Map<i32, StateView>,
        routes: Seq<RouteContext>,
        index: int,
        job: Job,
    ) -> bool;

    /// The solution state once the insertion of `job` into route `index` is recorded.
    spec fn after_insertion(
        &self,
        state: Map<i32, StateView>,
        routes: Seq<RouteContext>,
        index: int,
        job: Job,
    ) -> Map<i32, StateView>;

    /// The module can derive its state anew from `routes`.
    spec fn can_accept_solution(&self, state: Map<i32, StateView>, routes: Seq<RouteContext>) -> bool;

    /// The solution state once the module derived its state anew from `routes`.
    spec fn after_solution(&self, state: Map<i32, StateView>, routes: Seq<RouteContext>) -> Map<
        i32,
        StateView,
    >;

    /// The state of a route served by `actor` through `activities` once the
    /// module derived its part of it anew from state `state`.
    spec fn after_route(
        &self,
        state: Map<i32, StateView>,
        actor: Actor,
        activities: Seq<Activity>,
    ) -> Map<i32, StateView>;

    fn state_keys(&self) -> (r: Vec<i32>)
        ensures
            r@ == self.keys(),
    ;

    fn get_constraints(&self) -> (r: Vec<ConstraintVariant>)
        ensures
            r@ == self.constraints(),
    ;

    /// Judges the insertion of `job` into `route`; reads and changes nothing.
    fn evaluate_job(&self, solution: &SolutionContext, route: &RouteContext, job: &Job) -> (r: Option<
        RouteConstraintViolation,
    >)
        requires
            solution.state.wf(),
            self.can_evaluate(solution.state@, *job),
        ensures
            r == self.verdict(solution.state@, *route, *job),
    ;

    /// Records that `job` was just inserted into the route at `route_index`.
    fn accept_insertion(&self, solution: &mut SolutionContext, route_index: usize, job: &Job)
        requires
            old(solution).state.wf(),
            route_index < old(solution).routes.len(),
            self.can_accept_insertion(
                old(solution).state@,
                old(solution).routes@,
                route_index as int,
                *job,
            ),
        ensures
            final(solution).routes == old(solution).routes,
            final(solution).unassigned == old(solution).unassigned,
            final(solution).state.wf(),
            final(solution).state@ == self.after_insertion(
                old(solution).state@,
                old(solution).routes@,
                route_index as int,
                *job,
            ),
    ;

    /// Derives the module's state of a route anew after the route changed.
    fn accept_route_state(&self, route: &mut RouteContext)
        requires
            old(route).state.wf(),
        ensures
            final(route).actor == old(route).actor,
            final(route).activities == old(route).activities,
            final(route).state.wf(),
            final(route).state@ == self.after_route(
                old(route).state@,
                old(route).actor,
                old(route).activities@,
            ),
    ;

    /// Derives the module's state anew from the whole solution, dropping
    /// whatever it held before.
    fn accept_solution_state(&self, solution: &mut SolutionContext)
        requires
            old(solution).state.wf(),
            self.can_accept_solution(old(solution).state@, old(solution).routes@),
        ensures
            final(solution).routes == old(solution).routes,
            final(solution).unassigned == old(solution).unassigned,
            final(solution).state.wf(),
            final(solution).state@ == self.after_solution(
                old(solution).state@,
                old(solution).routes@,
            ),
    ;
}

/// The verdict of the first module, in order, that finds a violation; none
/// where no module does.
pub open spec fn first_verdict<M: ConstraintModule>(
    modules: Seq<M>,
    state: Map<i32, StateView>,
    route: RouteContext,
    job: Job,
) -> Option<RouteConstraintViolation>
    decreases modules.len(),
{
    if modules.len() == 0 {
        None
    } else {
        match modules[0].verdict(state, route, job) {
            Some(v) => Some(v),
            None => first_verdict(modules.drop_first(), state, route, job),
        }
    }
}

/// The state keys of all modules, module after module.
pub open spec fn all_keys<M: ConstraintModule>(modules: Seq<M>) -> Seq<i32>
    decreases modules.len(),
{
    if modules.len() == 0 {
        Seq::empty()
    } else {
        modules[0].keys() + all_keys(modules.drop_first())
    }
}

/// The constraints of all modules, module after module.
pub open spec fn all_constraints<M: ConstraintModule>(modules: Seq<M>) -> Seq<ConstraintVariant>
    decreases modules.len(),
{
    if modules.len() == 0 {
        Seq::empty()
    } else {
        modules[0].constraints() + all_constraints(modules.drop_first())
    }
}

/// Each module in turn can record the insertion, in the state that the
/// modules before it left.
pub open spec fn insertion_ok<M: ConstraintModule>(
    modules: Seq<M>,
    state: Map<i32, StateView>,
    routes: Seq<RouteContext>,
    index: int,
    job: Job,
) -> bool
    decreases modules.len(),
{
    modules.len() == 0 || (modules[0].can_accept_insertion(state, routes, index, job)
        && insertion_ok(
        modules.drop_first(),
        modules[0].after_insertion(state, routes, index, job),
        routes,
        index,
        job,
    ))
}

/// The state once each module in turn recorded the insertion.
pub open spec fn after_insertions<M: ConstraintModule>(
    modules: Seq<M>,
    state: Map<i32, StateView>,
    routes: Seq<RouteContext>,
    index: int,
    job: Job,
) -> Map<i32, StateView>
    decreases modules.len(),
{
    if modules.len() == 0 {
        state
    } else {
        after_insertions(
            modules.drop_first(),
            modules[0].after_insertion(state, routes, index, job),
            routes,
            index,
            job,
        )
    }
}

/// Each module in turn can derive its state anew, in the state that the
/// modules before it left.
pub open spec fn solution_ok<M: ConstraintModule>(
    modules: Seq<M>,
    state: Map<i32, StateView>,
    routes: Seq<RouteContext>,
) -> bool
    decreases modules.len(),
{
    modules.len() == 0 || (modules[0].can_accept_solution(state, routes) && solution_ok(
        modules.drop_first(),
        modules[0].after_solution(state, routes),
        routes,
    ))
}

/// The state once each module in turn derived its state anew.
pub open spec fn after_solutions<M: ConstraintModule>(
    modules: Seq<M>,
    state: Map<i32, StateView>,
    routes: Seq<RouteContext>,
) -> Map<i32, StateView>
    decreases modules.len(),
{
    if modules.len() == 0 {
        state
    } else {
        after_solutions(modules.drop_first(), modules[0].after_solution(state, routes), routes)
    }
}

/// The route state once each module in turn derived its part anew.
pub open spec fn after_routes<M: ConstraintModule>(
    modules: Seq<M>,
    state: Map<i32, StateView>,
    actor: Actor,
    activities: Seq<Activity>,
) -> Map<i32, StateView>
    decreases modules.len(),
{
    if modules.len() == 0 {
        state
    } else {
        after_routes(
            modules.drop_first(),
            modules[0].after_route(state, actor, activities),
            actor,
            activities,
        )
    }
}

/// The registered constraint modules: an insertion is rejected when any of
/// them rejects it, and every change is handed to each of them in order.
pub struct ConstraintPipeline<M> {
    pub modules: Vec<M>,
}

impl<M: ConstraintModule> ConstraintPipeline<M> {
    pub fn new(modules: Vec<M>) -> (r: ConstraintPipeline<M>)
        ensures
            r.modules == modules,
    {
        ConstraintPipeline { modules }
    }

    /// The state keys of all modules.
    pub fn state_keys(&self) -> (r: Vec<i32>)
        ensures
            r@ == all_keys(self.modules@),
    {
        let mut r: Vec<i32> = Vec::new();
        assert(all_keys(self.modules@) =~= r@ + all_keys(self.modules@));
        let mut i: usize = 0;
        assert(self.modules@.skip(0) =~= self.modules@);
        while i < self.modules.len()
            invariant
                i <= self.modules@.len(),
                all_keys(self.modules@) == r@ + all_keys(self.modules@.skip(i as int)),
            decreases self.modules.len() - i,
        {
            let ghost rest = self.modules@.skip(i as int);
            assert(rest.drop_first() =~= self.modules@.skip(i as int + 1));
            let mut keys = self.modules[i].state_keys();
            let ghost before = r@;
            r.append(&mut keys);
            assert(before + all_keys(rest) =~= r@ + all_keys(self.modules@.skip(i as int + 1)));
            i = i + 1;
        }
        assert(r@ + all_keys(self.modules@.skip(i as int)) =~= r@);
        r
    }

    /// The constraints of all modules.
    pub fn get_constraints(&self) -> (r: Vec<ConstraintVariant>)
        ensures
            r@ == all_constraints(self.modules@),
    {
        let mut r: Vec<ConstraintVariant> = Vec::new();
        assert(all_constraints(self.modules@) =~= r@ + all_constraints(self.modules@));
        let mut i: usize = 0;
        assert(self.modules@.skip(0) =~= self.modules@);
        while i < self.modules.len()
            invariant
                i <= self.modules@.len(),
                all_constraints(self.modules@) == r@ + all_constraints(self.modules@.skip(i as int)),
            decreases self.modules.len() - i,
        {
            let ghost rest = self.modules@.skip(i as int);
            assert(rest.drop_first() =~= self.modules@.skip(i as int + 1));
            let mut constraints = self.modules[i].get_constraints();
            let ghost before = r@;
            r.append(&mut constraints);
            assert(before + all_constraints(rest) =~= r@ + all_constraints(
                self.modules@.skip(i as int + 1),
            ));
            i = i + 1;
        }
        assert(r@ + all_constraints(self.modules@.skip(i as int)) =~= r@);
        r
    }

    /// Judges the insertion of `job` into `route`: the first violation that a
    /// module finds, in module order.
    pub fn evaluate_job(&self, solution: &SolutionContext, route: &RouteContext, job: &Job) -> (r:
        Option<RouteConstraintViolation>)
        requires
            solution.state.wf(),
            forall|i: int|
                0 <= i < self.modules@.len() ==> (#[trigger] self.modules@[i]).can_evaluate(
                    solution.state@,
                    *job,
                ),
        ensures
            r == first_verdict(self.modules@, solution.state@, *route, *job),
    {
        let mut i: usize = 0;
        assert(self.modules@.skip(0) =~= self.modules@);
        while i < self.modules.len()
            invariant
                i <= self.modules@.len(),
                solution.state.wf(),
                forall|j: int|
                    0 <= j < self.modules@.len() ==> (#[trigger] self.modules@[j]).can_evaluate(
                        solution.state@,
                        *job,
                    ),
                first_verdict(self.modules@, solution.state@, *route, *job) == first_verdict(
                    self.modules@.skip(i as int),
                    solution.state@,
                    *route,
                    *job,
                ),
            decreases self.modules.len() - i,
        {
            let ghost rest = self.modules@.skip(i as int);
            assert(rest.drop_first() =~= self.modules@.skip(i as int + 1));
            assert(rest[0] == self.modules@[i as int]);
            let v = self.modules[i].evaluate_job(solution, route, job);
            if v.is_some() {
                return v;
            }
            i = i + 1;
        }
        None
    }

    /// Hands the insertion of `job` into the route at `route_index` to each
    /// module in turn.
    pub fn accept_insertion(&self, solution: &mut SolutionContext, route_index: usize, job: &Job)
        requires
            old(solution).state.wf(),
            route_index < old(solution).routes.len(),
            insertion_ok(
                self.modules@,
                old(solution).state@,
                old(solution).routes@,
                route_index as int,
                *job,
            ),
        ensures
            final(solution).routes == old(solution).routes,
            final(solution).unassigned == old(solution).unassigned,
            final(solution).state.wf(),
            final(solution).state@ == after_insertions(
                self.modules@,
                old(solution).state@,
                old(solution).routes@,
                route_index as int,
                *job,
            ),
    {
        let ghost routes = solution.routes@;
        let mut i: usize = 0;
        assert(self.modules@.skip(0) =~= self.modules@);
        while i < self.modules.len()
            invariant
                i <= self.modules@.len(),
                solution.routes == old(solution).routes,
                solution.unassigned == old(solution).unassigned,
                routes == solution.routes@,
                route_index < routes.len(),
                solution.state.wf(),
                insertion_ok(
                    self.modules@.skip(i as int),
                    solution.state@,
                    routes,
                    route_index as int,
                    *job,
                ),
                after_insertions(
                    self.modules@,
                    old(solution).state@,
                    routes,
                    route_index as int,
                    *job,
                ) == after_insertions(
                    self.modules@.skip(i as int),
                    solution.state@,
                    routes,
                    route_index as int,
                    *job,
                ),
            decreases self.modules.len() - i,
        {
            let ghost rest = self.modules@.skip(i as int);
            assert(rest.drop_first() =~= self.modules@.skip(i as int + 1));
            assert(rest[0] == self.modules@[i as int]);
            self.modules[i].accept_insertion(solution, route_index, job);
            i = i + 1;
        }
    }

    /// Hands a changed route to each module in turn.
    pub fn accept_route_state(&self, route: &mut RouteContext)
        requires
            old(route).state.wf(),
        ensures
            final(route).actor == old(route).actor,
            final(route).activities == old(route).activities,
            final(route).state.wf(),
            final(route).state@ == after_routes(
                self.modules@,
                old(route).state@,
                old(route).actor,
                old(route).activities@,
            ),
    {
        let mut i: usize = 0;
        assert(self.modules@.skip(0) =~= self.modules@);
        while i < self.modules.len()
            invariant
                i <= self.modules@.len(),
                route.actor == old(route).actor,
                route.activities == old(route).activities,
                route.state.wf(),
                after_routes(
                    self.modules@,
                    old(route).state@,
                    old(route).actor,
                    old(route).activities@,
                ) == after_routes(
                    self.modules@.skip(i as int),
                    route.state@,
                    old(route).actor,
                    old(route).activities@,
                ),
            decreases self.modules.len() - i,
        {
            let ghost rest = self.modules@.skip(i as int);
            assert(rest.drop_first() =~= self.modules@.skip(i as int + 1));
            assert(rest[0] == self.modules@[i as int]);
            self.modules[i].accept_route_state(route);
            i = i + 1;
        }
    }

    /// Hands a wholesale change of the solution to each module in turn, so
    /// that each derives its state anew.
    pub fn accept_solution_state(&self, solution: &mut SolutionContext)
        requires
            old(solution).state.wf(),
            solution_ok(self.modules@, old(solution).state@, old(solution).routes@),
        ensures
            final(solution).routes == old(solution).routes,
            final(solution).unassigned == old(solution).unassigned,
            final(solution).state.wf(),
            final(solution).state@ == after_solutions(
                self.modules@,
                old(solution).state@,
                old(solution).routes@,
            ),
    {
        let ghost routes = solution.routes@;
        let mut i: usize = 0;
        assert(self.modules@.skip(0) =~= self.modules@);
        while i < self.modules.len()
            invariant
                i <= self.modules@.len(),
                solution.routes == old(solution).routes,
                solution.unassigned == old(solution).unassigned,
                routes == solution.routes@,
                solution.state.wf(),
                solution_ok(self.modules@.skip(i as int), solution.state@, routes),
                after_solutions(self.modules@, old(solution).state@, routes) == after_solutions(
                    self.modules@.skip(i as int),
                    solution.state@,
                    routes,
                ),
            decreases self.modules.len() - i,
        {
            let ghost rest = self.modules@.skip(i as int);
            assert(rest.drop_first() =~= self.modules@.skip(i as int + 1));
            assert(rest[0] == self.modules@[i as int]);
            self.modules[i].accept_solution_state(solution);
            i = i + 1;
        }
    }
}

} // verus!
