use vstd::prelude::*;
use crate::models::{Activity, Actor, Job, RouteContext, SolutionContext, job_dimens};
use crate::state::{StateBag, StateValue, StateView};
use crate::tags::{TagMap, text_typed, text_under};
use crate::pipeline::ConstraintModule;

verus! {

/// The group tag of a job, if it has one.
pub open spec fn group_of(job: Job) -> Option<Seq<char>> {
    text_under(job_dimens(job)@, "group"@)
}

/// The job's tag bag is well formed and its group tag, if any, is a text.
pub open spec fn group_typed(job: Job) -> bool {
    job_dimens(job).wf() && text_typed(job_dimens(job)@, "group"@)
}

/// The group tag of the job at a stop, if there is one.
pub open spec fn activity_group(a: Activity) -> Option<Seq<char>> {
    match a.job {
        Some(j) => group_of(j),
        None => None,
    }
}

/// Every job of every route has a well-typed group tag.
pub open spec fn routes_typed(routes: Seq<RouteContext>) -> bool {
    forall|r: int, a: int|
        0 <= r < routes.len() && 0 <= a < routes[r].activities@.len() ==> match (
        #[trigger] routes[r].activities@[a]).job {
            Some(j) => group_typed(j),
            None => true,
        }
}

/// The group bindings kept under `key`; none where the key holds nothing.
pub open spec fn bindings(state: Map<i32, StateView>, key: i32) -> Map<Seq<char>, usize> {
    if state.contains_key(key) {
        match state[key] {
            StateView::ActorGroups(m) => m,
            _ => Map::empty(),
        }
    } else {
        Map::empty()
    }
}

/// The key holds nothing or group bindings.
pub open spec fn state_typed(state: Map<i32, StateView>, key: i32) -> bool {
    state.contains_key(key) ==> state[key] is ActorGroups
}

/// Signals that an insertion breaks a hard constraint.
#[derive(PartialEq, Eq, Structural, Debug, Clone, Copy)]
pub struct RouteConstraintViolation {
    pub code: i32,
}

/// The verdict on a job of group `group` for a route served by `actor`: a
/// violation exactly when the group is bound to another actor.
pub open spec fn group_verdict(
    code: i32,
    b: Map<Seq<char>, usize>,
    actor: usize,
    group: Option<Seq<char>>,
) -> Option<RouteConstraintViolation> {
    match group {
        Some(g) => if b.contains_key(g) && b[g] != actor {
            Some(RouteConstraintViolation { code })
        } else {
            None
        },
        None => None,
    }
}

/// The bindings after a job of group `group` went to `actor`: the first
/// binding of a group stays.
pub open spec fn bind(b: Map<Seq<char>, usize>, actor: usize, group: Option<Seq<char>>) -> Map<
    Seq<char>,
    usize,
> {
    match group {
        Some(g) => if b.contains_key(g) {
            b
        } else {
            b.insert(g, actor)
        },
        None => b,
    }
}

/// The group tags of the stops, each with the actor of their route, in order.
pub open spec fn activity_tags(acts: Seq<Activity>, actor: usize) -> Seq<(Seq<char>, usize)>
    decreases acts.len(),
{
    if acts.len() == 0 {
        Seq::empty()
    } else {
        let prev = activity_tags(acts.drop_last(), actor);
        match activity_group(acts.last()) {
            Some(g) => prev.push((g, actor)),
            None => prev,
        }
    }
}

/// The group tags of all routes, each with the actor of its route, route
/// after route.
pub open spec fn route_tags(routes: Seq<RouteContext>) -> Seq<(Seq<char>, usize)>
    decreases routes.len(),
{
    if routes.len() == 0 {
        Seq::empty()
    } else {
        route_tags(routes.drop_last()) + activity_tags(
            routes.last().activities@,
            routes.last().actor.id,
        )
    }
}

/// The bindings that accepting the tagged jobs one after another builds from none.
pub open spec fn replay(tags: Seq<(Seq<char>, usize)>) -> Map<Seq<char>, usize>
    decreases tags.len(),
{
    if tags.len() == 0 {
        Map::empty()
    } else {
        bind(replay(tags.drop_last()), tags.last().1, Some(tags.last().0))
    }
}

/// The solution state after a job of group `group` went to `actor`.
pub open spec fn state_after_insertion(
    state: Map<i32, StateView>,
    key: i32,
    actor: usize,
    group: Option<Seq<char>>,
) -> Map<i32, StateView> {
    match group {
        Some(g) => state.insert(key, StateView::ActorGroups(bind(bindings(state, key), actor, group))),
        None => state,
    }
}

/// The solution state after the bindings were built anew from the routes.
pub open spec fn state_after_solution(
    state: Map<i32, StateView>,
    key: i32,
    routes: Seq<RouteContext>,
) -> Map<i32, StateView> {
    state.insert(key, StateView::ActorGroups(replay(route_tags(routes))))
}

fn job_group(job: &Job) -> (r: Option<&String>)
    requires
        group_typed(*job),
    ensures
        match r {
            Some(g) => group_of(*job) == Some(g@),
            None => group_of(*job) is None,
        },
{
    match job.dimens().get_text("group") {
        Ok(g) => g,
        Err(_) => None,
    }
}

/// Keeps all jobs of one group on one actor.
#[derive(Clone, Copy)]
pub struct GroupHardRouteConstraint {
    pub code: i32,
    pub state_key: i32,
}

impl GroupHardRouteConstraint {
    /// Judges the insertion of `job` into `route`; reads and changes nothing.
    pub fn evaluate_job(&self, solution: &SolutionContext, route: &RouteContext, job: &Job) -> (r:
        Option<RouteConstraintViolation>)
        requires
            solution.state.wf(),
            state_typed(solution.state@, self.state_key),
            group_typed(*job),
        ensures
            r == group_verdict(
                self.code,
                bindings(solution.state@, self.state_key),
                route.actor.id,
                group_of(*job),
            ),
    {
        let group = match job_group(job) {
            Some(g) => g,
            None => return None,
        };
        match solution.state.get_actor_groups(self.state_key) {
            Ok(Some(b)) => match b.get(group.as_str()) {
                Some(actor) => if *actor != route.actor.id {
                    Some(RouteConstraintViolation { code: self.code })
                } else {
                    None
                },
                None => None,
            },
            _ => None,
        }
    }
}

/// A constraint that a module contributes.
pub enum ConstraintVariant {
    HardRoute(GroupHardRouteConstraint),
}

/// Takes the group bindings under `key` out of the bag; none where it held nothing.
fn take_bindings(state: &mut StateBag, key: i32) -> (r: TagMap<usize>)
    requires
        old(state).wf(),
        state_typed(old(state)@, key),
    ensures
        final(state).wf(),
        final(state)@ == old(state)@.remove(key),
        r.wf(),
        r@ == bindings(old(state)@, key),
{
    match state.remove(key) {
        Some(StateValue::ActorGroups(b)) => b,
        _ => TagMap::new(),
    }
}

/// Binds the group of a job to `actor` unless the group is bound already.
fn bind_group(b: &mut TagMap<usize>, group: &String, actor: usize)
    requires
        old(b).wf(),
    ensures
        final(b).wf(),
        final(b)@ == bind(old(b)@, actor, Some(group@)),
{
    if b.get(group.as_str()).is_none() {
        b.set(group.clone(), actor);
    }
}

/// Jobs that carry the same group tag go to one actor.
pub struct GroupModule {
    pub code: i32,
    pub state_key: i32,
}

impl GroupModule {
    pub fn new(code: i32, state_key: i32) -> (r: GroupModule)
        ensures
            r.code == code,
            r.state_key == state_key,
    {
        GroupModule { code, state_key }
    }
}

impl ConstraintModule for GroupModule {
    open spec fn keys(&self) -> Seq<i32> {
        seq![self.state_key]
    }

    open spec fn constraints(&self) -> Seq<ConstraintVariant> {
        seq![
            ConstraintVariant::HardRoute(
                GroupHardRouteConstraint { code: self.code, state_key: self.state_key },
            ),
        ]
    }

    open spec fn can_evaluate(&self, state: Map<i32, StateView>, job: Job) -> bool {
        state_typed(state, self.state_key) && group_typed(job)
    }

    open spec fn verdict(&self, state: Map<i32, StateView>, route: RouteContext, job: Job) -> Option<
        RouteConstraintViolation,
    > {
        group_verdict(self.code, bindings(state, self.state_key), route.actor.id, group_of(job))
    }

    /// The insertion must be one that `evaluate_job` accepted.
    open spec fn can_accept_insertion(
        &self,
        state: Map<i32, StateView>,
        routes: Seq<RouteContext>,
        index: int,
        job: Job,
    ) -> bool {
        &&& state_typed(state, self.state_key)
        &&& group_typed(job)
        &&& group_verdict(
            self.code,
            bindings(state, self.state_key),
            routes[index].actor.id,
            group_of(job),
        ) is None
    }

    /// The job's group, if it has one and the group is unbound, is bound to
    /// the route's actor.
    open spec fn after_insertion(
        &self,
        state: Map<i32, StateView>,
        routes: Seq<RouteContext>,
        index: int,
        job: Job,
    ) -> Map<i32, StateView> {
        state_after_insertion(state, self.state_key, routes[index].actor.id, group_of(job))
    }

    open spec fn can_accept_solution(&self, state: Map<i32, StateView>, routes: Seq<RouteContext>) -> bool {
        routes_typed(routes)
    }

    /// Each group tag that some job of some route carries is bound to the
    /// actor of the first route, in route order, that carries it; no other
    /// tag is bound.
    open spec fn after_solution(&self, state: Map<i32, StateView>, routes: Seq<RouteContext>) -> Map<
        i32,
        StateView,
    > {
        state_after_solution(state, self.state_key, routes)
    }

    /// The module keeps no state per route.
    open spec fn after_route(
        &self,
        state: Map<i32, StateView>,
        actor: Actor,
        activities: Seq<Activity>,
    ) -> Map<i32, StateView> {
        state
    }

    fn state_keys(&self) -> Vec<i32> {
        vec![self.state_key]
    }

    fn get_constraints(&self) -> Vec<ConstraintVariant> {
        vec![
            ConstraintVariant::HardRoute(
                GroupHardRouteConstraint { code: self.code, state_key: self.state_key },
            ),
        ]
    }

    fn evaluate_job(
        &self,
        solution: &SolutionContext,
        route: &RouteContext,
        job: &Job,
    ) -> Option<RouteConstraintViolation> {
        let constraint = GroupHardRouteConstraint { code: self.code, state_key: self.state_key };
        constraint.evaluate_job(solution, route, job)
    }

    /// Binds the job's group, if it has one and it is unbound, to the
    /// route's actor.
    fn accept_insertion(&self, solution: &mut SolutionContext, route_index: usize, job: &Job) {
        let group = match job_group(job) {
            Some(g) => g,
            None => return,
        };
        let actor = solution.routes[route_index].actor.id;
        let mut b = take_bindings(&mut solution.state, self.state_key);
        bind_group(&mut b, group, actor);
        solution.state.set(self.state_key, StateValue::ActorGroups(b));
        assert(solution.state@ =~= state_after_insertion(
            old(solution).state@,
            self.state_key,
            actor,
            group_of(*job),
        ));
    }

    /// The module keeps no state per route: a changed route changes nothing.
    fn accept_route_state(&self, route: &mut RouteContext) {
    }

    /// Builds the group bindings anew from the routes: each group tag that
    /// some job of some route carries is bound to the actor of the first
    /// route, in route order, that carries it; no other tag is bound.
    fn accept_solution_state(&self, solution: &mut SolutionContext) {
        let mut b: TagMap<usize> = TagMap::new();
        let routes = &solution.routes;
        let mut r: usize = 0;
        while r < routes.len()
            invariant
                r <= routes@.len(),
                routes_typed(routes@),
                b.wf(),
                b@ == replay(route_tags(routes@.take(r as int))),
            decreases routes.len() - r,
        {
            let route = &routes[r];
            let actor = route.actor.id;
            let ghost done = route_tags(routes@.take(r as int));
            let mut a: usize = 0;
            while a < route.activities.len()
                invariant
                    r < routes@.len(),
                    *route == routes@[r as int],
                    actor == route.actor.id,
                    a <= route.activities@.len(),
                    routes_typed(routes@),
                    b.wf(),
                    b@ == replay(done + activity_tags(route.activities@.take(a as int), actor)),
                decreases route.activities.len() - a,
            {
                let ghost acts = route.activities@.take(a as int + 1);
                proof {
                    assert(acts.drop_last() =~= route.activities@.take(a as int));
                    assert(acts.last() == routes@[r as int].activities@[a as int]);
                }
                if let Some(job) = &route.activities[a].job {
                    if let Some(group) = job_group(job) {
                        bind_group(&mut b, group, actor);
                        proof {
                            let prev = done + activity_tags(acts.drop_last(), actor);
                            assert(done + activity_tags(acts, actor) =~= prev.push((group@, actor)));
                            assert(prev.push((group@, actor)).drop_last() =~= prev);
                        }
                    } else {
                        assert(done + activity_tags(acts, actor) =~= done + activity_tags(
                            acts.drop_last(),
                            actor,
                        ));
                    }
                } else {
                    assert(done + activity_tags(acts, actor) =~= done + activity_tags(
                        acts.drop_last(),
                        actor,
                    ));
                }
                a = a + 1;
            }
            proof {
                assert(route.activities@.take(a as int) =~= route.activities@);
                assert(routes@.take(r as int + 1).drop_last() =~= routes@.take(r as int));
            }
            r = r + 1;
        }
        proof {
            assert(routes@.take(r as int) =~= routes@);
        }
        solution.state.set(self.state_key, StateValue::ActorGroups(b));
    }
}

/// Building the group bindings anew twice in a row leaves the solution state
/// as building them once does.
pub proof fn lemma_solution_state_idempotent(
    module: GroupModule,
    state: Map<i32, StateView>,
    routes: Seq<RouteContext>,
)
    ensures
        module.after_solution(module.after_solution(state, routes), routes)
            == module.after_solution(state, routes),
{
    assert(module.after_solution(module.after_solution(state, routes), routes)
        =~= module.after_solution(state, routes));
}

/// A job without a group tag never violates the group constraint, whatever
/// the bindings are.
pub proof fn lemma_untagged_job_accepted(
    module: GroupModule,
    state: Map<i32, StateView>,
    route: RouteContext,
    job: Job,
)
    requires
        group_of(job) is None,
    ensures
        module.verdict(state, route, job) is None,
{
}

/// A job of a bound group violates the group constraint, with the module's
/// code, on a route of another actor, and passes on a route of the bound actor.
pub proof fn lemma_bound_group_conflict(
    module: GroupModule,
    state: Map<i32, StateView>,
    route: RouteContext,
    job: Job,
    g: Seq<char>,
)
    requires
        group_of(job) == Some(g),
        bindings(state, module.state_key).contains_key(g),
    ensures
        bindings(state, module.state_key)[g] != route.actor.id ==> module.verdict(state, route, job)
            == Some(RouteConstraintViolation { code: module.code }),
        bindings(state, module.state_key)[g] == route.actor.id ==> module.verdict(
            state,
            route,
            job,
        ) is None,
{
}

/// Accepting an insertion leaves the binding of every other group as it was,
/// and every other state key too.
pub proof fn lemma_insertion_keeps_other_bindings(
    module: GroupModule,
    state: Map<i32, StateView>,
    routes: Seq<RouteContext>,
    index: int,
    job: Job,
    h: Seq<char>,
    k: i32,
)
    requires
        0 <= index < routes.len(),
        group_of(job) != Some(h),
        k != module.state_key,
    ensures
        bindings(module.after_insertion(state, routes, index, job), module.state_key).contains_key(h)
            == bindings(state, module.state_key).contains_key(h),
        bindings(state, module.state_key).contains_key(h) ==> bindings(
            module.after_insertion(state, routes, index, job),
            module.state_key,
        )[h] == bindings(state, module.state_key)[h],
        module.after_insertion(state, routes, index, job).contains_key(k) == state.contains_key(k),
        state.contains_key(k) ==> module.after_insertion(state, routes, index, job)[k] == state[k],
{
}

proof fn lemma_replay_origin(tags: Seq<(Seq<char>, usize)>, g: Seq<char>)
    requires
        replay(tags).contains_key(g),
    ensures
        exists|i: int| 0 <= i < tags.len() && tags[i] == (g, replay(tags)[g]),
    decreases tags.len(),
{
    let d = tags.drop_last();
    if replay(d).contains_key(g) {
        lemma_replay_origin(d, g);
        let i = choose|i: int| 0 <= i < d.len() && d[i] == (g, replay(d)[g]);
        assert(tags[i] == d[i]);
    } else {
        assert(tags[tags.len() - 1] == (g, replay(tags)[g]));
    }
}

proof fn lemma_activity_tag_origin(acts: Seq<Activity>, actor: usize, i: int)
    requires
        0 <= i < activity_tags(acts, actor).len(),
    ensures
        activity_tags(acts, actor)[i].1 == actor,
        exists|a: int|
            0 <= a < acts.len() && activity_group(#[trigger] acts[a]) == Some(
                activity_tags(acts, actor)[i].0,
            ),
    decreases acts.len(),
{
    let d = acts.drop_last();
    if i < activity_tags(d, actor).len() {
        lemma_activity_tag_origin(d, actor, i);
        let a = choose|a: int|
            0 <= a < d.len() && activity_group(#[trigger] d[a]) == Some(
                activity_tags(d, actor)[i].0,
            );
        assert(acts[a] == d[a]);
    } else {
        assert(acts[acts.len() - 1] == acts.last());
    }
}

proof fn lemma_route_tag_origin(routes: Seq<RouteContext>, i: int)
    requires
        0 <= i < route_tags(routes).len(),
    ensures
        exists|r: int, a: int|
            0 <= r < routes.len() && 0 <= a < routes[r].activities@.len()
                && activity_group(#[trigger] routes[r].activities@[a]) == Some(
                route_tags(routes)[i].0,
            ) && route_tags(routes)[i].1 == routes[r].actor.id,
    decreases routes.len(),
{
    let d = routes.drop_last();
    let n = route_tags(d).len();
    if i < n {
        lemma_route_tag_origin(d, i);
        let (r, a) = choose|r: int, a: int|
            0 <= r < d.len() && 0 <= a < d[r].activities@.len() && activity_group(
                #[trigger] d[r].activities@[a],
            ) == Some(route_tags(d)[i].0) && route_tags(d)[i].1 == d[r].actor.id;
        assert(routes[r] == d[r]);
    } else {
        let last = routes.last();
        lemma_activity_tag_origin(last.activities@, last.actor.id, i - n);
        let a = choose|a: int|
            0 <= a < last.activities@.len() && activity_group(#[trigger] last.activities@[a])
                == Some(activity_tags(last.activities@, last.actor.id)[i - n].0);
        assert(routes[routes.len() - 1] == last);
        assert(routes[routes.len() - 1].activities@[a] == last.activities@[a]);
    }
}

/// Building the bindings anew binds only group tags that a job of some route
/// carries, each to the actor of such a route.
pub proof fn lemma_no_stale_bindings(
    module: GroupModule,
    state: Map<i32, StateView>,
    routes: Seq<RouteContext>,
    g: Seq<char>,
)
    requires
        bindings(module.after_solution(state, routes), module.state_key).contains_key(g),
    ensures
        exists|r: int, a: int|
            0 <= r < routes.len() && 0 <= a < routes[r].activities@.len()
                && activity_group(#[trigger] routes[r].activities@[a]) == Some(g)
                && bindings(module.after_solution(state, routes), module.state_key)[g]
                == routes[r].actor.id,
{
    let tags = route_tags(routes);
    assert(bindings(module.after_solution(state, routes), module.state_key) == replay(tags));
    lemma_replay_origin(tags, g);
    let i = choose|i: int| 0 <= i < tags.len() && tags[i] == (g, replay(tags)[g]);
    lemma_route_tag_origin(routes, i);
}

} // verus!
