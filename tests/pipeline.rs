use vrp_pragmatic::group::{GroupModule, RouteConstraintViolation};
use vrp_pragmatic::models::{Activity, Actor, Job, RouteContext, Single, SolutionContext};
use vrp_pragmatic::pipeline::ConstraintPipeline;
use vrp_pragmatic::state::{StateBag, StateValue};
use vrp_pragmatic::tags::{DimenValue, Dimensions, TagMap};

fn actor(id: usize) -> Actor {
    Actor { id, vehicle: id, driver: 0, detail: 0 }
}

fn grouped_job(group: Option<&str>) -> Job {
    let mut dimens: Dimensions = TagMap::new();
    if let Some(group) = group {
        dimens.set("group".to_string(), DimenValue::Text(group.to_string()));
    }
    Job::Single(Single { dimens })
}

fn route(id: usize, groups: Vec<Option<&str>>) -> RouteContext {
    RouteContext {
        actor: actor(id),
        activities: groups.into_iter().map(|g| Activity { job: Some(grouped_job(g)) }).collect(),
        state: StateBag::new(),
    }
}

fn bound(solution: &SolutionContext, key: i32, group: &str) -> Option<usize> {
    match solution.state.get(key) {
        Some(StateValue::ActorGroups(groups)) => groups.get(group).copied(),
        _ => None,
    }
}

fn two_module_pipeline() -> ConstraintPipeline<GroupModule> {
    ConstraintPipeline::new(vec![GroupModule::new(1, 2), GroupModule::new(5, 3)])
}

#[test]
fn pipeline_lists_keys_and_constraints_of_all_modules() {
    let pipeline = two_module_pipeline();
    assert_eq!(pipeline.state_keys(), vec![2, 3]);
    assert_eq!(pipeline.get_constraints().len(), 2);
}

#[test]
fn pipeline_reports_first_violation_in_module_order() {
    let pipeline = two_module_pipeline();
    let mut state = StateBag::new();
    let mut first = TagMap::new();
    first.set("g1".to_string(), 1);
    state.set(2, StateValue::ActorGroups(first));
    let mut second = TagMap::new();
    second.set("g1".to_string(), 0);
    state.set(3, StateValue::ActorGroups(second));
    let solution = SolutionContext { routes: vec![route(0, vec![]), route(1, vec![])], state, unassigned: vec![] };
    let job = grouped_job(Some("g1"));

    assert_eq!(
        pipeline.evaluate_job(&solution, &solution.routes[0], &job),
        Some(RouteConstraintViolation { code: 1 })
    );
    assert_eq!(
        pipeline.evaluate_job(&solution, &solution.routes[1], &job),
        Some(RouteConstraintViolation { code: 5 })
    );
    assert_eq!(pipeline.evaluate_job(&solution, &solution.routes[0], &grouped_job(None)), None);
}

#[test]
fn pipeline_hands_changes_to_every_module() {
    let pipeline = two_module_pipeline();
    let mut solution = SolutionContext {
        routes: vec![route(0, vec![None]), route(1, vec![Some("g2")])],
        state: StateBag::new(),
        unassigned: vec![],
    };

    pipeline.accept_insertion(&mut solution, 0, &grouped_job(Some("g1")));
    assert_eq!(bound(&solution, 2, "g1"), Some(0));
    assert_eq!(bound(&solution, 3, "g1"), Some(0));

    pipeline.accept_solution_state(&mut solution);
    assert_eq!(bound(&solution, 2, "g1"), None);
    assert_eq!(bound(&solution, 2, "g2"), Some(1));
    assert_eq!(bound(&solution, 3, "g2"), Some(1));

    pipeline.accept_route_state(&mut solution.routes[1]);
    assert_eq!(solution.routes[1].activities.len(), 1);
}
