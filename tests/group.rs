use vrp_pragmatic::group::{ConstraintVariant, GroupHardRouteConstraint, GroupModule, RouteConstraintViolation};
use vrp_pragmatic::models::{Activity, Actor, Job, RouteContext, Single, SolutionContext};
use vrp_pragmatic::pipeline::ConstraintModule;
use vrp_pragmatic::state::{StateBag, StateValue};
use vrp_pragmatic::tags::{DimenValue, Dimensions, TagMap};

const VIOLATION_CODE: i32 = 1;
const STATE_KEY: i32 = 2;

fn actor_of(vehicle: &str) -> Actor {
    let index = match vehicle {
        "v1" => 0,
        "v2" => 1,
        _ => panic!("unknown vehicle {}", vehicle),
    };
    Actor { id: index, vehicle: index, driver: 0, detail: 0 }
}

fn create_test_job(group: Option<&str>) -> Job {
    let mut dimens: Dimensions = TagMap::new();
    if let Some(group) = group {
        dimens.set("group".to_string(), DimenValue::Text(group.to_string()));
    }
    Job::Single(Single { dimens })
}

fn create_test_solution_context(
    routes: Vec<(&str, Vec<Option<&str>>)>,
    actor_groups: Option<Vec<(&str, &str)>>,
) -> SolutionContext {
    let mut state = StateBag::new();
    if let Some(actor_groups) = actor_groups {
        let mut groups = TagMap::new();
        for (group, vehicle) in actor_groups {
            groups.set(group.to_string(), actor_of(vehicle).id);
        }
        state.set(STATE_KEY, StateValue::ActorGroups(groups));
    }

    SolutionContext {
        routes: routes
            .into_iter()
            .map(|(vehicle, groups)| RouteContext {
                actor: actor_of(vehicle),
                activities: groups.into_iter().map(|group| Activity { job: Some(create_test_job(group)) }).collect(),
                state: StateBag::new(),
            })
            .collect(),
        state,
        unassigned: vec![],
    }
}

fn compare_actor_groups(solution: &SolutionContext, expected: Vec<(&str, &str)>) {
    match solution.state.get(STATE_KEY) {
        Some(StateValue::ActorGroups(groups)) => {
            assert_eq!(groups.len(), expected.len());
            for (group, vehicle) in expected {
                assert_eq!(groups.get(group), Some(&actor_of(vehicle).id));
            }
        }
        _ => panic!("no actor groups in the solution state"),
    }
}

#[test]
fn can_build_expected_module() {
    let module = GroupModule::new(VIOLATION_CODE, STATE_KEY);

    assert_eq!(module.state_keys(), vec![STATE_KEY]);
    assert_eq!(module.get_constraints().len(), 1);
    match &module.get_constraints()[0] {
        ConstraintVariant::HardRoute(c) => {
            assert_eq!(c.code, VIOLATION_CODE);
            assert_eq!(c.state_key, STATE_KEY);
        }
    }
}

fn can_accept_insertion_impl(
    routes: Vec<(&str, Vec<Option<&str>>)>,
    job_group: Option<&str>,
    actor_groups: Option<Vec<(&str, &str)>>,
    expected: Vec<(&str, &str)>,
) {
    let module = GroupModule::new(VIOLATION_CODE, STATE_KEY);
    let mut solution = create_test_solution_context(routes, actor_groups);
    let job = create_test_job(job_group);

    module.accept_insertion(&mut solution, 0, &job);

    compare_actor_groups(&solution, expected);
}

#[test]
fn can_accept_insertion_case_01() {
    can_accept_insertion_impl(vec![("v1", vec![None])], Some("g1"), None, vec![("g1", "v1")]);
}

#[test]
fn can_accept_insertion_case_02() {
    can_accept_insertion_impl(
        vec![("v1", vec![None])],
        Some("g1"),
        Some(vec![("g2", "v2")]),
        vec![("g1", "v1"), ("g2", "v2")],
    );
}

#[test]
fn accept_insertion_of_bound_group_keeps_binding() {
    can_accept_insertion_impl(
        vec![("v1", vec![None])],
        Some("g1"),
        Some(vec![("g1", "v1"), ("g2", "v2")]),
        vec![("g1", "v1"), ("g2", "v2")],
    );
}

#[test]
fn accept_insertion_of_untagged_job_changes_nothing() {
    can_accept_insertion_impl(vec![("v1", vec![None])], None, Some(vec![("g2", "v2")]), vec![("g2", "v2")]);
}

fn can_accept_solution_state_impl(
    routes: Vec<(&str, Vec<Option<&str>>)>,
    actor_groups: Option<Vec<(&str, &str)>>,
    expected: Vec<(&str, &str)>,
) {
    let module = GroupModule::new(VIOLATION_CODE, STATE_KEY);
    let mut solution = create_test_solution_context(routes, actor_groups);

    module.accept_solution_state(&mut solution);

    compare_actor_groups(&solution, expected);
}

#[test]
fn can_accept_solution_state_case_01() {
    can_accept_solution_state_impl(vec![("v1", vec![Some("g1")])], None, vec![("g1", "v1")]);
}

#[test]
fn can_accept_solution_state_case_02() {
    can_accept_solution_state_impl(
        vec![("v1", vec![Some("g1")]), ("v2", vec![Some("g2")])],
        None,
        vec![("g1", "v1"), ("g2", "v2")],
    );
}

#[test]
fn can_accept_solution_state_case_03() {
    can_accept_solution_state_impl(
        vec![("v1", vec![Some("g1")]), ("v1", vec![Some("g2")])],
        None,
        vec![("g1", "v1"), ("g2", "v1")],
    );
}

#[test]
fn can_accept_solution_state_case_04() {
    can_accept_solution_state_impl(vec![("v1", vec![Some("g1")])], Some(vec![("g2", "v2")]), vec![("g1", "v1")]);
}

#[test]
fn can_accept_solution_state_case_05() {
    can_accept_solution_state_impl(vec![("v1", vec![None])], Some(vec![("g1", "v1")]), vec![]);
}

#[test]
fn accept_solution_state_binds_first_route_in_order() {
    can_accept_solution_state_impl(
        vec![("v2", vec![None, Some("g1")]), ("v1", vec![Some("g1"), Some("g2")])],
        Some(vec![("g1", "v1")]),
        vec![("g1", "v2"), ("g2", "v1")],
    );
}

#[test]
fn accept_solution_state_twice_gives_same_bindings() {
    let module = GroupModule::new(VIOLATION_CODE, STATE_KEY);
    let mut solution = create_test_solution_context(
        vec![("v1", vec![Some("g1")]), ("v2", vec![Some("g2"), Some("g1")])],
        Some(vec![("g3", "v2")]),
    );

    module.accept_solution_state(&mut solution);
    compare_actor_groups(&solution, vec![("g1", "v1"), ("g2", "v2")]);
    module.accept_solution_state(&mut solution);
    compare_actor_groups(&solution, vec![("g1", "v1"), ("g2", "v2")]);
}

fn can_evaluate_job_impl(
    routes: Vec<(&str, Vec<Option<&str>>)>,
    route_idx: usize,
    job_group: Option<&str>,
    actor_groups: Option<Vec<(&str, &str)>>,
    expected: Option<i32>,
) {
    let solution_ctx = create_test_solution_context(routes, actor_groups);
    let route_ctx = solution_ctx.routes.get(route_idx).unwrap();
    let job = create_test_job(job_group);

    let result = GroupHardRouteConstraint { code: VIOLATION_CODE, state_key: STATE_KEY }.evaluate_job(
        &solution_ctx,
        route_ctx,
        &job,
    );
    assert_eq!(result, expected.map(|code| RouteConstraintViolation { code }));

    let module_result = GroupModule::new(VIOLATION_CODE, STATE_KEY).evaluate_job(&solution_ctx, route_ctx, &job);
    assert_eq!(module_result, expected.map(|code| RouteConstraintViolation { code }));
}

#[test]
fn can_evaluate_job_case_01() {
    can_evaluate_job_impl(
        vec![("v1", vec![]), ("v2", vec![])],
        0,
        Some("g1"),
        Some(vec![("g1", "v2")]),
        Some(VIOLATION_CODE),
    );
}

#[test]
fn can_evaluate_job_case_02() {
    can_evaluate_job_impl(vec![("v1", vec![]), ("v2", vec![])], 0, None, Some(vec![("g1", "v2")]), None);
}

#[test]
fn can_evaluate_job_case_03() {
    can_evaluate_job_impl(vec![("v1", vec![]), ("v2", vec![])], 1, Some("g1"), Some(vec![("g1", "v2")]), None);
}

#[test]
fn can_evaluate_job_case_04() {
    can_evaluate_job_impl(vec![("v1", vec![])], 0, Some("g1"), None, None);
}

#[test]
fn evaluate_job_of_unbound_group_passes() {
    can_evaluate_job_impl(vec![("v1", vec![]), ("v2", vec![])], 0, Some("g2"), Some(vec![("g1", "v2")]), None);
}

#[test]
fn accept_route_state_changes_nothing() {
    let module = GroupModule::new(VIOLATION_CODE, STATE_KEY);
    let mut solution = create_test_solution_context(vec![("v1", vec![Some("g1")])], Some(vec![("g1", "v1")]));

    module.accept_route_state(&mut solution.routes[0]);

    assert_eq!(solution.routes[0].activities.len(), 1);
    compare_actor_groups(&solution, vec![("g1", "v1")]);
}
