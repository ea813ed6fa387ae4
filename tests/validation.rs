use vrp_pragmatic::validation::{
    check_e1000_no_jobs_with_duplicate_ids, check_e1001_correct_job_types_demand,
    check_e1002_multiple_pickups_deliveries_demand, check_e1003_time_window_correctness, check_time_windows,
    validate_jobs, JobPlace, JobTask, PlanJob, ValidationContext,
};

fn task(demand: Option<Vec<i32>>, times: Option<Vec<Vec<i64>>>) -> JobTask {
    JobTask { places: vec![JobPlace { location: 0, duration: 0, times }], demand }
}

fn job(id: &str) -> PlanJob {
    PlanJob { id: id.to_string(), pickups: None, deliveries: None, replacements: None, services: None }
}

fn delivery_job(id: &str, demand: i32) -> PlanJob {
    PlanJob { deliveries: Some(vec![task(Some(vec![demand]), None)]), ..job(id) }
}

fn ctx(jobs: Vec<PlanJob>) -> ValidationContext {
    ValidationContext { jobs }
}

#[test]
fn valid_jobs_pass() {
    let c = ctx(vec![
        delivery_job("job1", 1),
        PlanJob { services: Some(vec![task(None, Some(vec![vec![0, 10], vec![20, 30]]))]), ..job("job2") },
        PlanJob {
            pickups: Some(vec![task(Some(vec![1, 2]), None), task(Some(vec![1]), None)]),
            deliveries: Some(vec![task(Some(vec![2, 2]), None)]),
            ..job("job3")
        },
    ]);

    assert!(check_e1000_no_jobs_with_duplicate_ids(&c).is_ok());
    assert!(check_e1001_correct_job_types_demand(&c).is_ok());
    assert!(check_e1002_multiple_pickups_deliveries_demand(&c).is_ok());
    assert!(check_e1003_time_window_correctness(&c).is_ok());
    assert!(validate_jobs(&c).is_ok());
}

#[test]
fn duplicate_ids_are_listed_once() {
    let c = ctx(vec![
        delivery_job("a", 1),
        delivery_job("b", 1),
        delivery_job("b", 1),
        delivery_job("a", 1),
        delivery_job("b", 1),
        delivery_job("c", 1),
    ]);

    let e = check_e1000_no_jobs_with_duplicate_ids(&c).unwrap_err();
    assert_eq!(e.code, "E1000");
    assert_eq!(e.message, "duplicated job ids: b, a");
    assert_eq!(e.action, "remove jobs with the same ids");
}

#[test]
fn wrong_task_demand_is_reported() {
    let c = ctx(vec![
        PlanJob { deliveries: Some(vec![task(None, None)]), ..job("job1") },
        PlanJob { services: Some(vec![task(Some(vec![1]), None)]), ..job("job2") },
        delivery_job("job3", 1),
        PlanJob { replacements: Some(vec![task(None, None)]), ..job("job4") },
    ]);

    let e = check_e1001_correct_job_types_demand(&c).unwrap_err();
    assert_eq!(e.code, "E1001");
    assert_eq!(e.message, "invalid job task demand in jobs: job1, job2, job4");
    assert_eq!(e.action, "correct demand based on job task type");
}

#[test]
fn unbalanced_pickup_delivery_is_reported() {
    let c = ctx(vec![
        PlanJob {
            pickups: Some(vec![task(Some(vec![1, 0]), None)]),
            deliveries: Some(vec![task(Some(vec![1, 1]), None)]),
            ..job("job1")
        },
        PlanJob {
            pickups: Some(vec![task(Some(vec![2]), None)]),
            deliveries: Some(vec![task(Some(vec![1]), None), task(Some(vec![1, 0]), None)]),
            ..job("job2")
        },
        PlanJob { pickups: Some(vec![task(Some(vec![2]), None)]), deliveries: Some(vec![]), ..job("job3") },
    ]);

    let e = check_e1002_multiple_pickups_deliveries_demand(&c).unwrap_err();
    assert_eq!(e.code, "E1002");
    assert_eq!(e.message, "invalid pickup and delivery demand in jobs: job1");
    assert_eq!(e.action, "correct demand so that sum of pickups equal to sum of deliveries");
}

#[test]
fn large_demands_sum_without_overflow() {
    let c = ctx(vec![PlanJob {
        pickups: Some(vec![task(Some(vec![i32::MAX]), None), task(Some(vec![i32::MAX]), None)]),
        deliveries: Some(vec![task(Some(vec![i32::MAX]), None), task(Some(vec![i32::MAX - 1]), None)]),
        ..job("job1")
    }]);

    let e = check_e1002_multiple_pickups_deliveries_demand(&c).unwrap_err();
    assert_eq!(e.message, "invalid pickup and delivery demand in jobs: job1");
}

#[test]
fn bad_time_windows_are_reported() {
    let c = ctx(vec![
        PlanJob { deliveries: Some(vec![task(Some(vec![1]), Some(vec![vec![10, 5]]))]), ..job("job1") },
        PlanJob { pickups: Some(vec![task(Some(vec![1]), Some(vec![vec![0, 10], vec![10, 20]]))]), ..job("job2") },
        PlanJob { deliveries: Some(vec![task(Some(vec![1]), Some(vec![vec![0, 10], vec![11, 20]]))]), ..job("job3") },
        PlanJob { deliveries: Some(vec![task(Some(vec![1]), Some(vec![vec![0]]))]), ..job("job4") },
    ]);

    let e = check_e1003_time_window_correctness(&c).unwrap_err();
    assert_eq!(e.code, "E1003");
    assert_eq!(e.message, "invalid time windows in jobs: job1, job2, job4");
    assert_eq!(e.action, "change job task place time windows so that they don't intersect");
}

#[test]
fn time_windows_check() {
    assert!(check_time_windows(&vec![]));
    assert!(check_time_windows(&vec![vec![5, 5]]));
    assert!(check_time_windows(&vec![vec![30, 40], vec![0, 10], vec![11, 20]]));
    assert!(!check_time_windows(&vec![vec![30, 40], vec![0, 10], vec![5, 20]]));
    assert!(!check_time_windows(&vec![vec![0, 10], vec![20, 30, 40]]));
    assert!(!check_time_windows(&vec![vec![10, 0]]));
}

#[test]
fn validate_jobs_reports_all_failures_in_order() {
    let c = ctx(vec![
        PlanJob { deliveries: Some(vec![task(None, Some(vec![vec![10, 5]]))]), ..job("job1") },
        delivery_job("job1", 1),
    ]);

    let errors = validate_jobs(&c).unwrap_err();
    let codes: Vec<&str> = errors.iter().map(|e| e.code.as_str()).collect();
    assert_eq!(codes, vec!["E1000", "E1001", "E1003"]);
}
