use elcron::jobs::{
    get_condition, get_price, jobs_to_run, parse_elcron_file, parse_lines, ElcronError, Job,
    TriggerCondition,
};
use elcron::price::PRICE_UNIT;

#[test]
fn test_parse_lines() {
    let lines = vec![
        "5, above, echo \"Price of electricity is above 5\"".to_string(),
        "10, below, echo \"Price of electricity is below 10\"".to_string(),
    ];
    let jobs = parse_lines(&lines).unwrap();
    assert_eq!(jobs.len(), 2);
    assert_eq!(jobs[0].price_threshold, 5);
    assert_eq!(jobs[0].condition, TriggerCondition::Above);
    assert_eq!(jobs[0].command, "echo \"Price of electricity is above 5\"");

    assert_eq!(jobs[1].price_threshold, 10);
    assert_eq!(jobs[1].condition, TriggerCondition::Below);
    assert_eq!(jobs[1].command, "echo \"Price of electricity is below 10\"");
}

#[test]
fn test_parse_lines_invalid() {
    let lines = vec![
        "5, above, 2, echo \"Price of electricity is above 5\"".to_string(),
        "10, invalid, 3, echo \"Price of electricity is below 10\"".to_string(),
    ];
    assert_eq!(parse_lines(&lines), Err(ElcronError::WrongPartCount));
}

#[test]
fn test_parse_lines_invalid_number_of_parts() {
    let lines = vec![
        "5, above, 2, echo \"Price of electricity is above 5\"".to_string(),
        "10, below, 3".to_string(),
    ];
    assert_eq!(parse_lines(&lines), Err(ElcronError::WrongPartCount));
}

#[test]
fn test_validate_price() {
    assert_eq!(get_price("5").unwrap(), 5);
    assert_eq!(get_price("10").unwrap(), 10);
}

#[test]
fn test_validate_price_invalid() {
    assert_eq!(get_price("invalid"), Err(ElcronError::BadPrice));
    assert_eq!(get_price("70000"), Err(ElcronError::BadPrice));
    assert_eq!(get_price("-5"), Err(ElcronError::BadPrice));
    assert_eq!(get_price(""), Err(ElcronError::BadPrice));
}

#[test]
fn test_validate_condition() {
    assert_eq!(get_condition("above").unwrap(), TriggerCondition::Above);
    assert_eq!(get_condition("below").unwrap(), TriggerCondition::Below);
}

#[test]
fn test_validate_condition_invalid() {
    assert_eq!(get_condition("invalid"), Err(ElcronError::BadCondition));
}

#[test]
fn test_validate_condition_any_case() {
    assert_eq!(get_condition(" Above ").unwrap(), TriggerCondition::Above);
    assert_eq!(get_condition("BELOW").unwrap(), TriggerCondition::Below);
    assert_eq!(get_condition("aBoVe").unwrap(), TriggerCondition::Above);
}

#[test]
fn test_job_from_elcron_line() {
    let job = Job::from_elcron_line("5, above, echo \"test\"").unwrap();
    assert_eq!(job.price_threshold, 5);
    assert_eq!(job.condition, TriggerCondition::Above);
    assert_eq!(job.command, "echo \"test\"");
}

#[test]
fn test_job_from_elcron_line_bad_fields() {
    assert_eq!(
        Job::from_elcron_line("five, above, echo"),
        Err(ElcronError::BadPrice)
    );
    assert_eq!(
        Job::from_elcron_line("5, sideways, echo"),
        Err(ElcronError::BadCondition)
    );
}

#[test]
fn test_job_should_execute() {
    let job = Job::new(5, TriggerCondition::Above, "echo \"test\"".to_string());
    assert!(job.should_execute(6 * PRICE_UNIT));
    assert!(!job.should_execute(4 * PRICE_UNIT));
}

#[test]
fn test_threshold_is_strict() {
    // threshold 10, price 10.01 triggers Above; 10.00 and 9.99 do not.
    let above = Job::new(10, TriggerCondition::Above, "X".to_string());
    assert!(above.should_execute(100100));
    assert!(!above.should_execute(100000));
    assert!(!above.should_execute(99900));

    let below = Job::new(10, TriggerCondition::Below, "X".to_string());
    assert!(!below.should_execute(100100));
    assert!(!below.should_execute(100000));
    assert!(below.should_execute(99900));
}

#[test]
fn test_jobs_to_run_picks_triggered_jobs() {
    let jobs = vec![
        Job::new(5, TriggerCondition::Above, "a".to_string()),
        Job::new(5, TriggerCondition::Below, "b".to_string()),
        Job::new(20, TriggerCondition::Above, "c".to_string()),
        Job::new(20, TriggerCondition::Below, "d".to_string()),
    ];
    // price 10.0: above 5 and below 20.
    assert_eq!(jobs_to_run(&jobs, 10 * PRICE_UNIT), vec![0, 3]);
    // price exactly 5.0: neither direction of the 5 jobs, still below 20.
    assert_eq!(jobs_to_run(&jobs, 5 * PRICE_UNIT), vec![3]);
    assert_eq!(jobs_to_run(&Vec::new(), 0), Vec::<usize>::new());
}

#[test]
fn test_parse_elcron_file_skips_comments_and_empty_lines() {
    let lines = vec![
        "# jobs".to_string(),
        "".to_string(),
        "5, above, echo hi".to_string(),
        "# 9, below, not a job".to_string(),
        "10, below, echo lo".to_string(),
    ];
    let jobs = parse_elcron_file(&lines).unwrap();
    assert_eq!(jobs.len(), 2);
    assert_eq!(jobs[0].price_threshold, 5);
    assert_eq!(jobs[1].command, "echo lo");
}

#[test]
fn test_parse_elcron_file_needs_a_job() {
    let lines = vec!["# only comments".to_string(), "".to_string()];
    assert_eq!(parse_elcron_file(&lines), Err(ElcronError::NoJobs));
}
