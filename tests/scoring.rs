use cobalt::config::{Scoring, Slas};
use cobalt::scoring::{point_differential, ServiceGatheredInfo, ServiceRecord};
use cobalt::sla::{check_sla_violation, current_down_streak, sla_violation};

fn record(up: bool, incurred_sla: bool) -> ServiceRecord {
    ServiceRecord {
        vm: "web".to_string(),
        service: "http".to_string(),
        info: ServiceGatheredInfo { up, incurred_sla },
    }
}

#[test]
fn sla_fires_every_threshold_downs() {
    let fired: Vec<u64> = (1..=12u64).filter(|n| sla_violation(*n, 5)).collect();
    assert_eq!(fired, vec![5, 10]);
    assert!(!sla_violation(0, 5));
}

#[test]
fn sla_fires_on_history() {
    let mut history = Vec::new();
    let mut fired = Vec::new();
    for k in 1..=12 {
        history.push(false);
        if check_sla_violation(&history, 5) {
            fired.push(k);
        }
    }
    assert_eq!(fired, vec![5, 10]);
}

#[test]
fn down_streak_counts_after_last_up() {
    assert_eq!(current_down_streak(&vec![]), 0);
    assert_eq!(current_down_streak(&vec![false, false]), 2);
    assert_eq!(current_down_streak(&vec![false, true, false, false, false]), 3);
    assert_eq!(current_down_streak(&vec![false, false, true]), 0);
}

#[test]
fn scoring_example_delta_is_zero() {
    let scoring = Scoring { service_up: 5, service_down: 0, sla: -15 };
    let records = vec![
        record(true, false),
        record(true, false),
        record(true, false),
        record(false, false),
        record(false, true),
    ];
    assert_eq!(point_differential(&records, scoring), Some(0));
}

#[test]
fn scoring_may_go_negative() {
    let scoring = Scoring { service_up: 5, service_down: -2, sla: -15 };
    let records = vec![record(false, true), record(false, false)];
    assert_eq!(point_differential(&records, scoring), Some(-19));
    assert_eq!(point_differential(&vec![], scoring), Some(0));
}

#[test]
fn sla_points_ignored_for_up_services() {
    let scoring = Scoring { service_up: 5, service_down: 0, sla: -15 };
    assert_eq!(point_differential(&vec![record(true, true)], scoring), Some(5));
}

#[test]
fn scoring_out_of_range_is_refused() {
    let scoring = Scoring { service_up: i32::MAX, service_down: 0, sla: 0 };
    assert_eq!(point_differential(&vec![record(true, false), record(true, false)], scoring), None);
}

#[test]
fn defaults() {
    let s = Scoring::default();
    assert_eq!((s.service_up, s.service_down, s.sla), (5, 0, -15));
    let l = Slas::default();
    assert!(!l.enable);
    assert_eq!(l.max_consecutive_downs, 5);
}
