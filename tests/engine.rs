use cobalt::auth::Credentials;
use cobalt::checks::CheckError;
use cobalt::config::{
    Config, ConfigError, ConfigInner, Http, HttpInner, Inject, InjectType, Scoring, Service,
    Slas, Team, Timing, Vm, Web,
};
use cobalt::engine::{plan_round, Action, Event, RoundEngine, RoundError, TeamPlan, VmPlan};
use cobalt::offset::Offset;
use cobalt::sla::current_down_streak;

fn http_service() -> Service {
    Service::Http(Http {
        pages: vec![HttpInner {
            method: "GET".to_string(),
            path: "/".to_string(),
            headers: None,
            body: None,
            contains: Some("OK".to_string()),
            contains_regex: None,
        }],
    })
}

fn inner(subnet: &str, sla: bool) -> ConfigInner {
    ConfigInner {
        round: "practice".to_string(),
        inject_dir: "injects".to_string(),
        timing: Timing { interval: 120, jitter: 10, check_timeout: 1 },
        scoring: Scoring { service_up: 5, service_down: 0, sla: -15 },
        web: Web {
            admin_username: "admin".to_string(),
            admin_password: "admin".to_string(),
            port: 8080,
        },
        slas: Slas { enable: sla, max_consecutive_downs: 5 },
        vms: vec![(
            "web".to_string(),
            Vm { ip: 5, services: vec![("http".to_string(), http_service())] },
        )],
        injects: vec![],
        teams: vec![(
            "team1".to_string(),
            Team { subnet: subnet.to_string(), password: "hunter2".to_string() },
        )],
    }
}

fn service_inject(vm: &str, service: &str) -> Inject {
    Inject {
        title: "new service".to_string(),
        source: "inject.pdf".to_string(),
        offset: Offset { seconds: 3600 },
        inner: InjectType::Service {
            vm: vm.to_string(),
            services: vec![(service.to_string(), http_service())],
        },
    }
}

#[test]
fn config_with_invalid_subnet_is_rejected() {
    match Config::new(inner("not.an.ip.x", true)) {
        Err(ConfigError::InvalidSubnet { team, subnet }) => {
            assert_eq!(team, "team1");
            assert_eq!(subnet, "not.an.ip.x");
        }
        other => panic!("unexpected: {:?}", other),
    }
}

#[test]
fn valid_config_is_accepted() {
    assert!(Config::new(inner("10.0.1.x", true)).is_ok());
}

#[test]
fn inject_on_unknown_vm_is_rejected() {
    let mut c = inner("10.0.1.x", true);
    c.injects.push(service_inject("db", "postgres"));
    assert!(matches!(Config::new(c), Err(ConfigError::UnknownVm { .. })));
}

#[test]
fn inject_with_existing_service_is_rejected() {
    let mut c = inner("10.0.1.x", true);
    c.injects.push(service_inject("web", "http"));
    match Config::new(c) {
        Err(ConfigError::DuplicateService { service, vm, .. }) => {
            assert_eq!(service, "http");
            assert_eq!(vm, "web");
        }
        other => panic!("unexpected: {:?}", other),
    }
    let mut ok = inner("10.0.1.x", true);
    ok.injects.push(service_inject("web", "https"));
    assert!(Config::new(ok).is_ok());
}

#[test]
fn duplicate_names_are_rejected() {
    let mut c = inner("10.0.1.x", true);
    c.teams.push((
        "team1".to_string(),
        Team { subnet: "10.0.2.x".to_string(), password: "x".to_string() },
    ));
    assert!(matches!(Config::new(c), Err(ConfigError::DuplicateName { .. })));
}

#[test]
fn zero_sla_threshold_is_rejected() {
    let mut c = inner("10.0.1.x", true);
    c.slas.max_consecutive_downs = 0;
    assert!(matches!(Config::new(c), Err(ConfigError::ZeroSlaThreshold)));
    let mut off = inner("10.0.1.x", false);
    off.slas.max_consecutive_downs = 0;
    assert!(Config::new(off).is_ok());
}

#[test]
fn authentication_checks_password() {
    let cfg = Config::new(inner("10.0.1.x", true)).unwrap();
    let good = Credentials {
        username: "team1".to_string(),
        password: "hunter2".to_string(),
        next: None,
    };
    let t = cfg.authenticate(good).unwrap();
    assert_eq!(t.id(), "team1");
    assert_eq!(t.session_auth_hash(), "hunter2");
    let bad = Credentials {
        username: "team1".to_string(),
        password: "wrong".to_string(),
        next: None,
    };
    assert!(cfg.authenticate(bad).is_none());
    assert!(cfg.get_user(&"team1".to_string()).is_some());
    assert!(cfg.get_user(&"team2".to_string()).is_none());
}

fn one_plan() -> Vec<TeamPlan> {
    vec![TeamPlan { team: 0, vms: vec![VmPlan { vm: 0, services: vec![0] }] }]
}

/// Runs one round in which every probe fails, against an in-memory store.
/// Returns the snapshot delta and the number of violations recorded.
fn run_down_round(cfg: &Config, history: &mut Vec<bool>, timed_out: bool) -> (i32, usize) {
    let (mut engine, mut action) = RoundEngine::with_plan(cfg, one_plan());
    let mut violations = 0;
    let mut points = None;
    loop {
        let event = match action {
            Action::Probe { address, timeout_seconds, .. } => {
                assert_eq!(address.to_text(), "10.0.1.5");
                assert_eq!(timeout_seconds, 1);
                if timed_out {
                    Event::ProbeTimedOut { time: 100 }
                } else {
                    Event::ProbeCompleted {
                        result: Err(CheckError::new(
                            "Request failed".to_string(),
                            "refused".to_string(),
                        )),
                        time: 100,
                    }
                }
            }
            Action::RecordObservation { team, vm, service, up, short_error, time, .. } => {
                assert_eq!((team.as_str(), vm.as_str(), service.as_str()), ("team1", "web", "http"));
                assert_eq!(time, 100);
                if timed_out {
                    assert_eq!(short_error, "Timed out");
                }
                history.push(up);
                Event::Persisted
            }
            Action::QueryStreak { .. } => Event::Streak { count: current_down_streak(history) },
            Action::RecordViolation { time, .. } => {
                assert_eq!(time, 100);
                violations += 1;
                Event::Persisted
            }
            Action::RecordSnapshot { points: p, services, team, vms } => {
                assert_eq!(vms, vec!["web".to_string()]);
                assert_eq!(team, "team1");
                assert_eq!(services.len(), 1);
                points = Some(p);
                Event::Persisted
            }
            Action::Finished => break,
            Action::Aborted { error } => panic!("round aborted: {:?}", error),
        };
        action = engine.step(cfg, event);
    }
    (points.unwrap(), violations)
}

#[test]
fn five_downs_incur_one_violation() {
    let cfg = Config::new(inner("10.0.1.x", true)).unwrap();
    let mut history = Vec::new();
    let mut total_violations = 0;
    let mut last = 0;
    for round in 1..=5 {
        let (points, violations) = run_down_round(&cfg, &mut history, false);
        total_violations += violations;
        if round < 5 {
            assert_eq!(points, 0);
            assert_eq!(violations, 0);
        }
        last = points;
    }
    assert_eq!(last, -15);
    assert_eq!(total_violations, 1);
}

#[test]
fn timed_out_probe_is_recorded_as_down() {
    let cfg = Config::new(inner("10.0.1.x", false)).unwrap();
    let mut history = Vec::new();
    let (points, violations) = run_down_round(&cfg, &mut history, true);
    assert_eq!(points, 0);
    assert_eq!(violations, 0);
    assert_eq!(history, vec![false]);
}

#[test]
fn timeout_event_yields_timeout_observation() {
    let cfg = Config::new(inner("10.0.1.x", true)).unwrap();
    let (mut engine, _) = RoundEngine::with_plan(&cfg, one_plan());
    match engine.step(&cfg, Event::ProbeTimedOut { time: 7 }) {
        Action::RecordObservation { up, short_error, long_error, time, .. } => {
            assert!(!up);
            assert_eq!(short_error, "Timed out");
            assert_eq!(long_error, "Timed out after 1 seconds");
            assert_eq!(time, 7);
        }
        other => panic!("unexpected: {:?}", other),
    }
}

#[test]
fn streak_is_queried_after_observation_is_persisted() {
    let cfg = Config::new(inner("10.0.1.x", true)).unwrap();
    let (mut engine, _) = RoundEngine::with_plan(&cfg, one_plan());
    let a = engine.step(&cfg, Event::ProbeCompleted { result: Ok(()), time: 1 });
    assert!(matches!(a, Action::RecordObservation { up: true, .. }));
    let a = engine.step(&cfg, Event::Persisted);
    assert!(matches!(a, Action::QueryStreak { .. }));
    let a = engine.step(&cfg, Event::Streak { count: 0 });
    match a {
        Action::RecordSnapshot { points, .. } => assert_eq!(points, 5),
        other => panic!("unexpected: {:?}", other),
    }
    assert!(matches!(engine.step(&cfg, Event::Persisted), Action::Finished));
}

#[test]
fn persistence_failure_aborts_round() {
    let cfg = Config::new(inner("10.0.1.x", true)).unwrap();
    let (mut engine, _) = RoundEngine::with_plan(&cfg, one_plan());
    engine.step(&cfg, Event::ProbeCompleted { result: Ok(()), time: 1 });
    let a = engine.step(&cfg, Event::PersistFailed { detail: "db down".to_string() });
    assert!(matches!(a, Action::Aborted { .. }));
}

#[test]
fn random_plan_covers_every_service() {
    let mut c = inner("10.0.1.x", true);
    c.teams.push((
        "team2".to_string(),
        Team { subnet: "10.0.2.x".to_string(), password: "pw".to_string() },
    ));
    c.vms.push((
        "db".to_string(),
        Vm {
            ip: 6,
            services: vec![
                ("ssh".to_string(), http_service()),
                ("sql".to_string(), http_service()),
            ],
        },
    ));
    let cfg = Config::new(c).unwrap();
    let plan = plan_round(&cfg);
    let mut teams: Vec<usize> = plan.iter().map(|t| t.team).collect();
    teams.sort();
    assert_eq!(teams, vec![0, 1]);
    for t in &plan {
        let mut pairs: Vec<(usize, usize)> = t
            .vms
            .iter()
            .flat_map(|v| v.services.iter().map(move |s| (v.vm, *s)))
            .collect();
        pairs.sort();
        assert_eq!(pairs, vec![(0, 0), (1, 0), (1, 1)]);
    }
    let (_, first) = RoundEngine::start(&cfg);
    assert!(matches!(first, Action::Probe { .. }));
}

#[test]
fn inject_descriptions() {
    assert_eq!(service_inject("web", "https").inner.to_text(), "Service (vm='web')");
    assert_eq!(InjectType::Response.to_text(), "Response");
}

#[test]
fn invalid_pattern_is_rejected() {
    let mut c = inner("10.0.1.x", true);
    c.vms[0].1.services.push((
        "api".to_string(),
        Service::Http(Http {
            pages: vec![HttpInner {
                method: "GET".to_string(),
                path: "/".to_string(),
                headers: None,
                body: None,
                contains: None,
                contains_regex: Some("foo(".to_string()),
            }],
        }),
    ));
    match Config::new(c) {
        Err(ConfigError::InvalidPattern { pattern }) => assert_eq!(pattern, "foo("),
        other => panic!("unexpected: {:?}", other),
    }
}

#[test]
fn disabled_sla_snapshot_has_no_violation() {
    let cfg = Config::new(inner("10.0.1.x", false)).unwrap();
    let (mut engine, _) = RoundEngine::with_plan(&cfg, one_plan());
    engine.step(&cfg, Event::ProbeTimedOut { time: 3 });
    match engine.step(&cfg, Event::Persisted) {
        Action::RecordSnapshot { services, points, .. } => {
            assert_eq!(points, 0);
            assert_eq!(services.len(), 1);
            assert!(!services[0].info.up);
            assert!(!services[0].info.incurred_sla);
            assert_eq!(services[0].vm, "web");
            assert_eq!(services[0].service, "http");
        }
        other => panic!("unexpected: {:?}", other),
    }
}

#[test]
fn persistence_failure_carries_detail() {
    let cfg = Config::new(inner("10.0.1.x", true)).unwrap();
    let (mut engine, _) = RoundEngine::with_plan(&cfg, one_plan());
    engine.step(&cfg, Event::ProbeCompleted { result: Ok(()), time: 1 });
    match engine.step(&cfg, Event::PersistFailed { detail: "db down".to_string() }) {
        Action::Aborted { error: RoundError::Persistence { detail } } => assert_eq!(detail, "db down"),
        other => panic!("unexpected: {:?}", other),
    }
}

#[test]
fn successful_probe_has_empty_messages() {
    let cfg = Config::new(inner("10.0.1.x", true)).unwrap();
    let (mut engine, _) = RoundEngine::with_plan(&cfg, one_plan());
    match engine.step(&cfg, Event::ProbeCompleted { result: Ok(()), time: 1 }) {
        Action::RecordObservation { short_error, long_error, up, .. } => {
            assert!(up);
            assert!(short_error.is_empty() && long_error.is_empty());
        }
        other => panic!("unexpected: {:?}", other),
    }
}

#[test]
fn teams_follow_each_other() {
    let mut c = inner("10.0.1.x", false);
    c.teams.push((
        "team2".to_string(),
        Team { subnet: "10.0.2.x".to_string(), password: "pw".to_string() },
    ));
    let cfg = Config::new(c).unwrap();
    let plan = vec![
        TeamPlan { team: 1, vms: vec![VmPlan { vm: 0, services: vec![0] }] },
        TeamPlan { team: 0, vms: vec![VmPlan { vm: 0, services: vec![0] }] },
    ];
    let (mut engine, first) = RoundEngine::with_plan(&cfg, plan);
    match first {
        Action::Probe { address, .. } => assert_eq!(address.to_text(), "10.0.2.5"),
        other => panic!("unexpected: {:?}", other),
    }
    engine.step(&cfg, Event::ProbeCompleted { result: Ok(()), time: 1 });
    match engine.step(&cfg, Event::Persisted) {
        Action::RecordSnapshot { team, points, .. } => {
            assert_eq!(team, "team2");
            assert_eq!(points, 5);
        }
        other => panic!("unexpected: {:?}", other),
    }
    match engine.step(&cfg, Event::Persisted) {
        Action::Probe { address, .. } => assert_eq!(address.to_text(), "10.0.1.5"),
        other => panic!("unexpected: {:?}", other),
    }
}

#[test]
fn snapshot_names_vms_without_services() {
    let mut c = inner("10.0.1.x", false);
    c.vms.push(("spare".to_string(), Vm { ip: 9, services: vec![] }));
    let cfg = Config::new(c).unwrap();
    let plan = vec![TeamPlan {
        team: 0,
        vms: vec![VmPlan { vm: 1, services: vec![] }, VmPlan { vm: 0, services: vec![0] }],
    }];
    let (mut engine, first) = RoundEngine::with_plan(&cfg, plan);
    assert!(matches!(first, Action::Probe { .. }));
    engine.step(&cfg, Event::ProbeCompleted { result: Ok(()), time: 1 });
    match engine.step(&cfg, Event::Persisted) {
        Action::RecordSnapshot { vms, services, .. } => {
            assert_eq!(vms, vec!["web".to_string(), "spare".to_string()]);
            assert_eq!(services.len(), 1);
        }
        other => panic!("unexpected: {:?}", other),
    }
}
