//! One scoring round as a state machine. The caller performs each action
//! (probe a service, persist a fact, read back a down streak) and hands
//! back what happened; the engine decides what comes next. Teams, their
//! VMs and the VMs' services are visited in an order drawn afresh for
//! every round.
use crate::address::{ipv4_text, replace_char, resolve, Ipv4Address, PLACEHOLDER};
use crate::text::dec;
use crate::checks::{get_check_result_errors, timeout_error, timeout_long, CheckResult};
use crate::config::Config;
use crate::config::ConfigInner;
use crate::scoring::{fits_i32, infos_of, point_differential, round_points, ServiceGatheredInfo, ServiceRecord};
use crate::shuffle::{is_permutation, shuffled_indices};
use crate::sla::{sla_violation, violation_fires};
use vstd::prelude::*;

verus! {

/// The services of one VM in the order of a round.
#[derive(Clone, Debug)]
pub struct VmPlan {
    pub vm: usize,
    pub services: Vec<usize>,
}

/// The VMs of one team in the order of a round.
#[derive(Clone, Debug)]
pub struct TeamPlan {
    pub team: usize,
    pub vms: Vec<VmPlan>,
}

/// The VM indices of a team's plan, in order.
pub open spec fn vm_order(t: TeamPlan) -> Seq<usize> {
    t.vms@.map_values(|p: VmPlan| p.vm)
}

/// The team indices of a round's plan, in order.
pub open spec fn team_order(plan: Seq<TeamPlan>) -> Seq<usize> {
    plan.map_values(|t: TeamPlan| t.team)
}

/// A team's plan visits every VM once, and every service of each VM once.
pub open spec fn team_plan_wf(cfg: ConfigInner, t: TeamPlan) -> bool {
    &&& t.team < cfg.teams@.len()
    &&& is_permutation(vm_order(t), cfg.vms@.len())
    &&& forall|j: int|
        0 <= j < t.vms@.len() ==> is_permutation(
            #[trigger] t.vms@[j].services@,
            cfg.vms@[t.vms@[j].vm as int].1.services@.len(),
        )
}

/// A round's plan visits every team once, each by a plan of its own.
pub open spec fn plan_wf(cfg: ConfigInner, plan: Seq<TeamPlan>) -> bool {
    &&& is_permutation(team_order(plan), cfg.teams@.len())
    &&& forall|p: int| 0 <= p < plan.len() ==> team_plan_wf(cfg, #[trigger] plan[p])
}

fn plan_team(cfg: &Config, team: usize) -> (r: TeamPlan)
    requires
        team < cfg.inner.teams@.len(),
    ensures
        r.team == team,
        team_plan_wf(cfg.inner, r),
{
    let order = shuffled_indices(cfg.inner.vms.len());
    let mut vms: Vec<VmPlan> = Vec::new();
    let mut q: usize = 0;
    while q < order.len()
        invariant
            is_permutation(order@, cfg.inner.vms@.len() as nat),
            q <= order@.len(),
            vms@.len() == q,
            forall|j: int| 0 <= j < q ==> (#[trigger] vms@[j]).vm == order@[j],
            forall|j: int|
                0 <= j < q ==> is_permutation(
                    #[trigger] vms@[j].services@,
                    cfg.inner.vms@[vms@[j].vm as int].1.services@.len(),
                ),
        decreases order@.len() - q,
    {
        let v = order[q];
        let services = shuffled_indices(cfg.inner.vms[v].1.services.len());
        vms.push(VmPlan { vm: v, services });
        q = q + 1;
    }
    let r = TeamPlan { team, vms };
    assert(vm_order(r) =~= order@);
    r
}

/// A plan for a round, in a freshly drawn order at every level.
pub fn plan_round(cfg: &Config) -> (r: Vec<TeamPlan>)
    ensures
        plan_wf(cfg.inner, r@),
{
    let order = shuffled_indices(cfg.inner.teams.len());
    let mut plan: Vec<TeamPlan> = Vec::new();
    let mut p: usize = 0;
    while p < order.len()
        invariant
            is_permutation(order@, cfg.inner.teams@.len() as nat),
            p <= order@.len(),
            plan@.len() == p,
            forall|j: int| 0 <= j < p ==> (#[trigger] plan@[j]).team == order@[j],
            forall|j: int| 0 <= j < p ==> team_plan_wf(cfg.inner, #[trigger] plan@[j]),
        decreases order@.len() - p,
    {
        let t = plan_team(cfg, order[p]);
        plan.push(t);
        p = p + 1;
    }
    assert(team_order(plan@) =~= order@);
    plan
}

/// A service to probe: indices of its team, its VM and the service within
/// the VM, in the configuration.
#[derive(Clone, Copy, Debug, PartialEq, Eq, Structural)]
pub struct Target {
    pub team: usize,
    pub vm: usize,
    pub service: usize,
}

/// Why a round stops before its end.
#[derive(Clone, Debug)]
pub enum RoundError {
    /// A fact could not be persisted or read back.
    Persistence { detail: String },
    /// A team's point delta does not fit in an `i32`.
    PointsOutOfRange { team: String },
    /// An event that the current step does not wait for.
    UnexpectedEvent,
}

/// What the caller reports back after performing an action.
#[derive(Debug)]
pub enum Event {
    /// The probe finished; `time` is when it started.
    ProbeCompleted { result: CheckResult, time: i64 },
    /// The probe did not finish in time; `time` is when it started.
    ProbeTimedOut { time: i64 },
    /// The fact was persisted.
    Persisted,
    /// Persisting or reading back failed.
    PersistFailed { detail: String },
    /// The current down streak of the service, read back after its
    /// observation was persisted.
    Streak { count: u64 },
}

/// What the caller is to do next.
#[derive(Clone, Debug)]
pub enum Action {
    Probe { target: Target, address: Ipv4Address, timeout_seconds: u32 },
    RecordObservation {
        team: String,
        vm: String,
        service: String,
        time: i64,
        up: bool,
        short_error: String,
        long_error: String,
    },
    QueryStreak { team: String, vm: String, service: String },
    RecordViolation { team: String, vm: String, service: String, time: i64 },
    /// The team's snapshot: its point delta, what was found of each of its
    /// services, and the names of every VM of the configuration, those
    /// without services included, in the configuration's order.
    RecordSnapshot { team: String, points: i32, services: Vec<ServiceRecord>, vms: Vec<String> },
    Finished,
    Aborted { error: RoundError },
}

/// Where a round stands.
#[derive(Clone, Copy, Debug, PartialEq, Eq, Structural)]
pub enum Phase {
    /// Waiting for the outcome of the current probe.
    Probing,
    /// Waiting for the observation to be persisted.
    Recording { up: bool, time: i64 },
    /// Waiting for the down streak to be read back.
    Querying { up: bool, time: i64 },
    /// Waiting for the SLA violation to be persisted.
    Reporting { up: bool, time: i64 },
    /// Waiting for the team's snapshot to be persisted.
    Snapshotting,
    Done,
    Aborted,
}

/// A round in progress.
pub struct RoundEngine {
    pub plan: Vec<TeamPlan>,
    pub team_pos: usize,
    pub vm_pos: usize,
    pub service_pos: usize,
    pub phase: Phase,
    /// What was found of the current team's services so far.
    pub records: Vec<ServiceRecord>,
}

impl RoundEngine {
    /// The cursor points at a service of the plan.
    pub open spec fn at_service(&self) -> bool {
        &&& self.team_pos < self.plan@.len()
        &&& self.vm_pos < self.plan@[self.team_pos as int].vms@.len()
        &&& self.service_pos < self.plan@[self.team_pos as int].vms@[self.vm_pos as int].services@.len()
    }

    /// The service under the cursor.
    pub open spec fn target(&self) -> Target {
        let t = self.plan@[self.team_pos as int];
        let v = t.vms@[self.vm_pos as int];
        Target { team: t.team, vm: v.vm, service: v.services@[self.service_pos as int] }
    }

    /// The plan fits the configuration, and the cursor points where the
    /// phase needs it.
    pub open spec fn wf(&self, cfg: &Config) -> bool {
        &&& cfg.wf()
        &&& plan_wf(cfg.inner, self.plan@)
        &&& (self.phase is Probing || self.phase is Recording || self.phase is Querying
            || self.phase is Reporting) ==> self.at_service()
        &&& self.phase is Snapshotting ==> self.team_pos < self.plan@.len()
        &&& (self.phase is Querying || self.phase is Reporting) ==> cfg.inner.slas.enable
    }

    fn target_names(&self, cfg: &Config) -> (r: (String, String, String))
        requires
            self.wf(cfg),
            self.at_service(),
        ensures
            target_named(cfg.inner, self.target(), r.0@, r.1@, r.2@),
    {
        let t = &self.plan[self.team_pos];
        let v = &t.vms[self.vm_pos];
        let s = v.services[self.service_pos];
        proof {
            assert(team_plan_wf(cfg.inner, self.plan@[self.team_pos as int]));
            assert(is_permutation(vm_order(*t), cfg.inner.vms@.len()));
            assert(vm_order(*t)[self.vm_pos as int] == v.vm);
            assert(is_permutation(t.vms@[self.vm_pos as int].services@, cfg.inner.vms@[v.vm as int].1.services@.len()));
            assert(is_permutation(team_order(self.plan@), cfg.inner.teams@.len()));
            assert(team_order(self.plan@)[self.team_pos as int] == t.team);
        }
        let team = cfg.inner.teams[t.team].0.clone();
        let vm = cfg.inner.vms[v.vm].0.clone();
        let service = cfg.inner.vms[v.vm].1.services[s].0.clone();
        (team, vm, service)
    }

    fn probe_action(&self, cfg: &Config) -> (a: Action)
        requires
            self.wf(cfg),
            self.at_service(),
        ensures
            a matches Action::Probe { target, timeout_seconds, address } && target == self.target()
                && timeout_seconds == cfg.inner.timing.check_timeout && probe_address(
                cfg.inner,
                target,
                address,
            ),
    {
        let t = &self.plan[self.team_pos];
        let v = &t.vms[self.vm_pos];
        let target = Target { team: t.team, vm: v.vm, service: v.services[self.service_pos] };
        proof {
            assert(team_plan_wf(cfg.inner, self.plan@[self.team_pos as int]));
            assert(is_permutation(vm_order(*t), cfg.inner.vms@.len()));
            assert(vm_order(*t)[self.vm_pos as int] == v.vm);
            assert(is_permutation(team_order(self.plan@), cfg.inner.teams@.len()));
            assert(team_order(self.plan@)[self.team_pos as int] == t.team);
            assert(cfg.inner.teams_ok());
            assert(crate::address::is_template_text(cfg.inner.teams@[t.team as int].1.subnet@));
        }
        let address = match resolve(cfg.inner.teams[t.team].1.subnet.as_str(), cfg.inner.vms[v.vm].1.ip) {
            Some(ip) => ip,
            None => {
                proof {
                    assert(false);
                }
                Ipv4Address { a: 0, b: 0, c: 0, d: 0 }
            },
        };
        Action::Probe { target, address, timeout_seconds: cfg.inner.timing.check_timeout }
    }
}

/// The first position (VM, service) of a team's plan at or after
/// (`vm_pos`, `service_pos`) that holds a service.
pub open spec fn first_from(t: TeamPlan, vm_pos: int, service_pos: int) -> Option<(int, int)>
    decreases t.vms@.len() - vm_pos,
{
    if vm_pos < 0 || vm_pos >= t.vms@.len() {
        None
    } else if service_pos < t.vms@[vm_pos].services@.len() {
        Some((vm_pos, service_pos))
    } else {
        first_from(t, vm_pos + 1, 0)
    }
}

/// Position (`w`, `x`) of a team's plan holds a service.
pub open spec fn holds_service(t: TeamPlan, w: int, x: int) -> bool {
    0 <= w < t.vms@.len() && 0 <= x < t.vms@[w].services@.len()
}

/// Position (`w`, `x`) comes at or after (`v`, `s`) in plan order.
pub open spec fn at_or_after(w: int, x: int, v: int, s: int) -> bool {
    w > v || (w == v && x >= s)
}

/// The cursor visits a team's services in plan order, skipping none:
/// `first_from` gives the first position at or after the given one that
/// holds a service, and nothing when no such position is left.
pub proof fn lemma_first_from_is_next(t: TeamPlan, v: int, s: int)
    requires
        0 <= v,
        0 <= s,
    ensures
        first_from(t, v, s) matches Some((v2, s2)) ==> holds_service(t, v2, s2) && at_or_after(
            v2,
            s2,
            v,
            s,
        ) && forall|w: int, x: int|
            holds_service(t, w, x) && #[trigger] at_or_after(w, x, v, s) ==> at_or_after(w, x, v2, s2),
        first_from(t, v, s) is None ==> forall|w: int, x: int|
            holds_service(t, w, x) ==> !#[trigger] at_or_after(w, x, v, s),
    decreases t.vms@.len() - v,
{
    if v < t.vms@.len() && s >= t.vms@[v].services@.len() {
        lemma_first_from_is_next(t, v + 1, 0);
        assert forall|w: int, x: int| holds_service(t, w, x) && at_or_after(w, x, v, s) implies at_or_after(
            w,
            x,
            v + 1,
            0,
        ) by {}
        if let Some((v2, s2)) = first_from(t, v + 1, 0) {
            assert forall|w: int, x: int| holds_service(t, w, x) && #[trigger] at_or_after(w, x, v, s) implies at_or_after(
                w,
                x,
                v2,
                s2,
            ) by {
                assert(at_or_after(w, x, v + 1, 0));
            }
        }
    }
}

/// `a` probes the service under the cursor of `e`, at its address, with the
/// configured timeout.
pub open spec fn probes_cursor(cfg: ConfigInner, e: RoundEngine, a: Action) -> bool {
    a matches Action::Probe { target, address, timeout_seconds } && target == e.target()
        && timeout_seconds == cfg.timing.check_timeout && probe_address(cfg, target, address)
}

/// `recs` is `base` followed by the record of `target` with `info`.
pub open spec fn extends(
    recs: Seq<ServiceRecord>,
    base: Seq<ServiceRecord>,
    cfg: ConfigInner,
    target: Target,
    info: ServiceGatheredInfo,
) -> bool {
    &&& recs.len() == base.len() + 1
    &&& recs.drop_last() == base
    &&& recs.last().vm@ == cfg.vms@[target.vm as int].0@
    &&& recs.last().service@ == cfg.vms@[target.vm as int].1.services@[target.service as int].0@
    &&& recs.last().info == info
}

/// The snapshot of the team at plan position `tp`, whose services were
/// found as `infos`, is handed out; or, when its point delta does not fit
/// in an `i32`, the round is aborted.
/// The snapshot names every VM of the configuration.
pub open spec fn snapshot_taken(
    cfg: ConfigInner,
    tp: int,
    infos: Seq<ServiceGatheredInfo>,
    new: RoundEngine,
    a: Action,
) -> bool {
    let name = cfg.teams@[new.plan@[tp].team as int].0@;
    &&& new.team_pos == tp
    &&& if fits_i32(round_points(infos, cfg.scoring)) {
        &&& new.phase is Snapshotting
        &&& a matches Action::RecordSnapshot { team, points, services, vms } && team@ == name
            && points == round_points(infos, cfg.scoring) && infos_of(services@) == infos
            && vm_names(vms@, cfg)
    } else {
        &&& new.phase is Aborted
        &&& a matches Action::Aborted { error } && error matches RoundError::PointsOutOfRange {
            team,
        } && team@ == name
    }
}

/// `names` are the names of the configuration's VMs, all of them, in order.
pub open spec fn vm_names(names: Seq<String>, cfg: ConfigInner) -> bool {
    &&& names.len() == cfg.vms@.len()
    &&& forall|j: int| 0 <= j < names.len() ==> #[trigger] names[j]@ == cfg.vms@[j].0@
}

/// The team at plan position `tp` begins: the cursor goes to its first
/// service, which is probed, with nothing found yet; or, when it has no
/// service, its empty snapshot is handed out.
pub open spec fn began(cfg: ConfigInner, plan: Seq<TeamPlan>, tp: int, new: RoundEngine, a: Action) -> bool {
    &&& new.plan@ == plan
    &&& new.team_pos == tp
    &&& match first_from(plan[tp], 0, 0) {
        Some((v, s)) => {
            &&& new.phase is Probing
            &&& new.vm_pos == v
            &&& new.service_pos == s
            &&& new.records@.len() == 0
            &&& probes_cursor(cfg, new, a)
        },
        None => {
            &&& snapshot_taken(cfg, tp, Seq::empty(), new, a)
            &&& a matches Action::RecordSnapshot { services, .. } ==> services@.len() == 0
        },
    }
}

/// The service under the cursor of `old` is done with `info`: the cursor
/// moves to the team's next service, which is probed; or, after the team's
/// last service, the team's snapshot is handed out. Either way the
/// service's record, with `info`, follows those found before.
pub open spec fn finished(cfg: ConfigInner, old: RoundEngine, new: RoundEngine, a: Action, info: ServiceGatheredInfo) -> bool {
    &&& new.plan == old.plan
    &&& new.team_pos == old.team_pos
    &&& match first_from(old.plan@[old.team_pos as int], old.vm_pos as int, old.service_pos + 1) {
        Some((v, s)) => {
            &&& new.phase is Probing
            &&& new.vm_pos == v
            &&& new.service_pos == s
            &&& extends(new.records@, old.records@, cfg, old.target(), info)
            &&& probes_cursor(cfg, new, a)
        },
        None => {
            &&& snapshot_taken(cfg, old.team_pos as int, infos_of(old.records@).push(info), new, a)
            &&& a matches Action::RecordSnapshot { services, .. } ==> extends(
                services@,
                old.records@,
                cfg,
                old.target(),
                info,
            )
        },
    }
}

/// Nothing but the phase changes.
pub open spec fn kept(old: RoundEngine, new: RoundEngine) -> bool {
    &&& new.plan == old.plan
    &&& new.team_pos == old.team_pos
    &&& new.vm_pos == old.vm_pos
    &&& new.service_pos == old.service_pos
    &&& new.records == old.records
}

/// The observation of the service under the cursor is handed out to be
/// persisted, and the engine waits for that.
pub open spec fn recorded(
    cfg: ConfigInner,
    old: RoundEngine,
    new: RoundEngine,
    a: Action,
    up: bool,
    time: i64,
    short: Seq<char>,
    long: Seq<char>,
) -> bool {
    &&& kept(old, new)
    &&& new.phase == (Phase::Recording { up, time })
    &&& a matches Action::RecordObservation {
        team,
        vm,
        service,
        time: t,
        up: u,
        short_error,
        long_error,
    } && target_named(cfg, old.target(), team@, vm@, service@) && t == time && u == up
        && short_error@ == short && long_error@ == long
}

/// The two messages recorded for an outcome: empty for a success.
pub open spec fn messages(result: CheckResult) -> (Seq<char>, Seq<char>) {
    match result {
        Ok(_) => (Seq::empty(), Seq::empty()),
        Err(e) => (e.short@, e.long@),
    }
}

/// The round stops on a failure to persist, with its detail.
pub open spec fn aborted_on(old: RoundEngine, new: RoundEngine, a: Action, detail: Seq<char>) -> bool {
    &&& new.plan == old.plan
    &&& new.phase is Aborted
    &&& a matches Action::Aborted { error } && error matches RoundError::Persistence { detail: d }
        && d@ == detail
}

/// The round stops on an event it does not wait for.
pub open spec fn aborted_unexpected(old: RoundEngine, new: RoundEngine, a: Action) -> bool {
    &&& new.plan == old.plan
    &&& new.phase is Aborted
    &&& a matches Action::Aborted { error } && error is UnexpectedEvent
}

/// What one step does: the next state and action for each phase and
/// event.
pub open spec fn transition(cfg: ConfigInner, old: RoundEngine, event: Event, new: RoundEngine, a: Action) -> bool {
    match old.phase {
        Phase::Probing => match event {
            Event::ProbeCompleted { result, time } => recorded(
                cfg,
                old,
                new,
                a,
                result is Ok,
                time,
                messages(result).0,
                messages(result).1,
            ),
            Event::ProbeTimedOut { time } => recorded(
                cfg,
                old,
                new,
                a,
                false,
                time,
                "Timed out"@,
                timeout_long(cfg.timing.check_timeout as nat),
            ),
            Event::PersistFailed { detail } => aborted_on(old, new, a, detail@),
            _ => aborted_unexpected(old, new, a),
        },
        Phase::Recording { up, time } => match event {
            Event::Persisted => if cfg.slas.enable {
                &&& kept(old, new)
                &&& new.phase == (Phase::Querying { up, time })
                &&& a matches Action::QueryStreak { team, vm, service } && target_named(
                    cfg,
                    old.target(),
                    team@,
                    vm@,
                    service@,
                )
            } else {
                finished(cfg, old, new, a, ServiceGatheredInfo { up, incurred_sla: false })
            },
            Event::PersistFailed { detail } => aborted_on(old, new, a, detail@),
            _ => aborted_unexpected(old, new, a),
        },
        Phase::Querying { up, time } => match event {
            Event::Streak { count } => if violation_fires(
                count as nat,
                cfg.slas.max_consecutive_downs as nat,
            ) {
                &&& kept(old, new)
                &&& new.phase == (Phase::Reporting { up, time })
                &&& a matches Action::RecordViolation { team, vm, service, time: t } && target_named(
                    cfg,
                    old.target(),
                    team@,
                    vm@,
                    service@,
                ) && t == time
            } else {
                finished(cfg, old, new, a, ServiceGatheredInfo { up, incurred_sla: false })
            },
            Event::PersistFailed { detail } => aborted_on(old, new, a, detail@),
            _ => aborted_unexpected(old, new, a),
        },
        Phase::Reporting { up, time } => match event {
            Event::Persisted => finished(
                cfg,
                old,
                new,
                a,
                ServiceGatheredInfo { up, incurred_sla: true },
            ),
            Event::PersistFailed { detail } => aborted_on(old, new, a, detail@),
            _ => aborted_unexpected(old, new, a),
        },
        Phase::Snapshotting => match event {
            Event::Persisted => if old.team_pos + 1 < old.plan@.len() {
                began(cfg, old.plan@, old.team_pos + 1, new, a)
            } else {
                new.plan == old.plan && new.phase is Done && a is Finished
            },
            Event::PersistFailed { detail } => aborted_on(old, new, a, detail@),
            _ => aborted_unexpected(old, new, a),
        },
        Phase::Done => new == old && a is Finished,
        Phase::Aborted => new.phase is Aborted && a is Aborted,
    }
}

impl RoundEngine {
    /// Starts a round on a given plan: the first team begins, or the round
    /// ends at once when there is no team.
    pub fn with_plan(cfg: &Config, plan: Vec<TeamPlan>) -> (r: (RoundEngine, Action))
        requires
            cfg.wf(),
            plan_wf(cfg.inner, plan@),
        ensures
            r.0.wf(cfg),
            r.0.plan@ == plan@,
            plan@.len() == 0 ==> r.1 is Finished && r.0.phase is Done,
            plan@.len() > 0 ==> began(cfg.inner, plan@, 0, r.0, r.1),
    {
        let mut engine = RoundEngine {
            plan,
            team_pos: 0,
            vm_pos: 0,
            service_pos: 0,
            phase: Phase::Done,
            records: Vec::new(),
        };
        if engine.plan.len() == 0 {
            return (engine, Action::Finished);
        }
        let a = engine.begin_team(cfg);
        (engine, a)
    }

    /// Starts a round in a freshly drawn order.
    pub fn start(cfg: &Config) -> (r: (RoundEngine, Action))
        requires
            cfg.wf(),
        ensures
            r.0.wf(cfg),
            r.0.plan@.len() == cfg.inner.teams@.len(),
            r.0.plan@.len() == 0 ==> r.1 is Finished && r.0.phase is Done,
            r.0.plan@.len() > 0 ==> began(cfg.inner, r.0.plan@, 0, r.0, r.1),
    {
        let plan = plan_round(cfg);
        proof {
            assert(team_order(plan@).len() == plan@.len());
        }
        RoundEngine::with_plan(cfg, plan)
    }

    /// Begins the current team.
    fn begin_team(&mut self, cfg: &Config) -> (a: Action)
        requires
            old(self).wf(cfg),
            old(self).team_pos < old(self).plan@.len(),
        ensures
            final(self).wf(cfg),
            began(cfg.inner, old(self).plan@, old(self).team_pos as int, *final(self), a),
            final(self).plan == old(self).plan,
    {
        self.records = Vec::new();
        self.phase = Phase::Snapshotting;
        match next_in_team(&self.plan[self.team_pos], 0, 0) {
            Some((v, s)) => {
                self.vm_pos = v;
                self.service_pos = s;
                self.phase = Phase::Probing;
                self.probe_action(cfg)
            },
            None => {
                let a = self.snapshot(cfg);
                assert(infos_of(Seq::<ServiceRecord>::empty()) =~= Seq::<ServiceGatheredInfo>::empty());
                a
            },
        }
    }

    /// Computes the current team's point delta and hands its snapshot out.
    fn snapshot(&mut self, cfg: &Config) -> (a: Action)
        requires
            old(self).wf(cfg),
            old(self).team_pos < old(self).plan@.len(),
        ensures
            final(self).wf(cfg),
            final(self).plan == old(self).plan,
            snapshot_taken(cfg.inner, old(self).team_pos as int, infos_of(old(self).records@), *final(self), a),
            a matches Action::RecordSnapshot { services, .. } ==> services@ == old(self).records@,
    {
        let mut services: Vec<ServiceRecord> = Vec::new();
        core::mem::swap(&mut services, &mut self.records);
        proof {
            assert(team_plan_wf(cfg.inner, self.plan@[self.team_pos as int]));
        }
        let team = cfg.inner.teams[self.plan[self.team_pos].team].0.clone();
        match point_differential(&services, cfg.inner.scoring) {
            Some(points) => {
                let mut vms: Vec<String> = Vec::new();
                let mut j: usize = 0;
                while j < cfg.inner.vms.len()
                    invariant
                        j <= cfg.inner.vms@.len(),
                        vms@.len() == j,
                        forall|k: int| 0 <= k < j ==> #[trigger] vms@[k]@ == cfg.inner.vms@[k].0@,
                    decreases cfg.inner.vms@.len() - j,
                {
                    vms.push(cfg.inner.vms[j].0.clone());
                    j = j + 1;
                }
                self.phase = Phase::Snapshotting;
                Action::RecordSnapshot { team, points, services, vms }
            },
            None => {
                self.phase = Phase::Aborted;
                Action::Aborted { error: RoundError::PointsOutOfRange { team } }
            },
        }
    }

    /// Keeps what was found of the current service and moves on.
    fn finish_service(&mut self, cfg: &Config, info: ServiceGatheredInfo) -> (a: Action)
        requires
            old(self).wf(cfg),
            old(self).at_service(),
        ensures
            final(self).wf(cfg),
            finished(cfg.inner, *old(self), *final(self), a, info),
    {
        let ghost old_self = *self;
        let (_, vm, service) = self.target_names(cfg);
        self.records.push(ServiceRecord { vm, service, info });
        proof {
            assert(self.records@.drop_last() =~= old_self.records@);
            assert(extends(self.records@, old_self.records@, cfg.inner, old_self.target(), info));
            assert(infos_of(self.records@) =~= infos_of(old_self.records@).push(info));
        }
        self.phase = Phase::Snapshotting;
        let n = self.plan[self.team_pos].vms[self.vm_pos].services.len();
        assert(self.service_pos < n);
        match next_in_team(&self.plan[self.team_pos], self.vm_pos, self.service_pos + 1) {
            Some((v, s)) => {
                self.vm_pos = v;
                self.service_pos = s;
                self.phase = Phase::Probing;
                self.probe_action(cfg)
            },
            None => self.snapshot(cfg),
        }
    }

    fn abort(&mut self, error: RoundError) -> (a: Action)
        ensures
            final(self).plan == old(self).plan,
            final(self).phase is Aborted,
            a == (Action::Aborted { error }),
    {
        self.phase = Phase::Aborted;
        Action::Aborted { error }
    }

    /// Takes what the caller reports about the last action and decides the
    /// next one, as `transition` says.
    ///
    /// An observation is only recorded right after a probe. The down streak
    /// of a service is read back right after its observation was persisted,
    /// and the reply is used before anything else is probed or recorded:
    /// the streak that decides on an observation never includes a later one.
    /// Within a team the services are probed once each, in the order of the
    /// plan; the team's snapshot follows its last service, and the next team
    /// follows the snapshot.
    pub fn step(&mut self, cfg: &Config, event: Event) -> (a: Action)
        requires
            old(self).wf(cfg),
        ensures
            final(self).wf(cfg),
            transition(cfg.inner, *old(self), event, *final(self), a),
    {
        let ghost old_self = *self;
        match self.phase {
            Phase::Probing => match event {
                Event::ProbeCompleted { result, time } => self.observed(cfg, result, time),
                Event::ProbeTimedOut { time } => {
                    let result: CheckResult = Err(timeout_error(cfg.inner.timing.check_timeout));
                    self.observed(cfg, result, time)
                },
                Event::PersistFailed { detail } => self.abort(RoundError::Persistence { detail }),
                _ => self.abort(RoundError::UnexpectedEvent),
            },
            Phase::Recording { up, time } => match event {
                Event::Persisted => {
                    if cfg.inner.slas.enable {
                        let (team, vm, service) = self.target_names(cfg);
                        self.phase = Phase::Querying { up, time };
                        Action::QueryStreak { team, vm, service }
                    } else {
                        self.finish_service(cfg, ServiceGatheredInfo { up, incurred_sla: false })
                    }
                },
                Event::PersistFailed { detail } => self.abort(RoundError::Persistence { detail }),
                _ => self.abort(RoundError::UnexpectedEvent),
            },
            Phase::Querying { up, time } => match event {
                Event::Streak { count } => {
                    if sla_violation(count, cfg.inner.slas.max_consecutive_downs) {
                        let (team, vm, service) = self.target_names(cfg);
                        self.phase = Phase::Reporting { up, time };
                        Action::RecordViolation { team, vm, service, time }
                    } else {
                        self.finish_service(cfg, ServiceGatheredInfo { up, incurred_sla: false })
                    }
                },
                Event::PersistFailed { detail } => self.abort(RoundError::Persistence { detail }),
                _ => self.abort(RoundError::UnexpectedEvent),
            },
            Phase::Reporting { up, time } => match event {
                Event::Persisted => self.finish_service(
                    cfg,
                    ServiceGatheredInfo { up, incurred_sla: true },
                ),
                Event::PersistFailed { detail } => self.abort(RoundError::Persistence { detail }),
                _ => self.abort(RoundError::UnexpectedEvent),
            },
            Phase::Snapshotting => match event {
                Event::Persisted => {
                    let n = self.plan.len();
                    if self.team_pos + 1 < n {
                        self.team_pos = self.team_pos + 1;
                        self.begin_team(cfg)
                    } else {
                        self.phase = Phase::Done;
                        Action::Finished
                    }
                },
                Event::PersistFailed { detail } => self.abort(RoundError::Persistence { detail }),
                _ => self.abort(RoundError::UnexpectedEvent),
            },
            Phase::Done => Action::Finished,
            Phase::Aborted => Action::Aborted { error: RoundError::UnexpectedEvent },
        }
    }

    fn observed(&mut self, cfg: &Config, result: CheckResult, time: i64) -> (a: Action)
        requires
            old(self).wf(cfg),
            old(self).phase is Probing,
        ensures
            final(self).wf(cfg),
            recorded(
                cfg.inner,
                *old(self),
                *final(self),
                a,
                result is Ok,
                time,
                messages(result).0,
                messages(result).1,
            ),
    {
        let (team, vm, service) = self.target_names(cfg);
        let (short_error, long_error) = get_check_result_errors(&result);
        let up = result.is_ok();
        proof {
            if result is Ok {
                assert(short_error@ =~= messages(result).0);
                assert(long_error@ =~= messages(result).1);
            }
        }
        self.phase = Phase::Recording { up, time };
        Action::RecordObservation { team, vm, service, time, up, short_error, long_error }
    }
}

/// `address` is the target's address: its team's subnet template with the
/// placeholder replaced by the decimal host octet of its VM.
pub open spec fn probe_address(cfg: ConfigInner, t: Target, address: Ipv4Address) -> bool {
    ipv4_text(address) == replace_char(
        cfg.teams@[t.team as int].1.subnet@,
        PLACEHOLDER,
        dec(cfg.vms@[t.vm as int].1.ip as nat),
    )
}

/// `team`, `vm` and `service` are the names of the target's team, VM and
/// service.
pub open spec fn target_named(cfg: ConfigInner, t: Target, team: Seq<char>, vm: Seq<char>, service: Seq<char>) -> bool {
    &&& t.team < cfg.teams@.len()
    &&& t.vm < cfg.vms@.len()
    &&& t.service < cfg.vms@[t.vm as int].1.services@.len()
    &&& team == cfg.teams@[t.team as int].0@
    &&& vm == cfg.vms@[t.vm as int].0@
    &&& service == cfg.vms@[t.vm as int].1.services@[t.service as int].0@
}

/// The first service at or after position (`vm_pos`, `service_pos`) of a
/// team's plan.
fn next_in_team(t: &TeamPlan, vm_pos: usize, service_pos: usize) -> (r: Option<(usize, usize)>)
    ensures
        r matches Some((v, s)) ==> first_from(*t, vm_pos as int, service_pos as int) == Some(
            (v as int, s as int),
        ) && v < t.vms@.len() && s < t.vms@[v as int].services@.len(),
        r is None ==> first_from(*t, vm_pos as int, service_pos as int) is None,
{
    let mut v = vm_pos;
    let mut s = service_pos;
    while v < t.vms.len()
        invariant
            vm_pos <= v,
            first_from(*t, vm_pos as int, service_pos as int) == first_from(*t, v as int, s as int),
        decreases t.vms@.len() - v,
    {
        if s < t.vms[v].services.len() {
            return Some((v, s));
        }
        v = v + 1;
        s = 0;
    }
    None
}

} // verus!
