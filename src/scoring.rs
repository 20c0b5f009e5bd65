//! The point delta of a team's round.
use crate::config::Scoring;
use vstd::prelude::*;

verus! {

/// What a round found of one service.
#[derive(Clone, Copy, Debug, PartialEq, Eq, Structural)]
pub struct ServiceGatheredInfo {
    pub up: bool,
    pub incurred_sla: bool,
}

/// Whether a service was up, as the dashboard reads it back.
#[derive(Clone, Copy, Debug, PartialEq, Eq, Structural)]
pub struct ServiceStatus {
    pub up: bool,
}

/// One service of a team's round: its VM, its name, and what was found.
#[derive(Clone, Debug)]
pub struct ServiceRecord {
    pub vm: String,
    pub service: String,
    pub info: ServiceGatheredInfo,
}

/// The points one service contributes.
pub open spec fn service_points(info: ServiceGatheredInfo, scoring: Scoring) -> int {
    if info.up {
        scoring.service_up as int
    } else if info.incurred_sla {
        scoring.service_down + scoring.sla
    } else {
        scoring.service_down as int
    }
}

/// The sum of the points of a round's services.
pub open spec fn round_points(infos: Seq<ServiceGatheredInfo>, scoring: Scoring) -> int
    decreases infos.len(),
{
    if infos.len() == 0 {
        0
    } else {
        round_points(infos.drop_last(), scoring) + service_points(infos.last(), scoring)
    }
}

/// What was found of each record.
pub open spec fn infos_of(records: Seq<ServiceRecord>) -> Seq<ServiceGatheredInfo> {
    records.map_values(|r: ServiceRecord| r.info)
}

/// Whether `n` fits in an `i32`.
pub open spec fn fits_i32(n: int) -> bool {
    i32::MIN <= n <= i32::MAX
}

/// The point delta of a team's round: the sum over its services of the up
/// points, or the down points plus the SLA points where a violation was
/// incurred. `None` when the sum does not fit in an `i32`.
pub fn point_differential(records: &Vec<ServiceRecord>, scoring: Scoring) -> (r: Option<i32>)
    ensures
        r is Some <==> fits_i32(round_points(infos_of(records@), scoring)),
        r matches Some(p) ==> p == round_points(infos_of(records@), scoring),
{
    let mut total: i128 = 0;
    let mut i: usize = 0;
    while i < records.len()
        invariant
            i <= records@.len(),
            total == round_points(infos_of(records@).take(i as int), scoring),
            -(i as int) * 0x1_0000_0000 <= total <= (i as int) * 0x1_0000_0000,
        decreases records@.len() - i,
    {
        assert(infos_of(records@).take(i as int + 1).drop_last() =~= infos_of(records@).take(
            i as int,
        ));
        let info = records[i].info;
        if info.up {
            total = total + scoring.service_up as i128;
        } else {
            total = total + scoring.service_down as i128;
            if info.incurred_sla {
                total = total + scoring.sla as i128;
            }
        }
        i = i + 1;
    }
    assert(infos_of(records@).take(records@.len() as int) =~= infos_of(records@));
    if total < i32::MIN as i128 || total > i32::MAX as i128 {
        None
    } else {
        Some(total as i32)
    }
}

/// How many of the services are up; down without a violation; down with one.
pub open spec fn count_up(infos: Seq<ServiceGatheredInfo>) -> nat
    decreases infos.len(),
{
    if infos.len() == 0 {
        0
    } else {
        count_up(infos.drop_last()) + if infos.last().up {
            1nat
        } else {
            0nat
        }
    }
}

pub open spec fn count_down(infos: Seq<ServiceGatheredInfo>) -> nat
    decreases infos.len(),
{
    if infos.len() == 0 {
        0
    } else {
        count_down(infos.drop_last()) + if !infos.last().up {
            1nat
        } else {
            0nat
        }
    }
}

pub open spec fn count_sla(infos: Seq<ServiceGatheredInfo>) -> nat
    decreases infos.len(),
{
    if infos.len() == 0 {
        0
    } else {
        count_sla(infos.drop_last()) + if !infos.last().up && infos.last().incurred_sla {
            1nat
        } else {
            0nat
        }
    }
}

/// The delta depends only on how many services are up, how many down, and
/// how many of those down incurred a violation:
/// `ups * service_up + downs * service_down + violations * sla`.
pub proof fn lemma_points_by_counts(infos: Seq<ServiceGatheredInfo>, scoring: Scoring)
    ensures
        round_points(infos, scoring) == count_up(infos) * scoring.service_up + count_down(infos)
            * scoring.service_down + count_sla(infos) * scoring.sla,
    decreases infos.len(),
{
    if infos.len() > 0 {
        lemma_points_by_counts(infos.drop_last(), scoring);
        let u = count_up(infos.drop_last()) as int;
        let d = count_down(infos.drop_last()) as int;
        let v = count_sla(infos.drop_last()) as int;
        let a = scoring.service_up as int;
        let b = scoring.service_down as int;
        let c = scoring.sla as int;
        assert((u + 1) * a == u * a + a) by (nonlinear_arith);
        assert((d + 1) * b == d * b + b) by (nonlinear_arith);
        assert((v + 1) * c == v * c + c) by (nonlinear_arith);
        let x = infos.last();
        if x.up {
            assert(count_up(infos) == u + 1);
            assert(count_down(infos) == d);
            assert(count_sla(infos) == v);
            assert(round_points(infos, scoring) == (u + 1) * a + d * b + v * c);
        } else if x.incurred_sla {
            assert(count_up(infos) == u);
            assert(count_down(infos) == d + 1);
            assert(count_sla(infos) == v + 1);
            assert(round_points(infos, scoring) == u * a + (d + 1) * b + (v + 1) * c);
        } else {
            assert(count_up(infos) == u);
            assert(count_down(infos) == d + 1);
            assert(count_sla(infos) == v);
            assert(round_points(infos, scoring) == u * a + (d + 1) * b + v * c);
        }
    } else {
        assert(0 * (scoring.service_up as int) == 0);
        assert(0 * (scoring.service_down as int) == 0);
        assert(0 * (scoring.sla as int) == 0);
    }
}

} // verus!
