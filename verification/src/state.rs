//! The per-submarine notification state machine.
//!
//! Each poll cycle every submarine is observed once with its current due time
//! and the wall clock. The stored [`NotifyMeta`] decides whether to re-arm
//! (the schedule changed to a time still pending), fire (armed and due), or do
//! nothing. Firing is the only path that emits output, and it disarms the
//! record until the schedule changes again.

use vstd::prelude::*;
use crate::model::NotifyMeta;

verus! {

/// How a submarine seen for the first time in a process lifetime (or loaded
/// afresh from a snapshot file) is armed.
#[derive(Clone, Copy, PartialEq, Eq, Structural)]
pub enum ArmPolicy {
    /// Database-backed stores arm every first observation, with the epoch as
    /// the remembered due time; a due time already in the past then fires on
    /// the very next evaluation.
    ArmAlways,
    /// Snapshot files arm a (re)loaded entry only while its due time is still
    /// strictly in the future; an entry loaded already past never fires.
    ArmFutureOnly,
}

/// The record made the first time a submarine id is observed.
pub open spec fn fresh_meta(policy: ArmPolicy, id: i64, due: i64, now: i64) -> NotifyMeta {
    match policy {
        ArmPolicy::ArmAlways => NotifyMeta {
            submarine_id: id,
            will_notify: true,
            last_return_time: 0,
        },
        ArmPolicy::ArmFutureOnly => NotifyMeta {
            submarine_id: id,
            will_notify: due > now,
            last_return_time: due,
        },
    }
}

/// Re-arm exactly when the observed due time differs from the remembered one
/// and is still in the future.
pub open spec fn rearm_step(m: NotifyMeta, due: i64, now: i64) -> NotifyMeta {
    if m.last_return_time != due && due > now {
        NotifyMeta { submarine_id: m.submarine_id, will_notify: true, last_return_time: due }
    } else {
        m
    }
}

/// Fire exactly when armed and due; firing disarms the record.
pub open spec fn fire_step(m: NotifyMeta, due: i64, now: i64) -> (NotifyMeta, bool) {
    if m.will_notify && due <= now {
        (
            NotifyMeta {
                submarine_id: m.submarine_id,
                will_notify: false,
                last_return_time: m.last_return_time,
            },
            true,
        )
    } else {
        (m, false)
    }
}

/// One observation applied to an existing record: re-arm, then fire. The two
/// cannot both apply in one call, since re-arming needs `due > now` and firing
/// needs `due <= now`.
pub open spec fn step_spec(m: NotifyMeta, due: i64, now: i64) -> (NotifyMeta, bool) {
    fire_step(rearm_step(m, due, now), due, now)
}

/// What one call of [`observe`] returns: the record after the observation and
/// whether it fired. A missing record is created first, per the policy.
pub open spec fn observe_spec(
    prior: Option<NotifyMeta>,
    policy: ArmPolicy,
    id: i64,
    due: i64,
    now: i64,
) -> (NotifyMeta, bool) {
    let m0 = match prior {
        Some(m) => m,
        None => fresh_meta(policy, id, due, now),
    };
    step_spec(m0, due, now)
}

/// Observe one submarine: decide whether to re-arm, fire, or leave the record
/// alone. Returns the record to store and whether a notification fires now.
pub fn observe(prior: Option<NotifyMeta>, policy: ArmPolicy, id: i64, due: i64, now: i64) -> (r: (
    NotifyMeta,
    bool,
))
    ensures
        r == observe_spec(prior, policy, id, due, now),
{
    let mut m = match prior {
        Some(m) => m,
        None => match policy {
            ArmPolicy::ArmAlways => NotifyMeta {
                submarine_id: id,
                will_notify: true,
                last_return_time: 0,
            },
            ArmPolicy::ArmFutureOnly => NotifyMeta {
                submarine_id: id,
                will_notify: due > now,
                last_return_time: due,
            },
        },
    };
    if m.last_return_time != due && due > now {
        m.will_notify = true;
        m.last_return_time = due;
    }
    let mut fired = false;
    if m.will_notify && due <= now {
        m.will_notify = false;
        fired = true;
    }
    (m, fired)
}

/// A run of observations of one submarine: each element is the observed
/// `(due_time, now)` of one poll cycle, oldest first.
pub open spec fn meta_after(m: NotifyMeta, obs: Seq<(i64, i64)>) -> NotifyMeta
    decreases obs.len(),
{
    if obs.len() == 0 {
        m
    } else {
        meta_after(step_spec(m, obs[0].0, obs[0].1).0, obs.drop_first())
    }
}

/// How many fire events a run of observations emits, starting from record `m`.
pub open spec fn fires_during(m: NotifyMeta, obs: Seq<(i64, i64)>) -> nat
    decreases obs.len(),
{
    if obs.len() == 0 {
        0
    } else {
        (if step_spec(m, obs[0].0, obs[0].1).1 {
            1nat
        } else {
            0nat
        }) + fires_during(step_spec(m, obs[0].0, obs[0].1).0, obs.drop_first())
    }
}

/// Every observation in the run sees the same due time `d`.
pub open spec fn fixed_due(obs: Seq<(i64, i64)>, d: i64) -> bool {
    forall|i: int| 0 <= i < obs.len() ==> (#[trigger] obs[i]).0 == d
}

/// The wall clock never goes backwards over the run.
pub open spec fn clock_monotone(obs: Seq<(i64, i64)>) -> bool {
    forall|i: int, j: int| 0 <= i <= j < obs.len() ==> (#[trigger] obs[i]).1 <= (#[trigger] obs[j]).1
}

/// A disarmed record whose remembered due time equals the observed one never
/// re-arms and never fires, however the clock moves.
pub proof fn lemma_disarmed_same_due_quiet(m: NotifyMeta, d: i64, obs: Seq<(i64, i64)>)
    requires
        !m.will_notify,
        m.last_return_time == d,
        fixed_due(obs, d),
    ensures
        fires_during(m, obs) == 0,
        meta_after(m, obs) == m,
    decreases obs.len(),
{
    if obs.len() > 0 {
        assert(step_spec(m, obs[0].0, obs[0].1) == (m, false));
        assert(fixed_due(obs.drop_first(), d)) by {
            assert forall|i: int| 0 <= i < obs.drop_first().len() implies (#[trigger] obs.drop_first()[i]).0
                == d by {
                assert(obs.drop_first()[i] == obs[i + 1]);
            }
        }
        lemma_disarmed_same_due_quiet(m, d, obs.drop_first());
    }
}

/// A disarmed record observed only at clocks at or past the fixed due time
/// never re-arms and never fires.
pub proof fn lemma_disarmed_past_due_quiet(m: NotifyMeta, d: i64, t: i64, obs: Seq<(i64, i64)>)
    requires
        !m.will_notify,
        d <= t,
        fixed_due(obs, d),
        forall|i: int| 0 <= i < obs.len() ==> t <= (#[trigger] obs[i]).1,
    ensures
        fires_during(m, obs) == 0,
    decreases obs.len(),
{
    if obs.len() > 0 {
        assert(step_spec(m, obs[0].0, obs[0].1) == (m, false));
        assert(fixed_due(obs.drop_first(), d) && forall|i: int|
            0 <= i < obs.drop_first().len() ==> t <= (#[trigger] obs.drop_first()[i]).1) by {
            assert forall|i: int| 0 <= i < obs.drop_first().len() implies (#[trigger] obs.drop_first()[i]).0
                == d && t <= obs.drop_first()[i].1 by {
                assert(obs.drop_first()[i] == obs[i + 1]);
            }
        }
        lemma_disarmed_past_due_quiet(m, d, t, obs.drop_first());
    }
}

/// Over a run with a fixed due time and a clock that never goes backwards, any
/// record fires at most once.
pub proof fn lemma_fixed_due_at_most_one_fire(m: NotifyMeta, d: i64, obs: Seq<(i64, i64)>)
    requires
        fixed_due(obs, d),
        clock_monotone(obs),
    ensures
        fires_during(m, obs) <= 1,
    decreases obs.len(),
{
    if obs.len() > 0 {
        let stepped = step_spec(m, obs[0].0, obs[0].1);
        let rest = obs.drop_first();
        assert(fixed_due(rest, d) && clock_monotone(rest) && forall|i: int|
            0 <= i < rest.len() ==> obs[0].1 <= (#[trigger] rest[i]).1) by {
            assert forall|i: int| 0 <= i < rest.len() implies (#[trigger] rest[i]).0 == d && obs[0].1
                <= rest[i].1 by {
                assert(rest[i] == obs[i + 1]);
            }
            assert forall|i: int, j: int| 0 <= i <= j < rest.len() implies (#[trigger] rest[i]).1 <= (
            #[trigger] rest[j]).1 by {
                assert(rest[i] == obs[i + 1] && rest[j] == obs[j + 1]);
            }
        }
        if stepped.1 {
            // It fired now, so the due time has elapsed for good: quiet from here on.
            lemma_disarmed_past_due_quiet(stepped.0, d, obs[0].1, rest);
        } else {
            lemma_fixed_due_at_most_one_fire(stepped.0, d, rest);
        }
    }
}

/// *Law (no duplicate fire)*: a submarine observed for the first time under
/// either arming policy, whose due time never changes and whose clock never
/// goes backwards, fires at most once over the whole run of observations.
pub proof fn lemma_no_duplicate_fire(
    policy: ArmPolicy,
    id: i64,
    d: i64,
    obs: Seq<(i64, i64)>,
)
    requires
        obs.len() > 0,
        fixed_due(obs, d),
        clock_monotone(obs),
    ensures
        (if observe_spec(None, policy, id, d, obs[0].1).1 {
            1nat
        } else {
            0nat
        }) + fires_during(observe_spec(None, policy, id, d, obs[0].1).0, obs.drop_first()) <= 1,
{
    let fresh = fresh_meta(policy, id, d, obs[0].1);
    assert(obs[0].0 == d);
    assert(observe_spec(None, policy, id, d, obs[0].1) == step_spec(fresh, obs[0].0, obs[0].1));
    assert(fires_during(fresh, obs) == (if step_spec(fresh, obs[0].0, obs[0].1).1 {
        1nat
    } else {
        0nat
    }) + fires_during(step_spec(fresh, obs[0].0, obs[0].1).0, obs.drop_first()));
    lemma_fixed_due_at_most_one_fire(fresh, d, obs);
}

/// An armed record whose remembered due time equals the observed one fires
/// exactly once if the clock ever reaches the due time, and never otherwise.
pub proof fn lemma_armed_same_due_fires_iff(m: NotifyMeta, d: i64, obs: Seq<(i64, i64)>)
    requires
        m.will_notify,
        m.last_return_time == d,
        fixed_due(obs, d),
        clock_monotone(obs),
    ensures
        fires_during(m, obs) == (if exists|i: int| 0 <= i < obs.len() && d <= (#[trigger] obs[i]).1 {
            1nat
        } else {
            0nat
        }),
    decreases obs.len(),
{
    if obs.len() > 0 {
        let stepped = step_spec(m, obs[0].0, obs[0].1);
        let rest = obs.drop_first();
        assert forall|i: int| 0 <= i < rest.len() implies (#[trigger] rest[i]).0 == d by {
            assert(rest[i] == obs[i + 1]);
        }
        assert forall|i: int, j: int| 0 <= i <= j < rest.len() implies (#[trigger] rest[i]).1 <= (
        #[trigger] rest[j]).1 by {
            assert(rest[i] == obs[i + 1] && rest[j] == obs[j + 1]);
        }
        if d <= obs[0].1 {
            // Fires on this very observation, then stays quiet.
            assert(stepped == (NotifyMeta {
                submarine_id: m.submarine_id,
                will_notify: false,
                last_return_time: d,
            }, true));
            lemma_disarmed_same_due_quiet(stepped.0, d, rest);
            assert(exists|i: int| 0 <= i < obs.len() && d <= (#[trigger] obs[i]).1) by {
                assert(0 <= 0 < obs.len() && d <= obs[0].1);
            }
        } else {
            // Not yet due: the record is untouched.
            assert(stepped == (m, false));
            lemma_armed_same_due_fires_iff(m, d, rest);
            if exists|i: int| 0 <= i < obs.len() && d <= (#[trigger] obs[i]).1 {
                let i = choose|i: int| 0 <= i < obs.len() && d <= (#[trigger] obs[i]).1;
                assert(i != 0);
                assert(rest[i - 1] == obs[i]);
                assert(exists|k: int| 0 <= k < rest.len() && d <= (#[trigger] rest[k]).1);
            } else {
                assert forall|k: int| 0 <= k < rest.len() implies !(d <= (#[trigger] rest[k]).1) by {
                    assert(rest[k] == obs[k + 1]);
                }
            }
        }
    }
}

/// *Law (no repeat for an unchanged pair)*: once a record fires at a due
/// time, later observations never fire again for the same due time unless a
/// different one intervenes — whatever the record held before, as long as the
/// clock does not go backwards.
pub proof fn lemma_no_refire_without_change(m: NotifyMeta, d: i64, now0: i64, obs: Seq<(i64, i64)>)
    requires
        step_spec(m, d, now0).1,
        fixed_due(obs, d),
        forall|i: int| 0 <= i < obs.len() ==> now0 <= (#[trigger] obs[i]).1,
    ensures
        fires_during(step_spec(m, d, now0).0, obs) == 0,
{
    lemma_disarmed_past_due_quiet(step_spec(m, d, now0).0, d, now0, obs);
}

/// *Law (re-arm on change)*: a record that has already fired, observed from
/// then on with a changed due time — seen first while still in the future and
/// reached by the clock later in the run — fires exactly once more.
pub proof fn lemma_rearm_fires_once(m: NotifyMeta, d2: i64, obs: Seq<(i64, i64)>)
    requires
        !m.will_notify,
        m.last_return_time != d2,
        obs.len() > 0,
        fixed_due(obs, d2),
        clock_monotone(obs),
        obs[0].1 < d2,
        exists|i: int| 0 <= i < obs.len() && d2 <= (#[trigger] obs[i]).1,
    ensures
        fires_during(m, obs) == 1,
{
    let rearmed = NotifyMeta {
        submarine_id: m.submarine_id,
        will_notify: true,
        last_return_time: d2,
    };
    assert(step_spec(m, obs[0].0, obs[0].1) == (rearmed, false));
    let rest = obs.drop_first();
    assert forall|i: int| 0 <= i < rest.len() implies (#[trigger] rest[i]).0 == d2 by {
        assert(rest[i] == obs[i + 1]);
    }
    assert forall|i: int, j: int| 0 <= i <= j < rest.len() implies (#[trigger] rest[i]).1 <= (
    #[trigger] rest[j]).1 by {
        assert(rest[i] == obs[i + 1] && rest[j] == obs[j + 1]);
    }
    lemma_armed_same_due_fires_iff(rearmed, d2, rest);
    let i = choose|i: int| 0 <= i < obs.len() && d2 <= (#[trigger] obs[i]).1;
    assert(i != 0);
    assert(rest[i - 1] == obs[i]);
    assert(exists|k: int| 0 <= k < rest.len() && d2 <= (#[trigger] rest[k]).1);
}

} // verus!
