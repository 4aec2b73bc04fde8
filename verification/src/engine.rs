//! The per-tick driver logic of the poll loop.
//!
//! Each tick the caller reads the current submarines from the backing store,
//! runs them through [`run_tick`] against the owned notification state, shows
//! a desktop notification for every returned fire event, and feeds the
//! still-pending submarines to the batching engine. [`tick_would_act`] lets a
//! caller skip a tick that would neither fire nor change any state, which
//! [`lemma_quiet_tick_unobservable`] shows to be unobservable.

use vstd::prelude::*;
use crate::model::{FireEvent, NotifyMeta, SubInfo, sorted_by_return_time};
use crate::state::{ArmPolicy, observe, observe_spec, step_spec};
use vstd::hash_map::HashMapWithView;

verus! {

broadcast use vstd::std_specs::hash::group_hash_axioms;

/// The notification records of every submarine observed so far in this
/// process lifetime, keyed by submarine id. Owned by the poll loop; never
/// persisted.
pub struct NotifyState {
    metas: HashMapWithView<i64, NotifyMeta>,
}

impl View for NotifyState {
    type V = Map<i64, NotifyMeta>;

    closed spec fn view(&self) -> Map<i64, NotifyMeta> {
        self.metas@
    }
}

/// The record stored for `id`, if any.
pub open spec fn prior_of(m: Map<i64, NotifyMeta>, id: i64) -> Option<NotifyMeta> {
    if m.contains_key(id) {
        Some(m[id])
    } else {
        None
    }
}

/// What one whole tick does to the state map: observe every submarine in
/// order, collecting the fire events it emits.
pub open spec fn tick_spec(
    m: Map<i64, NotifyMeta>,
    policy: ArmPolicy,
    subs: Seq<SubInfo>,
    now: i64,
) -> (Map<i64, NotifyMeta>, Seq<FireEvent>)
    decreases subs.len(),
{
    if subs.len() == 0 {
        (m, Seq::empty())
    } else {
        let sub = subs[0];
        let st = observe_spec(prior_of(m, sub.id), policy, sub.id, sub.return_time, now);
        let rest = tick_spec(m.insert(sub.id, st.0), policy, subs.drop_first(), now);
        (
            rest.0,
            if st.1 {
                seq![FireEvent { entity: sub }] + rest.1
            } else {
                rest.1
            },
        )
    }
}

impl NotifyState {
    /// A fresh process starts with no records at all.
    pub fn new() -> (s: Self)
        ensures
            s@ == Map::<i64, NotifyMeta>::empty(),
    {
        NotifyState { metas: HashMapWithView::new() }
    }

    /// Observe one submarine: fetch (or create) its record, step it, store it
    /// back, and say whether it fired.
    pub fn observe_entity(&mut self, policy: ArmPolicy, sub: &SubInfo, now: i64) -> (fired: bool)
        ensures
            final(self)@ == old(self)@.insert(
                sub.id,
                observe_spec(prior_of(old(self)@, sub.id), policy, sub.id, sub.return_time, now).0,
            ),
            fired == observe_spec(
                prior_of(old(self)@, sub.id),
                policy,
                sub.id,
                sub.return_time,
                now,
            ).1,
    {
        let prior: Option<NotifyMeta> = match self.metas.get(&sub.id) {
            Some(m) => Some(*m),
            None => None,
        };
        let (m, fired) = observe(prior, policy, sub.id, sub.return_time, now);
        self.metas.insert(sub.id, m);
        fired
    }
}

/// Run one tick over the full submarine list: observe each in order and
/// collect the fire events. The result and the new state are pinned exactly
/// by [`tick_spec`].
pub fn run_tick(
    state: &mut NotifyState,
    policy: ArmPolicy,
    subs: &Vec<SubInfo>,
    now: i64,
) -> (fires: Vec<FireEvent>)
    ensures
        final(state)@ == tick_spec(old(state)@, policy, subs@, now).0,
        fires@ == tick_spec(old(state)@, policy, subs@, now).1,
{
    let ghost m0 = state@;
    let ghost s = subs@;
    let mut fires: Vec<FireEvent> = Vec::new();
    let mut i: usize = 0;
    proof {
        assert(s.skip(0) =~= s);
        assert(fires@ + tick_spec(state@, policy, s, now).1 =~= tick_spec(state@, policy, s, now).1);
    }
    while i < subs.len()
        invariant
            i <= s.len(),
            s == subs@,
            tick_spec(m0, policy, s, now).0 == tick_spec(state@, policy, s.skip(i as int), now).0,
            tick_spec(m0, policy, s, now).1 == fires@ + tick_spec(
                state@,
                policy,
                s.skip(i as int),
                now,
            ).1,
        decreases s.len() - i,
    {
        let ghost m_before = state@;
        let ghost tail = s.skip(i as int);
        let ghost fires_before = fires@;
        let fired = state.observe_entity(policy, &subs[i], now);
        if fired {
            fires.push(FireEvent { entity: subs[i].duplicate() });
        }
        proof {
            let sub = s[i as int];
            assert(tail.len() > 0 && tail[0] == sub);
            assert(tail.drop_first() =~= s.skip(i as int + 1));
            let st = observe_spec(prior_of(m_before, sub.id), policy, sub.id, sub.return_time, now);
            assert(state@ == m_before.insert(sub.id, st.0));
            let rest = tick_spec(state@, policy, s.skip(i as int + 1), now);
            assert(tick_spec(m_before.insert(sub.id, st.0), policy, tail.drop_first(), now)
                == rest);
            assert(tick_spec(m_before, policy, tail, now).0 == rest.0);
            if st.1 {
                assert(fires@ =~= fires_before.push(FireEvent { entity: sub }));
                assert(tick_spec(m_before, policy, tail, now).1 == seq![
                    FireEvent { entity: sub },
                ] + rest.1);
                assert(fires_before + (seq![FireEvent { entity: sub }] + rest.1) =~= fires@
                    + rest.1);
            } else {
                assert(tick_spec(m_before, policy, tail, now).1 == rest.1);
            }
        }
        i += 1;
    }
    proof {
        assert(s.skip(s.len() as int) =~= Seq::<SubInfo>::empty());
        assert(fires@ + Seq::<FireEvent>::empty() =~= fires@);
    }
    fires
}

/// The submarines whose due time is still strictly in the future: the input
/// of the batching engine.
pub open spec fn pending_spec(s: Seq<SubInfo>, now: i64) -> Seq<SubInfo>
    decreases s.len(),
{
    if s.len() == 0 {
        Seq::empty()
    } else if s[0].return_time > now {
        seq![s[0]] + pending_spec(s.drop_first(), now)
    } else {
        pending_spec(s.drop_first(), now)
    }
}

/// Keep only the submarines still pending at `now`, in their given order.
pub fn still_pending(subs: &Vec<SubInfo>, now: i64) -> (r: Vec<SubInfo>)
    ensures
        r@ == pending_spec(subs@, now),
{
    let ghost s = subs@;
    let mut r: Vec<SubInfo> = Vec::new();
    let mut i: usize = 0;
    proof {
        assert(s.skip(0) =~= s);
        assert(r@ + pending_spec(s, now) =~= pending_spec(s, now));
    }
    while i < subs.len()
        invariant
            i <= s.len(),
            s == subs@,
            pending_spec(s, now) == r@ + pending_spec(s.skip(i as int), now),
        decreases s.len() - i,
    {
        let ghost tail = s.skip(i as int);
        proof {
            assert(tail.len() > 0 && tail[0] == s[i as int]);
            assert(tail.drop_first() =~= s.skip(i as int + 1));
        }
        if subs[i].return_time > now {
            r.push(subs[i].duplicate());
            proof {
                assert(r@.subrange(0, r@.len() - 1) + (seq![s[i as int]] + pending_spec(
                    s.skip(i as int + 1),
                    now,
                )) =~= r@ + pending_spec(s.skip(i as int + 1), now));
            }
        }
        i += 1;
    }
    proof {
        assert(s.skip(s.len() as int) =~= Seq::<SubInfo>::empty());
        assert(r@ + Seq::<SubInfo>::empty() =~= r@);
    }
    r
}

/// *Law (ordering kept)*: filtering to the still-pending submarines keeps the
/// backing store's ascending due-time order, so the batching engine sees its
/// input sorted; every survivor is one of the input events and still pending.
pub proof fn lemma_pending_preserves_order(s: Seq<SubInfo>, now: i64)
    requires
        sorted_by_return_time(s),
    ensures
        sorted_by_return_time(pending_spec(s, now)),
        forall|k: int|
            0 <= k < pending_spec(s, now).len() ==> (#[trigger] pending_spec(s, now)[k]).return_time
                > now,
        forall|k: int|
            0 <= k < pending_spec(s, now).len() ==> exists|j: int|
                0 <= j < s.len() && #[trigger] pending_spec(s, now)[k] == s[j],
    decreases s.len(),
{
    if s.len() > 0 {
        let tail = s.drop_first();
        assert(sorted_by_return_time(tail)) by {
            assert forall|i: int, j: int| 0 <= i < j < tail.len() implies tail[i].return_time
                <= tail[j].return_time by {
                assert(tail[i] == s[i + 1] && tail[j] == s[j + 1]);
            }
        }
        lemma_pending_preserves_order(tail, now);
        let p = pending_spec(s, now);
        let pt = pending_spec(tail, now);
        assert forall|k: int| 0 <= k < pt.len() implies (#[trigger] pt[k]).return_time
            >= s[0].return_time by {
            let j = choose|j: int| 0 <= j < tail.len() && pt[k] == tail[j];
            assert(tail[j] == s[j + 1]);
        }
        if s[0].return_time > now {
            assert(p =~= seq![s[0]] + pt);
            assert forall|i: int, j: int| 0 <= i < j < p.len() implies p[i].return_time
                <= p[j].return_time by {
                if i > 0 {
                    assert(p[i] == pt[i - 1] && p[j] == pt[j - 1]);
                } else {
                    assert(p[j] == pt[j - 1]);
                }
            }
            assert forall|k: int| 0 <= k < p.len() implies exists|j: int|
                0 <= j < s.len() && #[trigger] p[k] == s[j] by {
                if k == 0 {
                    assert(p[0] == s[0]);
                } else {
                    assert(p[k] == pt[k - 1]);
                    let j = choose|j: int| 0 <= j < tail.len() && pt[k - 1] == tail[j];
                    assert(p[k] == s[j + 1]);
                }
            }
        } else {
            assert(p =~= pt);
            assert forall|k: int| 0 <= k < p.len() implies exists|j: int|
                0 <= j < s.len() && #[trigger] p[k] == s[j] by {
                let j = choose|j: int| 0 <= j < tail.len() && pt[k] == tail[j];
                assert(p[k] == s[j + 1]);
            }
        }
    }
}

/// *Law (fires only when due)*: a tick never emits a fire event for a
/// submarine whose due time is still in the future at that tick.
pub proof fn lemma_fires_only_when_due(
    m: Map<i64, NotifyMeta>,
    policy: ArmPolicy,
    subs: Seq<SubInfo>,
    now: i64,
)
    ensures
        forall|k: int|
            0 <= k < tick_spec(m, policy, subs, now).1.len() ==> (#[trigger] tick_spec(
                m,
                policy,
                subs,
                now,
            ).1[k]).entity.return_time <= now,
    decreases subs.len(),
{
    if subs.len() > 0 {
        let sub = subs[0];
        let st = observe_spec(prior_of(m, sub.id), policy, sub.id, sub.return_time, now);
        let rest = tick_spec(m.insert(sub.id, st.0), policy, subs.drop_first(), now);
        lemma_fires_only_when_due(m.insert(sub.id, st.0), policy, subs.drop_first(), now);
        let fires = tick_spec(m, policy, subs, now).1;
        if st.1 {
            assert(sub.return_time <= now);
            assert forall|k: int| 0 <= k < fires.len() implies (
            #[trigger] fires[k]).entity.return_time <= now by {
                if k == 0 {
                    assert(fires[0] == FireEvent { entity: sub });
                } else {
                    assert(fires[k] == rest.1[k - 1]);
                }
            }
        }
    }
}

/// *Law (one record per observed submarine)*: a tick leaves exactly one
/// record behind for every submarine it observed, and drops no record it
/// already had.
pub proof fn lemma_records_after_tick(
    m: Map<i64, NotifyMeta>,
    policy: ArmPolicy,
    subs: Seq<SubInfo>,
    now: i64,
)
    ensures
        forall|k: int|
            0 <= k < subs.len() ==> tick_spec(m, policy, subs, now).0.contains_key(
                (#[trigger] subs[k]).id,
            ),
        forall|id: i64|
            #[trigger] m.contains_key(id) ==> tick_spec(m, policy, subs, now).0.contains_key(id),
    decreases subs.len(),
{
    if subs.len() > 0 {
        let sub = subs[0];
        let st = observe_spec(prior_of(m, sub.id), policy, sub.id, sub.return_time, now);
        let m1 = m.insert(sub.id, st.0);
        lemma_records_after_tick(m1, policy, subs.drop_first(), now);
        assert forall|id: i64| #[trigger] m.contains_key(id) implies tick_spec(
            m,
            policy,
            subs,
            now,
        ).0.contains_key(id) by {
            assert(m1.contains_key(id));
        }
        assert forall|k: int| 0 <= k < subs.len() implies tick_spec(
            m,
            policy,
            subs,
            now,
        ).0.contains_key((#[trigger] subs[k]).id) by {
            if k > 0 {
                assert(subs.drop_first()[k - 1] == subs[k]);
            } else {
                assert(m1.contains_key(sub.id));
            }
        }
    }
}

/// A submarine is quiet when its record exists and observing it now would
/// neither change the record nor fire.
pub open spec fn entity_quiet(m: Map<i64, NotifyMeta>, sub: SubInfo, now: i64) -> bool {
    m.contains_key(sub.id) && step_spec(m[sub.id], sub.return_time, now) == (m[sub.id], false)
}

/// A whole tick is quiet when every listed submarine is.
pub open spec fn tick_quiet(m: Map<i64, NotifyMeta>, subs: Seq<SubInfo>, now: i64) -> bool {
    forall|i: int| 0 <= i < subs.len() ==> entity_quiet(m, #[trigger] subs[i], now)
}

/// *Law (skipping a quiet tick is unobservable)*: a tick in which every
/// submarine is quiet leaves the state exactly as it was and fires nothing,
/// so the poll loop may skip it without changing any externally visible
/// behaviour.
pub proof fn lemma_quiet_tick_unobservable(
    m: Map<i64, NotifyMeta>,
    policy: ArmPolicy,
    subs: Seq<SubInfo>,
    now: i64,
)
    requires
        tick_quiet(m, subs, now),
    ensures
        tick_spec(m, policy, subs, now).0 == m,
        tick_spec(m, policy, subs, now).1 == Seq::<FireEvent>::empty(),
    decreases subs.len(),
{
    if subs.len() > 0 {
        let sub = subs[0];
        assert(entity_quiet(m, sub, now));
        let st = observe_spec(prior_of(m, sub.id), policy, sub.id, sub.return_time, now);
        assert(st == (m[sub.id], false));
        assert(m.insert(sub.id, st.0) =~= m);
        assert(tick_quiet(m, subs.drop_first(), now)) by {
            assert forall|i: int| 0 <= i < subs.drop_first().len() implies entity_quiet(
                m,
                #[trigger] subs.drop_first()[i],
                now,
            ) by {
                assert(subs.drop_first()[i] == subs[i + 1]);
            }
        }
        lemma_quiet_tick_unobservable(m, policy, subs.drop_first(), now);
    }
}

/// Whether this tick would do anything at all: fire some notification, change
/// some record, or meet a submarine it has no record of. When it returns
/// false the caller may skip the whole tick body.
pub fn tick_would_act(state: &NotifyState, policy: ArmPolicy, subs: &Vec<SubInfo>, now: i64) -> (r:
    bool)
    ensures
        r == !tick_quiet(state@, subs@, now),
{
    let ghost s = subs@;
    let mut i: usize = 0;
    while i < subs.len()
        invariant
            i <= s.len(),
            s == subs@,
            forall|k: int| 0 <= k < i ==> entity_quiet(state@, #[trigger] s[k], now),
        decreases s.len() - i,
    {
        let sub = &subs[i];
        match state.metas.get(&sub.id) {
            None => {
                assert(!entity_quiet(state@, s[i as int], now));
                return true;
            },
            Some(prior) => {
                let prior = *prior;
                let (m, fired) = observe(Some(prior), policy, sub.id, sub.return_time, now);
                if fired || m != prior {
                    assert(step_spec(state@[s[i as int].id], s[i as int].return_time, now) == (
                        m,
                        fired,
                    ));
                    assert(!entity_quiet(state@, s[i as int], now));
                    return true;
                }
                assert(entity_quiet(state@, s[i as int], now));
            },
        }
        i += 1;
    }
    assert(tick_quiet(state@, s, now));
    false
}

} // verus!
