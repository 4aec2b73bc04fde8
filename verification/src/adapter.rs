//! Normalization of what the backing stores hand out, and the pure decisions
//! of the file-snapshot store.
//!
//! Whatever order a store returned its rows in, the poll loop runs them
//! through [`sort_by_return_time`] so that the event source always hands the
//! rest of the engine an ascending due-time sequence. The snapshot store's
//! modification-time caching and its decode-failure rule are decided here;
//! reading directories and parsing files stays with the caller.

use vstd::prelude::*;
use vstd::multiset::Multiset;
use crate::model::{SubInfo, sorted_by_return_time};

verus! {

broadcast use vstd::multiset::group_multiset_axioms;

/// The index of a smallest return time.
fn min_index(subs: &Vec<SubInfo>) -> (k: usize)
    requires
        subs@.len() > 0,
    ensures
        k < subs@.len(),
        forall|j: int|
            0 <= j < subs@.len() ==> subs@[k as int].return_time <= (
            #[trigger] subs@[j]).return_time,
{
    let mut k: usize = 0;
    let mut i: usize = 1;
    while i < subs.len()
        invariant
            k < i <= subs@.len(),
            forall|j: int|
                0 <= j < i ==> subs@[k as int].return_time <= (#[trigger] subs@[j]).return_time,
        decreases subs@.len() - i,
    {
        if subs[i].return_time < subs[k].return_time {
            k = i;
        }
        i += 1;
    }
    k
}

/// Put the store's rows in ascending due-time order, keeping exactly the same
/// collection of rows.
pub fn sort_by_return_time(subs: Vec<SubInfo>) -> (r: Vec<SubInfo>)
    ensures
        sorted_by_return_time(r@),
        r@.to_multiset() == subs@.to_multiset(),
{
    let ghost all = subs@;
    let mut rest = subs;
    let mut out: Vec<SubInfo> = Vec::new();
    proof {
        out@.to_multiset_ensures();
        rest@.to_multiset_ensures();
        assert(out@.to_multiset().add(rest@.to_multiset()) =~= all.to_multiset());
    }
    while rest.len() > 0
        invariant
            sorted_by_return_time(out@),
            out@.to_multiset().add(rest@.to_multiset()) == all.to_multiset(),
            forall|a: int, b: int|
                0 <= a < out@.len() && 0 <= b < rest@.len() ==> (
                #[trigger] out@[a]).return_time <= (#[trigger] rest@[b]).return_time,
        decreases rest@.len(),
    {
        let k = min_index(&rest);
        let ghost rest_before = rest@;
        let ghost out_before = out@;
        let x = rest.remove(k);
        out.push(x);
        proof {
            rest_before.to_multiset_ensures();
            out_before.to_multiset_ensures();
            rest_before.remove_ensures(k as int);
            assert(x == rest_before[k as int]);
            assert(rest_before.contains(x));
            assert(rest_before.to_multiset().count(x) > 0);
            assert(rest@.to_multiset() =~= rest_before.to_multiset().remove(x));
            assert(out@.to_multiset() =~= out_before.to_multiset().insert(x));
            assert(out@.to_multiset().add(rest@.to_multiset()) =~= all.to_multiset()) by {
                assert forall|e: SubInfo|
                    out@.to_multiset().add(rest@.to_multiset()).count(e) == all.to_multiset().count(
                        e,
                    ) by {
                    assert(out_before.to_multiset().add(rest_before.to_multiset()).count(e)
                        == all.to_multiset().count(e));
                }
            }
            assert forall|a: int, b: int|
                0 <= a < out@.len() && 0 <= b < rest@.len() implies (
            #[trigger] out@[a]).return_time <= (#[trigger] rest@[b]).return_time by {
                let rb = if b < k as int {
                    rest_before[b]
                } else {
                    rest_before[b + 1]
                };
                assert(rest@[b] == rb);
                if a < out_before.len() {
                    assert(out@[a] == out_before[a]);
                } else {
                    assert(out@[a] == x);
                }
            }
            assert forall|a: int, b: int| 0 <= a < b < out@.len() implies out@[a].return_time
                <= out@[b].return_time by {
                if b < out_before.len() {
                    assert(out@[a] == out_before[a] && out@[b] == out_before[b]);
                } else {
                    assert(out@[b] == x && out@[a] == out_before[a]);
                }
            }
        }
    }
    proof {
        rest@.to_multiset_ensures();
        assert forall|e: SubInfo| rest@.to_multiset().count(e) == 0 by {
            assert(!rest@.contains(e));
        }
        assert(rest@.to_multiset() =~= Multiset::<SubInfo>::empty());
        assert(out@.to_multiset() =~= out@.to_multiset().add(rest@.to_multiset()));
    }
    out
}

/// Decide whether a snapshot file must be re-read this cycle: only when it
/// was never seen before, or its modification time is strictly newer than the
/// last one seen for it.
pub fn needs_reload(last_seen: Option<i64>, mtime: i64) -> (r: bool)
    ensures
        r == match last_seen {
            None => true,
            Some(t) => mtime > t,
        },
{
    match last_seen {
        None => true,
        Some(t) => mtime > t,
    }
}

/// What a (re)load attempt leaves as a group's entity set: a successful
/// decode replaces the prior set wholesale, a failed decode keeps the prior
/// set unchanged — stale-but-valid beats losing a group to one bad file.
pub fn apply_snapshot(prior: Vec<SubInfo>, decoded: Option<Vec<SubInfo>>) -> (r: Vec<SubInfo>)
    ensures
        r@ == match decoded {
            Some(d) => d@,
            None => prior@,
        },
{
    match decoded {
        Some(d) => d,
        None => prior,
    }
}

} // verus!
