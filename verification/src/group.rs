//! The batching engine for the bridge-notification path.
//!
//! A time-ordered run of still-pending submarines is collapsed into groups:
//! walking the input in order, a submarine joins the open group while it is at
//! most five minutes behind its predecessor, and otherwise starts a new group.
//! A group keeps its first-seen member as the representative for the alert
//! text and the earliest (first) due time as its nominal timestamp; a group
//! still open at the end of the input is emitted like any other.

use vstd::prelude::*;
use crate::model::SubInfo;

verus! {

/// Two adjacent pending events are batched together exactly when they are no
/// more than this many milliseconds apart.
pub const GROUP_GAP_MILLIS: i64 = 300000;

/// One batched alert: `member_count` consecutive submarines represented by the
/// first of them, due first at `first_return_time`.
pub struct AlertGroup {
    pub representative: SubInfo,
    pub member_count: usize,
    pub first_return_time: i64,
}

/// Where the run of batched-together submarines that starts at `i` ends: the
/// first index after `i` whose gap to its predecessor exceeds the threshold,
/// or the end of the input.
pub open spec fn first_run_end(s: Seq<SubInfo>, i: int) -> int
    decreases s.len() - i,
{
    if i + 1 >= s.len() {
        s.len() as int
    } else if s[i + 1].return_time - s[i].return_time > GROUP_GAP_MILLIS {
        i + 1
    } else {
        first_run_end(s, i + 1)
    }
}

pub proof fn lemma_first_run_end_bounds(s: Seq<SubInfo>, i: int)
    requires
        0 <= i < s.len(),
    ensures
        i < first_run_end(s, i) <= s.len(),
    decreases s.len() - i,
{
    if i + 1 < s.len() && !(s[i + 1].return_time - s[i].return_time > GROUP_GAP_MILLIS) {
        lemma_first_run_end_bounds(s, i + 1);
    }
}

/// The groups made from the suffix of `s` that starts at index `i`.
pub open spec fn groups_from(s: Seq<SubInfo>, i: int) -> Seq<AlertGroup>
    decreases s.len() - i,
    via groups_from_decreases
{
    if !(0 <= i < s.len()) {
        Seq::empty()
    } else {
        let e = first_run_end(s, i);
        seq![
            AlertGroup {
                representative: s[i],
                member_count: (e - i) as usize,
                first_return_time: s[i].return_time,
            },
        ] + groups_from(s, e)
    }
}

#[via_fn]
proof fn groups_from_decreases(s: Seq<SubInfo>, i: int) {
    if 0 <= i < s.len() {
        lemma_first_run_end_bounds(s, i);
    }
}

/// What the batching engine produces for a whole input.
pub open spec fn groups_spec(s: Seq<SubInfo>) -> Seq<AlertGroup> {
    groups_from(s, 0)
}

/// How many submarines a run of groups accounts for, in total.
pub open spec fn total_members(gs: Seq<AlertGroup>) -> int
    decreases gs.len(),
{
    if gs.len() == 0 {
        0
    } else {
        gs[0].member_count + total_members(gs.drop_first())
    }
}

proof fn lemma_groups_from_cover(s: Seq<SubInfo>, i: int)
    requires
        0 <= i <= s.len(),
        s.len() <= usize::MAX,
    ensures
        total_members(groups_from(s, i)) == s.len() - i,
    decreases s.len() - i,
{
    if i < s.len() {
        let e = first_run_end(s, i);
        lemma_first_run_end_bounds(s, i);
        lemma_groups_from_cover(s, e);
        let g = AlertGroup {
            representative: s[i],
            member_count: (e - i) as usize,
            first_return_time: s[i].return_time,
        };
        assert((seq![g] + groups_from(s, e)).drop_first() =~= groups_from(s, e));
        assert(total_members(seq![g] + groups_from(s, e)) == g.member_count + total_members(
            groups_from(s, e),
        ));
    }
}

/// *Law (dangling flush)*: batching drops nothing — the emitted groups account
/// for every input event, the group still open at the end of input included,
/// and some group is emitted whenever the input is not empty.
pub proof fn lemma_batching_covers_all(s: Seq<SubInfo>)
    requires
        s.len() <= usize::MAX,
    ensures
        total_members(groups_spec(s)) == s.len(),
        groups_spec(s).len() > 0 <==> s.len() > 0,
{
    lemma_groups_from_cover(s, 0);
}

/// *Law (grouping boundary)*: two pending events are batched into one group
/// exactly when they are at most five minutes apart; the gap must strictly
/// exceed the threshold to split, so events exactly at it still share a group.
pub proof fn lemma_grouping_boundary(a: SubInfo, b: SubInfo)
    ensures
        groups_spec(seq![a, b]).len() == 1 <==> b.return_time - a.return_time
            <= GROUP_GAP_MILLIS,
        groups_spec(seq![a, b]).len() == 2 <==> b.return_time - a.return_time > GROUP_GAP_MILLIS,
{
    let s = seq![a, b];
    assert(s.len() == 2 && s[0] == a && s[1] == b);
    assert(first_run_end(s, 1) == 2);
    assert(groups_from(s, 2) =~= Seq::empty());
    if b.return_time - a.return_time > GROUP_GAP_MILLIS {
        assert(first_run_end(s, 0) == 1);
        let g1 = AlertGroup {
            representative: s[1],
            member_count: 1,
            first_return_time: s[1].return_time,
        };
        assert(groups_from(s, 1) =~= seq![g1] + groups_from(s, 2));
        let g0 = AlertGroup {
            representative: s[0],
            member_count: 1,
            first_return_time: s[0].return_time,
        };
        assert(groups_from(s, 0) =~= seq![g0] + groups_from(s, 1));
        assert(groups_spec(s).len() == 2);
    } else {
        assert(first_run_end(s, 0) == 2);
        let g0 = AlertGroup {
            representative: s[0],
            member_count: 2,
            first_return_time: s[0].return_time,
        };
        assert(groups_from(s, 0) =~= seq![g0] + groups_from(s, 2));
        assert(groups_spec(s).len() == 1);
    }
}

proof fn lemma_first_run_end_props(s: Seq<SubInfo>, i: int)
    requires
        0 <= i < s.len(),
    ensures
        i < first_run_end(s, i) <= s.len(),
        forall|j: int|
            i <= j < first_run_end(s, i) - 1 ==> s[j + 1].return_time - (
            #[trigger] s[j]).return_time <= GROUP_GAP_MILLIS,
        first_run_end(s, i) < s.len() ==> s[first_run_end(s, i)].return_time - s[first_run_end(
            s,
            i,
        ) - 1].return_time > GROUP_GAP_MILLIS,
    decreases s.len() - i,
{
    if i + 1 < s.len() && !(s[i + 1].return_time - s[i].return_time > GROUP_GAP_MILLIS) {
        lemma_first_run_end_props(s, i + 1);
    }
}

proof fn lemma_total_members_cons(g: AlertGroup, t: Seq<AlertGroup>, k: int)
    requires
        1 <= k <= t.len() + 1,
    ensures
        total_members((seq![g] + t).take(k)) == g.member_count + total_members(t.take(k - 1)),
{
    assert((seq![g] + t).take(k) =~= seq![g] + t.take(k - 1));
    assert((seq![g] + t.take(k - 1)).drop_first() =~= t.take(k - 1));
    assert(total_members(seq![g] + t.take(k - 1)) == g.member_count + total_members(t.take(k - 1)));
}

/// *Law (batch structure)*: each emitted group is a maximal run of the
/// input. Counting `start` as the input index where group `k` begins, the
/// group is represented and timestamped by its first member, adjacent members
/// within it are at most the threshold apart, and wherever another group
/// follows, its first member lags more than the threshold behind the last
/// member of this one.
pub proof fn lemma_group_boundaries(s: Seq<SubInfo>, i: int, k: int)
    requires
        0 <= i < s.len(),
        s.len() <= usize::MAX,
        0 <= k < groups_from(s, i).len(),
    ensures
        ({
            let gs = groups_from(s, i);
            let start = i + total_members(gs.take(k));
            let cnt = gs[k].member_count as int;
            &&& i <= start < s.len()
            &&& 1 <= cnt
            &&& start + cnt <= s.len()
            &&& gs[k].representative == s[start]
            &&& gs[k].first_return_time == s[start].return_time
            &&& forall|j: int|
                start <= j < start + cnt - 1 ==> s[j + 1].return_time - (
                #[trigger] s[j]).return_time <= GROUP_GAP_MILLIS
            &&& (start + cnt < s.len() ==> s[start + cnt].return_time - s[start + cnt
                - 1].return_time > GROUP_GAP_MILLIS)
            &&& (k < groups_from(s, i).len() - 1 ==> start + cnt < s.len())
        }),
    decreases k,
{
    let gs = groups_from(s, i);
    let e = first_run_end(s, i);
    lemma_first_run_end_props(s, i);
    let g0 = AlertGroup {
        representative: s[i],
        member_count: (e - i) as usize,
        first_return_time: s[i].return_time,
    };
    let rest = groups_from(s, e);
    assert(gs == seq![g0] + rest);
    if k == 0 {
        assert(gs.take(0) =~= Seq::<AlertGroup>::empty());
        assert(gs[0] == g0);
        if gs.len() > 1 {
            assert(rest.len() > 0);
            assert(e < s.len());
        }
    } else {
        lemma_group_boundaries(s, e, k - 1);
        lemma_total_members_cons(g0, rest, k);
        assert(gs[k] == rest[k - 1]);
        assert(i + total_members(gs.take(k)) == e + total_members(rest.take(k - 1)));
    }
}

/// Whether `b` is close enough behind `a` to share its group.
fn close_together(a: i64, b: i64) -> (r: bool)
    ensures
        r == (b - a <= GROUP_GAP_MILLIS),
{
    (b as i128) - (a as i128) <= GROUP_GAP_MILLIS as i128
}

/// Collapse a time-ordered run of pending submarines into batched alert
/// groups. The result is pinned exactly by [`groups_spec`].
pub fn group_pending(subs: &Vec<SubInfo>) -> (groups: Vec<AlertGroup>)
    ensures
        groups@ == groups_spec(subs@),
{
    let n = subs.len();
    let mut groups: Vec<AlertGroup> = Vec::new();
    let mut i: usize = 0;
    while i < n
        invariant
            i <= n,
            n == subs@.len(),
            groups_spec(subs@) == groups@ + groups_from(subs@, i as int),
        decreases n - i,
    {
        let ghost s = subs@;
        let mut j: usize = i;
        while j + 1 < n && close_together(subs[j].return_time, subs[j + 1].return_time)
            invariant
                i <= j < n,
                n == subs@.len(),
                s == subs@,
                first_run_end(s, i as int) == first_run_end(s, j as int),
            decreases n - j,
        {
            proof {
                assert(first_run_end(s, j as int) == first_run_end(s, j as int + 1));
            }
            j += 1;
        }
        proof {
            assert(first_run_end(s, j as int) == j + 1);
        }
        let g = AlertGroup {
            representative: subs[i].duplicate(),
            member_count: j + 1 - i,
            first_return_time: subs[i].return_time,
        };
        let ghost old_groups = groups@;
        groups.push(g);
        proof {
            let e = j as int + 1;
            assert(groups_from(s, i as int) =~= seq![
                AlertGroup {
                    representative: s[i as int],
                    member_count: (e - i as int) as usize,
                    first_return_time: s[i as int].return_time,
                },
            ] + groups_from(s, e));
            assert(g == AlertGroup {
                representative: s[i as int],
                member_count: (e - i as int) as usize,
                first_return_time: s[i as int].return_time,
            });
            assert(old_groups + groups_from(s, i as int) =~= groups@ + groups_from(s, e));
        }
        i = j + 1;
    }
    proof {
        assert(groups_from(subs@, i as int) =~= Seq::empty());
        assert(groups@ =~= groups@ + groups_from(subs@, i as int));
    }
    groups
}

} // verus!
