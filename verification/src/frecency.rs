//! Frecency: ranks items by how often and how recently they were launched.

use vstd::prelude::*;

verus! {

/// Nanoseconds in one second.
pub const NANOS_PER_SEC: u64 = 1_000_000_000;

/// Seconds in one hour.
pub const SECS_PER_HOUR: u64 = 3600;

/// The weight that a launch `elapsed_secs` seconds ago contributes, by bucket:
/// last 4 hours, last day, last 3 days, last week, last month (30 days), older.
pub open spec fn weight_spec(elapsed_secs: int) -> nat {
    if elapsed_secs < 4 * 3600 {
        100
    } else if elapsed_secs < 24 * 3600 {
        70
    } else if elapsed_secs < 72 * 3600 {
        50
    } else if elapsed_secs < 168 * 3600 {
        30
    } else if elapsed_secs < 720 * 3600 {
        10
    } else {
        5
    }
}

/// Scores items by their launch history.
pub struct FrecencyScorer;

impl FrecencyScorer {
    /// Weight of a launch that happened `elapsed_secs` whole seconds ago.
    /// More recent launches weigh more.
    pub fn time_weight(elapsed_secs: u64) -> (w: u64)
        ensures
            w == weight_spec(elapsed_secs as int),
            elapsed_secs < 4 * 3600 ==> w == 100,
            4 * 3600 <= elapsed_secs < 24 * 3600 ==> w == 70,
            24 * 3600 <= elapsed_secs < 72 * 3600 ==> w == 50,
            72 * 3600 <= elapsed_secs < 168 * 3600 ==> w == 30,
            168 * 3600 <= elapsed_secs < 720 * 3600 ==> w == 10,
            720 * 3600 <= elapsed_secs ==> w == 5,
    {
        if elapsed_secs < 4 * SECS_PER_HOUR {
            100
        } else if elapsed_secs < 24 * SECS_PER_HOUR {
            70
        } else if elapsed_secs < 72 * SECS_PER_HOUR {
            50
        } else if elapsed_secs < 168 * SECS_PER_HOUR {
            30
        } else if elapsed_secs < 720 * SECS_PER_HOUR {
            10
        } else {
            5
        }
    }
}

/// A point in time, as a signed distance from the UNIX epoch: `before_epoch`
/// tells the side, `secs` and `nanos` the distance.
#[derive(Clone, Copy, Debug)]
pub struct Timestamp {
    pub before_epoch: bool,
    pub secs: u64,
    pub nanos: u32,
}

impl Timestamp {
    /// Signed nanoseconds since the UNIX epoch.
    pub open spec fn nanos_since_epoch(self) -> int {
        let distance = self.secs * NANOS_PER_SEC + self.nanos;
        if self.before_epoch {
            -distance
        } else {
            distance
        }
    }

    /// Signed nanoseconds since the UNIX epoch.
    pub fn to_nanos(&self) -> (n: i128)
        ensures
            n == self.nanos_since_epoch(),
            !self.before_epoch ==> n == self.secs * 1_000_000_000 + self.nanos,
            self.before_epoch ==> n == -(self.secs * 1_000_000_000 + self.nanos),
    {
        assert(self.secs * NANOS_PER_SEC <= u64::MAX * NANOS_PER_SEC) by (nonlinear_arith);
        let distance: i128 = (self.secs as i128) * (NANOS_PER_SEC as i128) + (self.nanos as i128);
        if self.before_epoch {
            -distance
        } else {
            distance
        }
    }
}

/// Represents a single launch event
#[derive(Clone, Copy, Debug)]
pub struct LaunchEvent {
    pub timestamp: Timestamp,
}

/// What one launch at `then` adds to the score at `now`: nothing when it lies
/// in the future of `now`, else the weight of its whole elapsed seconds.
pub open spec fn launch_weight_spec(now: Timestamp, then: Timestamp) -> nat {
    let elapsed = now.nanos_since_epoch() - then.nanos_since_epoch();
    if elapsed < 0 {
        0
    } else {
        weight_spec(elapsed / (NANOS_PER_SEC as int))
    }
}

/// The frecency score at `now` of a launch history: the sum of the weights of
/// its launches.
pub open spec fn score_spec(launches: Seq<LaunchEvent>, now: Timestamp) -> nat
    decreases launches.len(),
{
    if launches.len() == 0 {
        0
    } else {
        score_spec(launches.drop_last(), now) + launch_weight_spec(now, launches.last().timestamp)
    }
}

/// Every bucket weight lies between 5 and 100.
pub proof fn lemma_weight_bounds(elapsed_secs: int)
    ensures
        5 <= weight_spec(elapsed_secs) <= 100,
{
}

/// A score never exceeds 100 per launch.
pub proof fn lemma_score_bound(launches: Seq<LaunchEvent>, now: Timestamp)
    ensures
        score_spec(launches, now) <= 100 * launches.len(),
    decreases launches.len(),
{
    if launches.len() > 0 {
        lemma_score_bound(launches.drop_last(), now);
    }
}

/// More recent means higher weight: a launch that happened earlier never
/// weighs more than one that happened later.
pub proof fn law_weight_decreases_with_age(newer_secs: int, older_secs: int)
    requires
        newer_secs <= older_secs,
    ensures
        weight_spec(older_secs) <= weight_spec(newer_secs),
{
}

/// The score of two launch histories put together is the sum of their scores:
/// each launch counts on its own, whatever comes before or after it.
pub proof fn law_score_is_additive(first: Seq<LaunchEvent>, second: Seq<LaunchEvent>, now: Timestamp)
    ensures
        score_spec(first + second, now) == score_spec(first, now) + score_spec(second, now),
    decreases second.len(),
{
    if second.len() == 0 {
        assert(first + second =~= first);
    } else {
        assert((first + second).drop_last() =~= first + second.drop_last());
        law_score_is_additive(first, second.drop_last(), now);
    }
}

/// Scores decay with time: for a history whose launches all lie at or before
/// `earlier`, the score at a later time is never higher.
pub proof fn law_score_decays(launches: Seq<LaunchEvent>, earlier: Timestamp, later: Timestamp)
    requires
        earlier.nanos_since_epoch() <= later.nanos_since_epoch(),
        forall|i: int|
            0 <= i < launches.len() ==> #[trigger] launches[i].timestamp.nanos_since_epoch()
                <= earlier.nanos_since_epoch(),
    ensures
        score_spec(launches, later) <= score_spec(launches, earlier),
    decreases launches.len(),
{
    if launches.len() > 0 {
        let t = launches.last().timestamp;
        assert(t.nanos_since_epoch() <= earlier.nanos_since_epoch());
        let e1 = earlier.nanos_since_epoch() - t.nanos_since_epoch();
        let e2 = later.nanos_since_epoch() - t.nanos_since_epoch();
        assert(e1 / (NANOS_PER_SEC as int) <= e2 / (NANOS_PER_SEC as int)) by (nonlinear_arith)
            requires
                0 <= e1 <= e2,
        ;
        law_weight_decreases_with_age(e1 / (NANOS_PER_SEC as int), e2 / (NANOS_PER_SEC as int));
        law_score_decays(launches.drop_last(), earlier, later);
    }
}

/// Every score is a multiple of 5: each bucket weight is.
pub proof fn law_score_is_multiple_of_five(launches: Seq<LaunchEvent>, now: Timestamp)
    ensures
        score_spec(launches, now) % 5 == 0,
    decreases launches.len(),
{
    if launches.len() > 0 {
        law_score_is_multiple_of_five(launches.drop_last(), now);
    }
}

/// Taking one launch out of a history lowers its score by that launch's weight.
proof fn lemma_score_remove(launches: Seq<LaunchEvent>, i: int, now: Timestamp)
    requires
        0 <= i < launches.len(),
    ensures
        score_spec(launches, now) == score_spec(launches.remove(i), now) + launch_weight_spec(
            now,
            launches[i].timestamp,
        ),
{
    let front = launches.take(i);
    let one = seq![launches[i]];
    let back = launches.skip(i + 1);
    assert(launches =~= front + one + back);
    assert(launches.remove(i) =~= front + back);
    law_score_is_additive(front + one, back, now);
    law_score_is_additive(front, one, now);
    law_score_is_additive(front, back, now);
    assert(one.drop_last() =~= Seq::<LaunchEvent>::empty());
    assert(score_spec(one.drop_last(), now) == 0);
    assert(one.last() == launches[i]);
    assert(score_spec(one, now) == launch_weight_spec(now, launches[i].timestamp));
}

/// The score does not depend on the order of the launches: two histories
/// holding the same launches, as many times each, score alike.
pub proof fn law_score_ignores_order(first: Seq<LaunchEvent>, second: Seq<LaunchEvent>, now: Timestamp)
    requires
        first.to_multiset() == second.to_multiset(),
    ensures
        score_spec(first, now) == score_spec(second, now),
    decreases first.len(),
{
    broadcast use vstd::seq_lib::group_to_multiset_ensures;
    broadcast use vstd::multiset::group_multiset_axioms;

    if first.len() == 0 {
        assert(second.to_multiset().len() == 0);
        assert(second =~= Seq::<LaunchEvent>::empty());
    } else {
        let x = first.last();
        let rest = first.drop_last();
        assert(first =~= rest.push(x));
        assert(first.to_multiset() == rest.to_multiset().insert(x));
        assert(second.to_multiset().count(x) > 0);
        assert(second.contains(x));
        let j = choose|j: int| 0 <= j < second.len() && second[j] == x;
        let other = second.remove(j);
        assert(other.to_multiset() == second.to_multiset().remove(x));
        assert(other.to_multiset() =~= rest.to_multiset());
        law_score_ignores_order(rest, other, now);
        lemma_score_remove(second, j, now);
    }
}

/// The bucket table: a launch less than 4 hours old weighs 100, less than a
/// day 70, less than 3 days 50, less than a week 30, less than 30 days 10,
/// and any older launch 5.
pub proof fn law_weight_table(elapsed_secs: int)
    requires
        0 <= elapsed_secs,
    ensures
        elapsed_secs < 4 * 3600 ==> weight_spec(elapsed_secs) == 100,
        4 * 3600 <= elapsed_secs < 24 * 3600 ==> weight_spec(elapsed_secs) == 70,
        24 * 3600 <= elapsed_secs < 72 * 3600 ==> weight_spec(elapsed_secs) == 50,
        72 * 3600 <= elapsed_secs < 168 * 3600 ==> weight_spec(elapsed_secs) == 30,
        168 * 3600 <= elapsed_secs < 720 * 3600 ==> weight_spec(elapsed_secs) == 10,
        720 * 3600 <= elapsed_secs ==> weight_spec(elapsed_secs) == 5,
{
}

/// What one launch adds to the score, by its age measured exactly in
/// nanoseconds: nothing when it lies in the future; 100 when less than 4 hours
/// old; 70 when less than a day; 50 when less than 3 days; 30 when less than a
/// week; 10 when less than 30 days; 5 when older.
pub proof fn law_launch_weight_table(now: Timestamp, then: Timestamp)
    ensures
        ({
            let e = now.nanos_since_epoch() - then.nanos_since_epoch();
            let h = 3600 * 1_000_000_000int;
            &&& e < 0 ==> launch_weight_spec(now, then) == 0
            &&& 0 <= e < 4 * h ==> launch_weight_spec(now, then) == 100
            &&& 4 * h <= e < 24 * h ==> launch_weight_spec(now, then) == 70
            &&& 24 * h <= e < 72 * h ==> launch_weight_spec(now, then) == 50
            &&& 72 * h <= e < 168 * h ==> launch_weight_spec(now, then) == 30
            &&& 168 * h <= e < 720 * h ==> launch_weight_spec(now, then) == 10
            &&& 720 * h <= e ==> launch_weight_spec(now, then) == 5
        }),
{
    let e = now.nanos_since_epoch() - then.nanos_since_epoch();
    if e >= 0 {
        let secs = e / (NANOS_PER_SEC as int);
        assert(secs * 1_000_000_000int <= e < (secs + 1) * 1_000_000_000int) by (nonlinear_arith)
            requires
                secs == e / 1_000_000_000int,
                0 <= e,
        ;
        assert(0 <= secs);
        law_weight_table(secs);
    }
}

/// An empty history scores 0.
pub proof fn law_empty_history_scores_zero(now: Timestamp)
    ensures
        score_spec(Seq::<LaunchEvent>::empty(), now) == 0,
{
}

/// A history of one launch scores that launch's weight.
pub proof fn law_score_of_one_launch(launch: LaunchEvent, now: Timestamp)
    ensures
        score_spec(seq![launch], now) == launch_weight_spec(now, launch.timestamp),
{
    let one = seq![launch];
    assert(one.drop_last() =~= Seq::<LaunchEvent>::empty());
    assert(score_spec(one.drop_last(), now) == 0);
    assert(one.last() == launch);
}

/// Launches in the future of `now` add nothing to the score at `now`.
pub proof fn law_future_launches_are_skipped(launches: Seq<LaunchEvent>, future: LaunchEvent, now: Timestamp)
    requires
        now.nanos_since_epoch() < future.timestamp.nanos_since_epoch(),
    ensures
        score_spec(launches.push(future), now) == score_spec(launches, now),
{
    assert(launches.push(future).drop_last() =~= launches);
}

impl FrecencyScorer {
    /// The weight that one launch at `then` adds to the score at `now`.
    fn launch_weight(now: &Timestamp, then: &Timestamp) -> (w: u64)
        ensures
            w == launch_weight_spec(*now, *then),
    {
        let elapsed: i128 = now.to_nanos() - then.to_nanos();
        if elapsed < 0 {
            0
        } else {
            let secs: i128 = elapsed / (NANOS_PER_SEC as i128);
            if secs >= (720 * SECS_PER_HOUR) as i128 {
                5
            } else {
                Self::time_weight(secs as u64)
            }
        }
    }

    /// Calculates the frecency score at `now` of an item from its launch
    /// history. Recent launches weigh more; launches that lie in the future of
    /// `now` (the clock moved back) are skipped.
    pub fn score_launches(launches: &Vec<LaunchEvent>, now: &Timestamp) -> (score: u128)
        ensures
            score == score_spec(launches@, *now),
    {
        let mut score: u128 = 0;
        let mut i: usize = 0;
        while i < launches.len()
            invariant
                i <= launches.len(),
                score == score_spec(launches@.take(i as int), *now),
            decreases launches.len() - i,
        {
            proof {
                lemma_score_bound(launches@.take(i as int), *now);
                assert(launches@.take(i + 1).drop_last() =~= launches@.take(i as int));
            }
            let w = Self::launch_weight(now, &launches[i].timestamp);
            score = score + w as u128;
            i = i + 1;
        }
        assert(launches@.take(i as int) =~= launches@);
        score
    }
}

} // verus!
