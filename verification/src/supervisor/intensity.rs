//! How often a supervisor may restart its children.
use crate::time::Duration;
use vstd::prelude::*;

verus! {

/// Selects the times that lie less than `max_seconds` before `now`.
pub open spec fn within(now: Duration, max_seconds: u32) -> spec_fn(Duration) -> bool {
    |t: Duration| t.nanos + max_seconds * 1_000_000_000 > now.nanos
}

/// The restart times that still count at `now`.
pub open spec fn recent(times: Seq<Duration>, now: Duration, max_seconds: u32) -> Seq<Duration> {
    times.filter(within(now, max_seconds))
}

/// Forgets the restarts that no longer count, and notes one more at `now` if
/// the limit is not reached. Times are spans since a common start.
pub fn allow_restart(times: &mut Vec<Duration>, now: Duration, max_restarts: u32, max_seconds: u32)
    -> (r: bool)
    ensures
        r == (recent(old(times)@, now, max_seconds).len() < max_restarts),
        final(times)@ == (if r {
            recent(old(times)@, now, max_seconds).push(now)
        } else {
            recent(old(times)@, now, max_seconds)
        }),
        r == (old(times)@.filter(
            |t: Duration| now.nanos - t.nanos < max_seconds * 1_000_000_000,
        ).len() < max_restarts),
{
    proof {
        restart_counts_for_its_span(times@, now, max_seconds, now);
    }
    let ghost all = times@;
    let ghost keep = within(now, max_seconds);
    let window: u128 = max_seconds as u128 * 1_000_000_000u128;
    let mut kept: Vec<Duration> = Vec::new();
    let mut i: usize = 0;
    proof {
        reveal(Seq::filter);
        assert(kept@ =~= all.take(0).filter(keep));
    }
    while i < times.len()
        invariant
            i <= times.len(),
            times@ == all,
            keep == within(now, max_seconds),
            window == max_seconds * 1_000_000_000,
            kept@ == all.take(i as int).filter(keep),
        decreases times.len() - i,
    {
        let t = times[i];
        proof {
            assert(all.take(i + 1) =~= all.take(i as int).push(t));
            all.take(i as int).lemma_filter_push(t, keep);
        }
        if now.nanos < window || t.nanos > now.nanos - window {
            kept.push(t);
        }
        i += 1;
    }
    assert(all.take(all.len() as int) =~= all);
    if kept.len() < max_restarts as usize {
        kept.push(now);
        *times = kept;
        true
    } else {
        *times = kept;
        false
    }
}

/// A restart is refused exactly when `max_restarts` of the noted ones lie
/// within the last `max_seconds`; never more than that many are noted.
pub proof fn intensity_is_bounded(
    times: Seq<Duration>,
    now: Duration,
    max_restarts: u32,
    max_seconds: u32,
)
    requires
        times.len() <= max_restarts,
    ensures
        recent(times, now, max_seconds).len() <= max_restarts,
        recent(times, now, max_seconds).len() < max_restarts ==> recent(
            times,
            now,
            max_seconds,
        ).push(now).len() <= max_restarts,
{
    times.lemma_filter_len(within(now, max_seconds));
}

proof fn lemma_filter_same(
    times: Seq<Duration>,
    p: spec_fn(Duration) -> bool,
    q: spec_fn(Duration) -> bool,
)
    requires
        forall|t: Duration| #[trigger] p(t) == q(t),
    ensures
        times.filter(p) == times.filter(q),
    decreases times.len(),
{
    reveal(Seq::filter);
    if times.len() > 0 {
        lemma_filter_same(times.drop_last(), p, q);
        assert(p(times.last()) == q(times.last()));
    }
}

/// A restart noted at a time `t` counts at `now` exactly if fewer than
/// `max_seconds` seconds passed from `t` to `now`.
pub proof fn restart_counts_for_its_span(
    times: Seq<Duration>,
    now: Duration,
    max_seconds: u32,
    t: Duration,
)
    ensures
        recent(times, now, max_seconds) == times.filter(
            |t: Duration| now.nanos - t.nanos < max_seconds * 1_000_000_000,
        ),
        recent(times, now, max_seconds).contains(t) <==> times.contains(t) && now.nanos - t.nanos
            < max_seconds * 1_000_000_000,
{
    let p = within(now, max_seconds);
    let kept = recent(times, now, max_seconds);
    lemma_filter_same(
        times,
        p,
        |t: Duration| now.nanos - t.nanos < max_seconds * 1_000_000_000,
    );
    if kept.contains(t) {
        let i = choose|i: int| 0 <= i < kept.len() && kept[i] == t;
        times.lemma_filter_pred(p, i);
        times.lemma_filter_contains_rev(p, t);
    }
    if times.contains(t) && p(t) {
        let i = choose|i: int| 0 <= i < times.len() && times[i] == t;
        times.lemma_filter_contains(p, i);
    }
}

/// What is noted after restarts were asked for at these times, one after the
/// other, with nothing noted at first.
pub open spec fn noted(asks: Seq<Duration>, max_restarts: u32, max_seconds: u32) -> Seq<Duration>
    decreases asks.len(),
{
    if asks.len() == 0 {
        Seq::empty()
    } else {
        let times = recent(
            noted(asks.drop_last(), max_restarts, max_seconds),
            asks.last(),
            max_seconds,
        );
        if times.len() < max_restarts {
            times.push(asks.last())
        } else {
            times
        }
    }
}

/// The restarts that were allowed, of those asked for at these times.
pub open spec fn allowed(asks: Seq<Duration>, max_restarts: u32, max_seconds: u32) -> Seq<Duration>
    decreases asks.len(),
{
    if asks.len() == 0 {
        Seq::empty()
    } else {
        let before = allowed(asks.drop_last(), max_restarts, max_seconds);
        let times = recent(
            noted(asks.drop_last(), max_restarts, max_seconds),
            asks.last(),
            max_seconds,
        );
        if times.len() < max_restarts {
            before.push(asks.last())
        } else {
            before
        }
    }
}

/// Whether the times do not go back.
pub open spec fn in_order(times: Seq<Duration>) -> bool {
    forall|i: int, j: int| 0 <= i <= j < times.len() ==> times[i].nanos <= times[j].nanos
}

/// How many of the times in front no longer count.
spec fn past(times: Seq<Duration>, now: Duration, max_seconds: u32) -> int
    decreases times.len(),
{
    if times.len() > 0 && now.nanos - times[0].nanos >= max_seconds * 1_000_000_000 {
        1 + past(times.drop_first(), now, max_seconds)
    } else {
        0
    }
}

proof fn lemma_recent_is_end(times: Seq<Duration>, now: Duration, max_seconds: u32)
    requires
        in_order(times),
    ensures
        ({
            let d = past(times, now, max_seconds);
            &&& 0 <= d <= times.len()
            &&& recent(times, now, max_seconds) == times.skip(d)
            &&& forall|i: int|
                0 <= i < d ==> now.nanos - (#[trigger] times[i]).nanos >= max_seconds
                    * 1_000_000_000
            &&& forall|i: int|
                d <= i < times.len() ==> now.nanos - (#[trigger] times[i]).nanos < max_seconds
                    * 1_000_000_000
        }),
    decreases times.len(),
{
    reveal(Seq::filter);
    let p = within(now, max_seconds);
    if times.len() > 0 {
        let rest = times.drop_first();
        if now.nanos - times[0].nanos >= max_seconds * 1_000_000_000 {
            lemma_recent_is_end(rest, now, max_seconds);
            let d = past(rest, now, max_seconds);
            let first = seq![times[0]];
            assert(times =~= first + rest);
            Seq::filter_distributes_over_add(first, rest, p);
            assert(!p(times[0]));
            assert(first.drop_last() =~= Seq::<Duration>::empty());
            assert(first.drop_last().filter(p) =~= Seq::<Duration>::empty());
            assert(first.filter(p) =~= Seq::<Duration>::empty());
            assert(rest.skip(d) =~= times.skip(d + 1));
            assert forall|i: int| 0 <= i < d + 1 implies now.nanos - (#[trigger] times[i]).nanos
                >= max_seconds * 1_000_000_000 by {
                if i > 0 {
                    assert(rest[i - 1] == times[i]);
                }
            }
            assert forall|i: int| d + 1 <= i < times.len() implies now.nanos - (
            #[trigger] times[i]).nanos < max_seconds * 1_000_000_000 by {
                assert(rest[i - 1] == times[i]);
            }
        } else {
            assert forall|i: int| 0 <= i < times.len() implies p(#[trigger] times[i]) by {}
            lemma_filter_keeps(times, p);
            assert(times.skip(0) =~= times);
        }
    } else {
        assert(times.skip(0) =~= times);
    }
}

proof fn lemma_filter_keeps(times: Seq<Duration>, p: spec_fn(Duration) -> bool)
    requires
        forall|i: int| 0 <= i < times.len() ==> p(#[trigger] times[i]),
    ensures
        times.filter(p) == times,
    decreases times.len(),
{
    reveal(Seq::filter);
    if times.len() > 0 {
        lemma_filter_keeps(times.drop_last(), p);
    }
}

/// Of what was allowed, these many from the front are forgotten.
proof fn lemma_noted(asks: Seq<Duration>, max_restarts: u32, max_seconds: u32) -> (d: int)
    requires
        in_order(asks),
    ensures
        ({
            let all = allowed(asks, max_restarts, max_seconds);
            &&& 0 <= d <= all.len()
            &&& noted(asks, max_restarts, max_seconds) == all.skip(d)
            &&& in_order(all)
            &&& all.len() > 0 ==> asks.len() > 0 && all.last().nanos <= asks.last().nanos
            &&& forall|i: int|
                0 <= i < d ==> asks.len() > 0 && asks.last().nanos - (#[trigger] all[i]).nanos
                    >= max_seconds * 1_000_000_000
        }),
    decreases asks.len(),
{
    if asks.len() == 0 {
        assert(allowed(asks, max_restarts, max_seconds).skip(0) =~= Seq::empty());
        0
    } else {
        let before = asks.drop_last();
        let now = asks.last();
        let all = allowed(before, max_restarts, max_seconds);
        let d = lemma_noted(before, max_restarts, max_seconds);
        if before.len() > 0 {
            assert(before.last() == asks[asks.len() - 2]);
            assert(before.last().nanos <= now.nanos);
        }
        let kept = noted(before, max_restarts, max_seconds);
        assert(in_order(kept));
        lemma_recent_is_end(kept, now, max_seconds);
        let more = past(kept, now, max_seconds);
        assert(kept.skip(more) =~= all.skip(d + more));
        let after = allowed(asks, max_restarts, max_seconds);
        assert forall|i: int| 0 <= i < d + more implies now.nanos - (#[trigger] after[i]).nanos
            >= max_seconds * 1_000_000_000 by {
            assert(after[i] == all[i]);
            if i >= d {
                assert(kept[i - d] == all[i]);
            }
        }
        assert(noted(asks, max_restarts, max_seconds) =~= after.skip(d + more));
        d + more
    }
}

/// With restarts asked for one after the other, the next one is allowed exactly if
/// fewer than `max_restarts` were allowed in the `max_seconds` seconds before it.
pub proof fn next_restart_is_allowed_within_limit(
    asks: Seq<Duration>,
    now: Duration,
    max_restarts: u32,
    max_seconds: u32,
)
    requires
        in_order(asks.push(now)),
    ensures
        ({
            let before = allowed(asks, max_restarts, max_seconds);
            let after = allowed(asks.push(now), max_restarts, max_seconds);
            if max_restarts > 0 && (before.len() < max_restarts || now.nanos - before[before.len()
                - max_restarts].nanos >= max_seconds * 1_000_000_000) {
                after == before.push(now)
            } else {
                after == before
            }
        }),
{
    let more = asks.push(now);
    assert(more.drop_last() =~= asks);
    assert forall|i: int, j: int| 0 <= i <= j < asks.len() implies asks[i].nanos
        <= asks[j].nanos by {
        assert(more[i] == asks[i] && more[j] == asks[j]);
    }
    if asks.len() > 0 {
        assert(more[asks.len() - 1].nanos <= more[asks.len() as int].nanos);
    }
    let before = allowed(asks, max_restarts, max_seconds);
    let kept = noted(asks, max_restarts, max_seconds);
    let d = lemma_noted(asks, max_restarts, max_seconds);
    assert(in_order(kept));
    lemma_recent_is_end(kept, now, max_seconds);
    let past = past(kept, now, max_seconds);
    if max_restarts > 0 && before.len() >= max_restarts {
        let i = before.len() - max_restarts;
        if i >= d {
            assert(kept[i - d] == before[i]);
        }
    }
}

/// At most `max_restarts` restarts are allowed in any span of `max_seconds`
/// seconds: of any that many and one more in a row, the last comes at least
/// `max_seconds` seconds after the first.
pub proof fn no_span_has_too_many_restarts(
    asks: Seq<Duration>,
    max_restarts: u32,
    max_seconds: u32,
    i: int,
)
    requires
        in_order(asks),
        0 <= i,
        i + max_restarts < allowed(asks, max_restarts, max_seconds).len(),
    ensures
        max_restarts > 0,
        ({
            let times = allowed(asks, max_restarts, max_seconds);
            times[i + max_restarts].nanos - times[i].nanos >= max_seconds * 1_000_000_000
        }),
    decreases asks.len(),
{
    let before = asks.drop_last();
    assert(before.push(asks.last()) =~= asks);
    next_restart_is_allowed_within_limit(before, asks.last(), max_restarts, max_seconds);
    let times = allowed(before, max_restarts, max_seconds);
    if i + max_restarts < times.len() {
        no_span_has_too_many_restarts(before, max_restarts, max_seconds, i);
    }
}

} // verus!
