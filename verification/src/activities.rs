//! The log of work periods and what it adds up to.
//!
//! Moments are nanoseconds since the UNIX epoch and spans are nanoseconds,
//! both as `u128`.

use vstd::prelude::*;

verus! {

/// One period of work. It runs from `start` until `end`; while it is still
/// going on, `end` is `None`.
#[derive(Clone, Copy, Debug, PartialEq, Eq)]
pub struct Activity {
    pub start: u128,
    pub end: Option<u128>,
}

/// The work periods of the day, oldest first.
pub struct Activities {
    pub list: Vec<Activity>,
}

impl View for Activities {
    type V = Seq<Activity>;

    open spec fn view(&self) -> Seq<Activity> {
        self.list@
    }
}

impl Default for Activities {
    fn default() -> (r: Self)
        ensures
            r@ == Seq::<Activity>::empty(),
    {
        Activities { list: Vec::new() }
    }
}

/// A period that has not started yet, opened at `time`.
pub open spec fn opened(time: u128) -> Activity {
    Activity { start: time, end: None }
}

/// Work is going on: the latest period has not ended.
pub open spec fn running(s: Seq<Activity>) -> bool {
    s.len() > 0 && s.last().end is None
}

/// The log after a switch at `time`: a running period ends at `time`;
/// otherwise a new one starts at `time`.
pub open spec fn switched(s: Seq<Activity>, time: u128) -> Seq<Activity> {
    if running(s) {
        s.update(s.len() - 1, Activity { start: s.last().start, end: Some(time) })
    } else {
        s.push(opened(time))
    }
}

/// The moment up to which `a` counts at `time`: its end, or `time` while it runs.
pub open spec fn finish(a: Activity, time: u128) -> u128 {
    match a.end {
        Some(e) => e,
        None => time,
    }
}

/// Nothing in the log goes backwards when it is read at `time`: every period
/// starts no later than it finishes, starts no earlier than the end of the one
/// before it, and the last end is no later than `time`.
pub open spec fn chronological(s: Seq<Activity>, time: u128) -> bool {
    &&& forall|i: int| 0 <= i < s.len() ==> #[trigger] s[i].start <= finish(s[i], time)
    &&& forall|i: int|
        0 < i < s.len() ==> (s[i - 1].end matches Some(e) ==> e <= #[trigger] s[i].start)
    &&& s.len() > 0 ==> (s.last().end matches Some(e) ==> e <= time)
}

/// The periods that start at `point` or later.
pub open spec fn starting_from(s: Seq<Activity>, point: u128) -> Seq<Activity> {
    s.filter(|a: Activity| a.start >= point)
}

impl Activities {
    /// Drops every period that started before `point`, keeping the others in order.
    pub fn truncate_until(&mut self, point: u128)
        ensures
            final(self)@ == starting_from(old(self)@, point),
    {
        let ghost pred = |a: Activity| a.start >= point;
        let mut kept: Vec<Activity> = Vec::new();
        let n = self.list.len();
        let mut i: usize = 0;
        while i < n
            invariant
                n == self.list.len(),
                i <= n,
                pred == (|a: Activity| a.start >= point),
                kept@ == self.list@.take(i as int).filter(pred),
            decreases n - i,
        {
            let a = self.list[i];
            proof {
                let t = self.list@.take(i + 1);
                assert(t.drop_last() =~= self.list@.take(i as int));
                assert(t.last() == a);
                assert(pred(a) ==> t.filter(pred) == self.list@.take(i as int).filter(pred).push(a))
                    by {
                    reveal(Seq::filter);
                }
                assert(!pred(a) ==> t.filter(pred) == self.list@.take(i as int).filter(pred)) by {
                    reveal(Seq::filter);
                }
            }
            if a.start >= point {
                kept.push(a);
            }
            i = i + 1;
        }
        proof {
            assert(self.list@.take(n as int) =~= self.list@);
        }
        self.list = kept;
    }

    /// Switches between work and rest at `time`: ends the running period at
    /// `time`, or starts a new one there.
    pub fn switch(&mut self, time: u128)
        ensures
            final(self)@ == switched(old(self)@, time),
    {
        let n = self.list.len();
        if n > 0 && self.list[n - 1].end.is_none() {
            let start = self.list[n - 1].start;
            self.list.set(n - 1, Activity { start, end: Some(time) });
        } else {
            self.list.push(Activity { start: time, end: None });
        }
    }
}

/// A switch turns work into rest and rest into work.
pub proof fn switch_toggles_work(s: Seq<Activity>, time: u128)
    ensures
        running(switched(s, time)) == !running(s),
{
}

/// Two switches from rest, at `t1` and then `t2`, record one period of work
/// from `t1` to `t2`.
pub proof fn switch_twice_records_period(s: Seq<Activity>, t1: u128, t2: u128)
    requires
        !running(s),
    ensures
        switched(switched(s, t1), t2) == s.push(Activity { start: t1, end: Some(t2) }),
{
    assert(switched(switched(s, t1), t2) =~= s.push(Activity { start: t1, end: Some(t2) }));
}

/// A log that reads forward at `t1` still does at any later `t2`.
pub proof fn chronological_later(s: Seq<Activity>, t1: u128, t2: u128)
    requires
        chronological(s, t1),
        t1 <= t2,
    ensures
        chronological(s, t2),
{
    assert forall|i: int| 0 <= i < s.len() implies #[trigger] s[i].start <= finish(s[i], t2) by {
        assert(s[i].start <= finish(s[i], t1));
    }
}

/// A switch at `time` keeps a log that reads forward at `time` reading forward
/// at `time` and any later moment.
pub proof fn switch_keeps_chronological(s: Seq<Activity>, time: u128, later: u128)
    requires
        chronological(s, time),
        time <= later,
    ensures
        chronological(switched(s, time), later),
{
    let n = s.len();
    let r = switched(s, time);
    if running(s) {
        assert forall|i: int| 0 <= i < r.len() implies #[trigger] r[i].start <= finish(r[i], later) by {
            assert(s[i].start <= finish(s[i], time));
        }
        assert forall|i: int| 0 < i < r.len() implies (r[i - 1].end matches Some(e) ==> e
            <= #[trigger] r[i].start) by {
            assert(s[i].start == r[i].start);
            if i - 1 < n - 1 {
                assert(r[i - 1] == s[i - 1]);
            }
        }
    } else {
        assert forall|i: int| 0 <= i < r.len() implies #[trigger] r[i].start <= finish(r[i], later) by {
            if i < n {
                assert(s[i].start <= finish(s[i], time));
            }
        }
        assert forall|i: int| 0 < i < r.len() implies (r[i - 1].end matches Some(e) ==> e
            <= #[trigger] r[i].start) by {
            if i < n {
                assert(s[i].start == r[i].start);
            } else {
                assert(r[i - 1] == s.last());
            }
        }
    }
}

proof fn lemma_chronological_drop_last(s: Seq<Activity>, time: u128)
    requires
        chronological(s, time),
        s.len() > 0,
    ensures
        chronological(s.drop_last(), time),
{
    let d = s.drop_last();
    let n = s.len();
    assert forall|i: int| 0 <= i < d.len() implies #[trigger] d[i].start <= finish(d[i], time) by {
        assert(s[i].start <= finish(s[i], time));
    }
    assert forall|i: int| 0 < i < d.len() implies (d[i - 1].end matches Some(e) ==> e
        <= #[trigger] d[i].start) by {
        assert(s[i].start == d[i].start);
    }
    if d.len() > 0 {
        assert(s[n - 1].start <= finish(s[n - 1], time));
        assert(s[n - 1].start == s.last().start);
    }
}

proof fn lemma_filter_step(s: Seq<Activity>, point: u128)
    requires
        s.len() > 0,
    ensures
        starting_from(s, point) == if s.last().start >= point {
            starting_from(s.drop_last(), point).push(s.last())
        } else {
            starting_from(s.drop_last(), point)
        },
{
    reveal(Seq::filter);
}

/// Where what is kept of a log that reads forward ends in an ended period, that
/// period is the last one of the log.
proof fn lemma_kept_last_ended(s: Seq<Activity>, point: u128, time: u128)
    requires
        chronological(s, time),
        starting_from(s, point).len() > 0,
        starting_from(s, point).last().end is Some,
    ensures
        s.len() > 0,
        s.last().start >= point,
    decreases s.len(),
{
    if s.len() == 0 {
        reveal(Seq::filter);
    } else {
        lemma_filter_step(s, point);
        if s.last().start < point {
            lemma_chronological_drop_last(s, time);
            lemma_kept_last_ended(s.drop_last(), point, time);
            lemma_filter_step(s.drop_last(), point);
            let n = s.len();
            assert(s.drop_last().last() == s[n - 2]);
            assert(s[n - 2].start <= finish(s[n - 2], time));
            assert(s[n - 1].start == s.last().start);
        }
    }
}

/// Dropping the periods that started before `point` keeps a log reading
/// forward at `time`.
pub proof fn truncate_keeps_chronological(s: Seq<Activity>, point: u128, time: u128)
    requires
        chronological(s, time),
    ensures
        chronological(starting_from(s, point), time),
    decreases s.len(),
{
    if s.len() == 0 {
        reveal(Seq::filter);
    } else {
        let d = s.drop_last();
        let n = s.len();
        lemma_chronological_drop_last(s, time);
        truncate_keeps_chronological(d, point, time);
        lemma_filter_step(s, point);
        if s.last().start >= point {
            let fd = starting_from(d, point);
            let f = fd.push(s.last());
            assert(s[n - 1] == s.last());
            assert forall|i: int| 0 <= i < f.len() implies #[trigger] f[i].start <= finish(
                f[i],
                time,
            ) by {
                if i < fd.len() {
                    assert(fd[i] == f[i]);
                } else {
                    assert(s[n - 1].start <= finish(s[n - 1], time));
                }
            }
            assert forall|i: int| 0 < i < f.len() implies (f[i - 1].end matches Some(e) ==> e
                <= #[trigger] f[i].start) by {
                if i < fd.len() {
                    assert(fd[i] == f[i]);
                    assert(fd[i - 1] == f[i - 1]);
                } else if fd[i - 1].end is Some {
                    assert(fd.last() == fd[i - 1]);
                    lemma_kept_last_ended(d, point, time);
                    lemma_filter_step(d, point);
                    assert(d.last() == s[n - 2]);
                    assert(s[n - 1].start == f[i].start);
                }
            }
        }
    }
}

/// Dropping the periods that started before `point` a second time drops nothing more.
pub proof fn truncate_twice_is_truncate_once(s: Seq<Activity>, point: u128)
    ensures
        starting_from(starting_from(s, point), point) == starting_from(s, point),
    decreases s.len(),
{
    let f = starting_from(s, point);
    if s.len() == 0 {
        reveal(Seq::filter);
        assert(f =~= s);
    } else {
        truncate_twice_is_truncate_once(s.drop_last(), point);
        lemma_filter_step(s, point);
        let fd = starting_from(s.drop_last(), point);
        if s.last().start >= point {
            lemma_filter_step(fd.push(s.last()), point);
            assert(fd.push(s.last()).drop_last() =~= fd);
        }
    }
}

/// Dropping the periods that started before `point` keeps every period that
/// starts at `point` or later, and only periods of the log that do.
pub proof fn truncate_keeps_exactly_later_periods(s: Seq<Activity>, point: u128)
    ensures
        forall|i: int|
            0 <= i < s.len() && s[i].start >= point ==> starting_from(s, point).contains(
                #[trigger] s[i],
            ),
        forall|i: int|
            0 <= i < starting_from(s, point).len() ==> (#[trigger] starting_from(s, point)[i]).start
                >= point && s.contains(starting_from(s, point)[i]),
        starting_from(s, point).len() <= s.len(),
{
    broadcast use vstd::seq_lib::group_filter_ensures;

    let pred = |a: Activity| a.start >= point;
    assert forall|i: int|
        0 <= i < starting_from(s, point).len() implies (#[trigger] starting_from(
        s,
        point,
    )[i]).start >= point && s.contains(starting_from(s, point)[i]) by {
        assert(pred(s.filter(pred)[i]));
        assert(s.filter(pred).contains(s.filter(pred)[i]));
        s.lemma_filter_contains_rev(pred, s.filter(pred)[i]);
    }
    assert forall|i: int| 0 <= i < s.len() && s[i].start >= point implies starting_from(
        s,
        point,
    ).contains(#[trigger] s[i]) by {
        assert(pred(s[i]));
    }
}

/// In a log that reads forward at `time` and whose periods have all ended,
/// each period ends no later than any later period starts, and no later than
/// `time`.
pub proof fn ended_periods_follow_each_other(s: Seq<Activity>, time: u128)
    requires
        chronological(s, time),
        forall|i: int| 0 <= i < s.len() ==> (#[trigger] s[i]).end is Some,
    ensures
        forall|i: int, j: int|
            0 <= i < j < s.len() ==> (#[trigger] s[i]).end.unwrap() <= (#[trigger] s[j]).start,
        forall|i: int| 0 <= i < s.len() ==> (#[trigger] s[i]).end.unwrap() <= time,
    decreases s.len(),
{
    let n = s.len();
    if n > 0 {
        let d = s.drop_last();
        lemma_chronological_drop_last(s, time);
        assert forall|i: int| 0 <= i < d.len() implies (#[trigger] d[i]).end is Some by {
            assert(d[i] == s[i]);
        }
        ended_periods_follow_each_other(d, time);
        assert(s[n - 1] == s.last());
        assert(s[n - 1].start <= finish(s[n - 1], time));
        assert forall|i: int, j: int|
            0 <= i < j < s.len() implies (#[trigger] s[i]).end.unwrap() <= (#[trigger] s[j]).start by {
            if j < n - 1 {
                assert(d[i] == s[i] && d[j] == s[j]);
            } else if i < n - 2 {
                assert(d[i] == s[i] && d[n - 2] == s[n - 2]);
                assert(s[n - 2].start <= finish(s[n - 2], time));
                assert(s[n - 2].end.unwrap() <= s[n - 1].start);
            } else {
                assert(s[n - 2].end.unwrap() <= s[n - 1].start);
            }
        }
        assert forall|i: int| 0 <= i < s.len() implies (#[trigger] s[i]).end.unwrap() <= time by {
            if i < n - 1 {
                assert(d[i] == s[i]);
            }
        }
    }
}

} // verus!
