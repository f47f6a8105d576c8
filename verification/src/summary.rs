//! What the log adds up to: the strain, the work of the day and the rest taken.
//!
//! Summing up asks a formula, given as two functions, for the break that a strain
//! calls for and for the strain that a break still owed leaves. The contracts
//! speak of any results these functions may give, so they hold of whatever
//! formula the caller brings.

use vstd::prelude::*;

use crate::activities::{chronological, finish, Activities, Activity};

verus! {

/// The largest span a `std::time::Duration` holds, in nanoseconds.
pub const MAX_SPAN: u128 = 18446744073709551615999999999;

/// `x - y`, or zero where `y` is larger.
pub open spec fn sat_sub(x: int, y: int) -> int {
    if x > y {
        x - y
    } else {
        0
    }
}

/// The smaller of `x` and `y`.
pub open spec fn min_of(x: int, y: int) -> int {
    if x <= y {
        x
    } else {
        y
    }
}

/// What the log adds up to: the end of its last period, the current strain,
/// the work done in all, and the rest taken in all (spans in nanoseconds).
pub struct Tally {
    pub end: Option<u128>,
    pub strain: int,
    pub work: int,
    pub rest: int,
}

/// The tally before any period.
pub open spec fn empty_tally() -> Tally {
    Tally { end: None, strain: 0, work: 0, rest: 0 }
}

/// No total of `t` exceeds `MAX_SPAN`.
pub open spec fn within_span(t: Tally) -> bool {
    &&& t.strain <= MAX_SPAN
    &&& t.work <= MAX_SPAN
    &&& t.rest <= MAX_SPAN
}

/// `f` can be called on any two spans.
pub open spec fn callable<F: Fn(u128, u128) -> u128>(f: F) -> bool {
    forall|x: u128, y: u128| call_requires(f, (x, y))
}

/// Asked for the break that the strain of `t` calls for after the work of `t`,
/// `compute_break` may give `due`; asked then for the strain that the part of
/// `due` not covered by a rest of `taken` leaves, `compute_strain` may give `left`.
pub open spec fn may_give<B: Fn(u128, u128) -> u128, S: Fn(u128, u128) -> u128>(
    compute_break: B,
    compute_strain: S,
    t: Tally,
    taken: int,
    due: u128,
    left: u128,
) -> bool {
    &&& call_ensures(compute_break, (t.strain as u128, t.work as u128), due)
    &&& call_ensures(compute_strain, (sat_sub(due as int, taken) as u128, t.work as u128), left)
}

/// The tally after one more period `a`, read at `time`. Where a gap follows an
/// ended period, `due` is the break that was due and `left` the strain that the
/// part of it not taken leaves: the strain becomes `left` and the rest grows by
/// the gap, at most by `due`. Then the work of `a` adds to the strain and the work.
pub open spec fn advance(t: Tally, a: Activity, time: u128, due: u128, left: u128) -> Tally {
    let (strain, rest) = match t.end {
        Some(p) => (left as int, t.rest + min_of(due as int, a.start - p)),
        None => (t.strain, t.rest),
    };
    let work = finish(a, time) - a.start;
    Tally { end: a.end, strain: strain + work, work: t.work + work, rest }
}

/// From `t`, the period `a` may lead to `next`.
pub open spec fn may_step<B: Fn(u128, u128) -> u128, S: Fn(u128, u128) -> u128>(
    compute_break: B,
    compute_strain: S,
    t: Tally,
    a: Activity,
    time: u128,
    next: Tally,
) -> bool {
    match t.end {
        Some(p) => exists|due: u128, left: u128|
            #[trigger] may_give(compute_break, compute_strain, t, a.start - p, due, left) && next
                == advance(t, a, time, due, left),
        None => next == advance(t, a, time, 0, 0),
    }
}

/// The periods of `s`, in order, may add up to `t` at `time`.
pub open spec fn may_tally<B: Fn(u128, u128) -> u128, S: Fn(u128, u128) -> u128>(
    compute_break: B,
    compute_strain: S,
    s: Seq<Activity>,
    time: u128,
    t: Tally,
) -> bool
    decreases s.len(),
{
    if s.len() == 0 {
        t == empty_tally()
    } else {
        exists|prev: Tally|
            may_tally(compute_break, compute_strain, s.drop_last(), time, prev) && #[trigger] may_step(
                compute_break,
                compute_strain,
                prev,
                s.last(),
                time,
                t,
            )
    }
}

/// From the tally `t`, summing up at `time` may end with `out`: where the last
/// period has ended, the break since then counts as a gap before `time`.
pub open spec fn may_close<B: Fn(u128, u128) -> u128, S: Fn(u128, u128) -> u128>(
    compute_break: B,
    compute_strain: S,
    t: Tally,
    time: u128,
    out: Tally,
) -> bool {
    match t.end {
        Some(e) => exists|due: u128, left: u128|
            #[trigger] may_give(compute_break, compute_strain, t, time - e, due, left) && out
                == (Tally {
                end: t.end,
                strain: left as int,
                work: t.work,
                rest: t.rest + min_of(due as int, time - e),
            }),
        None => out == t,
    }
}

/// Summing up the log `s` at `time` may give `out`.
pub open spec fn may_summarize<B: Fn(u128, u128) -> u128, S: Fn(u128, u128) -> u128>(
    compute_break: B,
    compute_strain: S,
    s: Seq<Activity>,
    time: u128,
    out: Tally,
) -> bool {
    exists|t: Tally|
        #[trigger] may_tally(compute_break, compute_strain, s, time, t) && may_close(
            compute_break,
            compute_strain,
            t,
            time,
            out,
        )
}

/// Going on from `t` through the periods `rest` and closing at `time` keeps every
/// total within `MAX_SPAN`, whatever the formula gives.
pub open spec fn safe_from<B: Fn(u128, u128) -> u128, S: Fn(u128, u128) -> u128>(
    compute_break: B,
    compute_strain: S,
    t: Tally,
    rest: Seq<Activity>,
    time: u128,
) -> bool
    decreases rest.len(),
{
    if rest.len() == 0 {
        forall|out: Tally|
            #[trigger] may_close(compute_break, compute_strain, t, time, out) ==> out.rest
                <= MAX_SPAN
    } else {
        forall|next: Tally|
            #[trigger] may_step(compute_break, compute_strain, t, rest[0], time, next) ==> {
                &&& within_span(next)
                &&& safe_from(compute_break, compute_strain, next, rest.drop_first(), time)
            }
    }
}

/// Summing up the log `s` at `time` keeps every total within `MAX_SPAN`,
/// whatever the formula gives.
pub open spec fn summary_safe<B: Fn(u128, u128) -> u128, S: Fn(u128, u128) -> u128>(
    compute_break: B,
    compute_strain: S,
    s: Seq<Activity>,
    time: u128,
) -> bool {
    safe_from(compute_break, compute_strain, empty_tally(), s, time)
}

/// The tally of the returned values of `summary`.
pub open spec fn tally_of(r: (Option<u128>, u128, u128, u128)) -> Tally {
    Tally { end: r.0, strain: r.1 as int, work: r.2 as int, rest: r.3 as int }
}

/// A tally of a log ends where its last period ends.
pub(crate) proof fn lemma_tally_end<B: Fn(u128, u128) -> u128, S: Fn(u128, u128) -> u128>(
    compute_break: B,
    compute_strain: S,
    s: Seq<Activity>,
    time: u128,
    t: Tally,
)
    requires
        may_tally(compute_break, compute_strain, s, time, t),
    ensures
        s.len() > 0 ==> t.end == s.last().end,
        s.len() == 0 ==> t == empty_tally(),
{
    if s.len() > 0 {
        let prev = choose|prev: Tally|
            #[trigger] may_tally(compute_break, compute_strain, s.drop_last(), time, prev)
                && may_step(compute_break, compute_strain, prev, s.last(), time, t);
        if prev.end is Some {
            let p = prev.end.unwrap();
            let (due, left) = choose|due: u128, left: u128|
                #[trigger] may_give(compute_break, compute_strain, prev, s.last().start - p, due, left)
                    && t == advance(prev, s.last(), time, due, left);
        }
    }
}

proof fn lemma_tally_push<B: Fn(u128, u128) -> u128, S: Fn(u128, u128) -> u128>(
    compute_break: B,
    compute_strain: S,
    s: Seq<Activity>,
    a: Activity,
    time: u128,
    prev: Tally,
    next: Tally,
)
    requires
        may_tally(compute_break, compute_strain, s, time, prev),
        may_step(compute_break, compute_strain, prev, a, time, next),
    ensures
        may_tally(compute_break, compute_strain, s.push(a), time, next),
{
    assert(s.push(a).drop_last() =~= s);
    assert(s.push(a).last() == a);
}


/// Every result `f` may give for two spans is what `g` gives for them.
pub open spec fn computes<F: Fn(u128, u128) -> u128>(f: F, g: spec_fn(u128, u128) -> u128) -> bool {
    forall|x: u128, y: u128, r: u128| call_ensures(f, (x, y), r) ==> r == g(x, y)
}

/// The tally after `a`, with `rest_due` giving the break due and `strain_left`
/// the strain that the part of it not taken leaves.
pub open spec fn tally_step(
    t: Tally,
    a: Activity,
    time: u128,
    rest_due: spec_fn(u128, u128) -> u128,
    strain_left: spec_fn(u128, u128) -> u128,
) -> Tally {
    match t.end {
        Some(p) => {
            let due = rest_due(t.strain as u128, t.work as u128);
            advance(t, a, time, due, strain_left(sat_sub(due as int, a.start - p) as u128, t.work as u128))
        },
        None => advance(t, a, time, 0, 0),
    }
}

/// The tally of `s` at `time` under the functions `rest_due` and `strain_left`.
pub open spec fn tally(
    s: Seq<Activity>,
    time: u128,
    rest_due: spec_fn(u128, u128) -> u128,
    strain_left: spec_fn(u128, u128) -> u128,
) -> Tally
    decreases s.len(),
{
    if s.len() == 0 {
        empty_tally()
    } else {
        tally_step(tally(s.drop_last(), time, rest_due, strain_left), s.last(), time, rest_due, strain_left)
    }
}

/// The tally of every prefix of `s` stays within `MAX_SPAN`.
pub open spec fn tally_fits(
    s: Seq<Activity>,
    time: u128,
    rest_due: spec_fn(u128, u128) -> u128,
    strain_left: spec_fn(u128, u128) -> u128,
) -> bool
    decreases s.len(),
{
    s.len() == 0 || {
        &&& tally_fits(s.drop_last(), time, rest_due, strain_left)
        &&& within_span(tally(s, time, rest_due, strain_left))
    }
}

/// The summary of `s` at `time` under the functions `rest_due` and `strain_left`.
pub open spec fn summary_of(
    s: Seq<Activity>,
    time: u128,
    rest_due: spec_fn(u128, u128) -> u128,
    strain_left: spec_fn(u128, u128) -> u128,
) -> Tally {
    let t = tally(s, time, rest_due, strain_left);
    match t.end {
        Some(e) => {
            let due = rest_due(t.strain as u128, t.work as u128);
            Tally {
                end: t.end,
                strain: strain_left(sat_sub(due as int, time - e) as u128, t.work as u128) as int,
                work: t.work,
                rest: t.rest + min_of(due as int, time - e),
            }
        },
        None => t,
    }
}

/// Every total of the summary of `s` at `time` under `rest_due` and
/// `strain_left` stays within `MAX_SPAN`.
pub open spec fn summary_fits(
    s: Seq<Activity>,
    time: u128,
    rest_due: spec_fn(u128, u128) -> u128,
    strain_left: spec_fn(u128, u128) -> u128,
) -> bool {
    &&& tally_fits(s, time, rest_due, strain_left)
    &&& summary_of(s, time, rest_due, strain_left).rest <= MAX_SPAN
}

proof fn lemma_may_tally_is_tally<B: Fn(u128, u128) -> u128, S: Fn(u128, u128) -> u128>(
    compute_break: B,
    compute_strain: S,
    rest_due: spec_fn(u128, u128) -> u128,
    strain_left: spec_fn(u128, u128) -> u128,
    s: Seq<Activity>,
    time: u128,
    t: Tally,
)
    requires
        computes(compute_break, rest_due),
        computes(compute_strain, strain_left),
        may_tally(compute_break, compute_strain, s, time, t),
    ensures
        t == tally(s, time, rest_due, strain_left),
    decreases s.len(),
{
    if s.len() > 0 {
        let prev = choose|prev: Tally|
            may_tally(compute_break, compute_strain, s.drop_last(), time, prev) && #[trigger] may_step(
                compute_break,
                compute_strain,
                prev,
                s.last(),
                time,
                t,
            );
        lemma_may_tally_is_tally(compute_break, compute_strain, rest_due, strain_left, s.drop_last(), time, prev);
    }
}

proof fn lemma_fits_prefix(
    s: Seq<Activity>,
    k: int,
    time: u128,
    rest_due: spec_fn(u128, u128) -> u128,
    strain_left: spec_fn(u128, u128) -> u128,
)
    requires
        0 <= k <= s.len(),
        tally_fits(s, time, rest_due, strain_left),
    ensures
        tally_fits(s.take(k), time, rest_due, strain_left),
    decreases s.len(),
{
    if k < s.len() {
        assert(s.drop_last().take(k) =~= s.take(k));
        lemma_fits_prefix(s.drop_last(), k, time, rest_due, strain_left);
    } else {
        assert(s.take(k) =~= s);
    }
}

proof fn lemma_safe_from_fits<B: Fn(u128, u128) -> u128, S: Fn(u128, u128) -> u128>(
    compute_break: B,
    compute_strain: S,
    rest_due: spec_fn(u128, u128) -> u128,
    strain_left: spec_fn(u128, u128) -> u128,
    s: Seq<Activity>,
    k: int,
    time: u128,
)
    requires
        computes(compute_break, rest_due),
        computes(compute_strain, strain_left),
        0 <= k <= s.len(),
        summary_fits(s, time, rest_due, strain_left),
    ensures
        safe_from(
            compute_break,
            compute_strain,
            tally(s.take(k), time, rest_due, strain_left),
            s.skip(k),
            time,
        ),
    decreases s.len() - k,
{
    let t = tally(s.take(k), time, rest_due, strain_left);
    if k == s.len() {
        assert(s.take(k) =~= s);
        assert(s.skip(k).len() == 0);
    } else {
        let pre = s.take(k + 1);
        assert(pre.drop_last() =~= s.take(k));
        assert(pre.last() == s[k]);
        assert(s.skip(k)[0] == s[k]);
        assert(s.skip(k).drop_first() =~= s.skip(k + 1));
        lemma_fits_prefix(s, k + 1, time, rest_due, strain_left);
        lemma_safe_from_fits(compute_break, compute_strain, rest_due, strain_left, s, k + 1, time);
        assert forall|next: Tally|
            #[trigger] may_step(compute_break, compute_strain, t, s.skip(k)[0], time, next) implies {
            &&& within_span(next)
            &&& safe_from(compute_break, compute_strain, next, s.skip(k).drop_first(), time)
        } by {
            assert(next == tally(pre, time, rest_due, strain_left));
        }
    }
}

/// Where the two functions given to `summary` compute the spec functions
/// `rest_due` and `strain_left`, summing up gives exactly `summary_of`, and it is
/// safe wherever the totals of `summary_of` fit.
pub proof fn summary_by_functions<B: Fn(u128, u128) -> u128, S: Fn(u128, u128) -> u128>(
    compute_break: B,
    compute_strain: S,
    rest_due: spec_fn(u128, u128) -> u128,
    strain_left: spec_fn(u128, u128) -> u128,
    s: Seq<Activity>,
    time: u128,
)
    requires
        computes(compute_break, rest_due),
        computes(compute_strain, strain_left),
    ensures
        forall|out: Tally|
            may_summarize(compute_break, compute_strain, s, time, out) ==> out == summary_of(
                s,
                time,
                rest_due,
                strain_left,
            ),
        summary_fits(s, time, rest_due, strain_left) ==> summary_safe(
            compute_break,
            compute_strain,
            s,
            time,
        ),
{
    assert forall|out: Tally|
        may_summarize(compute_break, compute_strain, s, time, out) implies out == summary_of(
        s,
        time,
        rest_due,
        strain_left,
    ) by {
        let t = choose|t: Tally|
            #[trigger] may_tally(compute_break, compute_strain, s, time, t) && may_close(
                compute_break,
                compute_strain,
                t,
                time,
                out,
            );
        lemma_may_tally_is_tally(compute_break, compute_strain, rest_due, strain_left, s, time, t);
    }
    if summary_fits(s, time, rest_due, strain_left) {
        lemma_safe_from_fits(compute_break, compute_strain, rest_due, strain_left, s, 0, time);
        assert(s.take(0) =~= Seq::<Activity>::empty());
        assert(s.skip(0) =~= s);
    }
}

/// The total of the work spans of the periods of `s` at `time`.
pub open spec fn total_work(s: Seq<Activity>, time: u128) -> int
    decreases s.len(),
{
    if s.len() == 0 {
        0
    } else {
        total_work(s.drop_last(), time) + finish(s.last(), time) - s.last().start
    }
}

/// The total of the gaps between each ended period of `s` and the next one.
pub open spec fn gaps(s: Seq<Activity>) -> int
    decreases s.len(),
{
    if s.len() < 2 {
        0
    } else {
        gaps(s.drop_last()) + match s[s.len() - 2].end {
            Some(e) => s.last().start - e,
            None => 0,
        }
    }
}

/// The time spent between periods and, where the last one has ended, since
/// then until `time`.
pub open spec fn total_idle(s: Seq<Activity>, time: u128) -> int {
    gaps(s) + if s.len() > 0 && s.last().end is Some {
        time - s.last().end.unwrap()
    } else {
        0
    }
}

proof fn lemma_tally_totals<B: Fn(u128, u128) -> u128, S: Fn(u128, u128) -> u128>(
    compute_break: B,
    compute_strain: S,
    s: Seq<Activity>,
    time: u128,
    t: Tally,
)
    requires
        may_tally(compute_break, compute_strain, s, time, t),
    ensures
        t.work == total_work(s, time),
        t.rest <= gaps(s),
    decreases s.len(),
{
    if s.len() > 0 {
        let prev = choose|prev: Tally|
            may_tally(compute_break, compute_strain, s.drop_last(), time, prev) && #[trigger] may_step(
                compute_break,
                compute_strain,
                prev,
                s.last(),
                time,
                t,
            );
        lemma_tally_totals(compute_break, compute_strain, s.drop_last(), time, prev);
        lemma_tally_end(compute_break, compute_strain, s.drop_last(), time, prev);
        if s.len() >= 2 {
            assert(s.drop_last().last() == s[s.len() - 2]);
        }
        if prev.end is Some {
            let p = prev.end.unwrap();
            let (due, left) = choose|due: u128, left: u128|
                #[trigger] may_give(compute_break, compute_strain, prev, s.last().start - p, due, left)
                    && t == advance(prev, s.last(), time, due, left);
        }
    }
}

/// Whatever the formula gives, the summary ends where the last period ends, its
/// work is the sum of the work spans of all periods (the running one counted up
/// to `time`), and the rest it counts is no more than the time spent between
/// periods and since the last one ended.
pub proof fn summary_totals<B: Fn(u128, u128) -> u128, S: Fn(u128, u128) -> u128>(
    compute_break: B,
    compute_strain: S,
    s: Seq<Activity>,
    time: u128,
    out: Tally,
)
    requires
        may_summarize(compute_break, compute_strain, s, time, out),
    ensures
        out.end == if s.len() > 0 {
            s.last().end
        } else {
            None
        },
        out.work == total_work(s, time),
        out.rest <= total_idle(s, time),
{
    let t = choose|t: Tally|
        #[trigger] may_tally(compute_break, compute_strain, s, time, t) && may_close(
            compute_break,
            compute_strain,
            t,
            time,
            out,
        );
    lemma_tally_totals(compute_break, compute_strain, s, time, t);
    lemma_tally_end(compute_break, compute_strain, s, time, t);
    if t.end is Some {
        let e = t.end.unwrap();
        let (due, left) = choose|due: u128, left: u128|
            #[trigger] may_give(compute_break, compute_strain, t, time - e, due, left) && out == (Tally {
                end: t.end,
                strain: left as int,
                work: t.work,
                rest: t.rest + min_of(due as int, time - e),
            });
    }
}

/// Every period of `s` has ended.
pub open spec fn all_ended(s: Seq<Activity>) -> bool {
    forall|i: int| 0 <= i < s.len() ==> (#[trigger] s[i]).end is Some
}

/// `s` with its last period running again.
pub open spec fn reopened(s: Seq<Activity>) -> Seq<Activity> {
    s.update(s.len() - 1, Activity { start: s.last().start, end: None })
}

proof fn lemma_tally_of_ended(
    s: Seq<Activity>,
    t1: u128,
    t2: u128,
    rest_due: spec_fn(u128, u128) -> u128,
    strain_left: spec_fn(u128, u128) -> u128,
)
    requires
        all_ended(s),
    ensures
        tally(s, t1, rest_due, strain_left) == tally(s, t2, rest_due, strain_left),
    decreases s.len(),
{
    if s.len() > 0 {
        assert(s.last() == s[s.len() - 1]);
        assert(all_ended(s.drop_last())) by {
            assert forall|i: int| 0 <= i < s.drop_last().len() implies (
            #[trigger] s.drop_last()[i]).end is Some by {
                assert(s.drop_last()[i] == s[i]);
            }
        }
        lemma_tally_of_ended(s.drop_last(), t1, t2, rest_due, strain_left);
    }
}

/// Starting to work at `t` after every period has ended: summed up at any
/// `time`, the log with a new period running since `t` has the strain, the work
/// and the rest of the summary at `t`, with the work since `t` added to the
/// strain and to the work. The strain left by the last break carries over.
pub proof fn new_period_carries_strain(
    s: Seq<Activity>,
    t: u128,
    time: u128,
    rest_due: spec_fn(u128, u128) -> u128,
    strain_left: spec_fn(u128, u128) -> u128,
)
    requires
        all_ended(s),
    ensures
        ({
            let p = summary_of(s, t, rest_due, strain_left);
            summary_of(s.push(Activity { start: t, end: None }), time, rest_due, strain_left) == (
            Tally {
                end: None,
                strain: p.strain + (time - t),
                work: p.work + (time - t),
                rest: p.rest,
            })
        }),
{
    let a = Activity { start: t, end: None };
    assert(s.push(a).drop_last() =~= s);
    assert(s.push(a).last() == a);
    lemma_tally_of_ended(s, t, time, rest_due, strain_left);
}

/// Ending the last period at `e`: summed up at `time`, the log is the summary at
/// `e` of the same log with its last period still running, closed by the break
/// since `e`. The strain becomes what the part of the due break not yet taken
/// leaves, and the rest grows by the break taken, at most by the due one.
pub proof fn ended_period_closes_summary(
    s: Seq<Activity>,
    e: u128,
    time: u128,
    rest_due: spec_fn(u128, u128) -> u128,
    strain_left: spec_fn(u128, u128) -> u128,
)
    requires
        s.len() > 0,
        all_ended(s.drop_last()),
        s.last().end == Some(e),
    ensures
        ({
            let p = summary_of(reopened(s), e, rest_due, strain_left);
            let due = rest_due(p.strain as u128, p.work as u128);
            &&& p.end is None
            &&& summary_of(s, time, rest_due, strain_left) == (Tally {
                end: Some(e),
                strain: strain_left(sat_sub(due as int, time - e) as u128, p.work as u128) as int,
                work: p.work,
                rest: p.rest + min_of(due as int, time - e),
            })
        }),
{
    let o = reopened(s);
    assert(o.drop_last() =~= s.drop_last());
    assert(o.last() == Activity { start: s.last().start, end: None });
    lemma_tally_of_ended(s.drop_last(), e, time, rest_due, strain_left);
}

/// A rest since the end of the last period at least as long as the break due
/// leaves only the strain that the formula makes of no break owed; where the
/// formula makes none of it, no strain is left.
pub proof fn full_rest_clears_strain(
    s: Seq<Activity>,
    e: u128,
    time: u128,
    rest_due: spec_fn(u128, u128) -> u128,
    strain_left: spec_fn(u128, u128) -> u128,
)
    requires
        s.len() > 0,
        all_ended(s.drop_last()),
        s.last().end == Some(e),
        time - e >= rest_due(
            summary_of(reopened(s), e, rest_due, strain_left).strain as u128,
            summary_of(reopened(s), e, rest_due, strain_left).work as u128,
        ),
    ensures
        summary_of(s, time, rest_due, strain_left).strain == strain_left(
            0,
            summary_of(reopened(s), e, rest_due, strain_left).work as u128,
        ),
        strain_left(0, summary_of(reopened(s), e, rest_due, strain_left).work as u128) == 0
            ==> summary_of(s, time, rest_due, strain_left).strain == 0,
{
    ended_period_closes_summary(s, e, time, rest_due, strain_left);
}

/// The periods of `s` before index `k` read forward at `time`: each starts no
/// later than it finishes, and no earlier than the end of the one before it.
pub open spec fn ordered_upto(s: Seq<Activity>, k: int, time: u128) -> bool {
    &&& forall|i: int| 0 <= i < k ==> #[trigger] s[i].start <= finish(s[i], time)
    &&& forall|i: int|
        0 < i < k ==> (s[i - 1].end matches Some(e) ==> e <= #[trigger] s[i].start)
}

/// Where the log's tally fits and the closing rest does too, a formula that
/// computes functions has a summary that fits.
proof fn lemma_fits_at_close<B: Fn(u128, u128) -> u128, S: Fn(u128, u128) -> u128>(
    compute_break: B,
    compute_strain: S,
    s: Seq<Activity>,
    time: u128,
    t: Tally,
    out: Tally,
)
    requires
        may_tally(compute_break, compute_strain, s, time, t),
        may_close(compute_break, compute_strain, t, time, out),
        out.rest <= MAX_SPAN,
        forall|rest_due: spec_fn(u128, u128) -> u128, strain_left: spec_fn(u128, u128) -> u128|
            computes(compute_break, rest_due) && computes(compute_strain, strain_left)
                ==> #[trigger] tally_fits(s, time, rest_due, strain_left),
    ensures
        forall|rest_due: spec_fn(u128, u128) -> u128, strain_left: spec_fn(u128, u128) -> u128|
            computes(compute_break, rest_due) && computes(compute_strain, strain_left)
                ==> #[trigger] summary_fits(s, time, rest_due, strain_left),
{
    assert forall|rest_due: spec_fn(u128, u128) -> u128, strain_left: spec_fn(u128, u128) -> u128|
        computes(compute_break, rest_due) && computes(compute_strain, strain_left) implies #[trigger] summary_fits(
        s,
        time,
        rest_due,
        strain_left,
    ) by {
        assert(tally_fits(s, time, rest_due, strain_left));
        assert(may_summarize(compute_break, compute_strain, s, time, out));
        summary_by_functions(compute_break, compute_strain, rest_due, strain_left, s, time);
    }
}

impl Activities {
    /// Sums the log up at `time` as `summary` does, but gives `None` where a span
    /// would go backwards or a total would exceed `MAX_SPAN`. It gives a result
    /// whenever the log reads forward at `time` and no total can exceed
    /// `MAX_SPAN`, whatever the formula gives.
    pub fn checked_summary<B, S>(&self, compute_break: &B, compute_strain: &S, time: u128) -> (r:
        Option<(Option<u128>, u128, u128, u128)>) where
        B: Fn(u128, u128) -> u128,
        S: Fn(u128, u128) -> u128,

        requires
            callable(compute_break),
            callable(compute_strain),
        ensures
            r matches Some(x) ==> {
                &&& chronological(self@, time)
                &&& may_summarize(compute_break, compute_strain, self@, time, tally_of(x))
            },
            chronological(self@, time) && summary_safe(compute_break, compute_strain, self@, time)
                ==> r is Some,
            r is Some ==> forall|rest_due: spec_fn(u128, u128) -> u128, strain_left: spec_fn(u128, u128) -> u128|
                computes(compute_break, rest_due) && computes(compute_strain, strain_left)
                    ==> #[trigger] summary_fits(self@, time, rest_due, strain_left),
    {
        let ghost s = self@;
        let ghost good = chronological(s, time) && summary_safe(
            compute_break,
            compute_strain,
            s,
            time,
        );
        let n = self.list.len();
        let mut end: Option<u128> = None;
        let mut strain: u128 = 0;
        let mut total_strain: u128 = 0;
        let mut total_break: u128 = 0;
        let mut i: usize = 0;
        proof {
            assert(s.take(0) =~= Seq::<Activity>::empty());
            assert(s.skip(0) =~= s);
        }
        while i < n
            invariant
                s == self@,
                good == (chronological(s, time) && summary_safe(
                    compute_break,
                    compute_strain,
                    s,
                    time,
                )),
                callable(compute_break),
                callable(compute_strain),
                n == s.len(),
                i <= n,
                ordered_upto(s, i as int, time),
                within_span(tally_of((end, strain, total_strain, total_break))),
                may_tally(
                    compute_break,
                    compute_strain,
                    s.take(i as int),
                    time,
                    tally_of((end, strain, total_strain, total_break)),
                ),
                good ==> safe_from(
                    compute_break,
                    compute_strain,
                    tally_of((end, strain, total_strain, total_break)),
                    s.skip(i as int),
                    time,
                ),
                forall|rest_due: spec_fn(u128, u128) -> u128, strain_left: spec_fn(u128, u128) -> u128|
                    computes(compute_break, rest_due) && computes(compute_strain, strain_left)
                        ==> #[trigger] tally_fits(s.take(i as int), time, rest_due, strain_left),
            decreases n - i,
        {
            let a = self.list[i];
            let ghost t = tally_of((end, strain, total_strain, total_break));
            proof {
                let pre = s.take(i + 1);
                assert(pre.drop_last() =~= s.take(i as int));
                assert(pre.last() == a);
                assert(s.skip(i as int)[0] == a);
                assert(s.skip(i as int).drop_first() =~= s.skip(i + 1));
                lemma_tally_end(compute_break, compute_strain, s.take(i as int), time, t);
                if i > 0 {
                    assert(s.take(i as int).last() == s[i - 1]);
                }
                assert(s[i as int] == a);
            }
            let finish_at = match a.end {
                Some(e) => e,
                None => time,
            };
            if finish_at < a.start {
                return None;
            }
            let work = finish_at - a.start;
            let ghost next: Tally;
            if let Some(prev_end) = end {
                if a.start < prev_end {
                    return None;
                }
                let to_break = compute_break(strain, total_strain);
                let actual_break = a.start - prev_end;
                let owed: u128 = if to_break > actual_break {
                    to_break - actual_break
                } else {
                    0
                };
                let left = compute_strain(owed, total_strain);
                let rested = if to_break < actual_break {
                    to_break
                } else {
                    actual_break
                };
                proof {
                    assert(may_give(compute_break, compute_strain, t, a.start - prev_end, to_break, left));
                    next = advance(t, a, time, to_break, left);
                    assert(may_step(compute_break, compute_strain, t, a, time, next));
                }
                if work > MAX_SPAN || left > MAX_SPAN - work || work > MAX_SPAN - total_strain
                    || rested > MAX_SPAN - total_break {
                    return None;
                }
                strain = left + work;
                total_break = total_break + rested;
            } else {
                proof {
                    next = advance(t, a, time, 0, 0);
                    assert(may_step(compute_break, compute_strain, t, a, time, next));
                }
                if work > MAX_SPAN || work > MAX_SPAN - strain || work > MAX_SPAN - total_strain {
                    return None;
                }
                strain = strain + work;
            }
            total_strain = total_strain + work;
            end = a.end;
            i = i + 1;
            proof {
                assert(tally_of((end, strain, total_strain, total_break)) == next);
                assert(s.take(i - 1).push(a) =~= s.take(i as int));
                lemma_tally_push(compute_break, compute_strain, s.take(i - 1), a, time, t, next);
                assert forall|rest_due: spec_fn(u128, u128) -> u128, strain_left: spec_fn(u128, u128) -> u128|
                    computes(compute_break, rest_due) && computes(compute_strain, strain_left)
                        implies #[trigger] tally_fits(s.take(i as int), time, rest_due, strain_left) by {
                    lemma_may_tally_is_tally(
                        compute_break,
                        compute_strain,
                        rest_due,
                        strain_left,
                        s.take(i as int),
                        time,
                        next,
                    );
                    assert(s.take(i as int).drop_last() =~= s.take(i - 1));
                    assert(tally_fits(s.take(i - 1), time, rest_due, strain_left));
                }
            }
        }
        let ghost t = tally_of((end, strain, total_strain, total_break));
        proof {
            assert(s.take(n as int) =~= s);
            lemma_tally_end(compute_break, compute_strain, s, time, t);
            if n > 0 {
                assert(s.last() == s[n - 1]);
            }
            assert(s.skip(n as int).len() == 0);
        }
        match end {
            Some(e) => {
                if time < e {
                    return None;
                }
                let to_break = compute_break(strain, total_strain);
                let since = time - e;
                let owed: u128 = if to_break > since {
                    to_break - since
                } else {
                    0
                };
                let left = compute_strain(owed, total_strain);
                let rested = if to_break < since {
                    to_break
                } else {
                    since
                };
                let ghost out = Tally {
                    end: t.end,
                    strain: left as int,
                    work: t.work,
                    rest: t.rest + min_of(to_break as int, time - e),
                };
                proof {
                    assert(may_give(compute_break, compute_strain, t, time - e, to_break, left));
                    assert(may_close(compute_break, compute_strain, t, time, out));
                }
                if rested > MAX_SPAN - total_break {
                    return None;
                }
                let r = (end, left, total_strain, total_break + rested);
                proof {
                    assert(tally_of(r) == out);
                    lemma_fits_at_close(compute_break, compute_strain, s, time, t, out);
                }
                Some(r)
            },
            None => {
                let r = (end, strain, total_strain, total_break);
                proof {
                    assert(may_close(compute_break, compute_strain, t, time, tally_of(r)));
                    lemma_fits_at_close(compute_break, compute_strain, s, time, t, tally_of(r));
                }
                Some(r)
            },
        }
    }

    /// Returns the end of the last period, the strain, the work done in all and
    /// the rest taken in all, at `time` (see `may_summarize`), where
    /// `compute_break(strain, work)` gives the break that `strain` calls for after
    /// `work` in all and `compute_strain(rest, work)` the strain that a break of
    /// `rest` still owed leaves.
    pub fn summary<B, S>(&self, compute_break: &B, compute_strain: &S, time: u128) -> (r: (
        Option<u128>,
        u128,
        u128,
        u128,
    )) where B: Fn(u128, u128) -> u128, S: Fn(u128, u128) -> u128
        requires
            callable(compute_break),
            callable(compute_strain),
            chronological(self@, time),
            summary_safe(compute_break, compute_strain, self@, time),
        ensures
            may_summarize(compute_break, compute_strain, self@, time, tally_of(r)),
    {
        match self.checked_summary(compute_break, compute_strain, time) {
            Some(r) => r,
            None => (None, 0, 0, 0),
        }
    }
}

} // verus!
