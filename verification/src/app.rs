//! The balancer itself: the day's log, the strain last reported, the report of
//! the current status and the decision when to notify.

use vstd::prelude::*;
use vstd::arithmetic::div_mod::{lemma_div_denominator, lemma_fundamental_div_mod, lemma_mod_breakdown};

use crate::activities::{chronological, running, starting_from, Activities, Activity};
use crate::text::{decimal, push_decimal};
use crate::summary::{callable, may_summarize, summary_safe, summary_totals, tally_of, Tally};

verus! {

/// The name the app runs under.
pub const APP_NAME: &'static str = "work-break";

/// The identifier that keeps the socket of a release build apart from any other.
pub const APP_UUID: &'static str = "19ef189a-0474-44a8-8168-530cc14ccacc";

/// The identifier that keeps the socket of a debug build apart from any other,
/// a release build's included.
pub const DEBUG_APP_UUID: &'static str = "735d31a3-bfb0-47f9-9ce6-647202507738";

/// The identifier of the build: `DEBUG_APP_UUID` for a debug build, `APP_UUID`
/// for a release build.
pub open spec fn build_uuid(debug_build: bool) -> Seq<char> {
    if debug_build {
        DEBUG_APP_UUID@
    } else {
        APP_UUID@
    }
}

/// Nanoseconds in a second.
pub const NANOS_PER_SEC: u128 = 1000000000;

/// Nanoseconds in a minute.
pub const NANOS_PER_MIN: u128 = 60000000000;

/// The latest moment a `std::time::SystemTime` holds on Unix, in nanoseconds
/// since the epoch.
pub const MAX_MOMENT: u128 = 9223372036854775807999999999;

/// The name of the socket on which the running app listens: `@`, the app's
/// name, `_` and the identifier of the build, so that a debug build and a
/// release build never share a socket.
pub fn socket_name(debug_build: bool) -> (r: String)
    ensures
        r@ == "@"@ + APP_NAME@ + "_"@ + build_uuid(debug_build),
{
    let mut s = String::from_str("@");
    s.append(APP_NAME);
    s.append("_");
    if debug_build {
        s.append(DEBUG_APP_UUID);
    } else {
        s.append(APP_UUID);
    }
    s
}

/// The strain, in whole minutes, at which the first phase ends.
pub struct Phase1End(pub u8);

impl Default for Phase1End {
    fn default() -> (r: Self)
        ensures
            r.0 == 25,
    {
        Phase1End(25)
    }
}

/// The strain, in whole minutes, at which the second phase ends.
pub struct Phase2End(pub u8);

impl Default for Phase2End {
    fn default() -> (r: Self)
        ensures
            r.0 == 52,
    {
        Phase2End(52)
    }
}

/// What the balancer keeps between runs.
pub struct State {
    pub activities: Activities,
}

impl Default for State {
    fn default() -> (r: Self)
        ensures
            r.activities@ == Seq::<Activity>::empty(),
    {
        State { activities: Activities::default() }
    }
}

/// The requests that reach the running app.
#[derive(Clone, Copy, Debug, PartialEq, Eq)]
pub enum Ipc {
    Reload,
    Update,
    Notify,
    Switch,
    Terminate,
}

/// How pressing a notification is.
#[derive(Clone, Copy, Debug, PartialEq, Eq)]
pub enum Urgency {
    Low,
    Normal,
}

/// The settings besides the formula's coefficients.
pub struct Settings {
    /// Minutes of work a day after which to notify; zero turns that off.
    pub daily_work_time_limit: u16,
    /// The hour at which a work day starts.
    pub work_days_start_at: u8,
    pub phase1_ends_at: Phase1End,
    pub phase1_name: Option<String>,
    pub phase2_ends_at: Phase2End,
    pub phase2_name: Option<String>,
    pub phase3_name: Option<String>,
}

impl Default for Settings {
    fn default() -> (r: Self)
        ensures
            r.daily_work_time_limit == 0,
            r.work_days_start_at == 0,
            r.phase1_ends_at.0 == 25,
            r.phase1_name is None,
            r.phase2_ends_at.0 == 52,
            r.phase2_name is None,
            r.phase3_name is None,
    {
        Settings {
            daily_work_time_limit: 0,
            work_days_start_at: 0,
            phase1_ends_at: Phase1End::default(),
            phase1_name: None,
            phase2_ends_at: Phase2End::default(),
            phase2_name: None,
            phase3_name: None,
        }
    }
}

impl Settings {
    /// The settings can be used: the first phase ends before the second.
    pub fn phases_ordered(&self) -> (r: bool)
        ensures
            r == (self.phase1_ends_at.0 < self.phase2_ends_at.0),
    {
        self.phase1_ends_at.0 < self.phase2_ends_at.0
    }
}

/// A configured name, or `fallback` where none is set.
pub open spec fn name_or(name: Option<String>, fallback: Seq<char>) -> Seq<char> {
    match name {
        Some(n) => n@,
        None => fallback,
    }
}

/// The phase the status names: while work is going on, the phase its strain in
/// whole minutes is in; otherwise `Ready` without strain and `Break` with some.
pub open spec fn phase_of(working: bool, strain: u128, settings: Settings) -> Seq<char> {
    if working {
        let minutes = strain / NANOS_PER_MIN;
        if minutes < settings.phase1_ends_at.0 {
            name_or(settings.phase1_name, "Pomodoro"@)
        } else if minutes < settings.phase2_ends_at.0 {
            name_or(settings.phase2_name, "Efficiency"@)
        } else {
            name_or(settings.phase3_name, "Injury"@)
        }
    } else if strain == 0 {
        "Ready"@
    } else {
        "Break"@
    }
}

/// The name of the phase: see `phase_of`.
pub fn phase_name<'a>(working: bool, strain: u128, settings: &'a Settings) -> (r: &'a str)
    ensures
        r@ == phase_of(working, strain, *settings),
{
    if working {
        let minutes = strain / NANOS_PER_MIN;
        if minutes < settings.phase1_ends_at.0 as u128 {
            match &settings.phase1_name {
                Some(n) => n.as_str(),
                None => "Pomodoro",
            }
        } else if minutes < settings.phase2_ends_at.0 as u128 {
            match &settings.phase2_name {
                Some(n) => n.as_str(),
                None => "Efficiency",
            }
        } else {
            match &settings.phase3_name {
                Some(n) => n.as_str(),
                None => "Injury",
            }
        }
    } else if strain == 0 {
        "Ready"
    } else {
        "Break"
    }
}

/// The status report: the phase, the strain in whole minutes, the work of the
/// day in whole hours and the minutes past them, the due break in whole minutes
/// and the clock time at which it ends.
pub open spec fn status_report(
    phase: Seq<char>,
    strain: u128,
    work: u128,
    due: u128,
    ends_at: Seq<char>,
) -> Seq<char> {
    let work_secs = work / NANOS_PER_SEC;
    "Phase: "@ + phase + "\nStrain: "@ + decimal((strain / NANOS_PER_SEC / 60) as nat)
        + " min, today: "@ + decimal((work_secs / 3600) as nat) + " hrs, "@
        + decimal(((work_secs - work_secs / 3600 * 3600) / 60) as nat) + " min\nBreak: "@
        + decimal((due / NANOS_PER_SEC / 60) as nat) + " min, ends at: "@ + ends_at
}

/// Writes out the status report: see `status_report`.
pub fn status_text(phase: &str, strain: u128, work: u128, due: u128, ends_at: &str) -> (r: String)
    ensures
        r@ == status_report(phase@, strain, work, due, ends_at@),
{
    let work_secs = work / NANOS_PER_SEC;
    let mut s = String::from_str("Phase: ");
    s.append(phase);
    s.append("\nStrain: ");
    push_decimal(&mut s, strain / NANOS_PER_SEC / 60);
    s.append(" min, today: ");
    push_decimal(&mut s, work_secs / 3600);
    s.append(" hrs, ");
    push_decimal(&mut s, (work_secs - work_secs / 3600 * 3600) / 60);
    s.append(" min\nBreak: ");
    push_decimal(&mut s, due / NANOS_PER_SEC / 60);
    s.append(" min, ends at: ");
    s.append(ends_at);
    s
}

/// The start of the work day that `now` falls in, as seconds since the epoch:
/// the start of today's work day, or of the previous one where `now` comes
/// before today's.
pub open spec fn day_start_secs(now: u128, today: i64, previous: Option<i64>) -> int {
    if (now as int) < today * (NANOS_PER_SEC as int) {
        previous.unwrap() as int
    } else {
        today as int
    }
}

/// The moment from which the day's log counts: the start of the work day that
/// `now` falls in, where `today` is when today's work day starts and `previous`
/// when the one before it does (both in seconds since the epoch, `previous`
/// where it exists). `None` where the day that `now` falls in has no start, or
/// starts before the epoch.
pub fn day_start(now: u128, today: i64, previous: Option<i64>) -> (r: Option<u128>)
    ensures
        r is Some <==> ((now as int) < today * (NANOS_PER_SEC as int) ==> previous is Some)
            && day_start_secs(now, today, previous) >= 0,
        r matches Some(t) ==> t == day_start_secs(now, today, previous) * NANOS_PER_SEC,
{
    let before = today >= 0 && now < (today as u128) * NANOS_PER_SEC;
    let secs = if before {
        match previous {
            Some(p) => p,
            None => {
                return None;
            },
        }
    } else {
        today
    };
    if secs < 0 {
        return None;
    }
    Some((secs as u128) * NANOS_PER_SEC)
}

/// Some threshold was crossed between the strain and work last reported and
/// the current ones: the strain reached the end of the first or of the second
/// phase, the strain fell back to none, or the work reached a daily limit.
pub open spec fn threshold_crossed(
    last_strain: u128,
    last_work: u128,
    strain: u128,
    work: u128,
    settings: Settings,
) -> bool {
    let phase1 = settings.phase1_ends_at.0 * NANOS_PER_MIN;
    let phase2 = settings.phase2_ends_at.0 * NANOS_PER_MIN;
    let limit = settings.daily_work_time_limit * NANOS_PER_MIN;
    ||| last_strain < phase1 && strain >= phase1
    ||| last_strain < phase2 && strain >= phase2
    ||| last_strain != 0 && strain == 0
    ||| limit != 0 && last_work < limit && work >= limit
}

/// How pressing a notification is: normal past the second phase or past a daily
/// limit, low otherwise.
pub open spec fn urgency_of(strain: u128, work: u128, settings: Settings) -> Urgency {
    let phase2 = settings.phase2_ends_at.0 * NANOS_PER_MIN;
    let limit = settings.daily_work_time_limit * NANOS_PER_MIN;
    if strain >= phase2 || (limit != 0 && work >= limit) {
        Urgency::Normal
    } else {
        Urgency::Low
    }
}

/// `r` reports the status of `log` at `now`: the formula may sum the log up to
/// `out` and then give `due` as the break due, and `clock` may write `ends_at`
/// for the moment that break ends; `r` holds the strain and the work of `out`
/// and the text of `status_report`.
pub open spec fn reports<B: Fn(u128, u128) -> u128, S: Fn(u128, u128) -> u128, C: Fn(u128) -> String>(
    compute_break: B,
    compute_strain: S,
    clock: C,
    log: Seq<Activity>,
    now: u128,
    settings: Settings,
    r: (u128, u128, String),
    out: Tally,
    due: u128,
    ends_at: String,
) -> bool {
    &&& may_summarize(compute_break, compute_strain, log, now, out)
    &&& call_ensures(compute_break, (r.0, r.1), due)
    &&& call_ensures(clock, ((now + due) as u128,), ends_at)
    &&& r.0 == out.strain
    &&& r.1 == out.work
    &&& r.2@ == status_report(phase_of(running(log), r.0, settings), r.0, r.1, due, ends_at@)
}

/// `r` reports the status of `log` at `now` for some results that the formula and
/// `clock` may give (see `reports`).
pub open spec fn reported<B: Fn(u128, u128) -> u128, S: Fn(u128, u128) -> u128, C: Fn(u128) -> String>(
    compute_break: B,
    compute_strain: S,
    clock: C,
    log: Seq<Activity>,
    now: u128,
    settings: Settings,
    r: (u128, u128, String),
) -> bool {
    exists|out: Tally, due: u128, ends_at: String|
        #[trigger] reports(compute_break, compute_strain, clock, log, now, settings, r, out, due, ends_at)
}

/// The balancer: the day's log and the strain and work it last reported.
pub struct Balancer {
    pub last_strain: u128,
    pub last_work: u128,
    pub state: State,
}

impl Balancer {
    /// Starts from the saved `state`, with its strain and work at `now` (see
    /// `Activities::summary`) as the ones last reported. Gives `None` where
    /// summing the log up fails (see `Activities::checked_summary`): it does not
    /// when the log reads forward at `now` and no total can exceed `MAX_SPAN`.
    pub fn new<B, S>(state: State, now: u128, compute_break: &B, compute_strain: &S) -> (r: Option<
        Balancer,
    >) where B: Fn(u128, u128) -> u128, S: Fn(u128, u128) -> u128
        requires
            callable(compute_break),
            callable(compute_strain),
        ensures
            chronological(state.activities@, now) && summary_safe(
                compute_break,
                compute_strain,
                state.activities@,
                now,
            ) ==> r is Some,
            r matches Some(b) ==> {
                &&& chronological(state.activities@, now)
                &&& b.state == state
                &&& exists|out: Tally|
                    #[trigger] may_summarize(
                        compute_break,
                        compute_strain,
                        state.activities@,
                        now,
                        out,
                    ) && b.last_strain == out.strain && b.last_work == out.work
            },
    {
        match state.activities.checked_summary(compute_break, compute_strain, now) {
            Some((end, last_strain, last_work, rest)) => {
                proof {
                    let out = tally_of((end, last_strain, last_work, rest));
                    assert(may_summarize(compute_break, compute_strain, state.activities@, now, out));
                }
                Some(Balancer { last_strain, last_work, state })
            },
            None => None,
        }
    }

    /// Drops the periods that started before `day_start`, and reports the
    /// strain and the work of the day at `now` with the text of `status_report`
    /// (see `reports`): its due break is what `compute_break` gives for them, and
    /// `clock` writes out the moment at which that break ends. Gives `None` where
    /// summing the day's log up fails, or the break would end past `MAX_MOMENT`;
    /// it does not when the day's log reads forward at `now` and no total can
    /// exceed `MAX_SPAN` or `MAX_MOMENT`, whatever the formula gives.
    pub fn status<B, S, C>(
        &mut self,
        day_start: u128,
        now: u128,
        compute_break: &B,
        compute_strain: &S,
        clock: &C,
        settings: &Settings,
    ) -> (r: Option<(u128, u128, String)>) where
        B: Fn(u128, u128) -> u128,
        S: Fn(u128, u128) -> u128,
        C: Fn(u128) -> String,

        requires
            callable(compute_break),
            callable(compute_strain),
            forall|t: u128| call_requires(clock, (t,)),
        ensures
            final(self).state.activities@ == starting_from(old(self).state.activities@, day_start),
            final(self).last_strain == old(self).last_strain,
            final(self).last_work == old(self).last_work,
            ({
                &&& chronological(starting_from(old(self).state.activities@, day_start), now)
                &&& summary_safe(
                    compute_break,
                    compute_strain,
                    starting_from(old(self).state.activities@, day_start),
                    now,
                )
                &&& forall|out: Tally, due: u128|
                    #[trigger] may_summarize(
                        compute_break,
                        compute_strain,
                        starting_from(old(self).state.activities@, day_start),
                        now,
                        out,
                    ) && #[trigger] call_ensures(
                        compute_break,
                        (out.strain as u128, out.work as u128),
                        due,
                    ) ==> now + due <= MAX_MOMENT
            }) ==> r is Some,
            r is Some ==> chronological(starting_from(old(self).state.activities@, day_start), now),
            r matches Some(x) ==> reported(
                compute_break,
                compute_strain,
                clock,
                starting_from(old(self).state.activities@, day_start),
                now,
                *settings,
                x,
            ),
    {
        self.state.activities.truncate_until(day_start);
        let ghost log = self.state.activities@;
        let (end, strain, work, rest) = match self.state.activities.checked_summary(
            compute_break,
            compute_strain,
            now,
        ) {
            Some(x) => x,
            None => {
                return None;
            },
        };
        let ghost out = tally_of((end, strain, work, rest));
        let working = self.state.activities.list.len() > 0 && end.is_none();
        proof {
            summary_totals(compute_break, compute_strain, log, now, out);
            assert(working == running(log));
        }
        let phase = phase_name(working, strain, settings);
        let due = compute_break(strain, work);
        proof {
            assert(log == starting_from(old(self).state.activities@, day_start));
            assert(call_ensures(compute_break, (out.strain as u128, out.work as u128), due));
        }
        if due > MAX_MOMENT || now > MAX_MOMENT - due {
            return None;
        }
        let ends_at = clock(now + due);
        let text = status_text(phase, strain, work, due, ends_at.as_str());
        let r = (strain, work, text);
        proof {
            assert(reports(
                compute_break,
                compute_strain,
                clock,
                starting_from(old(self).state.activities@, day_start),
                now,
                *settings,
                r,
                out,
                due,
                ends_at,
            ));
        }
        Some(r)
    }

    /// Whether to notify of the status with `strain` and `work`, and how
    /// pressingly: always when asked to anyway, otherwise when a threshold was
    /// crossed since the last report.
    pub fn notification(&self, strain: u128, work: u128, notify_anyway: bool, settings: &Settings) -> (r:
        Option<Urgency>)
        ensures
            r is Some <==> notify_anyway || threshold_crossed(
                self.last_strain,
                self.last_work,
                strain,
                work,
                *settings,
            ),
            r matches Some(u) ==> u == urgency_of(strain, work, *settings),
    {
        let phase1 = settings.phase1_ends_at.0 as u128 * NANOS_PER_MIN;
        let phase2 = settings.phase2_ends_at.0 as u128 * NANOS_PER_MIN;
        let limit = settings.daily_work_time_limit as u128 * NANOS_PER_MIN;
        let crossed = self.last_strain < phase1 && strain >= phase1 || self.last_strain < phase2
            && strain >= phase2 || self.last_strain != 0 && strain == 0 || limit != 0
            && self.last_work < limit && work >= limit;
        if notify_anyway || crossed {
            if strain >= phase2 || (limit != 0 && work >= limit) {
                Some(Urgency::Normal)
            } else {
                Some(Urgency::Low)
            }
        } else {
            None
        }
    }

    /// Remembers `strain` and `work` as the ones last reported.
    pub fn record(&mut self, strain: u128, work: u128)
        ensures
            final(self).last_strain == strain,
            final(self).last_work == work,
            final(self).state == old(self).state,
    {
        self.last_strain = strain;
        self.last_work = work;
    }
}

/// Once a status is recorded, the same status again crosses no threshold:
/// the balancer notifies of it again only when asked to anyway.
pub proof fn no_repeated_notification(strain: u128, work: u128, settings: Settings)
    ensures
        !threshold_crossed(strain, work, strain, work, settings),
{
}

/// While working, the phase is the first one exactly while the whole minutes of
/// strain are below the configured end of the first phase, the second one while
/// they are below the configured end of the second phase but not the first, and
/// the third one otherwise; each is named by its configured name, or by default
/// `Pomodoro`, `Efficiency` and `Injury`. While not working, the phase is `Ready`
/// without strain and `Break` with some.
pub proof fn phase_follows_configured_ends(working: bool, strain: u128, settings: Settings)
    ensures
        ({
            let minutes = strain / NANOS_PER_MIN;
            let p = phase_of(working, strain, settings);
            &&& working && minutes < settings.phase1_ends_at.0 ==> p == match settings.phase1_name {
                Some(n) => n@,
                None => "Pomodoro"@,
            }
            &&& working && settings.phase1_ends_at.0 <= minutes < settings.phase2_ends_at.0 ==> p
                == match settings.phase2_name {
                Some(n) => n@,
                None => "Efficiency"@,
            }
            &&& working && settings.phase1_ends_at.0 <= minutes && settings.phase2_ends_at.0
                <= minutes ==> p == match settings.phase3_name {
                Some(n) => n@,
                None => "Injury"@,
            }
            &&& !working && strain == 0 ==> p == "Ready"@
            &&& !working && strain != 0 ==> p == "Break"@
        }),
{
}

/// While resting, with no period in the day's log or its last period ended,
/// the status names no work phase: `Ready` without strain, `Break` with some.
pub proof fn status_names_rest_while_resting<
    B: Fn(u128, u128) -> u128,
    S: Fn(u128, u128) -> u128,
    C: Fn(u128) -> String,
>(
    compute_break: B,
    compute_strain: S,
    clock: C,
    log: Seq<Activity>,
    now: u128,
    settings: Settings,
    r: (u128, u128, String),
    out: Tally,
    due: u128,
    ends_at: String,
)
    requires
        reports(compute_break, compute_strain, clock, log, now, settings, r, out, due, ends_at),
        log.len() == 0 || log.last().end is Some,
    ensures
        r.2@ == status_report(
            if r.0 == 0 {
                "Ready"@
            } else {
                "Break"@
            },
            r.0,
            r.1,
            due,
            ends_at@,
        ),
{
}

/// While the last period of the day's log is running, the status names the work
/// phase that its strain is in.
pub proof fn status_names_work_phase_while_working<
    B: Fn(u128, u128) -> u128,
    S: Fn(u128, u128) -> u128,
    C: Fn(u128) -> String,
>(
    compute_break: B,
    compute_strain: S,
    clock: C,
    log: Seq<Activity>,
    now: u128,
    settings: Settings,
    r: (u128, u128, String),
    out: Tally,
    due: u128,
    ends_at: String,
)
    requires
        reports(compute_break, compute_strain, clock, log, now, settings, r, out, due, ends_at),
        log.len() > 0,
        log.last().end is None,
    ensures
        r.2@ == status_report(phase_of(true, r.0, settings), r.0, r.1, due, ends_at@),
{
}

/// With no period in the day's log, the status reports no strain and no work,
/// in phase `Ready`.
pub proof fn status_of_empty_day<
    B: Fn(u128, u128) -> u128,
    S: Fn(u128, u128) -> u128,
    C: Fn(u128) -> String,
>(
    compute_break: B,
    compute_strain: S,
    clock: C,
    log: Seq<Activity>,
    now: u128,
    settings: Settings,
    r: (u128, u128, String),
    out: Tally,
    due: u128,
    ends_at: String,
)
    requires
        reports(compute_break, compute_strain, clock, log, now, settings, r, out, due, ends_at),
        log.len() == 0,
    ensures
        r.0 == 0,
        r.1 == 0,
        r.2@ == status_report("Ready"@, 0, 0, due, ends_at@),
{
    let t = choose|t: Tally|
        #[trigger] crate::summary::may_tally(compute_break, compute_strain, log, now, t)
            && crate::summary::may_close(compute_break, compute_strain, t, now, out);
    crate::summary::lemma_tally_end(compute_break, compute_strain, log, now, t);
}

/// Each threshold notifies once crossed: the strain reaching the end of the first
/// or of the second phase from below, the strain falling from some to none, and
/// the work reaching a daily limit that is set.
pub proof fn crossings_notify(
    last_strain: u128,
    last_work: u128,
    strain: u128,
    work: u128,
    settings: Settings,
)
    ensures
        last_strain < settings.phase1_ends_at.0 * NANOS_PER_MIN <= strain ==> threshold_crossed(
            last_strain,
            last_work,
            strain,
            work,
            settings,
        ),
        last_strain < settings.phase2_ends_at.0 * NANOS_PER_MIN <= strain ==> threshold_crossed(
            last_strain,
            last_work,
            strain,
            work,
            settings,
        ),
        last_strain != 0 && strain == 0 ==> threshold_crossed(
            last_strain,
            last_work,
            strain,
            work,
            settings,
        ),
        settings.daily_work_time_limit != 0 && last_work < settings.daily_work_time_limit
            * NANOS_PER_MIN <= work ==> threshold_crossed(last_strain, last_work, strain, work, settings),
{
}

/// Nothing but a crossing notifies: a threshold is crossed only where the strain
/// reached a phase end from below, fell from some to none, or the work reached a
/// daily limit that is set.
pub proof fn only_crossings_notify(
    last_strain: u128,
    last_work: u128,
    strain: u128,
    work: u128,
    settings: Settings,
)
    ensures
        threshold_crossed(last_strain, last_work, strain, work, settings) ==> {
            ||| last_strain < settings.phase1_ends_at.0 * NANOS_PER_MIN <= strain
            ||| last_strain < settings.phase2_ends_at.0 * NANOS_PER_MIN <= strain
            ||| last_strain != 0 && strain == 0
            ||| settings.daily_work_time_limit != 0 && last_work < settings.daily_work_time_limit
                * NANOS_PER_MIN <= work
        },
{
}

/// During a break, as the strain goes down without reaching zero and no more
/// work is done, no threshold is crossed.
pub proof fn break_in_progress_is_quiet(
    last_strain: u128,
    last_work: u128,
    strain: u128,
    work: u128,
    settings: Settings,
)
    requires
        0 < strain <= last_strain,
        work <= last_work,
    ensures
        !threshold_crossed(last_strain, last_work, strain, work, settings),
{
}

/// A notification is normal exactly when the strain is at the end of the second
/// phase or past it, or the work has reached a daily limit that is set.
pub proof fn urgency_by_strain_and_limit(strain: u128, work: u128, settings: Settings)
    ensures
        (urgency_of(strain, work, settings) == Urgency::Normal) <==> (strain
            >= settings.phase2_ends_at.0 * NANOS_PER_MIN || (settings.daily_work_time_limit != 0
            && work >= settings.daily_work_time_limit * NANOS_PER_MIN)),
        urgency_of(strain, work, settings) == Urgency::Normal || urgency_of(strain, work, settings)
            == Urgency::Low,
{
}

/// Without a daily limit, how pressing a notification is depends on the strain
/// alone, not on the work of the day, and grows with the strain.
pub proof fn urgency_ignores_work_without_limit(
    strain: u128,
    more_strain: u128,
    work: u128,
    other_work: u128,
    settings: Settings,
)
    requires
        settings.daily_work_time_limit == 0,
        strain <= more_strain,
    ensures
        urgency_of(strain, work, settings) == urgency_of(strain, other_work, settings),
        urgency_of(strain, work, settings) == Urgency::Normal ==> urgency_of(
            more_strain,
            work,
            settings,
        ) == Urgency::Normal,
{
}

/// The day's log counts from today's start when `now` is at or after it, and
/// from the previous day's start when `now` comes before today's.
pub proof fn day_start_is_the_start_before_now(now: u128, today: i64, previous: Option<i64>)
    ensures
        (now as int) >= today * (NANOS_PER_SEC as int) ==> day_start_secs(now, today, previous)
            == today,
        (now as int) < today * (NANOS_PER_SEC as int) && previous is Some ==> day_start_secs(
            now,
            today,
            previous,
        ) == previous.unwrap(),
{
}

/// The status report names the strain and the break due in whole minutes, and
/// the work of the day in whole hours and the whole minutes past them.
pub proof fn status_report_in_whole_minutes(
    phase: Seq<char>,
    strain: u128,
    work: u128,
    due: u128,
    ends_at: Seq<char>,
)
    ensures
        status_report(phase, strain, work, due, ends_at) == "Phase: "@ + phase + "\nStrain: "@
            + decimal((strain as int / 60000000000) as nat) + " min, today: "@ + decimal(
            (work as int / 3600000000000) as nat,
        ) + " hrs, "@ + decimal(((work as int / 60000000000) % 60) as nat) + " min\nBreak: "@
            + decimal((due as int / 60000000000) as nat) + " min, ends at: "@ + ends_at,
{
    let ws = work as int / 1000000000;
    lemma_div_denominator(strain as int, 1000000000, 60);
    lemma_div_denominator(due as int, 1000000000, 60);
    lemma_div_denominator(work as int, 1000000000, 60);
    lemma_div_denominator(work as int, 1000000000, 3600);
    lemma_mod_breakdown(ws, 60, 60);
    assert(ws - ws / 3600 * 3600 == ws % 3600) by {
        lemma_fundamental_div_mod(ws, 3600);
    }
    let q = (ws / 60) % 60;
    let r = ws % 60;
    assert((60 * q + r) / 60 == q) by (nonlinear_arith)
        requires
            0 <= r < 60,
            0 <= q,
    ;
}

} // verus!
