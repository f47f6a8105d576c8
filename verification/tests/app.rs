use work_break::activities::{Activities, Activity};
use work_break::app::{
    day_start, phase_name, socket_name, status_text, Balancer, Ipc, Phase1End, Phase2End,
    Settings, State, Urgency, APP_NAME, APP_UUID, DEBUG_APP_UUID,
};

const SEC: u128 = 1_000_000_000;
const MIN: u128 = 60 * SEC;

#[test]
fn socket_name_joins_name_and_uuid() {
    assert_eq!(socket_name(false), "@work-break_19ef189a-0474-44a8-8168-530cc14ccacc");
    assert_eq!(socket_name(false), format!("@{}_{}", APP_NAME, APP_UUID));
}

#[test]
fn debug_socket_name_differs_from_release() {
    assert_eq!(socket_name(true), "@work-break_735d31a3-bfb0-47f9-9ce6-647202507738");
    assert_eq!(socket_name(true), format!("@{}_{}", APP_NAME, DEBUG_APP_UUID));
    assert_ne!(socket_name(true), socket_name(false));
}

#[test]
fn phase_ends_default_to_pomodoro_and_efficiency() {
    assert_eq!(Phase1End::default().0, 25);
    assert_eq!(Phase2End::default().0, 52);
}

#[test]
fn default_settings_are_ordered() {
    let s = Settings::default();
    assert!(s.phases_ordered());
    assert_eq!(s.daily_work_time_limit, 0);
    assert_eq!(s.work_days_start_at, 0);
}

#[test]
fn phases_out_of_order_are_refused() {
    let mut s = Settings::default();
    s.phase1_ends_at = Phase1End(52);
    s.phase2_ends_at = Phase2End(52);
    assert!(!s.phases_ordered());
}

#[test]
fn default_state_is_empty() {
    assert!(State::default().activities.list.is_empty());
}

#[test]
fn ipc_variants_differ() {
    assert_ne!(Ipc::Reload, Ipc::Update);
    assert_eq!(Ipc::Switch, Ipc::Switch);
}

#[test]
fn phase_names_by_strain() {
    let s = Settings::default();
    assert_eq!(phase_name(false, 0, &s), "Ready");
    assert_eq!(phase_name(false, 1, &s), "Break");
    assert_eq!(phase_name(true, 0, &s), "Pomodoro");
    assert_eq!(phase_name(true, 25 * MIN - 1, &s), "Pomodoro");
    assert_eq!(phase_name(true, 25 * MIN, &s), "Efficiency");
    assert_eq!(phase_name(true, 52 * MIN - 1, &s), "Efficiency");
    assert_eq!(phase_name(true, 52 * MIN, &s), "Injury");
}

#[test]
fn configured_phase_names_are_used() {
    let mut s = Settings::default();
    s.phase1_name = Some("Warm".to_string());
    s.phase2_name = Some("Hot".to_string());
    s.phase3_name = Some("Burning".to_string());
    assert_eq!(phase_name(true, 0, &s), "Warm");
    assert_eq!(phase_name(true, 30 * MIN, &s), "Hot");
    assert_eq!(phase_name(true, 60 * MIN, &s), "Burning");
    assert_eq!(phase_name(false, 0, &s), "Ready");
}

#[test]
fn status_text_layout() {
    let t = status_text("Pomodoro", 26 * MIN + 30 * SEC, 63 * MIN + 59 * SEC, 5 * MIN, "12:30:00");
    assert_eq!(
        t,
        "Phase: Pomodoro\nStrain: 26 min, today: 1 hrs, 3 min\nBreak: 5 min, ends at: 12:30:00"
    );
}

#[test]
fn status_text_of_nothing() {
    let t = status_text("Ready", 0, 0, 0, "");
    assert_eq!(t, "Phase: Ready\nStrain: 0 min, today: 0 hrs, 0 min\nBreak: 0 min, ends at: ");
}

#[test]
fn status_text_of_long_day() {
    let t = status_text("Injury", 1234 * MIN, 10 * 3600 * SEC + 7 * MIN, 99 * MIN + 59 * SEC, "x");
    assert_eq!(t, "Phase: Injury\nStrain: 1234 min, today: 10 hrs, 7 min\nBreak: 99 min, ends at: x");
}

#[test]
fn day_start_is_today_after_it() {
    assert_eq!(day_start(1000 * SEC, 900, Some(800)), Some(900 * SEC));
    assert_eq!(day_start(900 * SEC, 900, None), Some(900 * SEC));
}

#[test]
fn day_start_is_yesterday_before_today() {
    assert_eq!(day_start(899 * SEC + 1, 900, Some(800)), Some(800 * SEC));
}

#[test]
fn day_start_without_a_previous_day_fails() {
    assert_eq!(day_start(899 * SEC, 900, None), None);
}

#[test]
fn day_start_before_the_epoch_fails() {
    assert_eq!(day_start(5 * SEC, -10, None), None);
    assert_eq!(day_start(5 * SEC, 10, Some(-3)), None);
}

fn balancer(last_strain: u128, last_work: u128) -> Balancer {
    Balancer { last_strain, last_work, state: State::default() }
}

#[test]
fn notifies_when_asked_anyway() {
    let b = balancer(0, 0);
    let s = Settings::default();
    assert_eq!(b.notification(MIN, MIN, true, &s), Some(Urgency::Low));
    assert_eq!(b.notification(MIN, MIN, false, &s), None);
}

#[test]
fn notifies_on_reaching_the_first_phase_end() {
    let b = balancer(24 * MIN, 24 * MIN);
    let s = Settings::default();
    assert_eq!(b.notification(25 * MIN, 25 * MIN, false, &s), Some(Urgency::Low));
    assert_eq!(b.notification(25 * MIN - 1, 25 * MIN, false, &s), None);
}

#[test]
fn notifies_urgently_on_reaching_the_second_phase_end() {
    let b = balancer(51 * MIN, 51 * MIN);
    let s = Settings::default();
    assert_eq!(b.notification(52 * MIN, 52 * MIN, false, &s), Some(Urgency::Normal));
}

#[test]
fn notifies_when_the_break_is_over() {
    let b = balancer(3 * MIN, 30 * MIN);
    let s = Settings::default();
    assert_eq!(b.notification(0, 30 * MIN, false, &s), Some(Urgency::Low));
    assert_eq!(balancer(0, 30 * MIN).notification(0, 30 * MIN, false, &s), None);
}

#[test]
fn notifies_on_reaching_the_daily_limit() {
    let mut s = Settings::default();
    s.daily_work_time_limit = 120;
    let b = balancer(10 * MIN, 119 * MIN);
    assert_eq!(b.notification(11 * MIN, 120 * MIN, false, &s), Some(Urgency::Normal));
    assert_eq!(b.notification(11 * MIN, 119 * MIN, false, &s), None);
    s.daily_work_time_limit = 0;
    assert_eq!(b.notification(11 * MIN, 120 * MIN, false, &s), None);
}

#[test]
fn recorded_status_is_not_notified_again() {
    let s = Settings::default();
    let mut b = balancer(24 * MIN, 24 * MIN);
    assert!(b.notification(25 * MIN, 25 * MIN, false, &s).is_some());
    b.record(25 * MIN, 25 * MIN);
    assert_eq!(b.last_strain, 25 * MIN);
    assert_eq!(b.last_work, 25 * MIN);
    assert_eq!(b.notification(25 * MIN, 25 * MIN, false, &s), None);
}

#[test]
fn new_balancer_starts_from_the_summary() {
    let state = State {
        activities: Activities { list: vec![Activity { start: 0, end: Some(100) }, Activity { start: 130, end: None }] },
    };
    let b = Balancer::new(state, 250, &|s: u128, _w: u128| s, &|x: u128, _w: u128| x).unwrap();
    assert_eq!(b.last_strain, 190);
    assert_eq!(b.last_work, 220);
    assert_eq!(b.state.activities.list.len(), 2);
}

#[test]
fn status_truncates_and_reports() {
    let state = State {
        activities: Activities {
            list: vec![
                Activity { start: 0, end: Some(10 * MIN) },
                Activity { start: 100 * MIN, end: Some(110 * MIN) },
                Activity { start: 120 * MIN, end: None },
            ],
        },
    };
    let mut b = Balancer { last_strain: 7, last_work: 8, state };
    let s = Settings::default();
    let (strain, work, text) = b.status(
        50 * MIN,
        150 * MIN,
        &|st: u128, _w: u128| st / 5,
        &|x: u128, _w: u128| x * 5,
        &|t: u128| format!("{}s", t / SEC),
        &s,
    ).unwrap();
    // 10 minutes of work, a 2 minute break due and taken, then 30 minutes of work
    assert_eq!(strain, 30 * MIN);
    assert_eq!(work, 40 * MIN);
    assert_eq!(text, "Phase: Efficiency\nStrain: 30 min, today: 0 hrs, 40 min\nBreak: 6 min, ends at: 9360s");
    assert_eq!(b.state.activities.list.len(), 2);
    assert_eq!(b.last_strain, 7);
    assert_eq!(b.last_work, 8);
}

#[test]
fn new_balancer_refuses_a_log_going_backwards() {
    let state = State {
        activities: Activities { list: vec![Activity { start: 300, end: None }] },
    };
    assert!(Balancer::new(state, 250, &|s: u128, _w: u128| s, &|x: u128, _w: u128| x).is_none());
}

#[test]
fn status_refuses_a_break_ending_past_the_last_moment() {
    let mut b = balancer(0, 0);
    let s = Settings::default();
    let r = b.status(0, 10, &|_s: u128, _w: u128| u128::MAX, &|x: u128, _w: u128| x, &|_t: u128| String::new(), &s);
    assert!(r.is_none());
}

#[test]
fn push_decimal_writes_numbers() {
    let mut s = String::from("n=");
    work_break::text::push_decimal(&mut s, 0);
    s.push(',');
    work_break::text::push_decimal(&mut s, 7);
    s.push(',');
    work_break::text::push_decimal(&mut s, 10);
    s.push(',');
    work_break::text::push_decimal(&mut s, 1234567890);
    assert_eq!(s, "n=0,7,10,1234567890");
}
