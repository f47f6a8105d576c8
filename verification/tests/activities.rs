use work_break::activities::{Activities, Activity};

const MIN: u128 = 60_000_000_000;

fn log(list: Vec<Activity>) -> Activities {
    Activities { list }
}

fn closed(start: u128, end: u128) -> Activity {
    Activity { start, end: Some(end) }
}

fn open(start: u128) -> Activity {
    Activity { start, end: None }
}

#[test]
fn default_log_is_empty() {
    let a = Activities::default();
    assert!(a.list.is_empty());
}

#[test]
fn switch_opens_a_period_on_an_empty_log() {
    let mut a = Activities::default();
    a.switch(100);
    assert_eq!(a.list, vec![open(100)]);
}

#[test]
fn switch_ends_the_running_period() {
    let mut a = log(vec![open(100)]);
    a.switch(600);
    assert_eq!(a.list, vec![closed(100, 600)]);
}

#[test]
fn switch_after_rest_opens_a_new_period() {
    let mut a = log(vec![closed(100, 600)]);
    a.switch(700);
    assert_eq!(a.list, vec![closed(100, 600), open(700)]);
}

#[test]
fn two_switches_from_rest_record_one_period() {
    let mut a = log(vec![closed(0, 10)]);
    a.switch(20);
    a.switch(35);
    assert_eq!(a.list, vec![closed(0, 10), closed(20, 35)]);
}

#[test]
fn truncate_keeps_periods_from_the_point_on() {
    let mut a = log(vec![closed(0, 10), closed(20, 30), closed(40, 50), open(60)]);
    a.truncate_until(20);
    assert_eq!(a.list, vec![closed(20, 30), closed(40, 50), open(60)]);
}

#[test]
fn truncate_before_everything_keeps_all() {
    let mut a = log(vec![closed(5, 10), open(60)]);
    a.truncate_until(0);
    assert_eq!(a.list, vec![closed(5, 10), open(60)]);
}

#[test]
fn truncate_after_everything_empties() {
    let mut a = log(vec![closed(5, 10), open(60)]);
    a.truncate_until(61);
    assert!(a.list.is_empty());
}

#[test]
fn summary_of_empty_log() {
    let a = Activities::default();
    let r = a.summary(&|s: u128, _w: u128| s / 5, &|x: u128, _w: u128| x * 5, 1000);
    assert_eq!(r, (None, 0, 0, 0));
}

#[test]
fn summary_of_running_period_is_its_work() {
    let a = log(vec![open(100)]);
    let r = a.summary(&|s: u128, _w: u128| s / 5, &|x: u128, _w: u128| x * 5, 700);
    assert_eq!(r, (None, 600, 600, 0));
}

#[test]
fn summary_after_full_break_has_no_strain() {
    let a = log(vec![closed(100, 600)]);
    let r = a.summary(&|s: u128, _w: u128| s / 5, &|x: u128, _w: u128| x / 2, 700);
    assert_eq!(r, (Some(600), 0, 500, 100));
}

#[test]
fn summary_counts_gaps_up_to_the_due_break() {
    let a = log(vec![closed(0, 100), closed(150, 250)]);
    let r = a.summary(&|s: u128, _w: u128| s / 5, &|x: u128, _w: u128| x * 5, 300);
    assert_eq!(r, (Some(250), 0, 200, 40));
}

#[test]
fn summary_carries_strain_over_a_short_break() {
    // The break due equals the strain and the strain left equals the break owed.
    let a = log(vec![closed(0, 100), closed(130, 230)]);
    let r = a.summary(&|s: u128, _w: u128| s, &|x: u128, _w: u128| x, 250);
    assert_eq!(r, (Some(230), 150, 200, 50));
}

#[test]
fn summary_strain_keeps_growing_while_working_after_a_short_break() {
    let a = log(vec![closed(0, 100), open(130)]);
    let r = a.summary(&|s: u128, _w: u128| s, &|x: u128, _w: u128| x, 250);
    // after the gap: due 100, taken 30, left 70; then 120 of work
    assert_eq!(r, (None, 190, 220, 30));
}

fn compute_break(strain: u128, total: u128) -> u128 {
    let a = 0.00147884224225867f64;
    let b = 1.67098454496329f64;
    let secs = strain as f64 / 1e9;
    let total_secs = total as f64 / 1e9;
    let r = a * secs.powf(b + 0.0 * total_secs) + 0.0;
    (r * 1e9) as u128
}

fn compute_strain(rest: u128, total: u128) -> u128 {
    let a = 0.00147884224225867f64;
    let b = 1.67098454496329f64;
    let secs = rest as f64 / 1e9;
    let total_secs = total as f64 / 1e9;
    let r = (secs / a).powf((b + 0.0 * total_secs).recip());
    (r * 1e9) as u128
}

#[test]
fn pomodoro_break_clears_the_strain() {
    // 25 minutes of work, then the 5 minute break that they call for.
    let a = log(vec![closed(0, 25 * MIN)]);
    let r = a.summary(&compute_break, &compute_strain, 30 * MIN + 1_000_000_000);
    assert_eq!(r.0, Some(25 * MIN));
    assert_eq!(r.1, 0);
    assert_eq!(r.2, 25 * MIN);
    assert_eq!((r.3 + 500_000_000) / 1_000_000_000, 300);
}

#[test]
fn half_a_pomodoro_break_leaves_strain() {
    let a = log(vec![closed(0, 25 * MIN)]);
    let r = a.summary(&compute_break, &compute_strain, 25 * MIN + 150_000_000_000);
    assert!(r.1 > 0);
    assert!(r.1 < 25 * MIN);
    assert_eq!(r.3, 150_000_000_000);
}

#[test]
fn checked_summary_agrees_with_summary() {
    let a = log(vec![closed(0, 100), closed(130, 230)]);
    let r = a.checked_summary(&|s: u128, _w: u128| s, &|x: u128, _w: u128| x, 250);
    assert_eq!(r, Some((Some(230), 150, 200, 50)));
}

#[test]
fn checked_summary_refuses_a_period_ending_before_it_starts() {
    let a = log(vec![closed(100, 50)]);
    assert_eq!(a.checked_summary(&|s: u128, _w: u128| s, &|x: u128, _w: u128| x, 250), None);
}

#[test]
fn checked_summary_refuses_overlapping_periods() {
    let a = log(vec![closed(0, 100), closed(90, 120)]);
    assert_eq!(a.checked_summary(&|s: u128, _w: u128| s, &|x: u128, _w: u128| x, 250), None);
}

#[test]
fn checked_summary_refuses_a_time_before_the_last_end() {
    let a = log(vec![closed(0, 100)]);
    assert_eq!(a.checked_summary(&|s: u128, _w: u128| s, &|x: u128, _w: u128| x, 99), None);
}

#[test]
fn checked_summary_refuses_a_strain_past_the_largest_span() {
    let a = log(vec![closed(0, 100), closed(130, 230)]);
    let r = a.checked_summary(&|s: u128, _w: u128| s, &|_x: u128, _w: u128| u128::MAX / 2, 250);
    assert_eq!(r, None);
}

fn identity(x: u128, _w: u128) -> u128 {
    x
}

#[test]
fn switching_keeps_the_log_readable_later() {
    let mut a = log(vec![closed(0, 100)]);
    a.switch(150);
    assert!(a.checked_summary(&identity, &identity, 150).is_some());
    a.switch(200);
    assert!(a.checked_summary(&identity, &identity, 200).is_some());
    assert!(a.checked_summary(&identity, &identity, 1000).is_some());
}

#[test]
fn a_readable_log_stays_readable_later() {
    let a = log(vec![closed(0, 100), open(150)]);
    assert!(a.checked_summary(&identity, &identity, 150).is_some());
    assert!(a.checked_summary(&identity, &identity, 10_000).is_some());
}

#[test]
fn truncating_keeps_the_log_readable() {
    let mut a = log(vec![closed(0, 100), closed(120, 130), open(150)]);
    assert!(a.checked_summary(&identity, &identity, 200).is_some());
    a.truncate_until(110);
    assert!(a.checked_summary(&identity, &identity, 200).is_some());
}

#[test]
fn truncating_twice_is_truncating_once() {
    let mut a = log(vec![closed(0, 100), closed(120, 130), open(150)]);
    a.truncate_until(110);
    let once = a.list.clone();
    a.truncate_until(110);
    assert_eq!(a.list, once);
}

#[test]
fn summary_work_is_total_work_and_rest_within_idle() {
    // work spans 100 + 100 + 20, idle gaps 30 + 20
    let a = log(vec![closed(0, 100), closed(130, 230), open(250)]);
    let r = a.summary(&identity, &identity, 270);
    assert_eq!(r.0, None);
    assert_eq!(r.2, 220);
    assert!(r.3 <= 50);
    assert_eq!(r.3, 50);
}

#[test]
fn new_period_carries_the_strain_over() {
    let before = log(vec![closed(0, 100)]);
    let p = before.summary(&identity, &identity, 130);
    assert_eq!(p, (Some(100), 70, 100, 30));
    let after = log(vec![closed(0, 100), open(130)]);
    let g = after.summary(&identity, &identity, 150);
    assert_eq!(g, (None, p.1 + 20, p.2 + 20, p.3));
}

#[test]
fn ended_period_closes_the_running_summary() {
    let running = log(vec![closed(0, 100), open(130)]);
    let p = running.summary(&identity, &identity, 230);
    assert_eq!(p, (None, 170, 200, 30));
    let ended = log(vec![closed(0, 100), closed(130, 230)]);
    let g = ended.summary(&identity, &identity, 250);
    // due 170, 20 taken: 150 left, the rest grows by 20
    assert_eq!(g, (Some(230), 150, 200, 50));
}

#[test]
fn full_rest_clears_the_strain() {
    let a = log(vec![closed(0, 100)]);
    let g = a.summary(&identity, &identity, 200);
    assert_eq!(g, (Some(100), 0, 100, 100));
    let g = a.summary(&identity, &identity, 500);
    assert_eq!(g, (Some(100), 0, 100, 100));
}
