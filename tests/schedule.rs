use gradient::config::{Config, TimeWalpapperConfig};
use gradient::control::{ScheduleLoop, Supervisor, SupervisorAction, FALLBACK_SLEEP_MS};
use gradient::structs::{ChangeWallpapper, ScheduleError, TimeOfDay, TimeWallpapper, DAY_MS};

const HOUR_MS: u32 = 3_600_000;

fn entry(time: &str, wallpapper: &str) -> TimeWalpapperConfig {
    TimeWalpapperConfig::new(time.to_string(), wallpapper.to_string())
}

fn schedule(entries: &[(&str, &str)]) -> Result<ChangeWallpapper, ScheduleError> {
    let plan = entries.iter().map(|(t, w)| entry(t, w)).collect();
    ChangeWallpapper::new_at_time(&Config::from_plan(plan))
}

fn at(hour: u32, minute: u32) -> TimeOfDay {
    TimeOfDay::from_hms(hour, minute, 0).unwrap()
}

fn day_schedule() -> ChangeWallpapper {
    schedule(&[("17:00", "evening.png"), ("08:00", "morning.png")]).unwrap()
}

#[test]
fn wraparound_before_first_entry() {
    let s = day_schedule();
    let (e, wait) = s.wallpapper(at(3, 0)).unwrap();
    assert_eq!(e.wallpapper, "evening.png");
    assert_eq!(e.time, at(17, 0));
    assert_eq!(wait, 5 * HOUR_MS);
}

#[test]
fn same_day_between_entries() {
    let s = day_schedule();
    let (e, wait) = s.wallpapper(at(10, 0)).unwrap();
    assert_eq!(e.wallpapper, "morning.png");
    assert_eq!(wait, 7 * HOUR_MS);
}

#[test]
fn query_at_entry_time_selects_that_entry() {
    let s = day_schedule();
    let (e, wait) = s.wallpapper(at(8, 0)).unwrap();
    assert_eq!(e.wallpapper, "morning.png");
    assert_eq!(wait, 9 * HOUR_MS);
}

#[test]
fn after_last_entry_waits_until_tomorrow() {
    let s = day_schedule();
    let (e, wait) = s.wallpapper(at(23, 30)).unwrap();
    assert_eq!(e.wallpapper, "evening.png");
    assert_eq!(wait, 8 * HOUR_MS + 30 * 60_000);
}

#[test]
fn single_entry_is_always_active() {
    let s = schedule(&[("12:00", "noon.png")]).unwrap();
    let (e, wait) = s.wallpapper(at(12, 0)).unwrap();
    assert_eq!(e.wallpapper, "noon.png");
    assert_eq!(wait, DAY_MS);
    let (e, wait) = s.wallpapper(at(15, 0)).unwrap();
    assert_eq!(e.wallpapper, "noon.png");
    assert_eq!(wait, 21 * HOUR_MS);
    let (e, wait) = s.wallpapper(at(9, 0)).unwrap();
    assert_eq!(e.wallpapper, "noon.png");
    assert_eq!(wait, 3 * HOUR_MS);
}

#[test]
fn repeated_query_gives_same_result() {
    let s = day_schedule();
    let now = TimeOfDay::from_millis(37_123_456).unwrap();
    assert_eq!(s.active_at(now), s.active_at(now));
    assert_eq!(s.active_at(now), Some((0, 61_200_000 - 37_123_456)));
}

#[test]
fn entries_are_sorted_by_time() {
    let s = schedule(&[("20:15", "c"), ("00:00", "a"), ("08:30", "b")]).unwrap();
    match s {
        ChangeWallpapper::AtTime { tw } => {
            let times: Vec<u32> = tw.iter().map(|e| e.time.millis).collect();
            assert_eq!(times, vec![0, 30_600_000, 72_900_000]);
            let names: Vec<&str> = tw.iter().map(|e| e.wallpapper.as_str()).collect();
            assert_eq!(names, vec!["a", "b", "c"]);
        }
        ChangeWallpapper::EveryMin { .. } => panic!("expected a time schedule"),
    }
}

#[test]
fn invalid_time_fails_construction() {
    let r = schedule(&[("08:00", "a"), ("25:99", "b")]);
    assert_eq!(r.unwrap_err(), ScheduleError::InvalidTime { index: 1 });
}

#[test]
fn malformed_time_string_is_invalid() {
    assert_eq!(schedule(&[("noon", "a")]).unwrap_err(), ScheduleError::InvalidTime { index: 0 });
    assert!(TimeWallpapper::new("24:00", "a").is_err());
    let e = TimeWallpapper::new("23:59", "late.png").unwrap();
    assert_eq!(e.time.millis, 86_340_000);
    assert_eq!(e.wallpapper, "late.png");
}

#[test]
fn empty_source_fails_construction() {
    assert_eq!(schedule(&[]).unwrap_err(), ScheduleError::Empty);
}

#[test]
fn duplicate_time_fails_construction() {
    let r = schedule(&[("08:00", "a"), ("09:00", "b"), ("08:00", "c"), ("99:00", "d")]);
    assert_eq!(r.unwrap_err(), ScheduleError::DuplicateTime { index: 2 });
}

#[test]
fn every_min_schedule_has_no_active_entry() {
    let s = ChangeWallpapper::EveryMin { every: 5, wallpappers: vec!["a".to_string()] };
    assert!(s.wallpapper(at(10, 0)).is_none());
    let step = ScheduleLoop::new().tick(&s, at(10, 0));
    assert_eq!(step.apply, None);
    assert_eq!(step.sleep_ms, FALLBACK_SLEEP_MS);
}

#[test]
fn time_of_day_bounds() {
    assert!(TimeOfDay::from_millis(DAY_MS).is_none());
    assert_eq!(TimeOfDay::from_millis(DAY_MS - 1).unwrap().millis, DAY_MS - 1);
    assert!(TimeOfDay::from_hms(24, 0, 0).is_none());
    assert!(TimeOfDay::from_hms(23, 60, 0).is_none());
    assert_eq!(TimeOfDay::from_hms(1, 2, 3).unwrap().millis, 3_723_000);
}

#[test]
fn config_accessors() {
    let c = Config::from_plan(vec![entry("07:45", "dawn.png")]);
    assert_eq!(c.plan().len(), 1);
    assert_eq!(c.plan()[0].time(), "07:45");
    assert_eq!(c.plan()[0].wallpapper(), "dawn.png");
}

#[test]
fn loop_applies_first_then_only_on_change() {
    let s = day_schedule();
    let mut l = ScheduleLoop::new();
    let step = l.tick(&s, at(16, 59));
    assert_eq!(step.apply, Some(0));
    assert_eq!(step.sleep_ms, 60_000);
    l.applied(0, true);
    let step = l.tick(&s, at(16, 59));
    assert_eq!(step.apply, None);
    let step = l.tick(&s, at(17, 0));
    assert_eq!(step.apply, Some(1));
    assert_eq!(step.sleep_ms, FALLBACK_SLEEP_MS);
}

#[test]
fn loop_retries_after_failed_apply() {
    let s = day_schedule();
    let mut l = ScheduleLoop::new();
    assert_eq!(l.tick(&s, at(9, 0)).apply, Some(0));
    l.applied(0, false);
    assert_eq!(l.tick(&s, at(9, 1)).apply, Some(0));
    l.applied(0, true);
    assert_eq!(l.tick(&s, at(9, 2)).apply, None);
}

#[test]
fn loop_sleeps_until_next_entry_when_close() {
    let s = day_schedule();
    let now = TimeOfDay::from_millis(61_200_000 - 1_500).unwrap();
    assert_eq!(ScheduleLoop::new().tick(&s, now).sleep_ms, 1_500);
}

#[test]
fn two_rapid_resumes_keep_one_loop() {
    let mut sup = Supervisor::new();
    let mut running: u32 = 0;
    let apply = |a: SupervisorAction, running: &mut u32| {
        if a.cancel {
            *running -= 1;
        }
        if a.start {
            *running += 1;
        }
        assert!(*running <= 1);
    };
    apply(sup.on_startup(), &mut running);
    let a = sup.on_event(false, false);
    assert_eq!(a, SupervisorAction { cancel: true, start: true });
    apply(a, &mut running);
    apply(sup.on_event(false, false), &mut running);
    assert_eq!(running, 1);
}

#[test]
fn sleep_cancels_and_does_not_restart() {
    let mut sup = Supervisor::new();
    sup.on_startup();
    assert_eq!(sup.on_event(true, false), SupervisorAction { cancel: true, start: false });
    assert!(!sup.loop_live);
    assert_eq!(sup.on_event(true, false), SupervisorAction { cancel: false, start: false });
    assert_eq!(sup.on_event(false, false), SupervisorAction { cancel: false, start: true });
}

#[test]
fn finished_loop_is_not_cancelled() {
    let mut sup = Supervisor::new();
    sup.on_startup();
    assert_eq!(sup.on_event(false, true), SupervisorAction { cancel: false, start: true });
}
