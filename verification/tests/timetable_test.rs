use cron_rs::cron::{comes_before, Entry, Timetable};
use cron_rs::duration::Duration;
use cron_rs::parser::parse_standard;
use cron_rs::schedule::ParsedSchedule;
use cron_rs::time::{DateTime, Location};

fn utc(secs: i64) -> DateTime {
    DateTime::from_timestamp(secs, 0, Location::from_name("UTC").unwrap()).unwrap()
}

fn entry(id: usize, spec: &str) -> Entry<ParsedSchedule, u32> {
    Entry {
        id,
        schedule: parse_standard(spec).unwrap(),
        next: None,
        prev: None,
        wrapped_job: id as u32,
        job: id as u32,
    }
}

fn ids(t: &Timetable<ParsedSchedule, u32>) -> Vec<usize> {
    t.entries.iter().map(|e| e.id).collect()
}

// 2012-07-09T14:45:00Z
const NOW: i64 = 1341845100;

#[test]
fn entries_are_sorted_by_next_activation() {
    let mut t = Timetable::new();
    t.add(entry(1, "0 0 1 1 *"));
    t.add(entry(2, "* * * * *"));
    t.add(entry(3, "0 15 * * *"));
    t.add(entry(4, "0 0 30 Feb *"));
    t.add(entry(5, "@every 1h"));
    t.schedule_all(utc(NOW));
    t.sort();
    assert_eq!(ids(&t), vec![2, 3, 5, 1, 4]);
    assert_eq!(t.entries[0].next.unwrap().timestamp(), NOW + 60);
    assert!(t.entries[4].next.is_none());
}

#[test]
fn equal_times_keep_their_order() {
    let mut t = Timetable::new();
    t.add(entry(7, "* * * * *"));
    t.add(entry(3, "* * * * *"));
    t.add(entry(5, "* * * * *"));
    t.schedule_all(utc(NOW));
    t.sort();
    assert_eq!(ids(&t), vec![7, 3, 5]);
}

#[test]
fn wait_until_the_first_entry() {
    let mut t: Timetable<ParsedSchedule, u32> = Timetable::new();
    assert_eq!(t.wait(utc(NOW)), Duration::hours(100_000));
    t.add(entry(1, "0 15 * * *"));
    t.schedule_all(utc(NOW));
    t.sort();
    assert_eq!(t.wait(utc(NOW)), Duration::minutes(15));
    assert_eq!(t.wait(utc(NOW + 900)), Duration::seconds(0));
    assert_eq!(t.wait(utc(NOW + 1000)), Duration::seconds(0));
    let half = DateTime::from_timestamp(NOW, 500_000_000, Location::from_name("UTC").unwrap()).unwrap();
    assert_eq!(t.wait(half), Duration::milliseconds(899_500));
}

#[test]
fn due_entries_run_and_move_on() {
    let mut t = Timetable::new();
    t.add(entry(1, "* * * * *"));
    t.add(entry(2, "0 15 * * *"));
    t.schedule_all(utc(NOW));
    t.sort();
    let due = t.run_due(utc(NOW + 60));
    assert_eq!(due, vec![0]);
    assert_eq!(t.entries[0].prev.unwrap().timestamp(), NOW + 60);
    assert_eq!(t.entries[0].next.unwrap().timestamp(), NOW + 120);
    assert_eq!(t.entries[1].next.unwrap().timestamp(), NOW + 900);
    assert!(t.entries[1].prev.is_none());
    let due = t.run_due(utc(NOW + 900));
    assert_eq!(due, vec![0, 1]);
    assert_eq!(t.entries[1].next.unwrap().timestamp(), NOW + 900 + 86400);
}

#[test]
fn removed_entries_do_not_come_back() {
    let mut t = Timetable::new();
    t.add(entry(1, "* * * * *"));
    t.add(entry(2, "* * * * *"));
    t.add(entry(1, "@hourly"));
    t.remove(1);
    assert_eq!(ids(&t), vec![2]);
    assert!(t.removed.contains(&1));
    assert_eq!(t.position(2), Some(0));
    assert_eq!(t.position(1), None);
    assert!(!t.take_in(entry(1, "* * * * *"), utc(NOW)));
    assert_eq!(ids(&t), vec![2]);
    assert!(t.take_in(entry(3, "* * * * *"), utc(NOW)));
    assert_eq!(ids(&t), vec![2, 3]);
    assert_eq!(t.entries[1].next.unwrap().timestamp(), NOW + 60);
    t.remove(42);
    assert_eq!(ids(&t), vec![2, 3]);
}

#[test]
fn entry_validity_and_time_order() {
    assert!(!entry(0, "* * * * *").valid());
    assert!(entry(9, "* * * * *").valid());
    assert!(comes_before(&Some(utc(1)), &Some(utc(2))));
    assert!(!comes_before(&Some(utc(2)), &Some(utc(2))));
    assert!(comes_before(&Some(utc(5)), &None));
    assert!(!comes_before(&None, &Some(utc(5))));
    assert!(!comes_before(&None, &None));
}

#[test]
fn sorting_twice_changes_nothing() {
    let mut t = Timetable::new();
    t.add(entry(4, "@every 1h"));
    t.add(entry(1, "0 15 * * *"));
    t.add(entry(2, "* * * * *"));
    t.add(entry(3, "@every 1h"));
    t.schedule_all(utc(NOW));
    t.sort();
    let once = ids(&t);
    t.sort();
    assert_eq!(ids(&t), once);
    assert_eq!(once, vec![2, 1, 4, 3]);
}

#[test]
fn a_removed_id_stays_out() {
    let mut t = Timetable::new();
    t.add(entry(1, "* * * * *"));
    t.add(entry(2, "* * * * *"));
    t.schedule_all(utc(NOW));
    t.remove(1);
    assert!(!t.take_in(entry(1, "* * * * *"), utc(NOW)));
    t.sort();
    let due = t.run_due(utc(NOW + 60));
    assert_eq!(due, vec![0]);
    assert_eq!(ids(&t), vec![2]);
}

#[test]
fn an_entry_without_a_next_time_never_runs() {
    let mut t = Timetable::new();
    t.add(entry(1, "0 0 30 Feb *"));
    t.add(entry(2, "* * * * *"));
    t.schedule_all(utc(NOW));
    assert!(t.entries[0].next.is_none());
    assert_eq!(t.run_due(utc(NOW + 60)), vec![1]);
    assert_eq!(t.run_due(utc(NOW + 120)), vec![1]);
    assert!(t.entries[0].prev.is_none());
}
