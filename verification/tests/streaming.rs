use badge_kiosk::queue::{build_job, ingest_decision, BadgeJob, CheckinEvent, JobQueue};

fn job(name: &str) -> BadgeJob {
    BadgeJob { display_name: String::from(name), minor: false }
}

#[test]
fn only_successful_events_become_jobs() {
    let hit = CheckinEvent { successful: true, display_name: String::from("Grace Hopper") };
    assert_eq!(ingest_decision(&hit).as_deref(), Some("Grace Hopper"));
    let miss = CheckinEvent { successful: false, display_name: String::from("Grace Hopper") };
    assert_eq!(ingest_decision(&miss), None);
}

#[test]
fn pickup_authorizations_mark_a_minor() {
    let with = build_job(String::from("Sam"), 2);
    assert!(with.minor);
    assert_eq!(with.display_name.as_str(), "Sam");
    let without = build_job(String::from("Sam"), 0);
    assert!(!without.minor);
}

#[test]
fn queue_hands_jobs_out_in_submission_order() {
    let mut q = JobQueue::new(8);
    for name in ["first", "second", "third"] {
        assert!(q.try_submit(job(name)));
    }
    assert_eq!(q.len(), 3);
    assert_eq!(q.take().unwrap().display_name.as_str(), "first");
    assert_eq!(q.take().unwrap().display_name.as_str(), "second");
    assert_eq!(q.take().unwrap().display_name.as_str(), "third");
    assert!(q.take().is_none());
}

#[test]
fn batch_within_capacity_is_printed_whole_and_in_order() {
    let submitted = ["j1", "j2", "j3", "j4", "j5"];
    let mut q = JobQueue::new(submitted.len());
    for name in submitted {
        assert!(q.try_submit(job(name)));
    }
    let printed = q.drain_all();
    assert_eq!(printed.len(), submitted.len());
    for (out, expected) in printed.iter().zip(submitted) {
        assert_eq!(out.display_name.as_str(), expected);
    }
    assert_eq!(q.len(), 0);
}

#[test]
fn full_queue_blocks_until_a_worker_drains_one() {
    let mut q = JobQueue::new(2);
    assert!(q.try_submit(job("j1")));
    assert!(q.try_submit(job("j2")));
    assert!(!q.try_submit(job("j3")));
    assert_eq!(q.len(), 2);

    let drained = q.take().unwrap();
    assert_eq!(drained.display_name.as_str(), "j1");
    assert!(q.try_submit(job("j3")));
    assert_eq!(q.take().unwrap().display_name.as_str(), "j2");
    assert_eq!(q.take().unwrap().display_name.as_str(), "j3");
}

#[test]
fn capacity_is_fixed() {
    let mut q = JobQueue::new(4);
    assert_eq!(q.capacity(), 4);
    q.try_submit(job("j1"));
    assert_eq!(q.capacity(), 4);
}
