use find_a_job::job::Job;
use find_a_job::job::JobDiscipline;
use find_a_job::job::JobLevel;
use find_a_job::store::reconcile;
use find_a_job::store::ReconcileEvent;
use find_a_job::store::Store;
use find_a_job::store::GRACE_DAYS;

fn posting(id: &str, source: &str, title: &str, now: i64) -> Job {
    Job::new(
        id.to_string(),
        source.to_string(),
        "SomeCo".to_string(),
        format!("https://example.com/{}", id),
        title.to_string(),
        now,
    )
}

fn batch(jobs: Vec<Job>) -> Store {
    let (store, _) = Store::from_postings(&jobs);
    store
}

#[test]
fn new_posting_inserts_with_first_seen_now() {
    let prev = Store::new();
    let incoming = batch(vec![posting("j1", "Acme", "Software Engineer", 100)]);
    let (next, events) = reconcile(&prev, "Acme", &incoming, 100);
    assert_eq!(next.len(), 1);
    let j = next.get("j1").expect("inserted posting");
    assert_eq!(j.first_seen, 100);
    assert!(j.missing_since.is_none());
    assert_eq!(j.source, "Acme");
    assert_eq!(events.len(), 1);
    assert!(matches!(&events[0], ReconcileEvent::New { id } if id == "j1"));
}

#[test]
fn missing_and_recovery_round_trip() {
    let empty = Store::new();
    let gen1 = batch(vec![posting("j1", "A", "Gameplay Programmer", 10)]);
    let (store1, _) = reconcile(&empty, "A", &gen1, 10);

    let gen2 = Store::new();
    let (store2, events2) = reconcile(&store1, "A", &gen2, 11);
    let j = store2.get("j1").expect("still stored while missing");
    assert_eq!(j.missing_since, Some(11));
    assert_eq!(j.first_seen, 10);
    assert_eq!(events2.len(), 1);
    assert!(matches!(&events2[0], ReconcileEvent::Missing { id, days } if id == "j1" && *days == 1));

    let gen3 = batch(vec![posting("j1", "A", "Gameplay Programmer", 12)]);
    let (store3, events3) = reconcile(&store2, "A", &gen3, 12);
    let j = store3.get("j1").expect("recovered posting");
    assert!(j.missing_since.is_none());
    assert_eq!(j.first_seen, 10, "first_seen carried over from generation 1");
    assert_eq!(events3.len(), 1);
    assert!(
        matches!(&events3[0], ReconcileEvent::Recovered { id, days } if id == "j1" && *days == 1)
    );
}

#[test]
fn eviction_at_grace_period_boundary() {
    let mut stale = posting("j1", "A", "Software Engineer", 0);
    stale.missing_since = Some(10);
    let prev = batch(vec![stale]);
    let empty = Store::new();

    let (kept, _) = reconcile(&prev, "A", &empty, 10 + GRACE_DAYS - 1);
    assert!(kept.get("j1").is_some(), "one day before the grace period ends");

    let (evicted, _) = reconcile(&prev, "A", &empty, 10 + GRACE_DAYS);
    assert!(evicted.get("j1").is_none(), "missing for the whole grace period");
}

#[test]
fn cross_source_isolation() {
    let mut b_stale = posting("b1", "B", "Executive Producer", 0);
    b_stale.missing_since = Some(0);
    let b_fresh = posting("b2", "B", "Software Engineer", 5);
    let a_job = posting("a1", "A", "QA Tester", 5);
    let prev = batch(vec![b_stale, b_fresh, a_job]);

    let empty = Store::new();
    let (next, events) = reconcile(&prev, "A", &empty, 100);

    let b1 = next.get("b1").expect("stale posting of another source stays");
    assert_eq!(b1.missing_since, Some(0), "not evicted, not re-marked");
    let b2 = next.get("b2").expect("fresh posting of another source stays");
    assert!(b2.missing_since.is_none());
    let a1 = next.get("a1").expect("marked missing, not yet evicted");
    assert_eq!(a1.missing_since, Some(100));
    assert_eq!(events.len(), 1);
    assert!(matches!(&events[0], ReconcileEvent::Missing { id, .. } if id == "a1"));
}

#[test]
fn duplicate_ids_in_batch_keep_last() {
    let first = posting("j1", "A", "Old Title Writer", 7);
    let second = posting("j1", "A", "Gameplay Programmer", 7);
    let other = posting("j2", "A", "QA Tester", 7);
    let (store, dups) = Store::from_postings(&vec![first, second, other]);
    assert_eq!(dups, 1);
    assert_eq!(store.len(), 2);
    let j = store.get("j1").expect("deduplicated posting");
    assert_eq!(j.title, "Gameplay Programmer");
    assert_eq!(j.discipline, JobDiscipline::Programmer);
}

#[test]
fn refresh_overwrites_observation_but_not_first_seen() {
    let empty = Store::new();
    let gen1 = batch(vec![posting("j1", "A", "Junior QA Tester", 1)]);
    let (store1, _) = reconcile(&empty, "A", &gen1, 1);

    let mut renamed = posting("j1", "A", "Senior Gameplay Programmer", 9);
    renamed.company = "NewCo".to_string();
    let gen2 = batch(vec![renamed]);
    let (store2, events2) = reconcile(&store1, "A", &gen2, 9);

    let j = store2.get("j1").expect("refreshed posting");
    assert_eq!(j.first_seen, 1);
    assert_eq!(j.title, "Senior Gameplay Programmer");
    assert_eq!(j.company, "NewCo");
    assert_eq!(j.level, JobLevel::Senior);
    assert!(j.missing_since.is_none());
    assert!(events2.is_empty(), "a plain re-observation reports nothing");
}

#[test]
fn fix_jobs_reclassifies_without_touching_lifecycle() {
    let mut mislabelled = posting("j1", "A", "Director of Engineering", 3);
    mislabelled.level = JobLevel::Entry;
    mislabelled.discipline = JobDiscipline::Programmer;
    mislabelled.missing_since = Some(4);
    let (mut store, _) = Store::from_postings(&vec![mislabelled]);

    store.fix_jobs();

    let j = store.get("j1").expect("posting kept");
    assert_eq!(j.level, JobLevel::Lead);
    assert_eq!(j.discipline, JobDiscipline::Manager);
    assert_eq!(j.first_seen, 3);
    assert_eq!(j.missing_since, Some(4));
    assert_eq!(j.title, "Director of Engineering");
}
