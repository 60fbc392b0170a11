use find_a_job::job::Job;
use find_a_job::job::JobDiscipline;
use find_a_job::rank::list;
use find_a_job::rank::ranked;
use find_a_job::store::Store;

fn posting(id: &str, title: &str, now: i64) -> Job {
    Job::new(
        id.to_string(),
        "A".to_string(),
        "SomeCo".to_string(),
        format!("https://example.com/{}", id),
        title.to_string(),
        now,
    )
}

#[test]
fn score_uses_the_fixed_weight_table() {
    assert_eq!(posting("j", "Software Engineer", 0).score(), 1000);
    assert_eq!(posting("j", "Gameplay Programmer", 0).score(), 2000);
    assert_eq!(posting("j", "Executive Producer", 0).score(), -11500);
    assert_eq!(posting("j", "General Application", 0).score(), -1200);
    assert_eq!(posting("j", "Senior Web Developer", 0).score(), -5500);
}

#[test]
fn non_programmer_without_specialty_is_never_desirable() {
    let titles = [
        "Level Designer",
        "Environment Artist",
        "Writer",
        "Composer",
        "QA Tester",
        "Executive Producer",
        "Incident Responder",
        "Associate Data Analyst",
    ];
    for title in titles {
        let j = posting("j", title, 0);
        assert_ne!(j.discipline, JobDiscipline::Programmer, "{}", title);
        assert_eq!(j.specialty, None, "{}", title);
        assert!(j.score() <= 0, "{} scored {}", title, j.score());
        assert!(!j.is_desirable(), "{}", title);
    }
}

#[test]
fn undesirable_postings_come_before_desirable_ones() {
    let store = {
        let jobs = vec![
            posting("good", "Gameplay Programmer", 0),
            posting("bad", "Executive Producer", 0),
        ];
        let (s, _) = Store::from_postings(&jobs);
        s
    };
    let order = ranked(&store, 0);
    assert_eq!(order.len(), 2);
    assert_eq!(order[0].id, "bad");
    assert_eq!(order[1].id, "good");
}

#[test]
fn fresher_postings_come_later() {
    let jobs = vec![
        posting("today", "Gameplay Programmer", 100),
        posting("this_week", "Gameplay Programmer", 97),
        posting("old", "Gameplay Programmer", 50),
    ];
    let (store, _) = Store::from_postings(&jobs);
    let order = ranked(&store, 100);
    let ids: Vec<&str> = order.iter().map(|j| j.id.as_str()).collect();
    assert_eq!(ids, ["old", "this_week", "today"]);
}

#[test]
fn higher_net_value_comes_later_within_a_bucket() {
    let jobs = vec![
        posting("se", "Software Engineer", 60),
        posting("gp", "Gameplay Programmer", 50),
    ];
    let (store, _) = Store::from_postings(&jobs);
    let order = ranked(&store, 100);
    let ids: Vec<&str> = order.iter().map(|j| j.id.as_str()).collect();
    assert_eq!(ids, ["se", "gp"], "both old, higher score less age wins");
}

#[test]
fn equal_postings_sort_by_title_ascending() {
    let jobs = vec![
        posting("b", "Gameplay Programmer Beta", 10),
        posting("a", "Gameplay Programmer Alpha", 10),
    ];
    let (store, _) = Store::from_postings(&jobs);
    let first = ranked(&store, 20);
    let second = ranked(&store, 20);
    let ids: Vec<&str> = first.iter().map(|j| j.id.as_str()).collect();
    assert_eq!(ids, ["a", "b"], "title is the final tie-break, ascending");
    let again: Vec<&str> = second.iter().map(|j| j.id.as_str()).collect();
    assert_eq!(ids, again, "identical order across repeated runs");
}

#[test]
fn list_omits_missing_postings() {
    let mut gone = posting("gone", "Gameplay Programmer", 10);
    gone.missing_since = Some(12);
    let jobs = vec![posting("here", "Gameplay Programmer", 10), gone];
    let (store, _) = Store::from_postings(&jobs);

    let visible = list(&store, 20);
    assert_eq!(visible.len(), 1);
    assert_eq!(visible[0].id, "here");

    let everything = ranked(&store, 20);
    assert_eq!(everything.len(), 2);
}
