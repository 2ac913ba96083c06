use ldapfill::scheduler::{entry_count, task_count, worker_count, Action, Job, Scheduler};

fn hierarchy() -> Vec<(String, u64)> {
    vec![(String::from("dept"), 2), (String::from("user"), 3)]
}

/// Runs the scheduler to its end. Every job is answered at once: the entry
/// is written unless `fails` names it. Returns the jobs with the names of
/// the entries.
fn run(mut scheduler: Scheduler, fails: &[&str]) -> Vec<(Job, String)> {
    let mut jobs: Vec<(Job, String)> = Vec::new();
    let mut waiting: Vec<String> = Vec::new();
    let mut number = 0;
    loop {
        match scheduler.next_action() {
            Action::Dispatch(job) => {
                let path = format!("{}={},{}", job.object_class, number, job.parent);
                number += 1;
                waiting.push(path.clone());
                jobs.push((job, path));
            }
            Action::Gather => {
                assert!(!waiting.is_empty());
                assert_eq!(scheduler.pending(), waiting.len() as u64);
                for path in waiting.drain(..) {
                    if fails.contains(&path.as_str()) {
                        scheduler.reply(None);
                    } else {
                        scheduler.reply(Some(path));
                    }
                }
            }
            Action::Finished => break,
        }
    }
    assert!(scheduler.is_finished());
    assert_eq!(scheduler.pending(), 0);
    jobs
}

fn count(jobs: &[(Job, String)], class: &str, parent: &str) -> usize {
    jobs.iter()
        .filter(|(job, _)| job.object_class == class && job.parent == parent)
        .count()
}

#[test]
fn two_departments_and_six_users_when_every_write_succeeds() {
    let jobs = run(Scheduler::new(String::from("dc=x"), hierarchy(), 4), &[]);

    assert_eq!(jobs.len(), 8);
    assert_eq!(count(&jobs, "dept", "dc=x"), 2);
    assert_eq!(count(&jobs, "user", "dept=0,dc=x"), 3);
    assert_eq!(count(&jobs, "user", "dept=1,dc=x"), 3);
    assert_eq!(
        jobs.iter().filter(|(job, _)| job.object_class == "user").count(),
        6
    );
}

#[test]
fn no_user_below_a_department_that_was_not_written() {
    let jobs = run(
        Scheduler::new(String::from("dc=x"), hierarchy(), 4),
        &["dept=0,dc=x"],
    );

    assert_eq!(count(&jobs, "dept", "dc=x"), 2);
    assert_eq!(count(&jobs, "user", "dept=0,dc=x"), 0);
    assert_eq!(count(&jobs, "user", "dept=1,dc=x"), 3);
    assert_eq!(jobs.len(), 5);
}

#[test]
fn nothing_below_a_level_that_was_not_written_at_all() {
    let jobs = run(
        Scheduler::new(String::from("dc=x"), hierarchy(), 4),
        &["dept=0,dc=x", "dept=1,dc=x"],
    );

    assert_eq!(jobs.len(), 2);
}

#[test]
fn levels_come_one_after_the_other() {
    let jobs = run(
        Scheduler::new(
            String::from("dc=x"),
            vec![
                (String::from("a"), 2),
                (String::from("b"), 2),
                (String::from("c"), 2),
            ],
            1,
        ),
        &[],
    );
    let classes: Vec<&str> = jobs.iter().map(|(job, _)| job.object_class.as_str()).collect();

    assert_eq!(
        classes,
        vec!["a", "a", "b", "b", "b", "b", "c", "c", "c", "c", "c", "c", "c", "c"]
    );
}

#[test]
fn jobs_go_to_the_workers_in_turn() {
    let jobs = run(
        Scheduler::new(String::from("dc=x"), vec![(String::from("user"), 7)], 3),
        &[],
    );
    let workers: Vec<u64> = jobs.iter().map(|(job, _)| job.worker).collect();

    assert_eq!(workers, vec![0, 1, 2, 0, 1, 2, 0]);
}

#[test]
fn the_turn_starts_again_with_every_parent() {
    let jobs = run(Scheduler::new(String::from("dc=x"), hierarchy(), 2), &[]);
    let workers: Vec<u64> = jobs.iter().map(|(job, _)| job.worker).collect();

    assert_eq!(workers, vec![0, 1, 0, 1, 0, 0, 1, 0]);
}

#[test]
fn replies_may_come_before_all_jobs_are_out() {
    let mut scheduler = Scheduler::new(String::from("dc=x"), hierarchy(), 2);

    assert_eq!(
        scheduler.next_action(),
        Action::Dispatch(Job {
            worker: 0,
            parent: String::from("dc=x"),
            object_class: String::from("dept"),
        })
    );
    scheduler.reply(Some(String::from("ou=a,dc=x")));
    assert_eq!(scheduler.pending(), 0);
    assert_eq!(
        scheduler.next_action(),
        Action::Dispatch(Job {
            worker: 1,
            parent: String::from("dc=x"),
            object_class: String::from("dept"),
        })
    );
    assert_eq!(scheduler.next_action(), Action::Gather);
    assert_eq!(scheduler.next_action(), Action::Gather);
    scheduler.reply(None);
    assert_eq!(
        scheduler.next_action(),
        Action::Dispatch(Job {
            worker: 0,
            parent: String::from("ou=a,dc=x"),
            object_class: String::from("user"),
        })
    );
}

#[test]
fn empty_hierarchy_is_finished_at_once() {
    let mut scheduler = Scheduler::new(String::from("dc=x"), vec![], 0);

    assert!(scheduler.is_finished());
    assert_eq!(scheduler.next_action(), Action::Finished);
    assert_eq!(scheduler.next_action(), Action::Finished);
}

#[test]
fn count_of_zero_ends_the_generation() {
    let first = run(
        Scheduler::new(
            String::from("dc=x"),
            vec![(String::from("dept"), 0), (String::from("user"), 3)],
            0,
        ),
        &[],
    );
    let second = run(
        Scheduler::new(
            String::from("dc=x"),
            vec![
                (String::from("dept"), 2),
                (String::from("user"), 0),
                (String::from("device"), 5),
            ],
            2,
        ),
        &[],
    );

    assert_eq!(first.len(), 0);
    assert_eq!(second.len(), 2);
}

#[test]
fn worker_count_is_twelve_for_each_core_but_no_more_than_the_first_level() {
    assert_eq!(worker_count(4, 1000), 48);
    assert_eq!(worker_count(4, 48), 48);
    assert_eq!(worker_count(4, 47), 47);
    assert_eq!(worker_count(4, 10), 10);
    assert_eq!(worker_count(1, 0), 0);
    assert_eq!(worker_count(0, 5), 0);
    assert_eq!(worker_count(usize::MAX, 7), 7);
    assert_eq!(worker_count(usize::MAX, u64::MAX), u64::MAX);
}

#[test]
fn task_count_is_at_least_one_where_there_is_work() {
    assert_eq!(task_count(0), 0);
    assert_eq!(task_count(1), 1);
    assert_eq!(task_count(5), 5);
    let many = task_count(1_000_000);
    assert!(many >= 12);
    assert_eq!(many % 12, 0);
}

#[test]
fn entry_count_is_the_product_of_the_counts() {
    assert_eq!(entry_count(&hierarchy()), 6);
    assert_eq!(entry_count(&vec![]), 1);
    assert_eq!(
        entry_count(&vec![
            (String::from("a"), 1000),
            (String::from("b"), 1000),
            (String::from("c"), 7)
        ]),
        7_000_000
    );
}

#[test]
fn entry_count_stops_at_the_largest_number_unless_a_count_is_zero() {
    let large = vec![
        (String::from("a"), u64::MAX),
        (String::from("b"), 2),
        (String::from("c"), 3),
    ];
    let mut with_zero = large.clone();
    with_zero.push((String::from("d"), 0));
    let mut after_zero = with_zero.clone();
    after_zero.push((String::from("e"), 5));

    assert_eq!(entry_count(&large), u64::MAX);
    assert_eq!(entry_count(&with_zero), 0);
    assert_eq!(entry_count(&after_zero), 0);
    assert_eq!(entry_count(&vec![(String::from("a"), u64::MAX)]), u64::MAX);
}

#[test]
fn scheduler_never_waits_where_every_job_is_answered_at_once() {
    let mut scheduler = Scheduler::new(String::from("dc=x"), hierarchy(), 1);
    let mut jobs = 0;
    loop {
        match scheduler.next_action() {
            Action::Dispatch(job) => {
                jobs += 1;
                scheduler.reply(Some(format!("n={},{}", jobs, job.parent)));
                assert_eq!(scheduler.pending(), 0);
            }
            Action::Gather => panic!("no reply is awaited"),
            Action::Finished => break,
        }
    }

    assert_eq!(jobs, 8);
}
