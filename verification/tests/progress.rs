use ldapfill::progress::{ProgressMessage, Throughput};

#[test]
fn messages_count_as_they_say() {
    assert_eq!(ProgressMessage::Progress.increment(), 1);
    assert_eq!(
        ProgressMessage::ProgressWithMessage(String::from("x")).increment(),
        1
    );
    assert_eq!(ProgressMessage::Message(String::from("x")).increment(), 0);
    assert_eq!(ProgressMessage::Progress.text(), None);
    assert_eq!(
        ProgressMessage::ProgressWithMessage(String::from("x")).text(),
        Some("x")
    );
    assert_eq!(ProgressMessage::Message(String::from("y")).text(), Some("y"));
}

#[test]
fn rate_is_due_after_a_second() {
    let mut throughput = Throughput::new();

    assert_eq!(throughput.record(&ProgressMessage::Progress, 0), None);
    assert_eq!(throughput.record(&ProgressMessage::Progress, 0), None);
    assert_eq!(
        throughput.record(&ProgressMessage::Message(String::from("x")), 0),
        None
    );
    assert_eq!(throughput, Throughput { count: 2, current_count: 2 });
    assert_eq!(throughput.record(&ProgressMessage::Progress, 1), Some(3));
    assert_eq!(throughput, Throughput { count: 3, current_count: 0 });
    assert_eq!(throughput.record(&ProgressMessage::Progress, 7), Some(1));
    assert_eq!(throughput, Throughput { count: 4, current_count: 0 });
}

#[test]
fn counts_stop_at_the_largest_number() {
    let mut throughput = Throughput { count: u64::MAX, current_count: u64::MAX - 1 };

    assert_eq!(throughput.record(&ProgressMessage::Progress, 0), None);
    assert_eq!(
        throughput,
        Throughput { count: u64::MAX, current_count: u64::MAX }
    );
    assert_eq!(throughput.record(&ProgressMessage::Progress, 2), Some(u64::MAX));
}

#[test]
fn average_is_the_whole_quotient() {
    let throughput = Throughput { count: 10, current_count: 0 };

    assert_eq!(throughput.average(1), 10);
    assert_eq!(throughput.average(3), 3);
    assert_eq!(throughput.average(11), 0);
}

#[test]
fn average_of_a_run_of_less_than_a_second_is_the_count() {
    let mut throughput = Throughput::new();

    assert_eq!(throughput.average(0), 0);
    for _ in 0..7 {
        assert_eq!(throughput.record(&ProgressMessage::Progress, 0), None);
    }
    assert_eq!(
        throughput.record(&ProgressMessage::Message(String::from("x")), 0),
        None
    );
    assert_eq!(throughput, Throughput { count: 7, current_count: 7 });
    assert_eq!(throughput.average(0), 7);
    assert_eq!(throughput.average(1), 7);
}
