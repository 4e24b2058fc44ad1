use kafka_toy::app_state::{App, PartitionCounts, PartitionCountsExt};
use kafka_toy::config::{CliOptions, Offset};
use kafka_toy::pipeline::{
    consumer_settings, is_match, process_message, process_messages, topic_partitions,
};

fn options() -> CliOptions {
    CliOptions {
        bootstrap_servers: "broker:9092".to_owned(),
        topic: "events".to_owned(),
        group_id: "watchers".to_owned(),
        offset: Offset::Earliest,
        filter: ".level".to_owned(),
    }
}

// The filter engine prints the selected value for a match and a bare `null`
// line for a payload the filter does not select.
fn engine_match() -> Option<String> {
    Some("{\"level\":\"error\"}\n".to_owned())
}

fn engine_no_match() -> Option<String> {
    Some("null\n".to_owned())
}

#[test]
fn match_is_anything_but_the_null_line() {
    assert!(is_match(&engine_match()));
    assert!(!is_match(&engine_no_match()));
    assert!(!is_match(&None));
}

#[test]
fn error_level_messages_are_counted_per_partition() {
    // Partitions 0, 1 and 2; only `{"level":"error"}` payloads match. One
    // miss on 0, two hits on 1, one hit on 2.
    let mut store = PartitionCounts::from_partitions(&[0, 1, 2]);
    let messages = vec![
        (0, engine_no_match()),
        (1, engine_match()),
        (2, engine_match()),
        (1, engine_match()),
    ];
    process_messages(&mut store, &messages);
    assert_eq!(store.snapshot(), vec![(0, 0), (1, 2), (2, 1)]);
}

#[test]
fn counter_sum_equals_number_of_matches() {
    let mut store = PartitionCounts::from_partitions(&[0, 1, 2, 3]);
    let messages = vec![
        (0, engine_match()),
        (1, engine_no_match()),
        (3, engine_match()),
        (3, engine_match()),
        (2, None),
        (0, engine_match()),
    ];
    process_messages(&mut store, &messages);
    let total: u64 = store.snapshot().iter().map(|e| e.1).sum();
    assert_eq!(total, 4);
}

#[test]
fn unseen_partition_is_inserted_on_demand() {
    // An empty partition list at initialization, then a matching message for
    // previously-unseen partition 5.
    let mut store = PartitionCounts::from_partitions(&[]);
    assert_eq!(store.snapshot(), vec![]);
    process_message(&mut store, 5, &engine_match());
    assert_eq!(store.snapshot(), vec![(5, 1)]);
}

#[test]
fn failed_evaluation_changes_no_counter() {
    // A payload the engine could not evaluate never increments anything and
    // the pipeline keeps processing afterwards.
    let mut store = PartitionCounts::from_partitions(&[0, 1]);
    process_message(&mut store, 1, &None);
    assert_eq!(store.snapshot(), vec![(0, 0), (1, 0)]);
    process_message(&mut store, 1, &engine_match());
    assert_eq!(store.snapshot(), vec![(0, 0), (1, 1)]);
}

#[test]
fn settings_follow_the_options() {
    let settings = consumer_settings(&options());
    assert_eq!(
        settings,
        vec![
            ("group.id".to_owned(), "watchers".to_owned()),
            ("bootstrap.servers".to_owned(), "broker:9092".to_owned()),
            ("enable.partition.eof".to_owned(), "false".to_owned()),
            ("session.timeout.ms".to_owned(), "6000".to_owned()),
            ("enable.auto.commit".to_owned(), "false".to_owned()),
            ("auto.offset.reset".to_owned(), "earliest".to_owned()),
        ]
    );
}

#[test]
fn one_topic_resolves_its_partitions() {
    let mut app = App::new(options());
    topic_partitions(&mut app, &vec![vec![0, 1, 2]]).unwrap();
    assert_eq!(app.partitions().unwrap(), &vec![0, 1, 2]);
}

#[test]
fn zero_topics_is_a_metadata_error() {
    let mut app = App::new(options());
    let err = topic_partitions(&mut app, &vec![]).unwrap_err();
    assert_eq!(err.topics_found, 0);
    assert!(app.partitions().is_err());
}

#[test]
fn two_topics_is_a_metadata_error() {
    let mut app = App::new(options());
    let err = topic_partitions(&mut app, &vec![vec![0], vec![1]]).unwrap_err();
    assert_eq!(err.topics_found, 2);
    assert!(app.partitions().is_err());
}
