use kafka_toy::app_state::{App, PartitionCounts, PartitionCountsExt};
use kafka_toy::config::{CliOptions, Offset};

fn options() -> CliOptions {
    CliOptions {
        bootstrap_servers: "localhost:9092".to_owned(),
        topic: "logs".to_owned(),
        group_id: "kafka-toy".to_owned(),
        offset: Offset::Latest,
        filter: ".level".to_owned(),
    }
}

#[test]
fn store_starts_at_zero() {
    let store = PartitionCounts::from_partitions(&[0, 1, 2]);
    assert_eq!(store.snapshot(), vec![(0, 0), (1, 0), (2, 0)]);
}

#[test]
fn snapshot_is_sorted_by_partition() {
    let store = PartitionCounts::from_partitions(&[3, 1, 2]);
    assert_eq!(store.snapshot(), vec![(1, 0), (2, 0), (3, 0)]);
}

#[test]
fn increments_accumulate_on_one_partition() {
    // Four increments of partition 1 and none of the others: 1 reads 4,
    // every other partition still reads 0.
    let mut store = PartitionCounts::from_partitions(&[0, 1, 2]);
    for _ in 0..4 {
        store.increment(1);
    }
    assert_eq!(store.snapshot(), vec![(0, 0), (1, 4), (2, 0)]);
}

#[test]
fn increment_inserts_unseen_partition() {
    let mut store = PartitionCounts::from_partitions(&[0]);
    store.increment(7);
    assert_eq!(store.snapshot(), vec![(0, 0), (7, 1)]);
}

#[test]
fn snapshot_values_never_decrease() {
    let mut store = PartitionCounts::from_partitions(&[0, 1]);
    let mut last = store.snapshot();
    for round in 0..5 {
        store.increment(round % 2);
        let next = store.snapshot();
        for (partition, count) in &last {
            let now = next.iter().find(|e| e.0 == *partition).unwrap().1;
            assert!(now >= *count);
        }
        last = next;
    }
}

#[test]
fn app_holds_options() {
    let app = App::new(options());
    assert_eq!(app.cli_options().topic, "logs");
    assert_eq!(app.cli_options().filter, ".level");
}

#[test]
fn partitions_unset_is_an_error() {
    let app = App::new(options());
    let err = app.partitions().unwrap_err();
    assert_eq!(
        err.message(),
        "Error accessing partitions from App state. It is not set at this point."
    );
}

#[test]
fn partition_counts_unset_is_an_error() {
    let app = App::new(options());
    let err = match app.partition_counts() {
        Ok(_) => panic!("partition counts should be unset"),
        Err(e) => e,
    };
    assert_eq!(
        err.message(),
        "Error accessing partition_counts from App state. It is not set at this point."
    );
}

#[test]
fn startup_fills_counts_from_partitions() {
    let mut app = App::new(options());
    app.set_partitions(vec![4, 2]);
    assert_eq!(app.partitions().unwrap(), &vec![4, 2]);
    app.partition_counts_from_partitions().unwrap();
    let store = app.partition_counts().unwrap();
    assert_eq!(store.snapshot(), vec![(2, 0), (4, 0)]);
}

#[test]
fn counts_before_partitions_is_an_error() {
    let mut app = App::new(options());
    assert!(app.partition_counts_from_partitions().is_err());
    assert!(app.partition_counts().is_err());
}
