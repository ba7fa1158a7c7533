use cosmic_wanderer::history::HistoryMap;
use cosmic_wanderer::history::increment_usage;

#[test]
fn missing_records_count_zero() {
    let history = HistoryMap::new();
    assert_eq!(history.get_count("nowhere"), 0);
}

#[test]
fn increment_adds_one_per_launch() {
    let mut history = HistoryMap::new();
    increment_usage(&mut history, "app.a");
    increment_usage(&mut history, "app.a");
    increment_usage(&mut history, "app.b");
    assert_eq!(history.get_count("app.a"), 2);
    assert_eq!(history.get_count("app.b"), 1);
    assert_eq!(history.get_count("app.c"), 0);
}

#[test]
fn from_pairs_takes_the_later_record_for_a_repeated_key() {
    let history = HistoryMap::from_pairs(vec![
        ("a".to_string(), 3),
        ("b".to_string(), 7),
        ("a".to_string(), 9),
    ]);
    assert_eq!(history.get_count("a"), 9);
    assert_eq!(history.get_count("b"), 7);
}

#[test]
fn pairs_round_trip_keeps_every_count() {
    let mut history = HistoryMap::new();
    increment_usage(&mut history, "x");
    increment_usage(&mut history, "y");
    increment_usage(&mut history, "y");
    let reloaded = HistoryMap::from_pairs(history.pairs());
    assert_eq!(reloaded.get_count("x"), 1);
    assert_eq!(reloaded.get_count("y"), 2);
    assert_eq!(reloaded.get_count("z"), 0);
}
