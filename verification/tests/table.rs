use bar_sink::bar::Bar;
use bar_sink::bar::Field;
use bar_sink::decimal::Decimal;
use bar_sink::table::BarTable;
use bar_sink::table::WriteError;
use bar_sink::timestamp::Timestamp;

fn bar(symbol: &str, seconds: i64, size: i32, close: &str) -> Bar {
    Bar::new(
        symbol.to_string(),
        Timestamp::new(seconds, 0).unwrap(),
        size,
        Decimal::parse("10.0").unwrap(),
        Decimal::parse("11.0").unwrap(),
        Decimal::parse("9.0").unwrap(),
        Decimal::parse(close).unwrap(),
        Decimal::parse("10.1").unwrap(),
        100,
        3,
    )
    .unwrap()
}

fn rows(table: &BarTable) -> Vec<Bar> {
    (0..table.len()).map(|i| table.row(i).unwrap().clone()).collect()
}

#[test]
fn new_bar_checks_symbol_and_counts() {
    let t = Timestamp::new(0, 0).unwrap();
    let d = Decimal::parse("1").unwrap();
    let make = |symbol: &str, volume: i64, trades: i64| {
        Bar::new(symbol.to_string(), t, 60, d.clone(), d.clone(), d.clone(), d.clone(), d.clone(), volume, trades)
    };
    assert!(make("A", 0, 0).is_ok());
    assert_eq!(make("", 0, 0), Err(Field::Symbol));
    assert_eq!(make("A", -1, 0), Err(Field::Volume));
    assert_eq!(make("A", 0, -1), Err(Field::Trades));
    assert_eq!(make("", -1, -1), Err(Field::Symbol));
    assert_eq!(make("A", -1, -1), Err(Field::Volume));
}

#[test]
fn same_key_looks_at_symbol_time_and_size() {
    let a = bar("AAPL", 100, 60, "10.5");
    assert!(a.same_key(&bar("AAPL", 100, 60, "99.9")));
    assert!(!a.same_key(&bar("MSFT", 100, 60, "10.5")));
    assert!(!a.same_key(&bar("AAPL", 101, 60, "10.5")));
    assert!(!a.same_key(&bar("AAPL", 100, 61, "10.5")));
}

#[test]
fn upsert_inserts_new_keys_in_order() {
    let mut table = BarTable::new();
    let batch = vec![bar("AAPL", 100, 60, "1"), bar("MSFT", 100, 60, "2"), bar("AAPL", 160, 60, "3")];
    assert_eq!(table.upsert(batch.clone()), Ok(3));
    assert_eq!(rows(&table), batch);
    assert_eq!(table.len(), 3);
    assert!(table.row(3).is_none());
}

#[test]
fn upsert_twice_is_upsert_once() {
    let batch = vec![bar("AAPL", 100, 60, "1"), bar("MSFT", 100, 60, "2"), bar("AAPL", 160, 60, "3")];
    let mut once = BarTable::new();
    assert_eq!(once.upsert(batch.clone()), Ok(3));
    let mut twice = BarTable::new();
    assert_eq!(twice.upsert(batch.clone()), Ok(3));
    assert_eq!(twice.upsert(batch.clone()), Ok(0));
    assert_eq!(rows(&twice), rows(&once));
}

#[test]
fn upsert_counts_only_the_rows_it_adds() {
    let mut table = BarTable::new();
    assert_eq!(table.upsert(vec![bar("AAPL", 100, 60, "1")]), Ok(1));
    let batch = vec![bar("AAPL", 100, 60, "1"), bar("MSFT", 100, 60, "2")];
    assert_eq!(table.upsert(batch), Ok(1));
    assert_eq!(table.len(), 2);
    assert_eq!(table.upsert(Vec::new()), Ok(0));
    assert_eq!(table.len(), 2);
}

#[test]
fn first_write_wins() {
    let first = bar("AAPL", 100, 60, "10.5");
    let second = bar("AAPL", 100, 60, "99.9");
    let mut table = BarTable::new();
    assert_eq!(table.upsert(vec![first.clone()]), Ok(1));
    assert_eq!(table.upsert(vec![second.clone()]), Ok(0));
    assert_eq!(rows(&table), vec![first.clone()]);

    let mut table = BarTable::new();
    assert_eq!(table.upsert(vec![first.clone(), second.clone()]), Ok(1));
    assert_eq!(rows(&table), vec![first]);

    let mut table = BarTable::new();
    assert_eq!(table.upsert(vec![second.clone()]), Ok(1));
    assert_eq!(rows(&table), vec![second]);
}

#[test]
fn holds_finds_a_key() {
    let mut table = BarTable::new();
    assert!(!table.holds(&bar("AAPL", 100, 60, "1")));
    assert_eq!(table.upsert(vec![bar("AAPL", 100, 60, "1")]), Ok(1));
    assert!(table.holds(&bar("AAPL", 100, 60, "7")));
    assert!(!table.holds(&bar("AAPL", 100, 300, "1")));
}

#[test]
fn a_full_table_applies_nothing() {
    let mut table = BarTable::bounded(2);
    assert_eq!(table.limit(), 2);
    assert_eq!(table.upsert(vec![bar("AAPL", 100, 60, "1")]), Ok(1));
    let batch = vec![bar("MSFT", 100, 60, "2"), bar("AAPL", 100, 60, "9"), bar("IBM", 100, 60, "3")];
    assert_eq!(table.upsert(batch), Err(WriteError::Full));
    assert_eq!(rows(&table), vec![bar("AAPL", 100, 60, "1")]);
    let batch = vec![bar("MSFT", 100, 60, "2"), bar("AAPL", 100, 60, "9")];
    assert_eq!(table.upsert(batch), Ok(1));
    assert_eq!(table.len(), 2);
    assert_eq!(table.upsert(vec![bar("MSFT", 100, 60, "5")]), Ok(0));
    assert_eq!(table.upsert(vec![bar("IBM", 100, 60, "5")]), Err(WriteError::Full));
    assert_eq!(table.len(), 2);
}

#[test]
fn an_unbounded_table_has_the_widest_limit() {
    assert_eq!(BarTable::new().limit(), usize::MAX);
    assert_eq!(BarTable::new().len(), 0);
    assert_eq!(BarTable::bounded(0).upsert(vec![bar("A", 1, 1, "1")]), Err(WriteError::Full));
    assert_eq!(BarTable::bounded(0).upsert(Vec::new()), Ok(0));
}
