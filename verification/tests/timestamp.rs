use bar_sink::timestamp::Timestamp;

fn parts(text: &str) -> Option<(i64, u32)> {
    Timestamp::parse(text).map(|t| (t.seconds(), t.nanos()))
}

#[test]
fn parse_counts_from_the_epoch() {
    assert_eq!(parts("1970-01-01T00:00:00Z"), Some((0, 0)));
    assert_eq!(parts("1970-01-01T00:00:01Z"), Some((1, 0)));
    assert_eq!(parts("1969-12-31T23:59:59Z"), Some((-1, 0)));
    assert_eq!(parts("2020-01-02T03:04:05Z"), Some((1_577_934_245, 0)));
}

#[test]
fn parse_normalises_the_zone() {
    assert_eq!(parts("2020-01-02T03:04:05+01:00"), Some((1_577_930_645, 0)));
    assert_eq!(parts("2020-01-02T03:04:05-05:30"), Some((1_577_954_045, 0)));
    assert_eq!(parts("2020-01-02T03:04:05+00:00"), parts("2020-01-02T03:04:05Z"));
    assert_eq!(parts("2020-01-02 03:04:05Z"), parts("2020-01-02T03:04:05Z"));
}

#[test]
fn parse_reads_the_fraction() {
    assert_eq!(parts("1970-01-01T00:00:00.000000001Z"), Some((0, 1)));
    assert_eq!(parts("1970-01-01T00:00:00.5Z"), Some((0, 500_000_000)));
    assert_eq!(parts("1969-12-31T23:59:59.25Z"), Some((-1, 250_000_000)));
}

#[test]
fn parse_reads_a_leap_second() {
    assert_eq!(parts("2016-12-31T23:59:60Z"), Some((1_483_228_799, 1_000_000_000)));
}

#[test]
fn parse_rejects_a_time_without_zone() {
    assert_eq!(Timestamp::parse("2020-01-02T03:04:05"), None);
    assert_eq!(Timestamp::parse("2020-01-02"), None);
    assert_eq!(Timestamp::parse("1577934245"), None);
    assert_eq!(Timestamp::parse(""), None);
    assert_eq!(Timestamp::parse("2020-13-02T03:04:05Z"), None);
    assert_eq!(Timestamp::parse("2020-01-02T25:04:05Z"), None);
    assert_eq!(Timestamp::parse("2020-01-02T03:04:05Z and more"), None);
}

#[test]
fn new_takes_nanoseconds_in_range() {
    let time = Timestamp::new(-5, 1_999_999_999).unwrap();
    assert_eq!((time.seconds(), time.nanos()), (-5, 1_999_999_999));
    assert_eq!(Timestamp::new(0, 2_000_000_000), None);
    assert_eq!(Timestamp::new(0, u32::MAX), None);
    assert!(Timestamp::new(i64::MIN, 0).is_some());
    assert!(Timestamp::new(i64::MAX, 0).is_some());
}

#[test]
fn same_tells_instants_apart() {
    let a = Timestamp::new(10, 5).unwrap();
    assert!(a.same(&Timestamp::new(10, 5).unwrap()));
    assert!(!a.same(&Timestamp::new(10, 6).unwrap()));
    assert!(!a.same(&Timestamp::new(11, 5).unwrap()));
    assert_eq!(Timestamp::parse("2020-01-02T03:04:05Z").unwrap(), Timestamp::new(1_577_934_245, 0).unwrap());
}

#[test]
fn timestamp_parse_answers_every_text() {
    let pieces = ["", "2020", "-", "01", "T", " ", ":", "Z", "+", "00", ".", "5", "UTC", "\u{e9}", "60", "99999"];
    let mut count = 0;
    for a in pieces {
        for b in pieces {
            for c in pieces {
                for d in pieces {
                    let text = format!("2020-01-02T03:04{}{}{}{}", a, b, c, d);
                    if let Some(time) = Timestamp::parse(&text) {
                        count += 1;
                        assert!(time.nanos() < 2_000_000_000);
                    }
                    let _ = Timestamp::parse(&format!("{}{}{}{}", a, b, c, d));
                }
            }
        }
    }
    assert!(count > 0);
    assert_eq!(Timestamp::parse("+262142-12-31T23:59:59Z").map(|t| t.nanos()), Some(0));
    assert_eq!(Timestamp::parse("+999999-12-31T23:59:59Z"), None);
    assert_eq!(Timestamp::parse("-262143-01-01T00:00:00Z").map(|t| t.nanos()), Some(0));
}
