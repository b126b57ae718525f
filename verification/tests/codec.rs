use bar_sink::bar::Bar;
use bar_sink::bar::Field;
use bar_sink::codec::decode;
use bar_sink::codec::decode_batch;
use bar_sink::codec::decode_record;
use bar_sink::codec::name_of;
use bar_sink::codec::read_count;
use bar_sink::codec::read_decimal;
use bar_sink::codec::read_integer;
use bar_sink::codec::read_size;
use bar_sink::codec::read_symbol;
use bar_sink::codec::read_time;
use bar_sink::codec::DecodeError;
use bar_sink::codec::Rejection;
use bar_sink::decimal::Decimal;
use bar_sink::json::Member;
use bar_sink::timestamp::Timestamp;

const T0: i64 = 1_577_934_245; // 2020-01-02T03:04:05Z

fn payload_with(symbol: &str, time: &str, close: &str) -> Vec<u8> {
    format!(
        "{{\"symbol\":\"{}\",\"time\":\"{}\",\"size\":60,\"open\":\"123.456000\",\"high\":\"124.5\",\"low\":\"122\",\"close\":{},\"wap\":\"123.9\",\"volume\":1500,\"trades\":42}}",
        symbol, time, close
    )
    .into_bytes()
}

fn payload(symbol: &str, time: &str) -> Vec<u8> {
    payload_with(symbol, time, "\"123.75\"")
}

fn without(name: &str) -> Vec<u8> {
    let mut record = sample_record();
    record.remove(name);
    serde_json::to_vec(&record).unwrap()
}

fn with(name: &str, value: serde_json::Value) -> Vec<u8> {
    let mut record = sample_record();
    record.insert(name.to_string(), value);
    serde_json::to_vec(&record).unwrap()
}

fn text(s: &str) -> serde_json::Value {
    serde_json::Value::String(s.to_string())
}

fn number(s: &str) -> serde_json::Value {
    serde_json::from_str::<serde_json::Value>(s).unwrap()
}

fn sample_record() -> serde_json::Map<String, serde_json::Value> {
    let mut record = serde_json::Map::new();
    record.insert("symbol".to_string(), text("AAPL"));
    record.insert("time".to_string(), text("2020-01-02T03:04:05Z"));
    record.insert("size".to_string(), number("60"));
    record.insert("open".to_string(), text("123.456000"));
    record.insert("high".to_string(), text("124.5"));
    record.insert("low".to_string(), text("122"));
    record.insert("close".to_string(), text("123.75"));
    record.insert("wap".to_string(), text("123.9"));
    record.insert("volume".to_string(), number("1500"));
    record.insert("trades".to_string(), number("42"));
    record
}

fn decimal(text: &str) -> Decimal {
    Decimal::parse(text).unwrap()
}

#[test]
fn decode_reads_every_field() {
    let bar = decode(&payload("AAPL", "2020-01-02T03:04:05Z")).unwrap();
    assert_eq!(bar.symbol(), "AAPL");
    assert_eq!(bar.time().seconds(), T0);
    assert_eq!(bar.time().nanos(), 0);
    assert_eq!(bar.size(), 60);
    assert_eq!(bar.open(), &decimal("123.456000"));
    assert_eq!(bar.high(), &decimal("124.5"));
    assert_eq!(bar.low(), &decimal("122"));
    assert_eq!(bar.close(), &decimal("123.75"));
    assert_eq!(bar.wap(), &decimal("123.9"));
    assert_eq!(bar.volume(), 1500);
    assert_eq!(bar.trades(), 42);
}

#[test]
fn decode_keeps_the_digits_and_the_scale_of_a_price() {
    let bar = decode(&payload("AAPL", "2020-01-02T03:04:05Z")).unwrap();
    assert_eq!(bar.open().digits(), &vec![1u8, 2, 3, 4, 5, 6, 0, 0, 0]);
    assert_eq!(bar.open().scale(), 6);
    assert!(!bar.open().is_negative());
    assert_ne!(bar.open(), &decimal("123.456"));
}

#[test]
fn decode_reads_a_price_written_as_a_number_digit_for_digit() {
    let bar = decode(&payload_with("AAPL", "2020-01-02T03:04:05Z", "123.456000")).unwrap();
    assert_eq!(bar.close().digits(), &vec![1u8, 2, 3, 4, 5, 6, 0, 0, 0]);
    assert_eq!(bar.close().scale(), 6);
    let long = "0.1234567890123456789012345678901234567890";
    let bar = decode(&payload_with("AAPL", "2020-01-02T03:04:05Z", long)).unwrap();
    assert_eq!(bar.close(), &decimal(long));
    assert_eq!(bar.close().scale(), 40);
    assert_eq!(bar.close().digits().len(), 40);
}

#[test]
fn decode_moves_the_time_to_utc() {
    let east = decode(&payload("AAPL", "2020-01-02T03:04:05+01:00")).unwrap();
    assert_eq!(east.time().seconds(), T0 - 3600);
    let same = decode(&payload("AAPL", "2020-01-02T02:04:05Z")).unwrap();
    assert_eq!(east.time(), same.time());
    let fraction = decode(&payload("AAPL", "2020-01-02T03:04:05.250Z")).unwrap();
    assert_eq!(fraction.time().seconds(), T0);
    assert_eq!(fraction.time().nanos(), 250_000_000);
}

#[test]
fn decode_passes_over_members_it_does_not_know() {
    let bar = decode(&with("exchange", text("XNAS"))).unwrap();
    assert_eq!(bar, decode(&serde_json::to_vec(&sample_record()).unwrap()).unwrap());
}

#[test]
fn decode_gives_back_a_bar_that_was_encoded() {
    let symbols = ["AAPL", "BRK.B", "\u{65e5}\u{672c} \"quoted\""];
    let prices = ["123.456000", "-0.50", "0", "1e-7", "98765432109876543210.0123456789"];
    let times = [(T0, 0u32), (0, 1), (-86_400, 999_999_999), (4_102_444_800, 500)];
    for symbol in symbols {
        for price in prices {
            for (seconds, nanos) in times {
                let bar = Bar::new(
                    symbol.to_string(),
                    Timestamp::new(seconds, nanos).unwrap(),
                    300,
                    decimal(price),
                    decimal("124.5"),
                    decimal("122"),
                    decimal(price),
                    decimal("123.9"),
                    7,
                    0,
                )
                .unwrap();
                assert_eq!(decode(&encode(&bar)), Ok(bar));
            }
        }
    }
}

fn encode(bar: &Bar) -> Vec<u8> {
    let time = chrono::DateTime::from_timestamp(bar.time().seconds(), bar.time().nanos()).unwrap();
    let mut record = serde_json::Map::new();
    record.insert("symbol".to_string(), text(bar.symbol()));
    record.insert("time".to_string(), text(&time.to_rfc3339()));
    record.insert("size".to_string(), serde_json::Value::from(bar.size()));
    record.insert("open".to_string(), text(&spell(bar.open())));
    record.insert("high".to_string(), text(&spell(bar.high())));
    record.insert("low".to_string(), text(&spell(bar.low())));
    record.insert("close".to_string(), number(&spell(bar.close())));
    record.insert("wap".to_string(), text(&spell(bar.wap())));
    record.insert("volume".to_string(), serde_json::Value::from(bar.volume()));
    record.insert("trades".to_string(), serde_json::Value::from(bar.trades()));
    serde_json::to_vec(&record).unwrap()
}

fn spell(value: &Decimal) -> String {
    let mut out = String::new();
    if value.is_negative() {
        out.push('-');
    }
    for digit in value.digits() {
        out.push((b'0' + digit) as char);
    }
    format!("{}e{}", out, -value.scale())
}

#[test]
fn decode_rejects_what_is_not_an_object() {
    assert_eq!(decode(b"not json"), Err(DecodeError::NotARecord));
    assert_eq!(decode(b""), Err(DecodeError::NotARecord));
    assert_eq!(decode(b"[1, 2, 3]"), Err(DecodeError::NotARecord));
    assert_eq!(decode(b"\"AAPL\""), Err(DecodeError::NotARecord));
    assert_eq!(decode(b"{\"symbol\":\"AAPL\""), Err(DecodeError::NotARecord));
    assert_eq!(decode(b"{} trailing"), Err(DecodeError::NotARecord));
    assert_eq!(decode(&[0xff, 0xfe]), Err(DecodeError::NotARecord));
}

#[test]
fn decode_names_the_field_that_is_missing() {
    assert_eq!(decode(b"{}"), Err(DecodeError::Missing(Field::Symbol)));
    assert_eq!(decode(&without("symbol")), Err(DecodeError::Missing(Field::Symbol)));
    assert_eq!(decode(&without("time")), Err(DecodeError::Missing(Field::Time)));
    assert_eq!(decode(&without("size")), Err(DecodeError::Missing(Field::Size)));
    assert_eq!(decode(&without("open")), Err(DecodeError::Missing(Field::Open)));
    assert_eq!(decode(&without("high")), Err(DecodeError::Missing(Field::High)));
    assert_eq!(decode(&without("low")), Err(DecodeError::Missing(Field::Low)));
    assert_eq!(decode(&without("close")), Err(DecodeError::Missing(Field::Close)));
    assert_eq!(decode(&without("wap")), Err(DecodeError::Missing(Field::Wap)));
    assert_eq!(decode(&without("volume")), Err(DecodeError::Missing(Field::Volume)));
    assert_eq!(decode(&without("trades")), Err(DecodeError::Missing(Field::Trades)));
}

#[test]
fn decode_names_the_field_of_the_wrong_kind() {
    assert_eq!(decode(&with("symbol", number("7"))), Err(DecodeError::WrongKind(Field::Symbol)));
    assert_eq!(decode(&with("time", number("1577934245"))), Err(DecodeError::WrongKind(Field::Time)));
    assert_eq!(decode(&with("size", text("60"))), Err(DecodeError::WrongKind(Field::Size)));
    assert_eq!(
        decode(&with("open", serde_json::Value::Null)),
        Err(DecodeError::WrongKind(Field::Open))
    );
    assert_eq!(
        decode(&with("high", serde_json::Value::Bool(true))),
        Err(DecodeError::WrongKind(Field::High))
    );
    assert_eq!(
        decode(&with("low", serde_json::Value::Array(Vec::new()))),
        Err(DecodeError::WrongKind(Field::Low))
    );
    assert_eq!(
        decode(&with("volume", serde_json::Value::Object(serde_json::Map::new()))),
        Err(DecodeError::WrongKind(Field::Volume))
    );
    assert_eq!(decode(&with("trades", text("42"))), Err(DecodeError::WrongKind(Field::Trades)));
}

#[test]
fn decode_names_the_field_that_is_invalid() {
    assert_eq!(decode(&with("symbol", text(""))), Err(DecodeError::Invalid(Field::Symbol)));
    assert_eq!(
        decode(&with("time", text("2020-01-02T03:04:05"))),
        Err(DecodeError::Invalid(Field::Time))
    );
    assert_eq!(decode(&with("time", text("yesterday"))), Err(DecodeError::Invalid(Field::Time)));
    assert_eq!(decode(&with("size", number("60.5"))), Err(DecodeError::Invalid(Field::Size)));
    assert_eq!(decode(&with("close", text("abc"))), Err(DecodeError::Invalid(Field::Close)));
    assert_eq!(decode(&with("close", text("NaN"))), Err(DecodeError::Invalid(Field::Close)));
    assert_eq!(decode(&with("wap", text(""))), Err(DecodeError::Invalid(Field::Wap)));
    assert_eq!(
        decode(&with("volume", number("18446744073709551616"))),
        Err(DecodeError::Invalid(Field::Volume))
    );
    assert_eq!(decode(&with("trades", number("1e3"))), Err(DecodeError::Invalid(Field::Trades)));
}

#[test]
fn decode_names_the_field_that_is_out_of_range() {
    assert_eq!(decode(&with("size", number("2147483648"))), Err(DecodeError::OutOfRange(Field::Size)));
    assert_eq!(
        decode(&with("size", number("-2147483649"))),
        Err(DecodeError::OutOfRange(Field::Size))
    );
    assert_eq!(decode(&with("size", number("2147483647"))).unwrap().size(), i32::MAX);
    assert_eq!(decode(&with("size", number("-2147483648"))).unwrap().size(), i32::MIN);
    assert_eq!(decode(&with("volume", number("-1"))), Err(DecodeError::OutOfRange(Field::Volume)));
    assert_eq!(decode(&with("trades", number("-1"))), Err(DecodeError::OutOfRange(Field::Trades)));
    assert_eq!(decode(&with("volume", number("0"))).unwrap().volume(), 0);
    assert_eq!(
        decode(&with("trades", number("9223372036854775807"))).unwrap().trades(),
        i64::MAX
    );
}

#[test]
fn decode_reports_the_first_field_that_fails() {
    let mut record = sample_record();
    record.insert("trades".to_string(), number("-1"));
    record.insert("close".to_string(), text("abc"));
    record.remove("size");
    assert_eq!(
        decode(&serde_json::to_vec(&record).unwrap()),
        Err(DecodeError::Missing(Field::Size))
    );
    record.insert("size".to_string(), number("60"));
    assert_eq!(
        decode(&serde_json::to_vec(&record).unwrap()),
        Err(DecodeError::Invalid(Field::Close))
    );
}

#[test]
fn decode_record_reads_the_members_of_an_object() {
    let bar = decode_record(&sample_record()).unwrap();
    assert_eq!(bar.symbol(), "AAPL");
    assert_eq!(bar.volume(), 1500);
    assert_eq!(
        decode_record(&serde_json::Map::new()),
        Err(DecodeError::Missing(Field::Symbol))
    );
}

#[test]
fn names_are_those_of_the_attributes() {
    assert_eq!(name_of(Field::Symbol), "symbol");
    assert_eq!(name_of(Field::Time), "time");
    assert_eq!(name_of(Field::Size), "size");
    assert_eq!(name_of(Field::Open), "open");
    assert_eq!(name_of(Field::High), "high");
    assert_eq!(name_of(Field::Low), "low");
    assert_eq!(name_of(Field::Close), "close");
    assert_eq!(name_of(Field::Wap), "wap");
    assert_eq!(name_of(Field::Volume), "volume");
    assert_eq!(name_of(Field::Trades), "trades");
}

fn num(literal: &str, integer: Option<i64>) -> Option<Member> {
    Some(Member::Number { literal: literal.to_string(), integer })
}

#[test]
fn read_symbol_takes_a_string_that_is_not_empty() {
    assert_eq!(read_symbol(Some(Member::Text("MSFT".to_string()))), Ok("MSFT".to_string()));
    assert_eq!(read_symbol(Some(Member::Text(String::new()))), Err(DecodeError::Invalid(Field::Symbol)));
    assert_eq!(read_symbol(None), Err(DecodeError::Missing(Field::Symbol)));
    assert_eq!(read_symbol(Some(Member::Null)), Err(DecodeError::WrongKind(Field::Symbol)));
    assert_eq!(read_symbol(num("1", Some(1))), Err(DecodeError::WrongKind(Field::Symbol)));
}

#[test]
fn read_time_takes_a_string_with_a_zone() {
    let time = read_time(Some(Member::Text("1970-01-01T00:00:01.5Z".to_string()))).unwrap();
    assert_eq!((time.seconds(), time.nanos()), (1, 500_000_000));
    assert_eq!(
        read_time(Some(Member::Text("1970-01-01".to_string()))),
        Err(DecodeError::Invalid(Field::Time))
    );
    assert_eq!(read_time(None), Err(DecodeError::Missing(Field::Time)));
    assert_eq!(read_time(Some(Member::Array)), Err(DecodeError::WrongKind(Field::Time)));
}

#[test]
fn read_integer_takes_a_whole_number() {
    assert_eq!(read_integer(Field::Volume, num("12", Some(12))), Ok(12));
    assert_eq!(read_integer(Field::Volume, num("-12", Some(-12))), Ok(-12));
    assert_eq!(read_integer(Field::Volume, num("1.5", None)), Err(DecodeError::Invalid(Field::Volume)));
    assert_eq!(read_integer(Field::Size, None), Err(DecodeError::Missing(Field::Size)));
    assert_eq!(
        read_integer(Field::Size, Some(Member::Bool(false))),
        Err(DecodeError::WrongKind(Field::Size))
    );
}

#[test]
fn read_size_takes_what_fits_32_bits() {
    assert_eq!(read_size(num("60", Some(60))), Ok(60));
    assert_eq!(read_size(num("-1", Some(-1))), Ok(-1));
    assert_eq!(read_size(num("2147483647", Some(2147483647))), Ok(i32::MAX));
    assert_eq!(read_size(num("2147483648", Some(2147483648))), Err(DecodeError::OutOfRange(Field::Size)));
    assert_eq!(read_size(num("1.0", None)), Err(DecodeError::Invalid(Field::Size)));
    assert_eq!(read_size(Some(Member::Object)), Err(DecodeError::WrongKind(Field::Size)));
    assert_eq!(read_size(None), Err(DecodeError::Missing(Field::Size)));
}

#[test]
fn read_count_takes_what_is_not_negative() {
    assert_eq!(read_count(Field::Trades, num("0", Some(0))), Ok(0));
    assert_eq!(read_count(Field::Trades, num("5", Some(5))), Ok(5));
    assert_eq!(
        read_count(Field::Trades, num("-5", Some(-5))),
        Err(DecodeError::OutOfRange(Field::Trades))
    );
    assert_eq!(read_count(Field::Volume, None), Err(DecodeError::Missing(Field::Volume)));
}

#[test]
fn read_decimal_takes_a_string_or_a_number() {
    assert_eq!(read_decimal(Field::Low, Some(Member::Text("1.50".to_string()))), Ok(decimal("1.50")));
    assert_eq!(read_decimal(Field::Low, num("1.50", None)), Ok(decimal("1.50")));
    assert_eq!(read_decimal(Field::Low, num("7", Some(7))), Ok(decimal("7")));
    assert_eq!(
        read_decimal(Field::Low, Some(Member::Text("1,50".to_string()))),
        Err(DecodeError::Invalid(Field::Low))
    );
    assert_eq!(read_decimal(Field::Low, None), Err(DecodeError::Missing(Field::Low)));
    assert_eq!(read_decimal(Field::Low, Some(Member::Null)), Err(DecodeError::WrongKind(Field::Low)));
}

#[test]
fn decode_batch_gives_every_bar_in_order() {
    let messages = vec![
        payload("AAPL", "2020-01-02T03:04:05Z"),
        payload("MSFT", "2020-01-02T03:04:05Z"),
        payload("AAPL", "2020-01-02T03:05:05Z"),
    ];
    let bars = decode_batch(&messages).unwrap();
    assert_eq!(bars.len(), 3);
    assert_eq!(bars[0].symbol(), "AAPL");
    assert_eq!(bars[1].symbol(), "MSFT");
    assert_eq!(bars[2].time().seconds(), T0 + 60);
    assert_eq!(decode_batch(&Vec::new()), Ok(Vec::new()));
}

#[test]
fn decode_batch_rejects_the_batch_for_one_message() {
    let messages = vec![
        payload("AAPL", "2020-01-02T03:04:05Z"),
        payload_with("MSFT", "2020-01-02T03:04:05Z", "\"abc\""),
        b"junk".to_vec(),
    ];
    assert_eq!(
        decode_batch(&messages),
        Err(Rejection { index: 1, error: DecodeError::Invalid(Field::Close) })
    );
}

#[test]
fn decode_answers_every_payload() {
    let pieces: [&[u8]; 12] = [
        b"{", b"}", b"[", b"]", b"\"", b":", b",", b"symbol", b"1", b"null", b"\\u0000", &[0xff],
    ];
    for a in pieces {
        for b in pieces {
            for c in pieces {
                for d in pieces {
                    let payload = [a, b, c, d].concat();
                    assert!(decode(&payload).is_err());
                }
            }
        }
    }
    let deep = [vec![b'['; 100_000], vec![b']'; 100_000]].concat();
    assert_eq!(decode(&deep), Err(DecodeError::NotARecord));
    let nested = format!("{{\"symbol\":{}1{}}}", "[".repeat(1000), "]".repeat(1000));
    assert_eq!(decode(nested.as_bytes()), Err(DecodeError::NotARecord));
}
