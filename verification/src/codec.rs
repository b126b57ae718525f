//! The record codec: from the payload of one message to a [`Bar`].
//!
//! A payload is a JSON object with one member for each attribute of a bar.
//! The symbol and the time are strings, the size and the two counts are
//! integers, and a price is a decimal written as a string or as a number.
//! Members under other names are passed over.

use crate::bar::Bar;
use crate::bar::BarView;
use crate::bar::Field;
use crate::decimal::parse_decimal;
use crate::decimal::Decimal;
use crate::decimal::DecimalView;
use crate::json::json_from_slice;
use crate::json::json_record;
use crate::json::member_of;
use crate::json::member_view;
use crate::json::record_get;
use crate::json::record_members;
use crate::json::Member;
use crate::json::MemberView;
use crate::timestamp::parse_timestamp;
use crate::timestamp::Timestamp;
use crate::timestamp::TimestampView;
use vstd::prelude::*;

verus! {

/// Why a payload is no bar.
#[derive(Debug, Clone, Copy, PartialEq, Eq, Structural)]
pub enum DecodeError {
    /// The payload is not the text of one JSON object.
    NotARecord,
    /// The object has no member for the field.
    Missing(Field),
    /// The member is of a JSON kind that the field does not take.
    WrongKind(Field),
    /// The member does not spell a value of the field: an empty symbol, a
    /// time without zone, a price that is no decimal, a count with a
    /// fraction or beyond 64 bits.
    Invalid(Field),
    /// The number is an integer outside the field's range.
    OutOfRange(Field),
}

/// The name under which a field stands in a record.
pub open spec fn field_name(field: Field) -> Seq<char> {
    match field {
        Field::Symbol => "symbol"@,
        Field::Time => "time"@,
        Field::Size => "size"@,
        Field::Open => "open"@,
        Field::High => "high"@,
        Field::Low => "low"@,
        Field::Close => "close"@,
        Field::Wap => "wap"@,
        Field::Volume => "volume"@,
        Field::Trades => "trades"@,
    }
}

/// The symbol that a member gives: a string that is not empty.
pub open spec fn symbol_of(member: Option<MemberView>) -> Result<Seq<char>, DecodeError> {
    match member {
        None => Err(DecodeError::Missing(Field::Symbol)),
        Some(MemberView::Text(text)) => if text.len() == 0 {
            Err(DecodeError::Invalid(Field::Symbol))
        } else {
            Ok(text)
        },
        Some(_) => Err(DecodeError::WrongKind(Field::Symbol)),
    }
}

/// The instant that a member gives: a string that spells a time with its
/// zone.
pub open spec fn time_of(member: Option<MemberView>) -> Result<TimestampView, DecodeError> {
    match member {
        None => Err(DecodeError::Missing(Field::Time)),
        Some(MemberView::Text(text)) => match parse_timestamp(text) {
            Some(time) => Ok(time),
            None => Err(DecodeError::Invalid(Field::Time)),
        },
        Some(_) => Err(DecodeError::WrongKind(Field::Time)),
    }
}

/// The integer that a member gives: a number without fraction or exponent
/// that fits 64 bits.
pub open spec fn integer_of(field: Field, member: Option<MemberView>) -> Result<i64, DecodeError> {
    match member {
        None => Err(DecodeError::Missing(field)),
        Some(MemberView::Number { literal, integer }) => match integer {
            Some(n) => Ok(n),
            None => Err(DecodeError::Invalid(field)),
        },
        Some(_) => Err(DecodeError::WrongKind(field)),
    }
}

/// The size that a member gives: an integer that fits 32 bits.
pub open spec fn size_of(member: Option<MemberView>) -> Result<i32, DecodeError> {
    match integer_of(Field::Size, member) {
        Ok(n) => if i32::MIN <= n <= i32::MAX {
            Ok(n as i32)
        } else {
            Err(DecodeError::OutOfRange(Field::Size))
        },
        Err(e) => Err(e),
    }
}

/// The count that a member gives: an integer that is not negative.
pub open spec fn count_of(field: Field, member: Option<MemberView>) -> Result<i64, DecodeError> {
    match integer_of(field, member) {
        Ok(n) => if n >= 0 {
            Ok(n)
        } else {
            Err(DecodeError::OutOfRange(field))
        },
        Err(e) => Err(e),
    }
}

/// The decimal that a text gives for a field.
pub open spec fn decimal_from(field: Field, text: Seq<char>) -> Result<DecimalView, DecodeError> {
    match parse_decimal(text) {
        Some(d) => Ok(d),
        None => Err(DecodeError::Invalid(field)),
    }
}

/// The price that a member gives: a decimal, written as a string or as a
/// number, read from its text digit for digit.
pub open spec fn decimal_of(field: Field, member: Option<MemberView>) -> Result<
    DecimalView,
    DecodeError,
> {
    match member {
        None => Err(DecodeError::Missing(field)),
        Some(MemberView::Text(text)) => decimal_from(field, text),
        Some(MemberView::Number { literal, integer }) => decimal_from(field, literal),
        Some(_) => Err(DecodeError::WrongKind(field)),
    }
}

/// The member of a record that stands for a field.
pub open spec fn field_member(members: Map<Seq<char>, MemberView>, field: Field) -> Option<
    MemberView,
> {
    member_of(members, field_name(field))
}

/// The bar that the members of a record give. The fields are read in the
/// order of [`Field`], and the first one that fails gives the error.
pub open spec fn bar_of_members(members: Map<Seq<char>, MemberView>) -> Result<
    BarView,
    DecodeError,
> {
    let symbol = symbol_of(field_member(members, Field::Symbol));
    let time = time_of(field_member(members, Field::Time));
    let size = size_of(field_member(members, Field::Size));
    let open = decimal_of(Field::Open, field_member(members, Field::Open));
    let high = decimal_of(Field::High, field_member(members, Field::High));
    let low = decimal_of(Field::Low, field_member(members, Field::Low));
    let close = decimal_of(Field::Close, field_member(members, Field::Close));
    let wap = decimal_of(Field::Wap, field_member(members, Field::Wap));
    let volume = count_of(Field::Volume, field_member(members, Field::Volume));
    let trades = count_of(Field::Trades, field_member(members, Field::Trades));
    if symbol is Err {
        Err(symbol->Err_0)
    } else if time is Err {
        Err(time->Err_0)
    } else if size is Err {
        Err(size->Err_0)
    } else if open is Err {
        Err(open->Err_0)
    } else if high is Err {
        Err(high->Err_0)
    } else if low is Err {
        Err(low->Err_0)
    } else if close is Err {
        Err(close->Err_0)
    } else if wap is Err {
        Err(wap->Err_0)
    } else if volume is Err {
        Err(volume->Err_0)
    } else if trades is Err {
        Err(trades->Err_0)
    } else {
        Ok(
            BarView {
                symbol: symbol->Ok_0,
                time: time->Ok_0,
                size: size->Ok_0 as int,
                open: open->Ok_0,
                high: high->Ok_0,
                low: low->Ok_0,
                close: close->Ok_0,
                wap: wap->Ok_0,
                volume: volume->Ok_0 as int,
                trades: trades->Ok_0 as int,
            },
        )
    }
}

/// The bar that a payload gives.
pub open spec fn decode_spec(payload: Seq<u8>) -> Result<BarView, DecodeError> {
    match json_record(payload) {
        Some(members) => bar_of_members(members),
        None => Err(DecodeError::NotARecord),
    }
}

/// The view of the outcome of a decode.
pub open spec fn decoded_view(r: Result<Bar, DecodeError>) -> Result<BarView, DecodeError> {
    match r {
        Ok(bar) => Ok(bar@),
        Err(e) => Err(e),
    }
}

/// The name under which a field stands in a record.
pub fn name_of(field: Field) -> (name: &'static str)
    ensures
        name@ == field_name(field),
{
    match field {
        Field::Symbol => "symbol",
        Field::Time => "time",
        Field::Size => "size",
        Field::Open => "open",
        Field::High => "high",
        Field::Low => "low",
        Field::Close => "close",
        Field::Wap => "wap",
        Field::Volume => "volume",
        Field::Trades => "trades",
    }
}

/// Reads the symbol from the member found under its name.
pub fn read_symbol(member: Option<Member>) -> (r: Result<String, DecodeError>)
    ensures
        match r {
            Ok(symbol) => symbol_of(member_view(member)) == Ok::<Seq<char>, DecodeError>(symbol@),
            Err(e) => symbol_of(member_view(member)) == Err::<Seq<char>, DecodeError>(e),
        },
{
    match member {
        None => Err(DecodeError::Missing(Field::Symbol)),
        Some(Member::Text(text)) => {
            if text.as_str().is_empty() {
                Err(DecodeError::Invalid(Field::Symbol))
            } else {
                Ok(text)
            }
        },
        Some(_) => Err(DecodeError::WrongKind(Field::Symbol)),
    }
}

/// Reads the time from the member found under its name.
pub fn read_time(member: Option<Member>) -> (r: Result<Timestamp, DecodeError>)
    ensures
        match r {
            Ok(time) => time_of(member_view(member)) == Ok::<TimestampView, DecodeError>(time@)
                && time.wf(),
            Err(e) => time_of(member_view(member)) == Err::<TimestampView, DecodeError>(e),
        },
{
    match member {
        None => Err(DecodeError::Missing(Field::Time)),
        Some(Member::Text(text)) => match Timestamp::parse(text.as_str()) {
            Some(time) => Ok(time),
            None => Err(DecodeError::Invalid(Field::Time)),
        },
        Some(_) => Err(DecodeError::WrongKind(Field::Time)),
    }
}

/// Reads an integer from the member found under the field's name.
pub fn read_integer(field: Field, member: Option<Member>) -> (r: Result<i64, DecodeError>)
    ensures
        r == integer_of(field, member_view(member)),
{
    match member {
        None => Err(DecodeError::Missing(field)),
        Some(Member::Number { literal, integer }) => match integer {
            Some(n) => Ok(n),
            None => Err(DecodeError::Invalid(field)),
        },
        Some(_) => Err(DecodeError::WrongKind(field)),
    }
}

/// Reads the size from the member found under its name.
pub fn read_size(member: Option<Member>) -> (r: Result<i32, DecodeError>)
    ensures
        r == size_of(member_view(member)),
{
    match read_integer(Field::Size, member) {
        Ok(n) => {
            if -0x8000_0000 <= n && n <= 0x7fff_ffff {
                Ok(n as i32)
            } else {
                Err(DecodeError::OutOfRange(Field::Size))
            }
        },
        Err(e) => Err(e),
    }
}

/// Reads a count from the member found under the field's name.
pub fn read_count(field: Field, member: Option<Member>) -> (r: Result<i64, DecodeError>)
    ensures
        r == count_of(field, member_view(member)),
{
    match read_integer(field, member) {
        Ok(n) => {
            if n >= 0 {
                Ok(n)
            } else {
                Err(DecodeError::OutOfRange(field))
            }
        },
        Err(e) => Err(e),
    }
}

/// Reads a price from the member found under the field's name.
pub fn read_decimal(field: Field, member: Option<Member>) -> (r: Result<Decimal, DecodeError>)
    ensures
        match r {
            Ok(d) => decimal_of(field, member_view(member)) == Ok::<DecimalView, DecodeError>(d@)
                && d.wf(),
            Err(e) => decimal_of(field, member_view(member)) == Err::<DecimalView, DecodeError>(e),
        },
{
    let parsed = match member {
        None => {
            return Err(DecodeError::Missing(field));
        },
        Some(Member::Text(text)) => Decimal::parse(text.as_str()),
        Some(Member::Number { literal, integer }) => Decimal::parse(literal.as_str()),
        Some(_) => {
            return Err(DecodeError::WrongKind(field));
        },
    };
    match parsed {
        Some(d) => Ok(d),
        None => Err(DecodeError::Invalid(field)),
    }
}

/// Reads a bar from a parsed JSON object.
pub fn decode_record(record: &serde_json::Map<String, serde_json::Value>) -> (r: Result<
    Bar,
    DecodeError,
>)
    ensures
        decoded_view(r) == bar_of_members(record_members(*record)),
        r is Ok ==> r->Ok_0.wf(),
{
    let symbol = match read_symbol(record_get(record, name_of(Field::Symbol))) {
        Ok(v) => v,
        Err(e) => {
            return Err(e);
        },
    };
    let time = match read_time(record_get(record, name_of(Field::Time))) {
        Ok(v) => v,
        Err(e) => {
            return Err(e);
        },
    };
    let size = match read_size(record_get(record, name_of(Field::Size))) {
        Ok(v) => v,
        Err(e) => {
            return Err(e);
        },
    };
    let open = match read_decimal(Field::Open, record_get(record, name_of(Field::Open))) {
        Ok(v) => v,
        Err(e) => {
            return Err(e);
        },
    };
    let high = match read_decimal(Field::High, record_get(record, name_of(Field::High))) {
        Ok(v) => v,
        Err(e) => {
            return Err(e);
        },
    };
    let low = match read_decimal(Field::Low, record_get(record, name_of(Field::Low))) {
        Ok(v) => v,
        Err(e) => {
            return Err(e);
        },
    };
    let close = match read_decimal(Field::Close, record_get(record, name_of(Field::Close))) {
        Ok(v) => v,
        Err(e) => {
            return Err(e);
        },
    };
    let wap = match read_decimal(Field::Wap, record_get(record, name_of(Field::Wap))) {
        Ok(v) => v,
        Err(e) => {
            return Err(e);
        },
    };
    let volume = match read_count(Field::Volume, record_get(record, name_of(Field::Volume))) {
        Ok(v) => v,
        Err(e) => {
            return Err(e);
        },
    };
    let trades = match read_count(Field::Trades, record_get(record, name_of(Field::Trades))) {
        Ok(v) => v,
        Err(e) => {
            return Err(e);
        },
    };
    match Bar::new(symbol, time, size, open, high, low, close, wap, volume, trades) {
        Ok(bar) => Ok(bar),
        Err(field) => Err(DecodeError::Invalid(field)),
    }
}

/// Decodes the payload of one message.
///
/// Every payload gives a bar or the reason why it is none. A price is read
/// from its text by [`Decimal::parse`], be it written as a string or as a
/// number, and the time by [`Timestamp::parse`].
pub fn decode(payload: &[u8]) -> (r: Result<Bar, DecodeError>)
    ensures
        decoded_view(r) == decode_spec(payload@),
        r is Ok ==> r->Ok_0.wf(),
{
    match json_from_slice(payload) {
        Ok(record) => decode_record(&record),
        Err(_) => Err(DecodeError::NotARecord),
    }
}

/// Why a batch is not decoded: the position of its first message that is no
/// bar, and what is wrong with that message.
#[derive(Debug, Clone, Copy, PartialEq, Eq)]
pub struct Rejection {
    pub index: usize,
    pub error: DecodeError,
}

/// The mathematical content of a [`Rejection`].
pub struct RejectionView {
    pub index: int,
    pub error: DecodeError,
}

impl View for Rejection {
    type V = RejectionView;

    open spec fn view(&self) -> RejectionView {
        RejectionView { index: self.index as int, error: self.error }
    }
}

/// The payloads of a run of messages.
pub open spec fn payloads_of(messages: Seq<Vec<u8>>) -> Seq<Seq<u8>> {
    messages.map_values(|m: Vec<u8>| m@)
}

/// The views of a run of bars.
pub open spec fn bars_of(bars: Seq<Bar>) -> Seq<BarView> {
    bars.map_values(|b: Bar| b@)
}

/// The bars that a batch of payloads gives: all of them, in order, or the
/// rejection of the first payload that is no bar.
pub open spec fn decode_all(payloads: Seq<Seq<u8>>) -> Result<Seq<BarView>, RejectionView>
    decreases payloads.len(),
{
    if payloads.len() == 0 {
        Ok(Seq::empty())
    } else {
        match decode_all(payloads.drop_last()) {
            Err(rejection) => Err(rejection),
            Ok(bars) => match decode_spec(payloads.last()) {
                Ok(bar) => Ok(bars.push(bar)),
                Err(error) => Err(RejectionView { index: payloads.len() - 1, error }),
            },
        }
    }
}

/// A rejection within the first `k` payloads is the rejection of the batch.
pub proof fn lemma_rejection_is_kept(payloads: Seq<Seq<u8>>, k: int)
    requires
        0 <= k <= payloads.len(),
        decode_all(payloads.take(k)) is Err,
    ensures
        decode_all(payloads) == decode_all(payloads.take(k)),
    decreases payloads.len() - k,
{
    if k == payloads.len() {
        assert(payloads.take(k) =~= payloads);
    } else {
        assert(payloads.drop_last().take(k) =~= payloads.take(k));
        lemma_rejection_is_kept(payloads.drop_last(), k);
    }
}

/// A batch is decoded as a whole or not at all: it gives bars exactly when
/// each of its payloads gives one, and then bar `i` is the bar of payload
/// `i`; otherwise it gives the first payload that is no bar, with its error.
pub proof fn lemma_batch_is_atomic(payloads: Seq<Seq<u8>>)
    ensures
        match decode_all(payloads) {
            Ok(bars) => {
                &&& bars.len() == payloads.len()
                &&& forall|i: int|
                    0 <= i < payloads.len() ==> decode_spec(#[trigger] payloads[i]) == Ok::<
                        BarView,
                        DecodeError,
                    >(bars[i])
            },
            Err(rejection) => {
                &&& 0 <= rejection.index < payloads.len()
                &&& decode_spec(payloads[rejection.index]) == Err::<BarView, DecodeError>(
                    rejection.error,
                )
                &&& forall|j: int|
                    0 <= j < rejection.index ==> decode_spec(#[trigger] payloads[j]) is Ok
            },
        },
    decreases payloads.len(),
{
    if payloads.len() > 0 {
        lemma_batch_is_atomic(payloads.drop_last());
        let front = payloads.drop_last();
        assert(forall|i: int| 0 <= i < front.len() ==> front[i] == payloads[i]);
    }
}

/// Decodes every message of a batch, in order.
///
/// The batch gives its bars only as a whole: one message that is no bar
/// rejects the batch, and the rejection names the first such message.
pub fn decode_batch(messages: &Vec<Vec<u8>>) -> (r: Result<Vec<Bar>, Rejection>)
    ensures
        match r {
            Ok(bars) => {
                &&& decode_all(payloads_of(messages@)) == Ok::<Seq<BarView>, RejectionView>(
                    bars_of(bars@),
                )
                &&& forall|i: int| 0 <= i < bars@.len() ==> (#[trigger] bars@[i]).wf()
            },
            Err(rejection) => decode_all(payloads_of(messages@)) == Err::<
                Seq<BarView>,
                RejectionView,
            >(rejection@),
        },
{
    let ghost payloads = payloads_of(messages@);
    let mut bars: Vec<Bar> = Vec::new();
    let mut i: usize = 0;
    assert(bars_of(bars@) =~= Seq::<BarView>::empty());
    while i < messages.len()
        invariant
            i <= messages.len(),
            payloads == payloads_of(messages@),
            decode_all(payloads.take(i as int)) == Ok::<Seq<BarView>, RejectionView>(
                bars_of(bars@),
            ),
            forall|k: int| 0 <= k < bars@.len() ==> (#[trigger] bars@[k]).wf(),
        decreases messages.len() - i,
    {
        let ghost before = bars_of(bars@);
        proof {
            assert(payloads.take(i + 1).drop_last() =~= payloads.take(i as int));
        }
        match decode(messages[i].as_slice()) {
            Ok(bar) => {
                bars.push(bar);
                assert(bars_of(bars@) =~= before.push(bar@));
            },
            Err(error) => {
                proof {
                    lemma_rejection_is_kept(payloads, i + 1);
                }
                return Err(Rejection { index: i, error });
            },
        }
        i += 1;
    }
    assert(payloads.take(i as int) =~= payloads);
    Ok(bars)
}

/// Whether a member spells a decimal: a string or a number whose text is
/// read as that decimal.
pub open spec fn spells_decimal(member: Option<MemberView>, value: DecimalView) -> bool {
    match member {
        Some(MemberView::Text(text)) => parse_decimal(text) == Some(value),
        Some(MemberView::Number { literal, integer }) => parse_decimal(literal) == Some(value),
        _ => false,
    }
}

/// Whether a member spells an integer: a number with that value.
pub open spec fn spells_integer(member: Option<MemberView>, value: int) -> bool {
    match member {
        Some(MemberView::Number { literal, integer }) => integer is Some && integer->0 == value,
        _ => false,
    }
}

/// Whether a member spells an instant: a string that is read as that
/// instant.
pub open spec fn spells_time(member: Option<MemberView>, value: TimestampView) -> bool {
    match member {
        Some(MemberView::Text(text)) => parse_timestamp(text) == Some(value),
        _ => false,
    }
}

/// Whether a record spells a bar: under the name of each field stands a
/// member that spells the value of that field.
pub open spec fn spells_bar(members: Map<Seq<char>, MemberView>, bar: BarView) -> bool {
    &&& field_member(members, Field::Symbol) == Some(MemberView::Text(bar.symbol))
    &&& spells_time(field_member(members, Field::Time), bar.time)
    &&& spells_integer(field_member(members, Field::Size), bar.size)
    &&& spells_decimal(field_member(members, Field::Open), bar.open)
    &&& spells_decimal(field_member(members, Field::High), bar.high)
    &&& spells_decimal(field_member(members, Field::Low), bar.low)
    &&& spells_decimal(field_member(members, Field::Close), bar.close)
    &&& spells_decimal(field_member(members, Field::Wap), bar.wap)
    &&& spells_integer(field_member(members, Field::Volume), bar.volume)
    &&& spells_integer(field_member(members, Field::Trades), bar.trades)
}

/// Decoding gives back what was spelled: a record that spells a bar, field
/// by field, is decoded to that bar and no other, each price with the
/// digits and the scale that were written.
pub proof fn lemma_spelled_bar_is_decoded(members: Map<Seq<char>, MemberView>, bar: BarView)
    requires
        bar.wf(),
        spells_bar(members, bar),
    ensures
        bar_of_members(members) == Ok::<BarView, DecodeError>(bar),
{
}

/// Decoding gives nothing that was not spelled: the bar that a record is
/// decoded to is well formed, and the record spells it.
pub proof fn lemma_decoded_bar_was_spelled(members: Map<Seq<char>, MemberView>, bar: BarView)
    requires
        bar_of_members(members) == Ok::<BarView, DecodeError>(bar),
    ensures
        bar.wf(),
        spells_bar(members, bar),
{
}

/// A payload whose object spells a bar is decoded to that bar.
pub proof fn lemma_spelled_payload_is_decoded(payload: Seq<u8>, bar: BarView)
    requires
        bar.wf(),
        json_record(payload) is Some,
        spells_bar(json_record(payload)->0, bar),
    ensures
        decode_spec(payload) == Ok::<BarView, DecodeError>(bar),
{
    lemma_spelled_bar_is_decoded(json_record(payload)->0, bar);
}

} // verus!
