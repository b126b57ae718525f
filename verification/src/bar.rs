//! The bar record: one aggregated trading interval of one symbol.

use crate::decimal::Decimal;
use crate::decimal::DecimalView;
use crate::timestamp::Timestamp;
use crate::timestamp::TimestampView;
use vstd::prelude::*;

verus! {

/// The attributes of a bar, in the order in which a record is read.
#[derive(Debug, Clone, Copy, PartialEq, Eq, Structural)]
pub enum Field {
    Symbol,
    Time,
    Size,
    Open,
    High,
    Low,
    Close,
    Wap,
    Volume,
    Trades,
}

/// The natural key of a bar: at most one bar is stored under each key.
pub struct BarKey {
    pub symbol: Seq<char>,
    pub time: TimestampView,
    pub size: int,
}

/// The mathematical content of a [`Bar`].
pub struct BarView {
    pub symbol: Seq<char>,
    pub time: TimestampView,
    pub size: int,
    pub open: DecimalView,
    pub high: DecimalView,
    pub low: DecimalView,
    pub close: DecimalView,
    pub wap: DecimalView,
    pub volume: int,
    pub trades: int,
}

impl BarView {
    pub open spec fn key(self) -> BarKey {
        BarKey { symbol: self.symbol, time: self.time, size: self.size }
    }

    pub open spec fn wf(self) -> bool {
        &&& self.symbol.len() > 0
        &&& self.time.wf()
        &&& i32::MIN <= self.size <= i32::MAX
        &&& self.open.wf()
        &&& self.high.wf()
        &&& self.low.wf()
        &&& self.close.wf()
        &&& self.wap.wf()
        &&& 0 <= self.volume <= i64::MAX
        &&& 0 <= self.trades <= i64::MAX
    }
}

/// A bar: the symbol, the start and length of the interval, the five prices
/// and the two counts.
#[derive(Debug, PartialEq, Eq)]
pub struct Bar {
    symbol: String,
    time: Timestamp,
    size: i32,
    open: Decimal,
    high: Decimal,
    low: Decimal,
    close: Decimal,
    wap: Decimal,
    volume: i64,
    trades: i64,
}

impl View for Bar {
    type V = BarView;

    closed spec fn view(&self) -> BarView {
        BarView {
            symbol: self.symbol@,
            time: self.time@,
            size: self.size as int,
            open: self.open@,
            high: self.high@,
            low: self.low@,
            close: self.close@,
            wap: self.wap@,
            volume: self.volume as int,
            trades: self.trades as int,
        }
    }
}

impl Clone for Bar {
    fn clone(&self) -> (r: Bar)
        ensures
            r@ == self@,
    {
        proof {
            use_type_invariant(self);
        }
        Bar {
            symbol: self.symbol.clone(),
            time: self.time,
            size: self.size,
            open: self.open.clone(),
            high: self.high.clone(),
            low: self.low.clone(),
            close: self.close.clone(),
            wap: self.wap.clone(),
            volume: self.volume,
            trades: self.trades,
        }
    }
}

/// The field that keeps the given parts from being a bar, if any: an empty
/// symbol, else a negative volume, else a negative number of trades.
pub open spec fn offending_field(symbol: Seq<char>, volume: int, trades: int) -> Option<Field> {
    if symbol.len() == 0 {
        Some(Field::Symbol)
    } else if volume < 0 {
        Some(Field::Volume)
    } else if trades < 0 {
        Some(Field::Trades)
    } else {
        None
    }
}

impl Bar {
    /// Holds of every bar: the constructors see to it.
    #[verifier::type_invariant]
    pub open spec fn wf(&self) -> bool {
        self@.wf()
    }

    /// Puts a bar together. The symbol must not be empty and the two counts
    /// must not be negative; the error names the first field that fails.
    pub fn new(
        symbol: String,
        time: Timestamp,
        size: i32,
        open: Decimal,
        high: Decimal,
        low: Decimal,
        close: Decimal,
        wap: Decimal,
        volume: i64,
        trades: i64,
    ) -> (r: Result<Bar, Field>)
        ensures
            match r {
                Ok(bar) => {
                    &&& offending_field(symbol@, volume as int, trades as int) is None
                    &&& bar.wf()
                    &&& bar@ == (BarView {
                        symbol: symbol@,
                        time: time@,
                        size: size as int,
                        open: open@,
                        high: high@,
                        low: low@,
                        close: close@,
                        wap: wap@,
                        volume: volume as int,
                        trades: trades as int,
                    })
                },
                Err(field) => offending_field(symbol@, volume as int, trades as int) == Some(
                    field,
                ),
            },
    {
        proof {
            use_type_invariant(&time);
            use_type_invariant(&open);
            use_type_invariant(&high);
            use_type_invariant(&low);
            use_type_invariant(&close);
            use_type_invariant(&wap);
        }
        if symbol.as_str().is_empty() {
            return Err(Field::Symbol);
        }
        if volume < 0 {
            return Err(Field::Volume);
        }
        if trades < 0 {
            return Err(Field::Trades);
        }
        Ok(Bar { symbol, time, size, open, high, low, close, wap, volume, trades })
    }

    /// Whether two bars share their natural key.
    pub fn same_key(&self, other: &Bar) -> (r: bool)
        ensures
            r == (self@.key() == other@.key()),
    {
        self.size == other.size && self.time.same(&other.time) && self.symbol == other.symbol
    }

    pub fn symbol(&self) -> (r: &str)
        ensures
            r@ == self@.symbol,
    {
        self.symbol.as_str()
    }

    pub fn time(&self) -> (r: Timestamp)
        ensures
            r@ == self@.time,
    {
        self.time
    }

    pub fn size(&self) -> (r: i32)
        ensures
            r == self@.size,
    {
        self.size
    }

    pub fn open(&self) -> (r: &Decimal)
        ensures
            r@ == self@.open,
    {
        &self.open
    }

    pub fn high(&self) -> (r: &Decimal)
        ensures
            r@ == self@.high,
    {
        &self.high
    }

    pub fn low(&self) -> (r: &Decimal)
        ensures
            r@ == self@.low,
    {
        &self.low
    }

    pub fn close(&self) -> (r: &Decimal)
        ensures
            r@ == self@.close,
    {
        &self.close
    }

    pub fn wap(&self) -> (r: &Decimal)
        ensures
            r@ == self@.wap,
    {
        &self.wap
    }

    pub fn volume(&self) -> (r: i64)
        ensures
            r == self@.volume,
    {
        self.volume
    }

    pub fn trades(&self) -> (r: i64)
        ensures
            r == self@.trades,
    {
        self.trades
    }
}

} // verus!
