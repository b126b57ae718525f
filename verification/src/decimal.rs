//! Exact base-10 numbers: a sign, a string of decimal digits and a scale.
//!
//! A decimal stands for `unscaled * 10^(-scale)`. Two decimals are the same
//! value with the same precision exactly when their three parts agree, so
//! `1.0` and `1.00` are kept apart.

use bigdecimal::BigDecimal;
use bigdecimal::Signed;
use std::str::FromStr;
use vstd::prelude::*;
use vstd::string::*;
use vstd::utf8::*;

verus! {

/// Longest text, in characters, that is handed to the decimal parser.
pub const MAX_DECIMAL_TEXT: usize = 0x7fff_ffff;

/// Number of trailing characters in which an exponent marker may stand:
/// the marker itself and at most eighteen characters of exponent.
pub const EXPONENT_WINDOW: usize = 19;

/// The mathematical content of a [`Decimal`].
pub struct DecimalView {
    pub negative: bool,
    pub digits: Seq<u8>,
    pub scale: int,
}

/// The number that a string of base-10 digits spells, most significant first.
pub open spec fn digits_value(digits: Seq<u8>) -> nat
    decreases digits.len(),
{
    if digits.len() == 0 {
        0
    } else {
        digits_value(digits.drop_last()) * 10 + digits.last() as nat
    }
}

/// Canonical digits: at least one, each below ten, no leading zero
/// except for the single digit of zero itself.
pub open spec fn canonical_digits(digits: Seq<u8>) -> bool {
    &&& digits.len() > 0
    &&& forall|i: int| 0 <= i < digits.len() ==> digits[i] < 10
    &&& (digits.len() > 1 ==> digits[0] != 0)
}

/// Canonical parts of a decimal: canonical digits, and zero carries no sign.
pub open spec fn canonical_parts(negative: bool, digits: Seq<u8>) -> bool {
    &&& canonical_digits(digits)
    &&& (negative ==> digits[0] != 0)
}

impl DecimalView {
    pub open spec fn wf(self) -> bool {
        &&& canonical_parts(self.negative, self.digits)
        &&& i64::MIN <= self.scale <= i64::MAX
    }

    /// The integer that is scaled: the digits with the sign applied.
    pub open spec fn unscaled(self) -> int {
        if self.negative {
            -(digits_value(self.digits) as int)
        } else {
            digits_value(self.digits) as int
        }
    }
}

/// An exact decimal number.
#[derive(Debug, PartialEq, Eq)]
pub struct Decimal {
    negative: bool,
    digits: Vec<u8>,
    scale: i64,
}

impl View for Decimal {
    type V = DecimalView;

    closed spec fn view(&self) -> DecimalView {
        DecimalView { negative: self.negative, digits: self.digits@, scale: self.scale as int }
    }
}

impl Clone for Decimal {
    fn clone(&self) -> (r: Decimal)
        ensures
            r@ == self@,
    {
        proof {
            use_type_invariant(self);
        }
        Decimal { negative: self.negative, digits: self.digits.clone(), scale: self.scale }
    }
}

/// True for the two characters that introduce an exponent.
pub open spec fn is_exponent_marker(c: char) -> bool {
    c == 'e' || c == 'E'
}

/// Every exponent marker stands within the last [`EXPONENT_WINDOW`]
/// characters, so an exponent has at most eighteen characters.
pub open spec fn exponent_is_short(text: Seq<char>) -> bool {
    forall|i: int|
        0 <= i < text.len() && is_exponent_marker(#[trigger] text[i]) ==> text.len() - i
            <= EXPONENT_WINDOW
}

/// The texts that are handed to the decimal parser: plain ASCII of bounded
/// length with a short exponent. Anything else is no decimal.
pub open spec fn decimal_text_admitted(text: Seq<char>) -> bool {
    &&& is_ascii_chars(text)
    &&& text.len() <= MAX_DECIMAL_TEXT
    &&& exponent_is_short(text)
}

/// What `BigDecimal::from_str` makes of a text, taken apart into the sign,
/// the base-10 digits of the unscaled integer and the scale; `None` where it
/// reports an error.
pub uninterp spec fn decimal_of_text(text: Seq<char>) -> Option<(bool, Seq<u8>, i64)>;

/// The decimal that a text spells, if it spells one.
pub open spec fn parse_decimal(text: Seq<char>) -> Option<DecimalView> {
    if !decimal_text_admitted(text) {
        None
    } else {
        match decimal_of_text(text) {
            Some((negative, digits, scale)) => if canonical_parts(negative, digits) {
                Some(DecimalView { negative, digits, scale: scale as int })
            } else {
                None
            },
            None => None,
        }
    }
}

/// Calls `BigDecimal::from_str` and takes the result apart with
/// `is_negative`, `into_bigint_and_exponent` and `BigInt::to_radix_be(10)`.
/// The contract only gives the outcome its name, [`decimal_of_text`]. The
/// texts left out are those on which the parser's scale arithmetic could
/// overflow.
#[verifier::external_body]
fn bigdecimal_from_str(text: &str) -> (parts: Option<(bool, Vec<u8>, i64)>)
    requires
        decimal_text_admitted(text@),
    ensures
        match parts {
            Some((negative, digits, scale)) => decimal_of_text(text@) == Some(
                (negative, digits@, scale),
            ),
            None => decimal_of_text(text@) is None,
        },
{
    match BigDecimal::from_str(text) {
        Ok(number) => {
            let negative = number.is_negative();
            let (unscaled, scale) = number.into_bigint_and_exponent();
            Some((negative, unscaled.to_radix_be(10).1, scale))
        },
        Err(_) => None,
    }
}

/// Tests whether a text may be handed to the decimal parser.
fn admit_decimal_text(text: &str) -> (ok: bool)
    ensures
        ok == decimal_text_admitted(text@),
{
    if !text.is_ascii() {
        return false;
    }
    let bytes = text.as_bytes();
    let n: usize = bytes.len();
    proof {
        is_ascii_chars_encode_utf8(text@);
    }
    if n > MAX_DECIMAL_TEXT {
        return false;
    }
    if n <= EXPONENT_WINDOW {
        return true;
    }
    let stop: usize = n - EXPONENT_WINDOW;
    let mut i: usize = 0;
    while i < stop
        invariant
            i <= stop,
            stop == n - EXPONENT_WINDOW,
            n == text@.len(),
            n == bytes@.len(),
            is_ascii_chars(text@),
            forall|k: int| 0 <= k < n ==> text@[k] as u8 == #[trigger] bytes@[k],
            forall|k: int| 0 <= k < i ==> !is_exponent_marker(#[trigger] text@[k]),
        decreases stop - i,
    {
        let b: u8 = bytes[i];
        if b == 0x65 || b == 0x45 {
            return false;
        }
        i += 1;
    }
    true
}

impl Decimal {
    /// Holds of every decimal: the constructors see to it.
    #[verifier::type_invariant]
    pub open spec fn wf(&self) -> bool {
        self@.wf()
    }

    /// Builds a decimal from its parts, if they are canonical.
    pub fn from_parts(negative: bool, digits: Vec<u8>, scale: i64) -> (r: Option<Decimal>)
        ensures
            r is Some <==> canonical_parts(negative, digits@),
            r is Some ==> r->0@ == (DecimalView { negative, digits: digits@, scale: scale as int }),
            r is Some ==> r->0.wf(),
    {
        let n: usize = digits.len();
        if n == 0 {
            return None;
        }
        if n > 1 && digits[0] == 0 {
            return None;
        }
        if negative && digits[0] == 0 {
            return None;
        }
        let mut i: usize = 0;
        while i < n
            invariant
                i <= n,
                n == digits@.len(),
                forall|k: int| 0 <= k < i ==> digits@[k] < 10,
            decreases n - i,
        {
            if digits[i] >= 10 {
                return None;
            }
            i += 1;
        }
        Some(Decimal { negative, digits, scale })
    }

    /// Reads a decimal from text such as `-12.50` or `1.5e3`.
    ///
    /// The text is read by `BigDecimal::from_str`, and the digits and the
    /// scale are kept as that gives them: nothing is rounded, and `12.50`
    /// keeps its two places.
    pub fn parse(text: &str) -> (r: Option<Decimal>)
        ensures
            r is Some <==> parse_decimal(text@) is Some,
            r is Some ==> r->0@ == parse_decimal(text@)->0,
            r is Some ==> r->0.wf(),
    {
        if !admit_decimal_text(text) {
            return None;
        }
        match bigdecimal_from_str(text) {
            Some((negative, digits, scale)) => Decimal::from_parts(negative, digits, scale),
            None => None,
        }
    }

    pub fn is_negative(&self) -> (r: bool)
        ensures
            r == self@.negative,
    {
        self.negative
    }

    /// The base-10 digits of the unscaled integer, most significant first.
    pub fn digits(&self) -> (r: &Vec<u8>)
        ensures
            r@ == self@.digits,
    {
        &self.digits
    }

    /// The number of digits that stand behind the decimal point.
    pub fn scale(&self) -> (r: i64)
        ensures
            r == self@.scale,
    {
        self.scale
    }
}

/// Ten to the power `n`.
pub open spec fn pow10(n: nat) -> nat
    decreases n,
{
    if n == 0 {
        1
    } else {
        10 * pow10((n - 1) as nat)
    }
}

/// A string of `n` digits spells a number below ten to the `n`; and at
/// least ten to the `n - 1`, where it does not start with zero.
pub proof fn lemma_digits_value_bounds(digits: Seq<u8>)
    requires
        forall|i: int| 0 <= i < digits.len() ==> digits[i] < 10,
    ensures
        digits_value(digits) < pow10(digits.len()),
        digits.len() > 0 && digits[0] != 0 ==> digits_value(digits) >= pow10(
            (digits.len() - 1) as nat,
        ),
    decreases digits.len(),
{
    if digits.len() > 0 {
        let front = digits.drop_last();
        lemma_digits_value_bounds(front);
    }
}

/// Ten to a smaller power is no more than ten to a larger one.
pub proof fn lemma_pow10_rises(m: nat, n: nat)
    requires
        m <= n,
    ensures
        pow10(m) <= pow10(n),
        pow10(m) >= 1,
    decreases n,
{
    if m < n {
        lemma_pow10_rises(m, (n - 1) as nat);
    } else if n > 0 {
        lemma_pow10_rises((m - 1) as nat, (n - 1) as nat);
    }
}

/// Two strings of digits of one length that spell one number are the same
/// string.
pub proof fn lemma_digits_of_one_length(a: Seq<u8>, b: Seq<u8>)
    requires
        forall|i: int| 0 <= i < a.len() ==> a[i] < 10,
        forall|i: int| 0 <= i < b.len() ==> b[i] < 10,
        a.len() == b.len(),
        digits_value(a) == digits_value(b),
    ensures
        a == b,
    decreases a.len(),
{
    if a.len() > 0 {
        let x = digits_value(a.drop_last());
        let y = digits_value(b.drop_last());
        assert(x * 10 + a.last() == y * 10 + b.last());
        assert(x == y && a.last() == b.last());
        lemma_digits_of_one_length(a.drop_last(), b.drop_last());
        assert(a =~= a.drop_last().push(a.last()));
        assert(b =~= b.drop_last().push(b.last()));
    }
}

/// The parts of a decimal are fixed by what it stands for: two well-formed
/// decimals with one unscaled integer and one scale are the same, digit for
/// digit. So decimals are equal exactly when they are equal in value and
/// in precision.
pub proof fn lemma_decimal_is_canonical(a: DecimalView, b: DecimalView)
    requires
        a.wf(),
        b.wf(),
        a.unscaled() == b.unscaled(),
        a.scale == b.scale,
    ensures
        a == b,
{
    lemma_digits_value_bounds(a.digits);
    lemma_digits_value_bounds(b.digits);
    if a.digits.len() < b.digits.len() {
        lemma_pow10_rises(a.digits.len(), (b.digits.len() - 1) as nat);
        assert(false);
    }
    if b.digits.len() < a.digits.len() {
        lemma_pow10_rises(b.digits.len(), (a.digits.len() - 1) as nat);
        assert(false);
    }
    if a.negative != b.negative {
        assert(digits_value(a.digits) == 0 && digits_value(b.digits) == 0);
        assert(false);
    }
    lemma_digits_of_one_length(a.digits, b.digits);
}

} // verus!
