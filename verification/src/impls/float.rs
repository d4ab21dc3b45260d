//! Fixed-precision formatting of numbers that were split into an integer
//! part and a fractional part.

use vstd::prelude::*;
use crate::ascii::{MINUS, POINT, ZERO};
use crate::digits::{digit_char, digits, lemma_decimal_widths, lemma_digits_step};
use crate::formatter::Formatter;
use crate::write::{ascii_str, ascii_text, uWrite};

verus! {

/// The largest number of decimal places that can be asked for.
pub const MAX_DECIMAL_PLACES: usize = 6;

/// The last `places` decimal digits of `right`, with leading zeros where
/// `right` has fewer digits.
pub open spec fn fraction_text(right: nat, places: nat) -> Seq<char>
    decreases places,
{
    if places == 0 {
        Seq::empty()
    } else {
        fraction_text(right / 10, (places - 1) as nat).push(digit_char(right % 10, false))
    }
}

/// The rendering of a number given by its sign, its integer part and its
/// fractional part scaled by `10^places`: an optional `-`, the integer
/// part, and, if any places were asked for, a `.` and exactly that many
/// digits.
pub open spec fn fixed_text(left: nat, right: nat, places: nat, is_neg: bool) -> Seq<char> {
    let sign = if is_neg {
        seq!['-']
    } else {
        Seq::empty()
    };
    let fraction = if places == 0 {
        Seq::empty()
    } else {
        seq!['.'] + fraction_text(right, places)
    };
    sign + digits(left, 10, false) + fraction
}

/// `text` after spaces that bring it to `pad_length` characters, if it is
/// shorter.
pub open spec fn left_padded(text: Seq<char>, pad_length: nat) -> Seq<char> {
    if pad_length > text.len() {
        Seq::new((pad_length - text.len()) as nat, |i: int| ' ') + text
    } else {
        text
    }
}

/// A fraction has exactly as many digits as places were asked for.
pub proof fn lemma_fraction_len(right: nat, places: nat)
    ensures
        fraction_text(right, places).len() == places,
    decreases places,
{
    if places > 0 {
        lemma_fraction_len(right / 10, (places - 1) as nat);
    }
}

/// A number as the formatter takes it: what it is not, or its parts.
pub enum FloatParts {
    /// Not a number.
    Nan,
    /// Above the range that can be split into parts.
    Overflow,
    /// Below the range that can be split into parts.
    Underflow,
    /// A number in range: its sign, its integer part, and its fractional
    /// part scaled by ten to the number of decimal places.
    Finite { is_neg: bool, left: u32, right: u32 },
}

impl FloatParts {
    /// The rendering of the number: a fixed text for what is out of range,
    /// else the padded fixed-precision text.
    pub open spec fn text(&self, decimal_places: nat, pad_length: nat) -> Seq<char> {
        match self {
            FloatParts::Nan => "NaN"@,
            FloatParts::Overflow => "ovfl"@,
            FloatParts::Underflow => "uflw"@,
            FloatParts::Finite { is_neg, left, right } => left_padded(
                fixed_text(*left as nat, *right as nat, decimal_places, *is_neg),
                pad_length,
            ),
        }
    }

    /// Formats the number using the given formatter.
    pub fn fmt_float<W>(
        &self,
        fmt: &mut Formatter<'_, W>,
        decimal_places: usize,
        pad_length: usize,
    ) -> (res: Result<(), W::Error>) where W: uWrite + ?Sized
        requires
            self is Finite ==> decimal_places <= MAX_DECIMAL_PLACES,
        ensures
            final(fmt).is_pretty() == old(fmt).is_pretty(),
            &*final(final(fmt).sink()) == &*final(old(fmt).sink()),
            res is Ok ==> final(fmt).extends(
                old(fmt),
                self.text(decimal_places as nat, pad_length as nat),
            ),
            res matches Err(e) ==> final(fmt).failed(old(fmt), e),
    {
        match self {
            FloatParts::Nan => fmt.write_str("NaN"),
            FloatParts::Overflow => fmt.write_str("ovfl"),
            FloatParts::Underflow => fmt.write_str("uflw"),
            FloatParts::Finite { is_neg, left, right } => write_as_float_str(
                fmt,
                *left,
                *right,
                decimal_places,
                *is_neg,
                pad_length,
            ),
        }
    }
}

/// Writes a number that is given as two integers, the digits to the left and
/// to the right of the decimal point, with its sign apart.
pub fn write_as_float_str<W>(
    fmt: &mut Formatter<'_, W>,
    left: u32,
    right: u32,
    decimal_places: usize,
    is_neg: bool,
    pad_length: usize,
) -> (res: Result<(), W::Error>) where W: uWrite + ?Sized
    requires
        decimal_places <= MAX_DECIMAL_PLACES,
    ensures
        final(fmt).is_pretty() == old(fmt).is_pretty(),
        &*final(final(fmt).sink()) == &*final(old(fmt).sink()),
        res is Ok ==> final(fmt).extends(
            old(fmt),
            left_padded(
                fixed_text(left as nat, right as nat, decimal_places as nat, is_neg),
                pad_length as nat,
            ),
        ),
        res matches Err(e) ==> final(fmt).failed(old(fmt), e),
{
    // a sign, up to 10 digits, a point and up to 6 digits: 18 bytes at most
    let mut buf = [0u8; 18];
    let len: usize = 18;
    let mut idx = len;
    let ghost places = decimal_places as nat;
    let ghost fraction = fraction_text(right as nat, places);
    let ghost whole = digits(left as nat, 10, false);
    let ghost text = fixed_text(left as nat, right as nat, places, is_neg);
    let mut left = left;
    let mut right = right;

    proof {
        lemma_fraction_len(right as nat, places);
        lemma_decimal_widths(left as nat);
        assert(ascii_text(buf@.subrange(18, 18)) =~= Seq::<char>::empty());
    }

    // write digits to the right of the point
    if decimal_places != 0 {
        let dp_idx = len - decimal_places;
        assert(fraction =~= fraction + Seq::<char>::empty());
        while idx > dp_idx
            invariant
                dp_idx <= idx <= 18,
                dp_idx + decimal_places == 18,
                forall|j: int| idx <= j < 18 ==> buf@[j] < 0x80,
                fraction == fraction_text(right as nat, (idx - dp_idx) as nat) + ascii_text(
                    buf@.subrange(idx as int, 18),
                ),
            decreases idx,
        {
            let ghost prev = right;
            let ghost tail = ascii_text(buf@.subrange(idx as int, 18));
            idx -= 1;
            let m = (right % 10) as u8;
            right = right / 10;
            buf[idx] = m + ZERO;
            proof {
                let d = digit_char((prev % 10) as nat, false);
                assert(ascii_text(buf@.subrange(idx as int, 18)) =~= seq![d] + tail);
                assert(fraction_text(prev as nat, (idx + 1 - dp_idx) as nat) + tail
                    =~= fraction_text(right as nat, (idx - dp_idx) as nat) + (seq![d] + tail));
            }
        }
        let ghost tail = ascii_text(buf@.subrange(idx as int, 18));
        assert(fraction =~= tail);
        idx -= 1;
        buf[idx] = POINT;
        assert(ascii_text(buf@.subrange(idx as int, 18)) =~= seq!['.'] + fraction);
    }
    let end = idx;
    let ghost after = if decimal_places == 0 {
        Seq::<char>::empty()
    } else {
        seq!['.'] + fraction
    };
    assert(ascii_text(buf@.subrange(end as int, 18)) =~= after);
    assert(end >= 11);

    // write digits to the left of the point
    proof {
        lemma_digits_step(left as nat, 10, false);
    }
    if left == 0 {
        let ghost tail = ascii_text(buf@.subrange(idx as int, 18));
        idx -= 1;
        buf[idx] = ZERO;
        assert(ascii_text(buf@.subrange(idx as int, 18)) =~= seq!['0'] + tail);
        assert(ascii_text(buf@.subrange(idx as int, 18)) =~= whole + after);
    } else {
        assert(ascii_text(buf@.subrange(idx as int, 18)) =~= Seq::<char>::empty() + after);
        assert(whole + after =~= whole + (Seq::<char>::empty() + after));
        while left > 0
            invariant
                idx <= end <= 18,
                end >= 11,
                whole.len() <= 10,
                after.len() == 18 - end,
                forall|j: int| idx <= j < 18 ==> buf@[j] < 0x80,
                left > 0 ==> whole + after == digits(left as nat, 10, false) + ascii_text(
                    buf@.subrange(idx as int, 18),
                ),
                left == 0 ==> whole + after == ascii_text(buf@.subrange(idx as int, 18)),
            decreases left,
        {
            let ghost prev = left;
            let ghost tail = ascii_text(buf@.subrange(idx as int, 18));
            proof {
                lemma_digits_step(prev as nat, 10, false);
                assert(tail.len() == 18 - idx);
                assert((whole + after).len() == whole.len() + after.len());
                assert((digits(prev as nat, 10, false) + tail).len() == digits(
                    prev as nat,
                    10,
                    false,
                ).len() + tail.len());
            }
            idx -= 1;
            let m = (left % 10) as u8;
            left = left / 10;
            buf[idx] = m + ZERO;
            proof {
                lemma_digits_step(left as nat, 10, false);
                let d = digit_char((prev % 10) as nat, false);
                assert(ascii_text(buf@.subrange(idx as int, 18)) =~= seq![d] + tail);
                if prev >= 10 {
                    assert(digits(prev as nat, 10, false) + tail =~= digits(left as nat, 10, false)
                        + (seq![d] + tail));
                }
            }
        }
    }
    assert(ascii_text(buf@.subrange(idx as int, 18)) == whole + after);
    assert((whole + after).len() == whole.len() + after.len());
    assert(ascii_text(buf@.subrange(idx as int, 18)).len() == 18 - idx);

    // add the sign if necessary
    if is_neg {
        let ghost tail = ascii_text(buf@.subrange(idx as int, 18));
        idx -= 1;
        buf[idx] = MINUS;
        assert(ascii_text(buf@.subrange(idx as int, 18)) =~= seq!['-'] + tail);
    }
    assert(ascii_text(buf@.subrange(idx as int, 18)) =~= text);

    let length = len - idx;
    let ghost start = fmt.written();

    // pad, if necessary
    if length > 0 && pad_length > length {
        let count = pad_length - length;
        let mut i: usize = 0;
        assert(start =~= start + Seq::new(0, |i: int| ' '));
        while i < count
            invariant
                i <= count,
                fmt.is_pretty() == old(fmt).is_pretty(),
                fmt.level() == old(fmt).level(),
                &*final(fmt.sink()) == &*final(old(fmt).sink()),
                fmt.written() == start + Seq::new(i as nat, |i: int| ' '),
                fmt.refused() == old(fmt).refused(),
            decreases count - i,
        {
            let ghost before = fmt.written();
            fmt.write_char(' ')?;
            assert(before + seq![' '] =~= start + Seq::new((i + 1) as nat, |i: int| ' '));
            i += 1;
        }
    }
    let ghost padded = fmt.written();
    let bytes = &buf[idx..18];
    let res = fmt.write_str(ascii_str(bytes));
    proof {
        assert(bytes@ =~= buf@.subrange(idx as int, 18));
        if pad_length > length {
            assert(padded + text =~= start + left_padded(text, pad_length as nat));
        } else {
            assert(padded + text =~= start + left_padded(text, pad_length as nat));
        }
    }
    res
}

} // verus!
