//! Binary formatting of the integers.

use vstd::prelude::*;
use vstd::string::*;
use crate::ascii::ZERO;
use crate::digits::{
    digit_char, digits, lemma_bin_widths, lemma_digits_ascii, lemma_digits_step,
};
use crate::formatter::Formatter;
use crate::impls::uxx::lemma_ascii_bytes;
use crate::write::{ascii_str, ascii_text, uWrite};
use crate::{uDisplayBin, BinOptions};

verus! {

/// The ASCII code of one binary digit.
pub fn bin_digit(val: u8, _upper_case: bool) -> (c: u8)
    requires
        val < 2,
    ensures
        c as char == digit_char(val as nat, false),
        c < 0x80,
{
    ZERO + val
}

/// The low bit of a value is its last binary digit, and a shift by one drops
/// that digit.
proof fn lemma_bit_u8(v: u8)
    by (bit_vector)
    ensures
        v & 0b1 == v % 2,
        v >> 1 == v / 2,
{
}

/// Writes the binary digits of `val` at the end of `buf` and returns
/// them as a string slice. The buffer has room for every digit of the type.
pub fn bin_u8(val: u8, upper_case: bool, buf: &mut [u8; 8]) -> (s: &str)
    ensures
        s@ == digits(val as nat, 2, false),
        s.len() == s@.len(),
{
    let ghost number = val as nat;
    let ghost text = digits(number, 2, false);
    let mut cursor: usize = 8;
    let mut val = val;
    proof {
        lemma_bin_widths(val as nat);
        lemma_digits_step(val as nat, 2, false);
        assert(ascii_text(buf@.subrange(8, 8)) =~= Seq::<char>::empty());
        assert(text =~= text + Seq::<char>::empty());
    }
    if val == 0 {
        cursor -= 1;
        buf[cursor] = ZERO;
        assert(ascii_text(buf@.subrange(cursor as int, 8)) =~= text);
    } else {
        while val != 0 && cursor > 0
            invariant
                cursor <= 8,
                text.len() <= 8,
                val > 0 ==> text == digits(val as nat, 2, false) + ascii_text(
                    buf@.subrange(cursor as int, 8),
                ),
                val == 0 ==> text == ascii_text(buf@.subrange(cursor as int, 8)),
            decreases val,
        {
            let ghost prev = val;
            let ghost tail = ascii_text(buf@.subrange(cursor as int, 8));
            proof {
                lemma_bit_u8(val);
            }
            let rem = val & 0b1;
            cursor -= 1;
            buf[cursor] = bin_digit(rem as u8, upper_case);
            val >>= 1;
            proof {
                lemma_digits_step(prev as nat, 2, false);
                lemma_digits_step(val as nat, 2, false);
                let d = digit_char((prev % 2) as nat, false);
                assert(ascii_text(buf@.subrange(cursor as int, 8)) =~= seq![d] + tail);
                if prev >= 2 {
                    assert(digits(prev as nat, 2, false) + tail =~= digits(
                        val as nat,
                        2,
                        false,
                    ) + (seq![d] + tail));
                }
            }
        }
        proof {
            lemma_digits_step(val as nat, 2, false);
        }
    }
    let bytes = &buf[cursor..8];
    proof {
        lemma_digits_ascii(number, 2, false);
        lemma_ascii_bytes(bytes@, text);
    }
    ascii_str(bytes)
}

impl uDisplayBin for i8 {
    open spec fn bin_value(&self) -> nat {
        (*self as u8) as nat
    }

    fn fmt_bin<W>(&self, fmt: &mut Formatter<'_, W>, options: BinOptions) -> (res: Result<
        (),
        W::Error,
    >) where W: uWrite + ?Sized {
        // negative numbers are not written with a minus sign: the digits are
        // those of the two's-complement bit pattern
        let positive = #[verifier::truncate]
        (*self as u8);
        <u8 as uDisplayBin>::fmt_bin(&positive, fmt, options)
    }
}

impl uDisplayBin for u8 {
    open spec fn bin_value(&self) -> nat {
        *self as nat
    }

    fn fmt_bin<W>(&self, fmt: &mut Formatter<'_, W>, options: BinOptions) -> (res: Result<
        (),
        W::Error,
    >) where W: uWrite + ?Sized {
        let mut buffer = [0x30u8; 8];
        let bin_string = bin_u8(*self, options.upper_case, &mut buffer);
        options.with_stuff(fmt, bin_string)
    }
}

/// The low bit of a value is its last binary digit, and a shift by one drops
/// that digit.
proof fn lemma_bit_u16(v: u16)
    by (bit_vector)
    ensures
        v & 0b1 == v % 2,
        v >> 1 == v / 2,
{
}

/// Writes the binary digits of `val` at the end of `buf` and returns
/// them as a string slice. The buffer has room for every digit of the type.
pub fn bin_u16(val: u16, upper_case: bool, buf: &mut [u8; 16]) -> (s: &str)
    ensures
        s@ == digits(val as nat, 2, false),
        s.len() == s@.len(),
{
    let ghost number = val as nat;
    let ghost text = digits(number, 2, false);
    let mut cursor: usize = 16;
    let mut val = val;
    proof {
        lemma_bin_widths(val as nat);
        lemma_digits_step(val as nat, 2, false);
        assert(ascii_text(buf@.subrange(16, 16)) =~= Seq::<char>::empty());
        assert(text =~= text + Seq::<char>::empty());
    }
    if val == 0 {
        cursor -= 1;
        buf[cursor] = ZERO;
        assert(ascii_text(buf@.subrange(cursor as int, 16)) =~= text);
    } else {
        while val != 0 && cursor > 0
            invariant
                cursor <= 16,
                text.len() <= 16,
                val > 0 ==> text == digits(val as nat, 2, false) + ascii_text(
                    buf@.subrange(cursor as int, 16),
                ),
                val == 0 ==> text == ascii_text(buf@.subrange(cursor as int, 16)),
            decreases val,
        {
            let ghost prev = val;
            let ghost tail = ascii_text(buf@.subrange(cursor as int, 16));
            proof {
                lemma_bit_u16(val);
            }
            let rem = val & 0b1;
            cursor -= 1;
            buf[cursor] = bin_digit(rem as u8, upper_case);
            val >>= 1;
            proof {
                lemma_digits_step(prev as nat, 2, false);
                lemma_digits_step(val as nat, 2, false);
                let d = digit_char((prev % 2) as nat, false);
                assert(ascii_text(buf@.subrange(cursor as int, 16)) =~= seq![d] + tail);
                if prev >= 2 {
                    assert(digits(prev as nat, 2, false) + tail =~= digits(
                        val as nat,
                        2,
                        false,
                    ) + (seq![d] + tail));
                }
            }
        }
        proof {
            lemma_digits_step(val as nat, 2, false);
        }
    }
    let bytes = &buf[cursor..16];
    proof {
        lemma_digits_ascii(number, 2, false);
        lemma_ascii_bytes(bytes@, text);
    }
    ascii_str(bytes)
}

impl uDisplayBin for i16 {
    open spec fn bin_value(&self) -> nat {
        (*self as u16) as nat
    }

    fn fmt_bin<W>(&self, fmt: &mut Formatter<'_, W>, options: BinOptions) -> (res: Result<
        (),
        W::Error,
    >) where W: uWrite + ?Sized {
        // negative numbers are not written with a minus sign: the digits are
        // those of the two's-complement bit pattern
        let positive = #[verifier::truncate]
        (*self as u16);
        <u16 as uDisplayBin>::fmt_bin(&positive, fmt, options)
    }
}

impl uDisplayBin for u16 {
    open spec fn bin_value(&self) -> nat {
        *self as nat
    }

    fn fmt_bin<W>(&self, fmt: &mut Formatter<'_, W>, options: BinOptions) -> (res: Result<
        (),
        W::Error,
    >) where W: uWrite + ?Sized {
        let mut buffer = [0x30u8; 16];
        let bin_string = bin_u16(*self, options.upper_case, &mut buffer);
        options.with_stuff(fmt, bin_string)
    }
}

/// The low bit of a value is its last binary digit, and a shift by one drops
/// that digit.
proof fn lemma_bit_u32(v: u32)
    by (bit_vector)
    ensures
        v & 0b1 == v % 2,
        v >> 1 == v / 2,
{
}

/// Writes the binary digits of `val` at the end of `buf` and returns
/// them as a string slice. The buffer has room for every digit of the type.
pub fn bin_u32(val: u32, upper_case: bool, buf: &mut [u8; 32]) -> (s: &str)
    ensures
        s@ == digits(val as nat, 2, false),
        s.len() == s@.len(),
{
    let ghost number = val as nat;
    let ghost text = digits(number, 2, false);
    let mut cursor: usize = 32;
    let mut val = val;
    proof {
        lemma_bin_widths(val as nat);
        lemma_digits_step(val as nat, 2, false);
        assert(ascii_text(buf@.subrange(32, 32)) =~= Seq::<char>::empty());
        assert(text =~= text + Seq::<char>::empty());
    }
    if val == 0 {
        cursor -= 1;
        buf[cursor] = ZERO;
        assert(ascii_text(buf@.subrange(cursor as int, 32)) =~= text);
    } else {
        while val != 0 && cursor > 0
            invariant
                cursor <= 32,
                text.len() <= 32,
                val > 0 ==> text == digits(val as nat, 2, false) + ascii_text(
                    buf@.subrange(cursor as int, 32),
                ),
                val == 0 ==> text == ascii_text(buf@.subrange(cursor as int, 32)),
            decreases val,
        {
            let ghost prev = val;
            let ghost tail = ascii_text(buf@.subrange(cursor as int, 32));
            proof {
                lemma_bit_u32(val);
            }
            let rem = val & 0b1;
            cursor -= 1;
            buf[cursor] = bin_digit(rem as u8, upper_case);
            val >>= 1;
            proof {
                lemma_digits_step(prev as nat, 2, false);
                lemma_digits_step(val as nat, 2, false);
                let d = digit_char((prev % 2) as nat, false);
                assert(ascii_text(buf@.subrange(cursor as int, 32)) =~= seq![d] + tail);
                if prev >= 2 {
                    assert(digits(prev as nat, 2, false) + tail =~= digits(
                        val as nat,
                        2,
                        false,
                    ) + (seq![d] + tail));
                }
            }
        }
        proof {
            lemma_digits_step(val as nat, 2, false);
        }
    }
    let bytes = &buf[cursor..32];
    proof {
        lemma_digits_ascii(number, 2, false);
        lemma_ascii_bytes(bytes@, text);
    }
    ascii_str(bytes)
}

impl uDisplayBin for i32 {
    open spec fn bin_value(&self) -> nat {
        (*self as u32) as nat
    }

    fn fmt_bin<W>(&self, fmt: &mut Formatter<'_, W>, options: BinOptions) -> (res: Result<
        (),
        W::Error,
    >) where W: uWrite + ?Sized {
        // negative numbers are not written with a minus sign: the digits are
        // those of the two's-complement bit pattern
        let positive = #[verifier::truncate]
        (*self as u32);
        <u32 as uDisplayBin>::fmt_bin(&positive, fmt, options)
    }
}

impl uDisplayBin for u32 {
    open spec fn bin_value(&self) -> nat {
        *self as nat
    }

    fn fmt_bin<W>(&self, fmt: &mut Formatter<'_, W>, options: BinOptions) -> (res: Result<
        (),
        W::Error,
    >) where W: uWrite + ?Sized {
        let mut buffer = [0x30u8; 32];
        let bin_string = bin_u32(*self, options.upper_case, &mut buffer);
        options.with_stuff(fmt, bin_string)
    }
}

/// The low bit of a value is its last binary digit, and a shift by one drops
/// that digit.
proof fn lemma_bit_u64(v: u64)
    by (bit_vector)
    ensures
        v & 0b1 == v % 2,
        v >> 1 == v / 2,
{
}

/// Writes the binary digits of `val` at the end of `buf` and returns
/// them as a string slice. The buffer has room for every digit of the type.
pub fn bin_u64(val: u64, upper_case: bool, buf: &mut [u8; 64]) -> (s: &str)
    ensures
        s@ == digits(val as nat, 2, false),
        s.len() == s@.len(),
{
    let ghost number = val as nat;
    let ghost text = digits(number, 2, false);
    let mut cursor: usize = 64;
    let mut val = val;
    proof {
        lemma_bin_widths(val as nat);
        lemma_digits_step(val as nat, 2, false);
        assert(ascii_text(buf@.subrange(64, 64)) =~= Seq::<char>::empty());
        assert(text =~= text + Seq::<char>::empty());
    }
    if val == 0 {
        cursor -= 1;
        buf[cursor] = ZERO;
        assert(ascii_text(buf@.subrange(cursor as int, 64)) =~= text);
    } else {
        while val != 0 && cursor > 0
            invariant
                cursor <= 64,
                text.len() <= 64,
                val > 0 ==> text == digits(val as nat, 2, false) + ascii_text(
                    buf@.subrange(cursor as int, 64),
                ),
                val == 0 ==> text == ascii_text(buf@.subrange(cursor as int, 64)),
            decreases val,
        {
            let ghost prev = val;
            let ghost tail = ascii_text(buf@.subrange(cursor as int, 64));
            proof {
                lemma_bit_u64(val);
            }
            let rem = val & 0b1;
            cursor -= 1;
            buf[cursor] = bin_digit(rem as u8, upper_case);
            val >>= 1;
            proof {
                lemma_digits_step(prev as nat, 2, false);
                lemma_digits_step(val as nat, 2, false);
                let d = digit_char((prev % 2) as nat, false);
                assert(ascii_text(buf@.subrange(cursor as int, 64)) =~= seq![d] + tail);
                if prev >= 2 {
                    assert(digits(prev as nat, 2, false) + tail =~= digits(
                        val as nat,
                        2,
                        false,
                    ) + (seq![d] + tail));
                }
            }
        }
        proof {
            lemma_digits_step(val as nat, 2, false);
        }
    }
    let bytes = &buf[cursor..64];
    proof {
        lemma_digits_ascii(number, 2, false);
        lemma_ascii_bytes(bytes@, text);
    }
    ascii_str(bytes)
}

impl uDisplayBin for i64 {
    open spec fn bin_value(&self) -> nat {
        (*self as u64) as nat
    }

    fn fmt_bin<W>(&self, fmt: &mut Formatter<'_, W>, options: BinOptions) -> (res: Result<
        (),
        W::Error,
    >) where W: uWrite + ?Sized {
        // negative numbers are not written with a minus sign: the digits are
        // those of the two's-complement bit pattern
        let positive = #[verifier::truncate]
        (*self as u64);
        <u64 as uDisplayBin>::fmt_bin(&positive, fmt, options)
    }
}

impl uDisplayBin for u64 {
    open spec fn bin_value(&self) -> nat {
        *self as nat
    }

    fn fmt_bin<W>(&self, fmt: &mut Formatter<'_, W>, options: BinOptions) -> (res: Result<
        (),
        W::Error,
    >) where W: uWrite + ?Sized {
        let mut buffer = [0x30u8; 64];
        let bin_string = bin_u64(*self, options.upper_case, &mut buffer);
        options.with_stuff(fmt, bin_string)
    }
}

/// The low bit of a value is its last binary digit, and a shift by one drops
/// that digit.
proof fn lemma_bit_u128(v: u128)
    by (bit_vector)
    ensures
        v & 0b1 == v % 2,
        v >> 1 == v / 2,
{
}

/// Writes the binary digits of `val` at the end of `buf` and returns
/// them as a string slice. The buffer has room for every digit of the type.
pub fn bin_u128(val: u128, upper_case: bool, buf: &mut [u8; 128]) -> (s: &str)
    ensures
        s@ == digits(val as nat, 2, false),
        s.len() == s@.len(),
{
    let ghost number = val as nat;
    let ghost text = digits(number, 2, false);
    let mut cursor: usize = 128;
    let mut val = val;
    proof {
        lemma_bin_widths(val as nat);
        lemma_digits_step(val as nat, 2, false);
        assert(ascii_text(buf@.subrange(128, 128)) =~= Seq::<char>::empty());
        assert(text =~= text + Seq::<char>::empty());
    }
    if val == 0 {
        cursor -= 1;
        buf[cursor] = ZERO;
        assert(ascii_text(buf@.subrange(cursor as int, 128)) =~= text);
    } else {
        while val != 0 && cursor > 0
            invariant
                cursor <= 128,
                text.len() <= 128,
                val > 0 ==> text == digits(val as nat, 2, false) + ascii_text(
                    buf@.subrange(cursor as int, 128),
                ),
                val == 0 ==> text == ascii_text(buf@.subrange(cursor as int, 128)),
            decreases val,
        {
            let ghost prev = val;
            let ghost tail = ascii_text(buf@.subrange(cursor as int, 128));
            proof {
                lemma_bit_u128(val);
            }
            let rem = val & 0b1;
            cursor -= 1;
            buf[cursor] = bin_digit(rem as u8, upper_case);
            val >>= 1;
            proof {
                lemma_digits_step(prev as nat, 2, false);
                lemma_digits_step(val as nat, 2, false);
                let d = digit_char((prev % 2) as nat, false);
                assert(ascii_text(buf@.subrange(cursor as int, 128)) =~= seq![d] + tail);
                if prev >= 2 {
                    assert(digits(prev as nat, 2, false) + tail =~= digits(
                        val as nat,
                        2,
                        false,
                    ) + (seq![d] + tail));
                }
            }
        }
        proof {
            lemma_digits_step(val as nat, 2, false);
        }
    }
    let bytes = &buf[cursor..128];
    proof {
        lemma_digits_ascii(number, 2, false);
        lemma_ascii_bytes(bytes@, text);
    }
    ascii_str(bytes)
}

impl uDisplayBin for i128 {
    open spec fn bin_value(&self) -> nat {
        (*self as u128) as nat
    }

    fn fmt_bin<W>(&self, fmt: &mut Formatter<'_, W>, options: BinOptions) -> (res: Result<
        (),
        W::Error,
    >) where W: uWrite + ?Sized {
        // negative numbers are not written with a minus sign: the digits are
        // those of the two's-complement bit pattern
        let positive = #[verifier::truncate]
        (*self as u128);
        <u128 as uDisplayBin>::fmt_bin(&positive, fmt, options)
    }
}

impl uDisplayBin for u128 {
    open spec fn bin_value(&self) -> nat {
        *self as nat
    }

    fn fmt_bin<W>(&self, fmt: &mut Formatter<'_, W>, options: BinOptions) -> (res: Result<
        (),
        W::Error,
    >) where W: uWrite + ?Sized {
        let mut buffer = [0x30u8; 128];
        let bin_string = bin_u128(*self, options.upper_case, &mut buffer);
        options.with_stuff(fmt, bin_string)
    }
}

impl uDisplayBin for isize {
    open spec fn bin_value(&self) -> nat {
        (*self as usize) as nat
    }

    fn fmt_bin<W>(&self, fmt: &mut Formatter<'_, W>, options: BinOptions) -> (res: Result<
        (),
        W::Error,
    >) where W: uWrite + ?Sized {
        let positive = #[verifier::truncate]
        (*self as usize);
        <usize as uDisplayBin>::fmt_bin(&positive, fmt, options)
    }
}

impl uDisplayBin for usize {
    open spec fn bin_value(&self) -> nat {
        *self as nat
    }

    fn fmt_bin<W>(&self, fmt: &mut Formatter<'_, W>, options: BinOptions) -> (res: Result<
        (),
        W::Error,
    >) where W: uWrite + ?Sized {
        <u64 as uDisplayBin>::fmt_bin(&(*self as u64), fmt, options)
    }
}

} // verus!
