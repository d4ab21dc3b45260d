//! Hexadecimal formatting of the integers.

use vstd::prelude::*;
use vstd::string::*;
use crate::ascii::{LOWER_A, UPPER_A, ZERO};
use crate::digits::{
    digit_char, digits, lemma_digits_ascii, lemma_digits_step, lemma_hex_widths,
};
use crate::formatter::Formatter;
use crate::impls::uxx::lemma_ascii_bytes;
use crate::write::{ascii_str, ascii_text, uWrite};
use crate::{uDisplayHex, HexOptions};

verus! {

/// The ASCII code of one hexadecimal digit.
pub fn hex_digit(val: u8, upper_case: bool) -> (c: u8)
    requires
        val < 16,
    ensures
        c as char == digit_char(val as nat, upper_case),
        c < 0x80,
{
    if val < 10 {
        ZERO + val
    } else {
        (if upper_case {
            UPPER_A
        } else {
            LOWER_A
        }) + (val - 10)
    }
}

/// The low four bits of a value are its last hexadecimal digit, and a shift
/// by four drops that digit.
proof fn lemma_nibble_u8(v: u8)
    by (bit_vector)
    ensures
        v & 0xf == v % 16,
        v >> 4 == v / 16,
{
}

/// Writes the hexadecimal digits of `val` at the end of `buf` and returns
/// them as a string slice. The buffer has room for every digit of the type.
pub fn hex_u8(val: u8, upper_case: bool, buf: &mut [u8; 2]) -> (s: &str)
    ensures
        s@ == digits(val as nat, 16, upper_case),
        s.len() == s@.len(),
{
    let ghost number = val as nat;
    let ghost text = digits(number, 16, upper_case);
    let mut cursor: usize = 2;
    let mut val = val;
    proof {
        lemma_hex_widths(val as nat, upper_case);
        lemma_digits_step(val as nat, 16, upper_case);
        assert(ascii_text(buf@.subrange(2, 2)) =~= Seq::<char>::empty());
        assert(text =~= text + Seq::<char>::empty());
    }
    if val == 0 {
        cursor -= 1;
        buf[cursor] = ZERO;
        assert(ascii_text(buf@.subrange(cursor as int, 2)) =~= text);
    } else {
        while val != 0 && cursor > 0
            invariant
                cursor <= 2,
                text.len() <= 2,
                val > 0 ==> text == digits(val as nat, 16, upper_case) + ascii_text(
                    buf@.subrange(cursor as int, 2),
                ),
                val == 0 ==> text == ascii_text(buf@.subrange(cursor as int, 2)),
            decreases val,
        {
            let ghost prev = val;
            let ghost tail = ascii_text(buf@.subrange(cursor as int, 2));
            proof {
                lemma_nibble_u8(val);
            }
            let rem = val & 0xf;
            cursor -= 1;
            buf[cursor] = hex_digit(rem as u8, upper_case);
            val >>= 4;
            proof {
                lemma_digits_step(prev as nat, 16, upper_case);
                lemma_digits_step(val as nat, 16, upper_case);
                let d = digit_char((prev % 16) as nat, upper_case);
                assert(ascii_text(buf@.subrange(cursor as int, 2)) =~= seq![d] + tail);
                if prev >= 16 {
                    assert(digits(prev as nat, 16, upper_case) + tail =~= digits(
                        val as nat,
                        16,
                        upper_case,
                    ) + (seq![d] + tail));
                }
            }
        }
        proof {
            lemma_digits_step(val as nat, 16, upper_case);
        }
    }
    let bytes = &buf[cursor..2];
    proof {
        lemma_digits_ascii(number, 16, upper_case);
        lemma_ascii_bytes(bytes@, text);
    }
    ascii_str(bytes)
}

impl uDisplayHex for i8 {
    open spec fn hex_value(&self) -> nat {
        (*self as u8) as nat
    }

    fn fmt_hex<W>(&self, fmt: &mut Formatter<'_, W>, options: HexOptions) -> (res: Result<
        (),
        W::Error,
    >) where W: uWrite + ?Sized {
        // negative numbers are not written with a minus sign: the digits are
        // those of the two's-complement bit pattern
        let positive = #[verifier::truncate]
        (*self as u8);
        <u8 as uDisplayHex>::fmt_hex(&positive, fmt, options)
    }
}

impl uDisplayHex for u8 {
    open spec fn hex_value(&self) -> nat {
        *self as nat
    }

    fn fmt_hex<W>(&self, fmt: &mut Formatter<'_, W>, options: HexOptions) -> (res: Result<
        (),
        W::Error,
    >) where W: uWrite + ?Sized {
        let mut buffer = [0x30u8; 2];
        let hex_string = hex_u8(*self, options.upper_case, &mut buffer);
        options.with_stuff(fmt, hex_string)
    }
}

/// The low four bits of a value are its last hexadecimal digit, and a shift
/// by four drops that digit.
proof fn lemma_nibble_u16(v: u16)
    by (bit_vector)
    ensures
        v & 0xf == v % 16,
        v >> 4 == v / 16,
{
}

/// Writes the hexadecimal digits of `val` at the end of `buf` and returns
/// them as a string slice. The buffer has room for every digit of the type.
pub fn hex_u16(val: u16, upper_case: bool, buf: &mut [u8; 4]) -> (s: &str)
    ensures
        s@ == digits(val as nat, 16, upper_case),
        s.len() == s@.len(),
{
    let ghost number = val as nat;
    let ghost text = digits(number, 16, upper_case);
    let mut cursor: usize = 4;
    let mut val = val;
    proof {
        lemma_hex_widths(val as nat, upper_case);
        lemma_digits_step(val as nat, 16, upper_case);
        assert(ascii_text(buf@.subrange(4, 4)) =~= Seq::<char>::empty());
        assert(text =~= text + Seq::<char>::empty());
    }
    if val == 0 {
        cursor -= 1;
        buf[cursor] = ZERO;
        assert(ascii_text(buf@.subrange(cursor as int, 4)) =~= text);
    } else {
        while val != 0 && cursor > 0
            invariant
                cursor <= 4,
                text.len() <= 4,
                val > 0 ==> text == digits(val as nat, 16, upper_case) + ascii_text(
                    buf@.subrange(cursor as int, 4),
                ),
                val == 0 ==> text == ascii_text(buf@.subrange(cursor as int, 4)),
            decreases val,
        {
            let ghost prev = val;
            let ghost tail = ascii_text(buf@.subrange(cursor as int, 4));
            proof {
                lemma_nibble_u16(val);
            }
            let rem = val & 0xf;
            cursor -= 1;
            buf[cursor] = hex_digit(rem as u8, upper_case);
            val >>= 4;
            proof {
                lemma_digits_step(prev as nat, 16, upper_case);
                lemma_digits_step(val as nat, 16, upper_case);
                let d = digit_char((prev % 16) as nat, upper_case);
                assert(ascii_text(buf@.subrange(cursor as int, 4)) =~= seq![d] + tail);
                if prev >= 16 {
                    assert(digits(prev as nat, 16, upper_case) + tail =~= digits(
                        val as nat,
                        16,
                        upper_case,
                    ) + (seq![d] + tail));
                }
            }
        }
        proof {
            lemma_digits_step(val as nat, 16, upper_case);
        }
    }
    let bytes = &buf[cursor..4];
    proof {
        lemma_digits_ascii(number, 16, upper_case);
        lemma_ascii_bytes(bytes@, text);
    }
    ascii_str(bytes)
}

impl uDisplayHex for i16 {
    open spec fn hex_value(&self) -> nat {
        (*self as u16) as nat
    }

    fn fmt_hex<W>(&self, fmt: &mut Formatter<'_, W>, options: HexOptions) -> (res: Result<
        (),
        W::Error,
    >) where W: uWrite + ?Sized {
        // negative numbers are not written with a minus sign: the digits are
        // those of the two's-complement bit pattern
        let positive = #[verifier::truncate]
        (*self as u16);
        <u16 as uDisplayHex>::fmt_hex(&positive, fmt, options)
    }
}

impl uDisplayHex for u16 {
    open spec fn hex_value(&self) -> nat {
        *self as nat
    }

    fn fmt_hex<W>(&self, fmt: &mut Formatter<'_, W>, options: HexOptions) -> (res: Result<
        (),
        W::Error,
    >) where W: uWrite + ?Sized {
        let mut buffer = [0x30u8; 4];
        let hex_string = hex_u16(*self, options.upper_case, &mut buffer);
        options.with_stuff(fmt, hex_string)
    }
}

/// The low four bits of a value are its last hexadecimal digit, and a shift
/// by four drops that digit.
proof fn lemma_nibble_u32(v: u32)
    by (bit_vector)
    ensures
        v & 0xf == v % 16,
        v >> 4 == v / 16,
{
}

/// Writes the hexadecimal digits of `val` at the end of `buf` and returns
/// them as a string slice. The buffer has room for every digit of the type.
pub fn hex_u32(val: u32, upper_case: bool, buf: &mut [u8; 8]) -> (s: &str)
    ensures
        s@ == digits(val as nat, 16, upper_case),
        s.len() == s@.len(),
{
    let ghost number = val as nat;
    let ghost text = digits(number, 16, upper_case);
    let mut cursor: usize = 8;
    let mut val = val;
    proof {
        lemma_hex_widths(val as nat, upper_case);
        lemma_digits_step(val as nat, 16, upper_case);
        assert(ascii_text(buf@.subrange(8, 8)) =~= Seq::<char>::empty());
        assert(text =~= text + Seq::<char>::empty());
    }
    if val == 0 {
        cursor -= 1;
        buf[cursor] = ZERO;
        assert(ascii_text(buf@.subrange(cursor as int, 8)) =~= text);
    } else {
        while val != 0 && cursor > 0
            invariant
                cursor <= 8,
                text.len() <= 8,
                val > 0 ==> text == digits(val as nat, 16, upper_case) + ascii_text(
                    buf@.subrange(cursor as int, 8),
                ),
                val == 0 ==> text == ascii_text(buf@.subrange(cursor as int, 8)),
            decreases val,
        {
            let ghost prev = val;
            let ghost tail = ascii_text(buf@.subrange(cursor as int, 8));
            proof {
                lemma_nibble_u32(val);
            }
            let rem = val & 0xf;
            cursor -= 1;
            buf[cursor] = hex_digit(rem as u8, upper_case);
            val >>= 4;
            proof {
                lemma_digits_step(prev as nat, 16, upper_case);
                lemma_digits_step(val as nat, 16, upper_case);
                let d = digit_char((prev % 16) as nat, upper_case);
                assert(ascii_text(buf@.subrange(cursor as int, 8)) =~= seq![d] + tail);
                if prev >= 16 {
                    assert(digits(prev as nat, 16, upper_case) + tail =~= digits(
                        val as nat,
                        16,
                        upper_case,
                    ) + (seq![d] + tail));
                }
            }
        }
        proof {
            lemma_digits_step(val as nat, 16, upper_case);
        }
    }
    let bytes = &buf[cursor..8];
    proof {
        lemma_digits_ascii(number, 16, upper_case);
        lemma_ascii_bytes(bytes@, text);
    }
    ascii_str(bytes)
}

impl uDisplayHex for i32 {
    open spec fn hex_value(&self) -> nat {
        (*self as u32) as nat
    }

    fn fmt_hex<W>(&self, fmt: &mut Formatter<'_, W>, options: HexOptions) -> (res: Result<
        (),
        W::Error,
    >) where W: uWrite + ?Sized {
        // negative numbers are not written with a minus sign: the digits are
        // those of the two's-complement bit pattern
        let positive = #[verifier::truncate]
        (*self as u32);
        <u32 as uDisplayHex>::fmt_hex(&positive, fmt, options)
    }
}

impl uDisplayHex for u32 {
    open spec fn hex_value(&self) -> nat {
        *self as nat
    }

    fn fmt_hex<W>(&self, fmt: &mut Formatter<'_, W>, options: HexOptions) -> (res: Result<
        (),
        W::Error,
    >) where W: uWrite + ?Sized {
        let mut buffer = [0x30u8; 8];
        let hex_string = hex_u32(*self, options.upper_case, &mut buffer);
        options.with_stuff(fmt, hex_string)
    }
}

/// The low four bits of a value are its last hexadecimal digit, and a shift
/// by four drops that digit.
proof fn lemma_nibble_u64(v: u64)
    by (bit_vector)
    ensures
        v & 0xf == v % 16,
        v >> 4 == v / 16,
{
}

/// Writes the hexadecimal digits of `val` at the end of `buf` and returns
/// them as a string slice. The buffer has room for every digit of the type.
pub fn hex_u64(val: u64, upper_case: bool, buf: &mut [u8; 16]) -> (s: &str)
    ensures
        s@ == digits(val as nat, 16, upper_case),
        s.len() == s@.len(),
{
    let ghost number = val as nat;
    let ghost text = digits(number, 16, upper_case);
    let mut cursor: usize = 16;
    let mut val = val;
    proof {
        lemma_hex_widths(val as nat, upper_case);
        lemma_digits_step(val as nat, 16, upper_case);
        assert(ascii_text(buf@.subrange(16, 16)) =~= Seq::<char>::empty());
        assert(text =~= text + Seq::<char>::empty());
    }
    if val == 0 {
        cursor -= 1;
        buf[cursor] = ZERO;
        assert(ascii_text(buf@.subrange(cursor as int, 16)) =~= text);
    } else {
        while val != 0 && cursor > 0
            invariant
                cursor <= 16,
                text.len() <= 16,
                val > 0 ==> text == digits(val as nat, 16, upper_case) + ascii_text(
                    buf@.subrange(cursor as int, 16),
                ),
                val == 0 ==> text == ascii_text(buf@.subrange(cursor as int, 16)),
            decreases val,
        {
            let ghost prev = val;
            let ghost tail = ascii_text(buf@.subrange(cursor as int, 16));
            proof {
                lemma_nibble_u64(val);
            }
            let rem = val & 0xf;
            cursor -= 1;
            buf[cursor] = hex_digit(rem as u8, upper_case);
            val >>= 4;
            proof {
                lemma_digits_step(prev as nat, 16, upper_case);
                lemma_digits_step(val as nat, 16, upper_case);
                let d = digit_char((prev % 16) as nat, upper_case);
                assert(ascii_text(buf@.subrange(cursor as int, 16)) =~= seq![d] + tail);
                if prev >= 16 {
                    assert(digits(prev as nat, 16, upper_case) + tail =~= digits(
                        val as nat,
                        16,
                        upper_case,
                    ) + (seq![d] + tail));
                }
            }
        }
        proof {
            lemma_digits_step(val as nat, 16, upper_case);
        }
    }
    let bytes = &buf[cursor..16];
    proof {
        lemma_digits_ascii(number, 16, upper_case);
        lemma_ascii_bytes(bytes@, text);
    }
    ascii_str(bytes)
}

impl uDisplayHex for i64 {
    open spec fn hex_value(&self) -> nat {
        (*self as u64) as nat
    }

    fn fmt_hex<W>(&self, fmt: &mut Formatter<'_, W>, options: HexOptions) -> (res: Result<
        (),
        W::Error,
    >) where W: uWrite + ?Sized {
        // negative numbers are not written with a minus sign: the digits are
        // those of the two's-complement bit pattern
        let positive = #[verifier::truncate]
        (*self as u64);
        <u64 as uDisplayHex>::fmt_hex(&positive, fmt, options)
    }
}

impl uDisplayHex for u64 {
    open spec fn hex_value(&self) -> nat {
        *self as nat
    }

    fn fmt_hex<W>(&self, fmt: &mut Formatter<'_, W>, options: HexOptions) -> (res: Result<
        (),
        W::Error,
    >) where W: uWrite + ?Sized {
        let mut buffer = [0x30u8; 16];
        let hex_string = hex_u64(*self, options.upper_case, &mut buffer);
        options.with_stuff(fmt, hex_string)
    }
}

/// The low four bits of a value are its last hexadecimal digit, and a shift
/// by four drops that digit.
proof fn lemma_nibble_u128(v: u128)
    by (bit_vector)
    ensures
        v & 0xf == v % 16,
        v >> 4 == v / 16,
{
}

/// Writes the hexadecimal digits of `val` at the end of `buf` and returns
/// them as a string slice. The buffer has room for every digit of the type.
pub fn hex_u128(val: u128, upper_case: bool, buf: &mut [u8; 32]) -> (s: &str)
    ensures
        s@ == digits(val as nat, 16, upper_case),
        s.len() == s@.len(),
{
    let ghost number = val as nat;
    let ghost text = digits(number, 16, upper_case);
    let mut cursor: usize = 32;
    let mut val = val;
    proof {
        lemma_hex_widths(val as nat, upper_case);
        lemma_digits_step(val as nat, 16, upper_case);
        assert(ascii_text(buf@.subrange(32, 32)) =~= Seq::<char>::empty());
        assert(text =~= text + Seq::<char>::empty());
    }
    if val == 0 {
        cursor -= 1;
        buf[cursor] = ZERO;
        assert(ascii_text(buf@.subrange(cursor as int, 32)) =~= text);
    } else {
        while val != 0 && cursor > 0
            invariant
                cursor <= 32,
                text.len() <= 32,
                val > 0 ==> text == digits(val as nat, 16, upper_case) + ascii_text(
                    buf@.subrange(cursor as int, 32),
                ),
                val == 0 ==> text == ascii_text(buf@.subrange(cursor as int, 32)),
            decreases val,
        {
            let ghost prev = val;
            let ghost tail = ascii_text(buf@.subrange(cursor as int, 32));
            proof {
                lemma_nibble_u128(val);
            }
            let rem = val & 0xf;
            cursor -= 1;
            buf[cursor] = hex_digit(rem as u8, upper_case);
            val >>= 4;
            proof {
                lemma_digits_step(prev as nat, 16, upper_case);
                lemma_digits_step(val as nat, 16, upper_case);
                let d = digit_char((prev % 16) as nat, upper_case);
                assert(ascii_text(buf@.subrange(cursor as int, 32)) =~= seq![d] + tail);
                if prev >= 16 {
                    assert(digits(prev as nat, 16, upper_case) + tail =~= digits(
                        val as nat,
                        16,
                        upper_case,
                    ) + (seq![d] + tail));
                }
            }
        }
        proof {
            lemma_digits_step(val as nat, 16, upper_case);
        }
    }
    let bytes = &buf[cursor..32];
    proof {
        lemma_digits_ascii(number, 16, upper_case);
        lemma_ascii_bytes(bytes@, text);
    }
    ascii_str(bytes)
}

impl uDisplayHex for i128 {
    open spec fn hex_value(&self) -> nat {
        (*self as u128) as nat
    }

    fn fmt_hex<W>(&self, fmt: &mut Formatter<'_, W>, options: HexOptions) -> (res: Result<
        (),
        W::Error,
    >) where W: uWrite + ?Sized {
        // negative numbers are not written with a minus sign: the digits are
        // those of the two's-complement bit pattern
        let positive = #[verifier::truncate]
        (*self as u128);
        <u128 as uDisplayHex>::fmt_hex(&positive, fmt, options)
    }
}

impl uDisplayHex for u128 {
    open spec fn hex_value(&self) -> nat {
        *self as nat
    }

    fn fmt_hex<W>(&self, fmt: &mut Formatter<'_, W>, options: HexOptions) -> (res: Result<
        (),
        W::Error,
    >) where W: uWrite + ?Sized {
        let mut buffer = [0x30u8; 32];
        let hex_string = hex_u128(*self, options.upper_case, &mut buffer);
        options.with_stuff(fmt, hex_string)
    }
}

impl uDisplayHex for isize {
    open spec fn hex_value(&self) -> nat {
        (*self as usize) as nat
    }

    fn fmt_hex<W>(&self, fmt: &mut Formatter<'_, W>, options: HexOptions) -> (res: Result<
        (),
        W::Error,
    >) where W: uWrite + ?Sized {
        let positive = #[verifier::truncate]
        (*self as usize);
        <usize as uDisplayHex>::fmt_hex(&positive, fmt, options)
    }
}

impl uDisplayHex for usize {
    open spec fn hex_value(&self) -> nat {
        *self as nat
    }

    fn fmt_hex<W>(&self, fmt: &mut Formatter<'_, W>, options: HexOptions) -> (res: Result<
        (),
        W::Error,
    >) where W: uWrite + ?Sized {
        <u64 as uDisplayHex>::fmt_hex(&(*self as u64), fmt, options)
    }
}

} // verus!
