//! Decimal formatting of the unsigned integers.

use vstd::prelude::*;
use crate::ascii::ZERO;
use crate::digits::{
    decimal_text, digit_char, digits, lemma_decimal_widths, lemma_digits_ascii,
    lemma_digits_step,
};
use crate::formatter::Formatter;
use crate::write::{ascii_str, ascii_text, uWrite};
use crate::{uDebug, uDisplay};

verus! {

/// Bytes whose characters are the given ASCII text are themselves ASCII.
pub proof fn lemma_ascii_bytes(bytes: Seq<u8>, text: Seq<char>)
    requires
        ascii_text(bytes) == text,
        forall|i: int| 0 <= i < text.len() ==> (#[trigger] text[i] as u32) < 0x80,
    ensures
        forall|i: int| 0 <= i < bytes.len() ==> #[trigger] bytes[i] < 0x80,
{
    assert forall|i: int| 0 <= i < bytes.len() implies #[trigger] bytes[i] < 0x80 by {
        assert(text[i] == bytes[i] as char);
    }
}

/// Writes the decimal digits of `n` into `buf`, the last digit at the last
/// byte, and returns the index of the first digit. The buffer must have
/// room for every digit.
pub fn put_usize(n: usize, buf: &mut [u8]) -> (start: usize)
    requires
        digits(n as nat, 10, false).len() <= old(buf)@.len(),
    ensures
        final(buf)@.len() == old(buf)@.len(),
        start + digits(n as nat, 10, false).len() == final(buf)@.len(),
        ascii_text(final(buf)@.subrange(start as int, final(buf)@.len() as int)) == digits(
            n as nat,
            10,
            false,
        ),
{
    let ghost text = digits(n as nat, 10, false);
    let len = buf.len();
    let mut n = n;
    proof {
        lemma_digits_step(n as nat, 10, false);
        assert(ascii_text(buf@.subrange(len as int, len as int)) =~= Seq::<char>::empty());
        assert(text =~= text + Seq::<char>::empty());
    }
    let mut i = len - 1;
    loop
        invariant_except_break
            i < len,
            text == digits(n as nat, 10, false) + ascii_text(
                buf@.subrange(i + 1, len as int),
            ),
        invariant
            len == buf@.len(),
            len == old(buf)@.len(),
            text.len() <= len,
        ensures
            i < len,
            i + text.len() == len,
            text == ascii_text(buf@.subrange(i as int, len as int)),
        decreases n,
    {
        let ghost prev = n;
        let ghost tail = ascii_text(buf@.subrange(i + 1, len as int));
        buf[i] = (n % 10) as u8 + ZERO;
        n /= 10;
        proof {
            lemma_digits_step(prev as nat, 10, false);
            lemma_digits_step(n as nat, 10, false);
            assert(ascii_text(buf@.subrange(i as int, len as int)) =~= seq![
                digit_char((prev % 10) as nat, false),
            ] + tail);
            if prev >= 10 {
                assert(digits(prev as nat, 10, false) + tail =~= digits(n as nat, 10, false)
                    + (seq![digit_char((prev % 10) as nat, false)] + tail));
            }
        }
        if n == 0 {
            break ;
        } else {
            i -= 1;
        }
    }
    i
}

/// Writes the decimal digits of `n` at the end of `buf` and returns them as
/// a string slice.
pub fn usize(n: usize, buf: &mut [u8]) -> (s: &str)
    requires
        digits(n as nat, 10, false).len() <= old(buf)@.len(),
    ensures
        s@ == digits(n as nat, 10, false),
{
    let i = put_usize(n, buf);
    let len = buf.len();
    let bytes = &buf[i..len];
    proof {
        lemma_digits_ascii(n as nat, 10, false);
        lemma_ascii_bytes(bytes@, digits(n as nat, 10, false));
    }
    ascii_str(bytes)
}

/// Writes the decimal digits of `n` into `buf`, the last digit at the last
/// byte, and returns the index of the first digit. The buffer must have
/// room for every digit.
pub fn put_u64(n: u64, buf: &mut [u8]) -> (start: usize)
    requires
        digits(n as nat, 10, false).len() <= old(buf)@.len(),
    ensures
        final(buf)@.len() == old(buf)@.len(),
        start + digits(n as nat, 10, false).len() == final(buf)@.len(),
        ascii_text(final(buf)@.subrange(start as int, final(buf)@.len() as int)) == digits(
            n as nat,
            10,
            false,
        ),
{
    let ghost text = digits(n as nat, 10, false);
    let len = buf.len();
    let mut n = n;
    proof {
        lemma_digits_step(n as nat, 10, false);
        assert(ascii_text(buf@.subrange(len as int, len as int)) =~= Seq::<char>::empty());
        assert(text =~= text + Seq::<char>::empty());
    }
    let mut i = len - 1;
    loop
        invariant_except_break
            i < len,
            text == digits(n as nat, 10, false) + ascii_text(
                buf@.subrange(i + 1, len as int),
            ),
        invariant
            len == buf@.len(),
            len == old(buf)@.len(),
            text.len() <= len,
        ensures
            i < len,
            i + text.len() == len,
            text == ascii_text(buf@.subrange(i as int, len as int)),
        decreases n,
    {
        let ghost prev = n;
        let ghost tail = ascii_text(buf@.subrange(i + 1, len as int));
        buf[i] = (n % 10) as u8 + ZERO;
        n /= 10;
        proof {
            lemma_digits_step(prev as nat, 10, false);
            lemma_digits_step(n as nat, 10, false);
            assert(ascii_text(buf@.subrange(i as int, len as int)) =~= seq![
                digit_char((prev % 10) as nat, false),
            ] + tail);
            if prev >= 10 {
                assert(digits(prev as nat, 10, false) + tail =~= digits(n as nat, 10, false)
                    + (seq![digit_char((prev % 10) as nat, false)] + tail));
            }
        }
        if n == 0 {
            break ;
        } else {
            i -= 1;
        }
    }
    i
}

/// Writes the decimal digits of `n` at the end of `buf` and returns them as
/// a string slice.
pub fn u64(n: u64, buf: &mut [u8]) -> (s: &str)
    requires
        digits(n as nat, 10, false).len() <= old(buf)@.len(),
    ensures
        s@ == digits(n as nat, 10, false),
{
    let i = put_u64(n, buf);
    let len = buf.len();
    let bytes = &buf[i..len];
    proof {
        lemma_digits_ascii(n as nat, 10, false);
        lemma_ascii_bytes(bytes@, digits(n as nat, 10, false));
    }
    ascii_str(bytes)
}

/// Writes the decimal digits of `n` into `buf`, the last digit at the last
/// byte, and returns the index of the first digit. The buffer must have
/// room for every digit.
pub fn put_u128(n: u128, buf: &mut [u8]) -> (start: usize)
    requires
        digits(n as nat, 10, false).len() <= old(buf)@.len(),
    ensures
        final(buf)@.len() == old(buf)@.len(),
        start + digits(n as nat, 10, false).len() == final(buf)@.len(),
        ascii_text(final(buf)@.subrange(start as int, final(buf)@.len() as int)) == digits(
            n as nat,
            10,
            false,
        ),
{
    let ghost text = digits(n as nat, 10, false);
    let len = buf.len();
    let mut n = n;
    proof {
        lemma_digits_step(n as nat, 10, false);
        assert(ascii_text(buf@.subrange(len as int, len as int)) =~= Seq::<char>::empty());
        assert(text =~= text + Seq::<char>::empty());
    }
    let mut i = len - 1;
    loop
        invariant_except_break
            i < len,
            text == digits(n as nat, 10, false) + ascii_text(
                buf@.subrange(i + 1, len as int),
            ),
        invariant
            len == buf@.len(),
            len == old(buf)@.len(),
            text.len() <= len,
        ensures
            i < len,
            i + text.len() == len,
            text == ascii_text(buf@.subrange(i as int, len as int)),
        decreases n,
    {
        let ghost prev = n;
        let ghost tail = ascii_text(buf@.subrange(i + 1, len as int));
        buf[i] = (n % 10) as u8 + ZERO;
        n /= 10;
        proof {
            lemma_digits_step(prev as nat, 10, false);
            lemma_digits_step(n as nat, 10, false);
            assert(ascii_text(buf@.subrange(i as int, len as int)) =~= seq![
                digit_char((prev % 10) as nat, false),
            ] + tail);
            if prev >= 10 {
                assert(digits(prev as nat, 10, false) + tail =~= digits(n as nat, 10, false)
                    + (seq![digit_char((prev % 10) as nat, false)] + tail));
            }
        }
        if n == 0 {
            break ;
        } else {
            i -= 1;
        }
    }
    i
}

/// Writes the decimal digits of `n` at the end of `buf` and returns them as
/// a string slice.
pub fn u128(n: u128, buf: &mut [u8]) -> (s: &str)
    requires
        digits(n as nat, 10, false).len() <= old(buf)@.len(),
    ensures
        s@ == digits(n as nat, 10, false),
{
    let i = put_u128(n, buf);
    let len = buf.len();
    let bytes = &buf[i..len];
    proof {
        lemma_digits_ascii(n as nat, 10, false);
        lemma_ascii_bytes(bytes@, digits(n as nat, 10, false));
    }
    ascii_str(bytes)
}

impl uDebug for u8 {
    open spec fn debug_text(&self, pretty: bool, level: nat) -> Seq<char> {
        decimal_text(*self as int)
    }

    open spec fn debug_fits(&self, level: nat) -> bool {
        true
    }

    fn fmt<W>(&self, f: &mut Formatter<'_, W>) -> (res: Result<(), W::Error>) where
        W: uWrite + ?Sized,
    {
        let mut buf = [0u8; 3];
        proof {
            lemma_decimal_widths(*self as nat);
        }
        assert(self.debug_text(f.is_pretty(), f.level()) == decimal_text(*self as int));
        f.write_str(usize(*self as usize, &mut buf))
    }
}

impl uDisplay for u8 {
    open spec fn display_text(&self) -> Seq<char> {
        decimal_text(*self as int)
    }

    #[inline(always)]
    fn fmt<W>(&self, f: &mut Formatter<'_, W>) -> (res: Result<(), W::Error>) where
        W: uWrite + ?Sized,
    {
        <u8 as uDebug>::fmt(self, f)
    }
}

impl uDebug for u16 {
    open spec fn debug_text(&self, pretty: bool, level: nat) -> Seq<char> {
        decimal_text(*self as int)
    }

    open spec fn debug_fits(&self, level: nat) -> bool {
        true
    }

    fn fmt<W>(&self, f: &mut Formatter<'_, W>) -> (res: Result<(), W::Error>) where
        W: uWrite + ?Sized,
    {
        let mut buf = [0u8; 5];
        proof {
            lemma_decimal_widths(*self as nat);
        }
        assert(self.debug_text(f.is_pretty(), f.level()) == decimal_text(*self as int));
        f.write_str(usize(*self as usize, &mut buf))
    }
}

impl uDisplay for u16 {
    open spec fn display_text(&self) -> Seq<char> {
        decimal_text(*self as int)
    }

    #[inline(always)]
    fn fmt<W>(&self, f: &mut Formatter<'_, W>) -> (res: Result<(), W::Error>) where
        W: uWrite + ?Sized,
    {
        <u16 as uDebug>::fmt(self, f)
    }
}

impl uDebug for u32 {
    open spec fn debug_text(&self, pretty: bool, level: nat) -> Seq<char> {
        decimal_text(*self as int)
    }

    open spec fn debug_fits(&self, level: nat) -> bool {
        true
    }

    fn fmt<W>(&self, f: &mut Formatter<'_, W>) -> (res: Result<(), W::Error>) where
        W: uWrite + ?Sized,
    {
        let mut buf = [0u8; 10];
        proof {
            lemma_decimal_widths(*self as nat);
        }
        assert(self.debug_text(f.is_pretty(), f.level()) == decimal_text(*self as int));
        f.write_str(usize(*self as usize, &mut buf))
    }
}

impl uDisplay for u32 {
    open spec fn display_text(&self) -> Seq<char> {
        decimal_text(*self as int)
    }

    #[inline(always)]
    fn fmt<W>(&self, f: &mut Formatter<'_, W>) -> (res: Result<(), W::Error>) where
        W: uWrite + ?Sized,
    {
        <u32 as uDebug>::fmt(self, f)
    }
}

impl uDebug for u64 {
    open spec fn debug_text(&self, pretty: bool, level: nat) -> Seq<char> {
        decimal_text(*self as int)
    }

    open spec fn debug_fits(&self, level: nat) -> bool {
        true
    }

    fn fmt<W>(&self, f: &mut Formatter<'_, W>) -> (res: Result<(), W::Error>) where
        W: uWrite + ?Sized,
    {
        let mut buf = [0u8; 20];
        proof {
            lemma_decimal_widths(*self as nat);
        }
        assert(self.debug_text(f.is_pretty(), f.level()) == decimal_text(*self as int));
        f.write_str(u64(*self as u64, &mut buf))
    }
}

impl uDisplay for u64 {
    open spec fn display_text(&self) -> Seq<char> {
        decimal_text(*self as int)
    }

    #[inline(always)]
    fn fmt<W>(&self, f: &mut Formatter<'_, W>) -> (res: Result<(), W::Error>) where
        W: uWrite + ?Sized,
    {
        <u64 as uDebug>::fmt(self, f)
    }
}

impl uDebug for u128 {
    open spec fn debug_text(&self, pretty: bool, level: nat) -> Seq<char> {
        decimal_text(*self as int)
    }

    open spec fn debug_fits(&self, level: nat) -> bool {
        true
    }

    fn fmt<W>(&self, f: &mut Formatter<'_, W>) -> (res: Result<(), W::Error>) where
        W: uWrite + ?Sized,
    {
        let mut buf = [0u8; 39];
        proof {
            lemma_decimal_widths(*self as nat);
        }
        assert(self.debug_text(f.is_pretty(), f.level()) == decimal_text(*self as int));
        f.write_str(u128(*self as u128, &mut buf))
    }
}

impl uDisplay for u128 {
    open spec fn display_text(&self) -> Seq<char> {
        decimal_text(*self as int)
    }

    #[inline(always)]
    fn fmt<W>(&self, f: &mut Formatter<'_, W>) -> (res: Result<(), W::Error>) where
        W: uWrite + ?Sized,
    {
        <u128 as uDebug>::fmt(self, f)
    }
}

impl uDebug for usize {
    open spec fn debug_text(&self, pretty: bool, level: nat) -> Seq<char> {
        decimal_text(*self as int)
    }

    open spec fn debug_fits(&self, level: nat) -> bool {
        true
    }

    #[inline(always)]
    fn fmt<W>(&self, f: &mut Formatter<'_, W>) -> (res: Result<(), W::Error>) where
        W: uWrite + ?Sized,
    {
        <u64 as uDebug>::fmt(&(*self as u64), f)
    }
}

impl uDisplay for usize {
    open spec fn display_text(&self) -> Seq<char> {
        decimal_text(*self as int)
    }

    #[inline(always)]
    fn fmt<W>(&self, f: &mut Formatter<'_, W>) -> (res: Result<(), W::Error>) where
        W: uWrite + ?Sized,
    {
        <u64 as uDisplay>::fmt(&(*self as u64), f)
    }
}

} // verus!
