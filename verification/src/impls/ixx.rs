//! Decimal formatting of the signed integers.

use vstd::prelude::*;
use crate::ascii::MINUS;
use crate::digits::{decimal_text, digits, lemma_decimal_widths, lemma_digits_ascii};
use crate::formatter::Formatter;
use crate::impls::uxx::{lemma_ascii_bytes, put_u128, put_u64, put_usize};
use crate::write::{ascii_str, ascii_text, uWrite};
use crate::{uDebug, uDisplay};

verus! {


/// Writes the decimal rendering of `n` at the end of `buf` and returns it as
/// a string slice. The magnitude is taken in the unsigned companion type, so
/// that the minimum value has one too.
pub fn isize(n: isize, buf: &mut [u8]) -> (s: &str)
    requires
        decimal_text(n as int).len() <= old(buf)@.len(),
    ensures
        s@ == decimal_text(n as int),
{
    let negative = n < 0;
    let magnitude: usize = if negative {
        match 0isize.checked_sub(n) {
            Some(m) => m as usize,
            None => usize::MAX / 2 + 1,
        }
    } else {
        n as usize
    };
    assert(magnitude as int == if n < 0 {
        -(n as int)
    } else {
        n as int
    });
    let len = buf.len();
    let mut i = put_usize(magnitude, buf);
    let ghost text = digits(magnitude as nat, 10, false);
    if negative {
        i -= 1;
        let ghost before = buf@;
        buf[i] = MINUS;
        proof {
            assert(buf@.subrange(i + 1, len as int) =~= before.subrange(i + 1, len as int));
            assert(ascii_text(buf@.subrange(i as int, len as int)) =~= seq!['-'] + text);
        }
    }
    let bytes = &buf[i..len];
    proof {
        lemma_digits_ascii(magnitude as nat, 10, false);
        assert forall|j: int| 0 <= j < decimal_text(n as int).len() implies (
        #[trigger] decimal_text(n as int)[j] as u32) < 0x80 by {
            if negative && j > 0 {
                assert(decimal_text(n as int)[j] == text[j - 1]);
            }
        }
        lemma_ascii_bytes(bytes@, decimal_text(n as int));
    }
    ascii_str(bytes)
}

/// Writes the decimal rendering of `n` at the end of `buf` and returns it as
/// a string slice. The magnitude is taken in the unsigned companion type, so
/// that the minimum value has one too.
pub fn i64(n: i64, buf: &mut [u8]) -> (s: &str)
    requires
        decimal_text(n as int).len() <= old(buf)@.len(),
    ensures
        s@ == decimal_text(n as int),
{
    let negative = n < 0;
    let magnitude: u64 = if negative {
        match 0i64.checked_sub(n) {
            Some(m) => m as u64,
            None => u64::MAX / 2 + 1,
        }
    } else {
        n as u64
    };
    assert(magnitude as int == if n < 0 {
        -(n as int)
    } else {
        n as int
    });
    let len = buf.len();
    let mut i = put_u64(magnitude, buf);
    let ghost text = digits(magnitude as nat, 10, false);
    if negative {
        i -= 1;
        let ghost before = buf@;
        buf[i] = MINUS;
        proof {
            assert(buf@.subrange(i + 1, len as int) =~= before.subrange(i + 1, len as int));
            assert(ascii_text(buf@.subrange(i as int, len as int)) =~= seq!['-'] + text);
        }
    }
    let bytes = &buf[i..len];
    proof {
        lemma_digits_ascii(magnitude as nat, 10, false);
        assert forall|j: int| 0 <= j < decimal_text(n as int).len() implies (
        #[trigger] decimal_text(n as int)[j] as u32) < 0x80 by {
            if negative && j > 0 {
                assert(decimal_text(n as int)[j] == text[j - 1]);
            }
        }
        lemma_ascii_bytes(bytes@, decimal_text(n as int));
    }
    ascii_str(bytes)
}

/// Writes the decimal rendering of `n` at the end of `buf` and returns it as
/// a string slice. The magnitude is taken in the unsigned companion type, so
/// that the minimum value has one too.
pub fn i128(n: i128, buf: &mut [u8]) -> (s: &str)
    requires
        decimal_text(n as int).len() <= old(buf)@.len(),
    ensures
        s@ == decimal_text(n as int),
{
    let negative = n < 0;
    let magnitude: u128 = if negative {
        match 0i128.checked_sub(n) {
            Some(m) => m as u128,
            None => u128::MAX / 2 + 1,
        }
    } else {
        n as u128
    };
    assert(magnitude as int == if n < 0 {
        -(n as int)
    } else {
        n as int
    });
    let len = buf.len();
    let mut i = put_u128(magnitude, buf);
    let ghost text = digits(magnitude as nat, 10, false);
    if negative {
        i -= 1;
        let ghost before = buf@;
        buf[i] = MINUS;
        proof {
            assert(buf@.subrange(i + 1, len as int) =~= before.subrange(i + 1, len as int));
            assert(ascii_text(buf@.subrange(i as int, len as int)) =~= seq!['-'] + text);
        }
    }
    let bytes = &buf[i..len];
    proof {
        lemma_digits_ascii(magnitude as nat, 10, false);
        assert forall|j: int| 0 <= j < decimal_text(n as int).len() implies (
        #[trigger] decimal_text(n as int)[j] as u32) < 0x80 by {
            if negative && j > 0 {
                assert(decimal_text(n as int)[j] == text[j - 1]);
            }
        }
        lemma_ascii_bytes(bytes@, decimal_text(n as int));
    }
    ascii_str(bytes)
}

impl uDebug for i8 {
    open spec fn debug_text(&self, pretty: bool, level: nat) -> Seq<char> {
        decimal_text(*self as int)
    }

    open spec fn debug_fits(&self, level: nat) -> bool {
        true
    }

    fn fmt<W>(&self, f: &mut Formatter<'_, W>) -> (res: Result<(), W::Error>) where
        W: uWrite + ?Sized,
    {
        let mut buf = [0u8; 4];
        proof {
            lemma_decimal_widths(
                if *self < 0 {
                    (-(*self as int)) as nat
                } else {
                    *self as nat
                },
            );
        }
        assert(self.debug_text(f.is_pretty(), f.level()) == decimal_text(*self as int));
        f.write_str(isize(*self as isize, &mut buf))
    }
}

impl uDisplay for i8 {
    open spec fn display_text(&self) -> Seq<char> {
        decimal_text(*self as int)
    }

    #[inline(always)]
    fn fmt<W>(&self, f: &mut Formatter<'_, W>) -> (res: Result<(), W::Error>) where
        W: uWrite + ?Sized,
    {
        <i8 as uDebug>::fmt(self, f)
    }
}

impl uDebug for i16 {
    open spec fn debug_text(&self, pretty: bool, level: nat) -> Seq<char> {
        decimal_text(*self as int)
    }

    open spec fn debug_fits(&self, level: nat) -> bool {
        true
    }

    fn fmt<W>(&self, f: &mut Formatter<'_, W>) -> (res: Result<(), W::Error>) where
        W: uWrite + ?Sized,
    {
        let mut buf = [0u8; 6];
        proof {
            lemma_decimal_widths(
                if *self < 0 {
                    (-(*self as int)) as nat
                } else {
                    *self as nat
                },
            );
        }
        assert(self.debug_text(f.is_pretty(), f.level()) == decimal_text(*self as int));
        f.write_str(isize(*self as isize, &mut buf))
    }
}

impl uDisplay for i16 {
    open spec fn display_text(&self) -> Seq<char> {
        decimal_text(*self as int)
    }

    #[inline(always)]
    fn fmt<W>(&self, f: &mut Formatter<'_, W>) -> (res: Result<(), W::Error>) where
        W: uWrite + ?Sized,
    {
        <i16 as uDebug>::fmt(self, f)
    }
}

impl uDebug for i32 {
    open spec fn debug_text(&self, pretty: bool, level: nat) -> Seq<char> {
        decimal_text(*self as int)
    }

    open spec fn debug_fits(&self, level: nat) -> bool {
        true
    }

    fn fmt<W>(&self, f: &mut Formatter<'_, W>) -> (res: Result<(), W::Error>) where
        W: uWrite + ?Sized,
    {
        let mut buf = [0u8; 11];
        proof {
            lemma_decimal_widths(
                if *self < 0 {
                    (-(*self as int)) as nat
                } else {
                    *self as nat
                },
            );
        }
        assert(self.debug_text(f.is_pretty(), f.level()) == decimal_text(*self as int));
        f.write_str(isize(*self as isize, &mut buf))
    }
}

impl uDisplay for i32 {
    open spec fn display_text(&self) -> Seq<char> {
        decimal_text(*self as int)
    }

    #[inline(always)]
    fn fmt<W>(&self, f: &mut Formatter<'_, W>) -> (res: Result<(), W::Error>) where
        W: uWrite + ?Sized,
    {
        <i32 as uDebug>::fmt(self, f)
    }
}

impl uDebug for i64 {
    open spec fn debug_text(&self, pretty: bool, level: nat) -> Seq<char> {
        decimal_text(*self as int)
    }

    open spec fn debug_fits(&self, level: nat) -> bool {
        true
    }

    fn fmt<W>(&self, f: &mut Formatter<'_, W>) -> (res: Result<(), W::Error>) where
        W: uWrite + ?Sized,
    {
        let mut buf = [0u8; 20];
        proof {
            lemma_decimal_widths(
                if *self < 0 {
                    (-(*self as int)) as nat
                } else {
                    *self as nat
                },
            );
        }
        assert(self.debug_text(f.is_pretty(), f.level()) == decimal_text(*self as int));
        f.write_str(i64(*self as i64, &mut buf))
    }
}

impl uDisplay for i64 {
    open spec fn display_text(&self) -> Seq<char> {
        decimal_text(*self as int)
    }

    #[inline(always)]
    fn fmt<W>(&self, f: &mut Formatter<'_, W>) -> (res: Result<(), W::Error>) where
        W: uWrite + ?Sized,
    {
        <i64 as uDebug>::fmt(self, f)
    }
}

impl uDebug for i128 {
    open spec fn debug_text(&self, pretty: bool, level: nat) -> Seq<char> {
        decimal_text(*self as int)
    }

    open spec fn debug_fits(&self, level: nat) -> bool {
        true
    }

    fn fmt<W>(&self, f: &mut Formatter<'_, W>) -> (res: Result<(), W::Error>) where
        W: uWrite + ?Sized,
    {
        let mut buf = [0u8; 40];
        proof {
            lemma_decimal_widths(
                if *self < 0 {
                    (-(*self as int)) as nat
                } else {
                    *self as nat
                },
            );
        }
        assert(self.debug_text(f.is_pretty(), f.level()) == decimal_text(*self as int));
        f.write_str(i128(*self as i128, &mut buf))
    }
}

impl uDisplay for i128 {
    open spec fn display_text(&self) -> Seq<char> {
        decimal_text(*self as int)
    }

    #[inline(always)]
    fn fmt<W>(&self, f: &mut Formatter<'_, W>) -> (res: Result<(), W::Error>) where
        W: uWrite + ?Sized,
    {
        <i128 as uDebug>::fmt(self, f)
    }
}

impl uDebug for isize {
    open spec fn debug_text(&self, pretty: bool, level: nat) -> Seq<char> {
        decimal_text(*self as int)
    }

    open spec fn debug_fits(&self, level: nat) -> bool {
        true
    }

    #[inline(always)]
    fn fmt<W>(&self, f: &mut Formatter<'_, W>) -> (res: Result<(), W::Error>) where
        W: uWrite + ?Sized,
    {
        <i64 as uDebug>::fmt(&(*self as i64), f)
    }
}

impl uDisplay for isize {
    open spec fn display_text(&self) -> Seq<char> {
        decimal_text(*self as int)
    }

    #[inline(always)]
    fn fmt<W>(&self, f: &mut Formatter<'_, W>) -> (res: Result<(), W::Error>) where
        W: uWrite + ?Sized,
    {
        <i64 as uDisplay>::fmt(&(*self as i64), f)
    }
}

} // verus!
