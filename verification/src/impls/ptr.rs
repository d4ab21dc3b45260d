//! Formatting of addresses.

use vstd::prelude::*;
use crate::ascii::{LOWER_A, LOWER_X, ZERO};
use crate::digits::{
    digit_char, digits, lemma_digits_ascii, lemma_digits_step, lemma_hex_widths,
};
use crate::formatter::Formatter;
use crate::impls::uxx::lemma_ascii_bytes;
use crate::write::{ascii_str, ascii_text, uWrite};

verus! {

/// The rendering of an address: `0x`, then the lower-case hexadecimal digits.
pub open spec fn address_text(n: nat) -> Seq<char> {
    seq!['0', 'x'] + digits(n, 16, false)
}

/// Writes `0x` and the hexadecimal digits of `n` at the end of `buf` and
/// returns the index where the text starts. The buffer must have room for
/// the prefix and every digit.
pub fn hex(n: usize, buf: &mut [u8]) -> (start: usize)
    requires
        digits(n as nat, 16, false).len() + 2 <= old(buf)@.len(),
    ensures
        final(buf)@.len() == old(buf)@.len(),
        start + address_text(n as nat).len() == final(buf)@.len(),
        ascii_text(final(buf)@.subrange(start as int, final(buf)@.len() as int))
            == address_text(n as nat),
{
    let ghost text = digits(n as nat, 16, false);
    let len = buf.len();
    let mut n = n;
    let mut i = len - 1;
    proof {
        lemma_digits_step(n as nat, 16, false);
        assert(ascii_text(buf@.subrange(len as int, len as int)) =~= Seq::<char>::empty());
        assert(text =~= text + Seq::<char>::empty());
    }
    loop
        invariant_except_break
            text == digits(n as nat, 16, false) + ascii_text(buf@.subrange(i + 1, len as int)),
        invariant
            i < len,
            len == buf@.len(),
            len == old(buf)@.len(),
            text.len() + 2 <= len,
        ensures
            i + 1 + text.len() == len,
            text == ascii_text(buf@.subrange(i + 1, len as int)),
        decreases n,
    {
        let ghost prev = n;
        let ghost tail = ascii_text(buf@.subrange(i + 1, len as int));
        let d = (n % 16) as u8;
        buf[i] = if d < 10 {
            d + ZERO
        } else {
            (d - 10) + LOWER_A
        };
        n /= 16;
        proof {
            lemma_digits_step(prev as nat, 16, false);
            lemma_digits_step(n as nat, 16, false);
            let c = digit_char((prev % 16) as nat, false);
            assert(ascii_text(buf@.subrange(i as int, len as int)) =~= seq![c] + tail);
            if prev >= 16 {
                assert(digits(prev as nat, 16, false) + tail =~= digits(n as nat, 16, false) + (
                seq![c] + tail));
            }
        }
        i -= 1;
        if n == 0 {
            break ;
        }
    }
    let ghost tail = buf@.subrange(i + 1, len as int);
    buf[i] = LOWER_X;
    i -= 1;

    buf[i] = ZERO;
    proof {
        assert(buf@.subrange(i + 2, len as int) =~= tail);
        assert(ascii_text(buf@.subrange(i as int, len as int)) =~= seq!['0', 'x'] + text);
    }
    i
}

/// Writes an address to the formatter: `0x` and its hexadecimal digits.
pub fn fmt_address<W>(address: usize, f: &mut Formatter<'_, W>) -> (res: Result<(), W::Error>) where
    W: uWrite + ?Sized,

    ensures
        final(f).is_pretty() == old(f).is_pretty(),
        &*final(final(f).sink()) == &*final(old(f).sink()),
        res is Ok ==> final(f).extends(old(f), address_text(address as nat)),
        res matches Err(e) ==> final(f).failed(old(f), e),
{
    let mut buf = [0u8; 18];
    proof {
        lemma_hex_widths(address as nat, false);
    }
    let i = hex(address, &mut buf);
    let bytes = &buf[i..18];
    proof {
        lemma_digits_ascii(address as nat, 16, false);
        assert forall|j: int| 0 <= j < address_text(address as nat).len() implies (
        #[trigger] address_text(address as nat)[j] as u32) < 0x80 by {
            if j >= 2 {
                assert(address_text(address as nat)[j] == digits(address as nat, 16, false)[j
                    - 2]);
            }
        }
        lemma_ascii_bytes(bytes@, address_text(address as nat));
    }
    f.write_str(ascii_str(bytes))
}

} // verus!
