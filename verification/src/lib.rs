//! A small text-formatting engine that writes into a caller-supplied sink.
//! Formatting a value does not allocate and does not panic.
//!
//! Values are rendered incrementally through a [`Formatter`], which borrows
//! the sink. What a value renders as is a specification function over
//! `Seq<char>` (`debug_text`, `display_text`, `decimal_text`, `struct_text`
//! and the like), and every executable function is proved to hand exactly
//! that text to the sink.
//!
//! # How the contracts read
//!
//! - A sink says what it has `written` and which errors it has `refused`
//!   writes with. A write that succeeds appends the whole slice and refuses
//!   nothing; a write that fails adds its error to the refusals.
//! - A function that takes a formatter `f` promises, when it succeeds,
//!   `final(f).extends(old(f), text)`: the text went to the sink, the sink
//!   refused nothing, and mode and nesting depth are what they were.
//! - It fails only where the sink refuses a write, stops there, and returns
//!   the sink's error as it is: `final(f).failed(old(f), e)` says that the
//!   refusals grew by that one error. Nothing is said of the text that the
//!   sink holds then.
//! - The formatter stays on the sink it was given, which is what lets a
//!   caller read the text off its own sink afterwards. Contracts say so with
//!   `&*final(final(f).sink()) == &*final(old(f).sink())`.
//! - In pretty mode the nesting depth is counted in a `u8`. A value says with
//!   `debug_fits` from which depth its rendering stays in that range.
//!
//! # Modules
//!
//! - [`write`]: the sink contract and UTF-8 encoding.
//! - [`formatter`]: the formatter.
//! - [`helpers`]: the builders for structs, tuples, lists, maps and sets.
//! - [`digits`]: positional notation, the model of the numeric encoders.
//! - [`impls`]: formatting of the primitive and standard types.
//! - [`pieces`]: the format-string language.
//! - [`utils`]: sinks and adapters.
//! - [`laws`]: what holds of every rendering.

use vstd::prelude::*;
use vstd::string::*;
use vstd::utf8::*;
use crate::ascii::SPACE;

pub mod ascii;
pub mod digits;
pub mod formatter;
pub mod helpers;
pub mod impls;
pub mod laws;
pub mod pieces;
pub mod utils;
pub mod write;

pub use crate::formatter::Formatter;
pub use crate::helpers::{DebugList, DebugMap, DebugSet, DebugStruct, DebugTuple};
pub use crate::write::uWrite;

verus! {

broadcast use crate::formatter::lemma_formatter_resolved;

/// Structural, programmer-facing formatting.
///
/// `debug_text` is what the value renders as when formatting starts at the
/// given nesting depth, in compact or pretty mode. `debug_fits` says whether
/// the pretty rendering, started at the given depth, keeps the nesting depth
/// within the range of the formatter's counter. A type that defines neither
/// leaves its rendering open and fits at any depth.
#[allow(non_camel_case_types)]
pub trait uDebug {
    /// The rendering of this value.
    closed spec fn debug_text(&self, pretty: bool, level: nat) -> Seq<char> {
        arbitrary()
    }

    /// Whether the pretty rendering can start at nesting depth `level`.
    open spec fn debug_fits(&self, level: nat) -> bool {
        true
    }

    /// Formats the value using the given formatter.
    fn fmt<W>(&self, f: &mut Formatter<'_, W>) -> (res: Result<(), W::Error>) where
        W: uWrite + ?Sized,

        requires
            old(f).is_pretty() ==> self.debug_fits(old(f).level()),
        ensures
            final(f).is_pretty() == old(f).is_pretty(),
            &*final(final(f).sink()) == &*final(old(f).sink()),
            res is Ok ==> final(f).extends(
                old(f),
                self.debug_text(old(f).is_pretty(), old(f).level()),
            ),
            res matches Err(e) ==> final(f).failed(old(f), e),
    ;
}

/// Human-facing formatting.
#[allow(non_camel_case_types)]
pub trait uDisplay {
    /// The rendering of this value.
    closed spec fn display_text(&self) -> Seq<char> {
        arbitrary()
    }

    /// Formats the value using the given formatter.
    fn fmt<W>(&self, f: &mut Formatter<'_, W>) -> (res: Result<(), W::Error>) where
        W: uWrite + ?Sized,

        ensures
            final(f).is_pretty() == old(f).is_pretty(),
            &*final(final(f).sink()) == &*final(old(f).sink()),
            res is Ok ==> final(f).extends(old(f), self.display_text()),
            res matches Err(e) ==> final(f).failed(old(f), e),
    ;
}

/// Writes `pad` copies of an ASCII pad character.
fn do_pad<W>(fmt: &mut Formatter<'_, W>, pad_char: u8, pad: usize) -> (res: Result<(), W::Error>) where
    W: uWrite + ?Sized,

    requires
        pad_char < 0x80,
    ensures
        final(fmt).is_pretty() == old(fmt).is_pretty(),
        &*final(final(fmt).sink()) == &*final(old(fmt).sink()),
        res is Ok ==> final(fmt).extends(old(fmt), Seq::new(pad as nat, |i: int| pad_char as char)),
        res matches Err(e) ==> final(fmt).failed(old(fmt), e),
{
    let one = [pad_char];
    let s = crate::write::ascii_str(one.as_slice());
    assert(s@ =~= seq![pad_char as char]);
    let mut i: usize = 0;
    assert(old(fmt).written() + Seq::new(0, |i: int| pad_char as char) =~= old(fmt).written());
    while i < pad
        invariant
            i <= pad,
            s@ == seq![pad_char as char],
            fmt.is_pretty() == old(fmt).is_pretty(),
            &*final(fmt.sink()) == &*final(old(fmt).sink()),
            fmt.extends(old(fmt), Seq::new(i as nat, |i: int| pad_char as char)),
        decreases pad - i,
    {
        let ghost before = fmt.written();
        fmt.write_str(s)?;
        assert(before + s@ =~= old(fmt).written() + Seq::new(
            (i + 1) as nat,
            |i: int| pad_char as char,
        ));
        i += 1;
    }
    Ok(())
}

/// Options for formatting hexadecimal numbers.
pub struct HexOptions {
    /// when we need to use digits a-f, should they be upper case instead?
    pub upper_case: bool,
    /// when we are padding to a target length, what character should we pad using?
    pub pad_char: u8,
    /// when we are padding to a target length, how long should our string be?
    pub pad_length: usize,
    /// should we include a 0x prefix? (also controlled by upper_case)
    pub ox_prefix: bool,
}

impl HexOptions {
    /// The radix prefix, if one was asked for.
    pub open spec fn prefix_text(&self) -> Seq<char> {
        if !self.ox_prefix {
            Seq::empty()
        } else if self.upper_case {
            "0X"@
        } else {
            "0x"@
        }
    }

    /// How many pad characters a payload of `width` bytes needs: what is
    /// missing to the target length once prefix and payload are counted.
    pub open spec fn pad_count(&self, width: nat) -> nat {
        let used = width + self.prefix_text().len();
        if self.pad_length > used {
            (self.pad_length - used) as nat
        } else {
            0
        }
    }

    /// The padding for a payload of `width` bytes.
    pub open spec fn pad_text(&self, width: nat) -> Seq<char> {
        Seq::new(self.pad_count(width), |i: int| self.pad_char as char)
    }

    /// Padding, prefix and payload in their order: with a prefix and space
    /// padding the padding comes first (the prefix is right-aligned with the
    /// digits); in every other case the prefix comes first.
    pub open spec fn layout(&self, payload: Seq<char>, width: nat) -> Seq<char> {
        if self.ox_prefix && self.pad_char == SPACE {
            self.pad_text(width) + self.prefix_text() + payload
        } else {
            self.prefix_text() + self.pad_text(width) + payload
        }
    }

    fn do_prefix<W>(&self, fmt: &mut Formatter<'_, W>) -> (res: Result<(), W::Error>) where
        W: uWrite + ?Sized,

        ensures
            final(fmt).is_pretty() == old(fmt).is_pretty(),
            &*final(final(fmt).sink()) == &*final(old(fmt).sink()),
            res is Ok ==> final(fmt).extends(old(fmt), self.prefix_text()),
            res matches Err(e) ==> final(fmt).failed(old(fmt), e),
    {
        if self.ox_prefix {
            fmt.write_str(
                if self.upper_case {
                    "0X"
                } else {
                    "0x"
                },
            )
        } else {
            assert(old(fmt).written() + Seq::<char>::empty() =~= old(fmt).written());
            Ok(())
        }
    }

    /// Applies the padding and prefix options while writing the `payload`
    /// string, whose width is its length in bytes.
    pub fn with_stuff<W>(&self, fmt: &mut Formatter<'_, W>, payload: &str) -> (res: Result<
        (),
        W::Error,
    >) where W: uWrite + ?Sized
        requires
            self.pad_char < 0x80,
        ensures
            final(fmt).is_pretty() == old(fmt).is_pretty(),
            &*final(final(fmt).sink()) == &*final(old(fmt).sink()),
            res is Ok ==> final(fmt).extends(
                old(fmt),
                self.layout(payload@, payload.len() as nat),
            ),
            res matches Err(e) ==> final(fmt).failed(old(fmt), e),
    {
        let pad_before = self.ox_prefix && self.pad_char == SPACE;
        let prefix_len: usize = if self.ox_prefix {
            2
        } else {
            0
        };
        let len = payload.len();
        let pad: usize = if self.pad_length > len && self.pad_length - len > prefix_len {
            self.pad_length - len - prefix_len
        } else {
            0
        };
        proof {
            reveal_strlit("0X");
            reveal_strlit("0x");
            assert(pad == self.pad_count(len as nat));
        }
        let ghost w0 = fmt.written();
        let ghost padding = self.pad_text(len as nat);
        if pad_before {
            do_pad(fmt, self.pad_char, pad)?;
            self.do_prefix(fmt)?;
            assert(fmt.written() + payload@ =~= w0 + (padding + self.prefix_text() + payload@));
        } else {
            self.do_prefix(fmt)?;
            do_pad(fmt, self.pad_char, pad)?;
            assert(fmt.written() + payload@ =~= w0 + (self.prefix_text() + padding + payload@));
        }
        fmt.write_str(payload)
    }
}

/// Hexadecimal formatting of integers.
///
/// The digits are those of `hex_value`, the unsigned magnitude of the value's
/// bit pattern; no sign is ever written.
#[allow(non_camel_case_types)]
pub trait uDisplayHex {
    /// The value's bit pattern read as an unsigned number.
    closed spec fn hex_value(&self) -> nat {
        arbitrary()
    }

    /// Formats the value using the given formatter.
    fn fmt_hex<W>(&self, f: &mut Formatter<'_, W>, options: HexOptions) -> (res: Result<
        (),
        W::Error,
    >) where W: uWrite + ?Sized
        requires
            options.pad_char < 0x80,
        ensures
            final(f).is_pretty() == old(f).is_pretty(),
            &*final(final(f).sink()) == &*final(old(f).sink()),
            res is Ok ==> final(f).extends(
                old(f),
                options.layout(
                    crate::digits::digits(self.hex_value(), 16, options.upper_case),
                    crate::digits::digits(self.hex_value(), 16, options.upper_case).len(),
                ),
            ),
            res matches Err(e) ==> final(f).failed(old(f), e),
    ;
}

/// Options for formatting binary numbers.
pub struct BinOptions {
    /// should the prefix, if any, be upper case?
    pub upper_case: bool,
    /// when we are padding to a target length, what character should we pad using?
    pub pad_char: u8,
    /// when we are padding to a target length, how long should our string be?
    pub pad_length: usize,
    /// should we include a 0b prefix? (also controlled by upper_case)
    pub ob_prefix: bool,
}

impl BinOptions {
    /// The radix prefix, if one was asked for.
    pub open spec fn prefix_text(&self) -> Seq<char> {
        if !self.ob_prefix {
            Seq::empty()
        } else if self.upper_case {
            "0B"@
        } else {
            "0b"@
        }
    }

    /// How many pad characters a payload of `width` bytes needs: what is
    /// missing to the target length once prefix and payload are counted.
    pub open spec fn pad_count(&self, width: nat) -> nat {
        let used = width + self.prefix_text().len();
        if self.pad_length > used {
            (self.pad_length - used) as nat
        } else {
            0
        }
    }

    /// The padding for a payload of `width` bytes.
    pub open spec fn pad_text(&self, width: nat) -> Seq<char> {
        Seq::new(self.pad_count(width), |i: int| self.pad_char as char)
    }

    /// Padding, prefix and payload in their order: with a prefix and space
    /// padding the padding comes first; in every other case the prefix comes
    /// first.
    pub open spec fn layout(&self, payload: Seq<char>, width: nat) -> Seq<char> {
        if self.ob_prefix && self.pad_char == SPACE {
            self.pad_text(width) + self.prefix_text() + payload
        } else {
            self.prefix_text() + self.pad_text(width) + payload
        }
    }

    fn do_prefix<W>(&self, fmt: &mut Formatter<'_, W>) -> (res: Result<(), W::Error>) where
        W: uWrite + ?Sized,

        ensures
            final(fmt).is_pretty() == old(fmt).is_pretty(),
            &*final(final(fmt).sink()) == &*final(old(fmt).sink()),
            res is Ok ==> final(fmt).extends(old(fmt), self.prefix_text()),
            res matches Err(e) ==> final(fmt).failed(old(fmt), e),
    {
        if self.ob_prefix {
            fmt.write_str(
                if self.upper_case {
                    "0B"
                } else {
                    "0b"
                },
            )
        } else {
            assert(old(fmt).written() + Seq::<char>::empty() =~= old(fmt).written());
            Ok(())
        }
    }

    /// Applies the padding and prefix options while writing the `payload`
    /// string, whose width is its length in bytes.
    pub fn with_stuff<W>(&self, fmt: &mut Formatter<'_, W>, payload: &str) -> (res: Result<
        (),
        W::Error,
    >) where W: uWrite + ?Sized
        requires
            self.pad_char < 0x80,
        ensures
            final(fmt).is_pretty() == old(fmt).is_pretty(),
            &*final(final(fmt).sink()) == &*final(old(fmt).sink()),
            res is Ok ==> final(fmt).extends(
                old(fmt),
                self.layout(payload@, payload.len() as nat),
            ),
            res matches Err(e) ==> final(fmt).failed(old(fmt), e),
    {
        let pad_before = self.ob_prefix && self.pad_char == SPACE;
        let prefix_len: usize = if self.ob_prefix {
            2
        } else {
            0
        };
        let len = payload.len();
        let pad: usize = if self.pad_length > len && self.pad_length - len > prefix_len {
            self.pad_length - len - prefix_len
        } else {
            0
        };
        proof {
            reveal_strlit("0B");
            reveal_strlit("0b");
            assert(pad == self.pad_count(len as nat));
        }
        let ghost w0 = fmt.written();
        let ghost padding = self.pad_text(len as nat);
        if pad_before {
            do_pad(fmt, self.pad_char, pad)?;
            self.do_prefix(fmt)?;
            assert(fmt.written() + payload@ =~= w0 + (padding + self.prefix_text() + payload@));
        } else {
            self.do_prefix(fmt)?;
            do_pad(fmt, self.pad_char, pad)?;
            assert(fmt.written() + payload@ =~= w0 + (self.prefix_text() + padding + payload@));
        }
        fmt.write_str(payload)
    }
}

/// Binary formatting of integers.
///
/// The digits are those of `bin_value`, the unsigned magnitude of the value's
/// bit pattern; no sign is ever written.
#[allow(non_camel_case_types)]
pub trait uDisplayBin {
    /// The value's bit pattern read as an unsigned number.
    closed spec fn bin_value(&self) -> nat {
        arbitrary()
    }

    /// Formats the value using the given formatter.
    fn fmt_bin<W>(&self, f: &mut Formatter<'_, W>, options: BinOptions) -> (res: Result<
        (),
        W::Error,
    >) where W: uWrite + ?Sized
        requires
            options.pad_char < 0x80,
        ensures
            final(f).is_pretty() == old(f).is_pretty(),
            &*final(final(f).sink()) == &*final(old(f).sink()),
            res is Ok ==> final(f).extends(
                old(f),
                options.layout(
                    crate::digits::digits(self.bin_value(), 2, false),
                    crate::digits::digits(self.bin_value(), 2, false).len(),
                ),
            ),
            res matches Err(e) ==> final(f).failed(old(f), e),
    ;
}

/// What can be formatted into: a writer, for which a fresh formatter is
/// made, or a formatter, which is used as it is. This is what lets one entry
/// point serve both.
pub trait UnstableDoAsFormatter<W> where W: uWrite + ?Sized {
    /// Whether `g` is the formatter that the closure is handed.
    spec fn hands(&self, g: Formatter<'_, W>) -> bool;

    /// Whether `self` is what the formatter `g`, as the closure left it,
    /// leaves behind.
    spec fn keeps(&self, g: Formatter<'_, W>) -> bool;

    /// Runs the closure on the formatter and returns what it returned. The
    /// closure must leave the formatter on the sink that it found it on, as
    /// every function of this library does.
    fn do_as_formatter<F>(&mut self, f: F) -> (res: Result<(), W::Error>) where
        F: FnOnce(&mut Formatter<'_, W>) -> Result<(), W::Error>,

        requires
            forall|g: &mut Formatter<'_, W>|
                old(self).hands(*g) ==> #[trigger] call_requires(f, (g,)),
            forall|g: &mut Formatter<'_, W>, r: Result<(), W::Error>| #[trigger]
                call_ensures(f, (g,), r) ==> &*final(final(g).sink()) == &*final(g.sink()),
        ensures
            exists|g: &mut Formatter<'_, W>|
                {
                    &&& old(self).hands(*g)
                    &&& #[trigger] call_ensures(f, (g,), res)
                    &&& final(self).keeps(*final(g))
                },
    ;
}

impl<W> UnstableDoAsFormatter<W> for W where W: uWrite + ?Sized {
    open spec fn hands(&self, g: Formatter<'_, W>) -> bool {
        &&& g.written() == self.written()
        &&& g.refused() == self.refused()
        &&& g.level() == 0
        &&& !g.is_pretty()
    }

    open spec fn keeps(&self, g: Formatter<'_, W>) -> bool {
        &&& self.written() == g.written()
        &&& self.refused() == g.refused()
    }

    fn do_as_formatter<F>(&mut self, f: F) -> (res: Result<(), W::Error>) where
        F: FnOnce(&mut Formatter<'_, W>) -> Result<(), W::Error>,
    {
        let mut formatter = Formatter::new(self);
        f(&mut formatter)
    }
}

impl<W> UnstableDoAsFormatter<W> for Formatter<'_, W> where W: uWrite + ?Sized {
    open spec fn hands(&self, g: Formatter<'_, W>) -> bool {
        g == *self
    }

    open spec fn keeps(&self, g: Formatter<'_, W>) -> bool {
        *self == g
    }

    fn do_as_formatter<F>(&mut self, f: F) -> (res: Result<(), W::Error>) where
        F: FnOnce(&mut Formatter<'_, W>) -> Result<(), W::Error>,
    {
        f(self)
    }
}

} // verus!
