//! The formatter: a sink together with the state of structural output.

use vstd::prelude::*;
use crate::write::uWrite;

verus! {

/// The whitespace that starts a line at nesting depth `level`: four spaces
/// for each level.
pub open spec fn indent_text(level: nat) -> Seq<char> {
    Seq::new(4 * level, |i: int| ' ')
}

/// One more level of nesting adds four spaces.
pub proof fn lemma_indent_step(level: nat)
    ensures
        indent_text(level + 1) == indent_text(level) + "    "@,
{
    reveal_strlit("    ");
    assert(indent_text(level + 1) =~= indent_text(level) + "    "@);
}

/// Configuration for formatting: the sink that takes the text, the current
/// nesting depth and whether output is pretty (multi-line and indented).
#[allow(non_camel_case_types)]
pub struct Formatter<'w, W> where W: uWrite + ?Sized {
    indentation: u8,
    pretty: bool,
    writer: &'w mut W,
}

/// Once a formatter is no longer used, so is its borrow of the sink.
pub broadcast proof fn lemma_formatter_resolved<'w, W>(f: Formatter<'w, W>) where
    W: uWrite + ?Sized,

    ensures
        #[trigger] has_resolved(f) ==> has_resolved(f.sink()),
{
}

impl<'w, W> Formatter<'w, W> where W: uWrite + ?Sized {
    /// The text that the underlying sink has accepted so far.
    pub open spec fn written(&self) -> Seq<char> {
        self.sink().written()
    }

    /// Whether pretty mode is on.
    pub closed spec fn is_pretty(&self) -> bool {
        self.pretty
    }

    /// The current nesting depth.
    pub closed spec fn level(&self) -> nat {
        self.indentation as nat
    }

    /// The borrow of the underlying sink.
    pub closed spec fn sink(&self) -> &'w mut W {
        self.writer
    }

    /// `self` and `other` are on the same sink at the same nesting depth:
    /// they differ in their mode at most.
    pub open spec fn same_but_mode(&self, other: &Self) -> bool {
        &&& self.level() == other.level()
        &&& self.sink() == other.sink()
    }

    /// The errors with which the underlying sink has refused a write so far.
    pub open spec fn refused(&self) -> Seq<W::Error> {
        self.sink().refused()
    }

    /// `self` is `before` after `text` went to the sink and nothing else
    /// changed: the sink refused nothing.
    pub open spec fn extends(&self, before: &Self, text: Seq<char>) -> bool {
        &&& self.written() == before.written() + text
        &&& self.refused() == before.refused()
        &&& self.level() == before.level()
        &&& self.is_pretty() == before.is_pretty()
    }

    /// `self` is `before` after the sink refused one write, with `error`: the
    /// refusals are one more, and `error` is the last of them.
    pub open spec fn failed(&self, before: &Self, error: W::Error) -> bool {
        &&& self.refused() == before.refused().push(error)
        &&& self.refused().len() == before.refused().len() + 1
    }

    /// Creates a formatter from the given writer, at depth 0 and not pretty.
    pub fn new(writer: &'w mut W) -> (f: Self)
        ensures
            &*f.sink() == &*old(writer),
            &*final(f.sink()) == &*final(writer),
            f.written() == old(writer).written(),
            f.refused() == old(writer).refused(),
            f.level() == 0,
            !f.is_pretty(),
    {
        Self { indentation: 0, pretty: false, writer }
    }

    /// Executes the closure with pretty-printing enabled, then restores the
    /// flag to what it was, whether or not the closure failed.
    pub fn pretty<F>(&mut self, f: F) -> (res: Result<(), W::Error>) where
        F: FnOnce(&mut Self) -> Result<(), W::Error>,

        requires
            forall|g: &mut Self|
                g.is_pretty() && g.same_but_mode(old(self)) ==> #[trigger] call_requires(f, (g,)),
        ensures
            exists|g: &mut Self|
                {
                    &&& g.is_pretty()
                    &&& g.same_but_mode(old(self))
                    &&& #[trigger] call_ensures(f, (g,), res)
                    &&& final(self).same_but_mode(final(g))
                },
            final(self).is_pretty() == old(self).is_pretty(),
    {
        let pretty = self.pretty;
        self.pretty = true;
        let res = f(self);
        self.pretty = pretty;
        res
    }

    /// Writes a character to the underlying sink.
    pub fn write_char(&mut self, c: char) -> (res: Result<(), W::Error>)
        ensures
            final(self).is_pretty() == old(self).is_pretty(),
            final(self).level() == old(self).level(),
            &*final(final(self).sink()) == &*final(old(self).sink()),
            res is Ok ==> final(self).extends(old(self), seq![c]),
            res matches Err(e) ==> final(self).failed(old(self), e),
    {
        let res = self.writer.write_char(c);
        proof {
            assert(old(self).written().push(c) =~= old(self).written() + seq![c]);
        }
        res
    }

    /// Writes a string slice to the underlying sink.
    pub fn write_str(&mut self, s: &str) -> (res: Result<(), W::Error>)
        ensures
            final(self).is_pretty() == old(self).is_pretty(),
            final(self).level() == old(self).level(),
            &*final(final(self).sink()) == &*final(old(self).sink()),
            res is Ok ==> final(self).extends(old(self), s@),
            res matches Err(e) ==> final(self).failed(old(self), e),
    {
        self.writer.write_str(s)
    }

    /// Whether pretty mode is on.
    pub(crate) fn pretty_mode(&self) -> (pretty: bool)
        ensures
            pretty == self.is_pretty(),
    {
        self.pretty
    }

    /// Enters a nested structural scope.
    pub(crate) fn nest(&mut self)
        requires
            old(self).level() < u8::MAX,
        ensures
            final(self).written() == old(self).written(),
            final(self).refused() == old(self).refused(),
            final(self).is_pretty() == old(self).is_pretty(),
            final(self).level() == old(self).level() + 1,
            &*final(final(self).sink()) == &*final(old(self).sink()),
    {
        self.indentation += 1;
    }

    /// Leaves a nested structural scope.
    pub(crate) fn unnest(&mut self)
        requires
            old(self).level() > 0,
        ensures
            final(self).written() == old(self).written(),
            final(self).refused() == old(self).refused(),
            final(self).is_pretty() == old(self).is_pretty(),
            final(self).level() == old(self).level() - 1,
            &*final(final(self).sink()) == &*final(old(self).sink()),
    {
        self.indentation -= 1;
    }

    /// Writes whitespace according to the current nesting depth.
    pub(crate) fn indent(&mut self) -> (res: Result<(), W::Error>)
        ensures
            final(self).is_pretty() == old(self).is_pretty(),
            final(self).level() == old(self).level(),
            &*final(final(self).sink()) == &*final(old(self).sink()),
            res is Ok ==> final(self).extends(old(self), indent_text(old(self).level())),
            res matches Err(e) ==> final(self).failed(old(self), e),
    {
        let mut i: u8 = 0;
        proof {
            assert(indent_text(0) =~= Seq::<char>::empty());
            assert(old(self).written() + Seq::<char>::empty() =~= old(self).written());
        }
        while i < self.indentation
            invariant
                i <= self.indentation,
                self.is_pretty() == old(self).is_pretty(),
                self.level() == old(self).level(),
                &*final(self.sink()) == &*final(old(self).sink()),
                self.written() == old(self).written() + indent_text(i as nat),
                self.refused() == old(self).refused(),
            decreases self.indentation - i,
        {
            let ghost before = self.written();
            self.write_str("    ")?;
            proof {
                lemma_indent_step(i as nat);
                assert(before + "    "@ =~= old(self).written() + indent_text((i + 1) as nat));
            }
            i += 1;
        }
        Ok(())
    }
}

} // verus!
