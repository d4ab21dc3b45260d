//! Formatting of string slices as quoted, escaped text.

use vstd::prelude::*;
use crate::formatter::Formatter;
use crate::write::uWrite;
use crate::uDebug;

verus! {

/// `core::char::EscapeDebug`, the iterator that `char::escape_debug`
/// returns. What it has yet to yield is `escape_remaining`.
#[verifier::external_type_specification]
#[verifier::external_body]
pub struct ExEscapeDebug(core::char::EscapeDebug);

/// The escape code of a character, as `char::escape_debug` gives it.
pub uninterp spec fn escape_debug_text(c: char) -> Seq<char>;

/// The characters that an escape code has yet to yield.
pub uninterp spec fn escape_remaining(escape: core::char::EscapeDebug) -> Seq<char>;

/// `char::escape_debug`: an iterator that yields the escape code of the
/// character. Trusted: what it has yet to yield is that code, which depends
/// on the character alone.
pub assume_specification[ char::escape_debug ](c: char) -> (escape: core::char::EscapeDebug)
    ensures
        escape_remaining(escape) == escape_debug_text(c),
;

/// Calls `ExactSizeIterator::len` on an escape code. Trusted: it is the
/// number of characters that the iterator has yet to yield.
#[verifier::external_body]
fn escape_len(escape: &core::char::EscapeDebug) -> (len: usize)
    ensures
        len == escape_remaining(*escape).len(),
{
    escape.len()
}

/// Calls `Iterator::next` on an escape code. Trusted: it yields the first of
/// the characters that remain and leaves the others, or nothing if none
/// remains.
#[verifier::external_body]
fn escape_next(escape: &mut core::char::EscapeDebug) -> (c: Option<char>)
    ensures
        match c {
            Some(first) => escape_remaining(*old(escape)).len() > 0 && first == escape_remaining(
                *old(escape),
            )[0] && escape_remaining(*final(escape)) == escape_remaining(
                *old(escape),
            ).drop_first(),
            None => escape_remaining(*old(escape)).len() == 0 && escape_remaining(*final(escape))
                == escape_remaining(*old(escape)),
        },
{
    escape.next()
}

/// What a character of a string is written as: its escape code if that is
/// anything but a single character, else the character itself.
pub open spec fn escaped_char(c: char) -> Seq<char> {
    if escape_debug_text(c).len() != 1 {
        escape_debug_text(c)
    } else {
        seq![c]
    }
}

/// The characters of a string, each as it is written.
pub open spec fn escaped_text(s: Seq<char>) -> Seq<char>
    decreases s.len(),
{
    if s.len() == 0 {
        Seq::empty()
    } else {
        escaped_text(s.drop_last()) + escaped_char(s.last())
    }
}

/// The rendering of a string: its escaped characters between double quotes.
pub open spec fn quoted_text(s: Seq<char>) -> Seq<char> {
    "\""@ + escaped_text(s) + "\""@
}

/// Writes the escape code of a character.
fn write_escape<W>(f: &mut Formatter<'_, W>, c: char) -> (res: Result<(), W::Error>) where
    W: uWrite + ?Sized,

    ensures
        final(f).is_pretty() == old(f).is_pretty(),
        &*final(final(f).sink()) == &*final(old(f).sink()),
        res is Ok ==> final(f).extends(old(f), escaped_char(c)),
        res matches Err(e) ==> final(f).failed(old(f), e),
{
    let mut esc = c.escape_debug();
    if escape_len(&esc) != 1 {
        let ghost code = escape_debug_text(c);
        let ghost mut done = Seq::<char>::empty();
        assert(old(f).written() + done =~= old(f).written());
        assert(done + code =~= code);
        loop
            invariant
                f.is_pretty() == old(f).is_pretty(),
                &*final(f.sink()) == &*final(old(f).sink()),
                f.extends(old(f), done),
                code == done + escape_remaining(esc),
            ensures
                f.is_pretty() == old(f).is_pretty(),
                &*final(f.sink()) == &*final(old(f).sink()),
                f.extends(old(f), code),
            decreases escape_remaining(esc).len(),
        {
            let ghost before = f.written();
            let ghost rest = escape_remaining(esc);
            match escape_next(&mut esc) {
                Some(e) => {
                    f.write_char(e)?;
                    proof {
                        assert(before + seq![e] =~= old(f).written() + (done + seq![e]));
                        assert(done + rest =~= (done + seq![e]) + rest.drop_first());
                        done = done + seq![e];
                    }
                },
                None => {
                    proof {
                        assert(done + rest =~= done);
                    }
                    break ;
                },
            }
        }
        Ok(())
    } else {
        f.write_char(c)
    }
}

impl uDebug for str {
    open spec fn debug_text(&self, pretty: bool, level: nat) -> Seq<char> {
        quoted_text(self@)
    }

    open spec fn debug_fits(&self, level: nat) -> bool {
        true
    }

    fn fmt<W>(&self, f: &mut Formatter<'_, W>) -> (res: Result<(), W::Error>) where
        W: uWrite + ?Sized,
    {
        let ghost start = f.written();
        f.write_str("\"")?;
        let ghost opened = f.written();
        assert(opened + escaped_text(self@.take(0)) =~= opened);
        for c in it: self.chars()
            invariant
                f.is_pretty() == old(f).is_pretty(),
                f.level() == old(f).level(),
                &*final(f.sink()) == &*final(old(f).sink()),
                it.seq() == self@,
                f.written() == opened + escaped_text(self@.take(it.index() as int)),
                f.refused() == old(f).refused(),
        {
            let ghost before = f.written();
            let ghost i = it.index() as int;
            write_escape(f, c)?;
            proof {
                assert(self@.take(i + 1).drop_last() =~= self@.take(i));
                assert(self@.take(i + 1).last() == c);
                assert(before + escaped_char(c) =~= opened + escaped_text(self@.take(i + 1)));
            }
        }
        let ghost body = f.written();
        let res = f.write_str("\"");
        proof {
            assert(self@.take(self@.len() as int) =~= self@);
            assert(body + "\""@ =~= start + quoted_text(self@));
        }
        res
    }
}

} // verus!
