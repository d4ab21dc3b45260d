//! Sinks and adapters around sinks.

use vstd::prelude::*;
use vstd::string::*;
use vstd::utf8::*;
use crate::ascii::NEWLINE;
use crate::write::uWrite;

verus! {

/// A sink that takes any text and discards it.
pub struct W {
    taken: Ghost<Seq<char>>,
}

impl W {
    /// Creates the sink, which has taken nothing yet.
    pub fn new() -> (w: Self)
        ensures
            w.written() == Seq::<char>::empty(),
    {
        W { taken: Ghost(Seq::empty()) }
    }
}

impl uWrite for W {
    type Error = core::convert::Infallible;

    closed spec fn written(&self) -> Seq<char> {
        self.taken@
    }

    open spec fn refused(&self) -> Seq<core::convert::Infallible> {
        Seq::empty()
    }

    fn write_str(&mut self, s: &str) -> (res: Result<(), core::convert::Infallible>)
        ensures
            res is Ok,
    {
        proof {
            self.taken@ = self.taken@ + s@;
        }
        Ok(())
    }
}

/// A write adapter that ignores all errors.
///
/// What it has `written` is the text that it was handed, whether or not the
/// underlying writer took it.
pub struct Ignore<W> where W: uWrite {
    writer: W,
    handed: Ghost<Seq<char>>,
}

impl<W> Ignore<W> where W: uWrite {
    /// The underlying writer.
    pub closed spec fn writer(&self) -> W {
        self.writer
    }

    /// Creates a new `Ignore` adapter.
    pub fn new(writer: W) -> (adapter: Self)
        ensures
            adapter.writer() == writer,
            adapter.written() == Seq::<char>::empty(),
    {
        Self { writer, handed: Ghost(Seq::empty()) }
    }

    /// Destroys the adapter and returns the underlying writer.
    pub fn free(self) -> (writer: W)
        ensures
            writer == self.writer(),
    {
        self.writer
    }
}

impl<W> uWrite for Ignore<W> where W: uWrite {
    type Error = core::convert::Infallible;

    closed spec fn written(&self) -> Seq<char> {
        self.handed@
    }

    open spec fn refused(&self) -> Seq<core::convert::Infallible> {
        Seq::empty()
    }

    fn write_str(&mut self, s: &str) -> (res: Result<(), core::convert::Infallible>)
        ensures
            res is Ok,
    {
        let _ = self.writer.write_str(s);
        proof {
            self.handed@ = self.handed@ + s@;
        }
        Ok(())
    }
}

/// In well-formed UTF-8 a character starts after every ASCII byte.
pub proof fn lemma_boundary_after_ascii(bytes: Seq<u8>, i: int)
    requires
        valid_utf8(bytes),
        0 <= i < bytes.len(),
        bytes[i] < 0x80,
    ensures
        is_char_boundary(bytes, i + 1),
    decreases bytes.len(),
{
    let first = bytes[0];
    let width = length_of_first_scalar(bytes);
    let rest = pop_first_scalar(bytes);
    assert(valid_first_scalar(bytes) && valid_utf8(rest));
    assert(is_leading_byte_width_1(first) <==> first < 0x80) by (bit_vector);
    if i == 0 {
        assert(width == 1);
        assert(is_char_boundary(rest, 0));
    } else if i < width {
        let b = bytes[i];
        assert(is_continuation_byte(b));
        assert(is_continuation_byte(b) ==> b >= 0x80) by (bit_vector);
    } else {
        assert(rest[i - width] == bytes[i]);
        lemma_boundary_after_ascii(rest, i - width);
    }
}

/// Splitting a string between two characters splits its text.
pub proof fn lemma_split_text(whole: Seq<char>, first: Seq<char>, second: Seq<char>, mid: int)
    requires
        is_char_boundary(encode_utf8(whole), mid),
        0 <= mid <= encode_utf8(whole).len(),
        encode_utf8(first) == encode_utf8(whole).subrange(0, mid),
        encode_utf8(second) == encode_utf8(whole).subrange(mid, encode_utf8(whole).len() as int),
    ensures
        whole == first + second,
{
    let bytes = encode_utf8(whole);
    encode_utf8_valid_utf8(whole);
    decode_utf8_split(bytes, mid);
    encode_utf8_decode_utf8(whole);
    encode_utf8_decode_utf8(first);
    encode_utf8_decode_utf8(second);
}

/// The index of the first line feed among the bytes, if there is one.
fn find_newline(bytes: &[u8]) -> (res: Option<usize>)
    ensures
        match res {
            Some(pos) => pos < bytes@.len() && bytes@[pos as int] == NEWLINE && forall|j: int|
                0 <= j < pos ==> bytes@[j] != NEWLINE,
            None => forall|j: int| 0 <= j < bytes@.len() ==> bytes@[j] != NEWLINE,
        },
{
    let mut i: usize = 0;
    while i < bytes.len()
        invariant
            i <= bytes@.len(),
            forall|j: int| 0 <= j < i ==> bytes@[j] != NEWLINE,
        decreases bytes@.len() - i,
    {
        if bytes[i] == NEWLINE {
            return Some(i);
        }
        i += 1;
    }
    None
}

/// A write adapter that buffers writes and automatically flushes on
/// newlines. Up to `N` bytes are held back; a write that does not fit is
/// preceded by a flush, and one that is longer than `N` bytes goes to the
/// writer directly.
///
/// What it has `written` is what the writer has accepted, then what is held
/// back.
pub struct LineBuffered<W, const N: usize> where W: uWrite {
    buffer: String,
    writer: W,
}

impl<W, const N: usize> LineBuffered<W, N> where W: uWrite {
    /// The underlying writer.
    pub closed spec fn writer(&self) -> W {
        self.writer
    }

    /// The text that is held back.
    pub closed spec fn buffered(&self) -> Seq<char> {
        self.buffer@
    }

    /// Creates a new `LineBuffered` adapter.
    pub fn new(writer: W) -> (adapter: Self)
        ensures
            adapter.writer() == writer,
            adapter.buffered() == Seq::<char>::empty(),
    {
        Self { buffer: String::new(), writer }
    }

    /// Flushes the contents of the buffer. The buffer is empty afterwards,
    /// also where the writer did not accept its contents.
    pub fn flush(&mut self) -> (res: Result<(), W::Error>)
        ensures
            final(self).buffered() == Seq::<char>::empty(),
            res is Ok ==> final(self).writer().written() == old(self).writer().written() + old(
                self,
            ).buffered(),
            res is Ok ==> final(self).written() == old(self).written(),
            res is Ok ==> final(self).refused() == old(self).refused(),
            res matches Err(e) ==> final(self).refused() == old(self).refused().push(e)
                && final(self).refused().len() == old(self).refused().len() + 1,
    {
        let ret = self.writer.write_str(self.buffer.as_str());
        self.buffer = String::new();
        proof {
            assert(self.writer.written() + Seq::<char>::empty() =~= self.writer.written());
        }
        ret
    }

    /// Destroys the adapter and returns the underlying writer. What is held
    /// back is lost.
    pub fn free(self) -> (writer: W)
        ensures
            writer == self.writer(),
    {
        self.writer
    }

    fn push_str(&mut self, s: &str) -> (res: Result<(), W::Error>)
        ensures
            res is Ok ==> final(self).written() == old(self).written() + s@,
            res is Ok ==> final(self).refused() == old(self).refused(),
            res matches Err(e) ==> final(self).refused() == old(self).refused().push(e)
                && final(self).refused().len() == old(self).refused().len() + 1,
    {
        let len = s.as_bytes().len();
        let fits = match self.buffer.as_str().as_bytes().len().checked_add(len) {
            Some(total) => total <= N,
            None => false,
        };
        if !fits {
            self.flush()?;
        }
        if len > N {
            let ghost held = self.buffer@;
            let ghost before = self.writer.written();
            self.writer.write_str(s)?;
            proof {
                assert(held =~= Seq::<char>::empty()) by {
                    if fits {
                        // the buffer and the text fit together, so the text fits alone
                        assert(false);
                    }
                }
                assert(before + s@ + held =~= before + held + s@);
            }
        } else {
            let ghost before = self.writer.written() + self.buffer@;
            self.buffer.append(s);
            proof {
                assert(self.writer.written() + self.buffer@ =~= before + s@);
            }
        }
        Ok(())
    }
}

impl<W, const N: usize> uWrite for LineBuffered<W, N> where W: uWrite {
    type Error = W::Error;

    open spec fn written(&self) -> Seq<char> {
        self.writer().written() + self.buffered()
    }

    open spec fn refused(&self) -> Seq<W::Error> {
        self.writer().refused()
    }

    fn write_str(&mut self, s: &str) -> (res: Result<(), W::Error>) {
        let mut s = s;
        let ghost whole = s@;
        let ghost start = self.written();
        proof {
            assert(start + whole =~= start + Seq::<char>::empty() + whole);
        }
        let ghost mut done = Seq::<char>::empty();
        loop
            invariant
                whole == done + s@,
                self.written() == start + done,
                self.refused() == old(self).refused(),
            ensures
                whole == done + s@,
                self.written() == start + done,
                self.refused() == old(self).refused(),
            decreases s@.len(),
        {
            let bytes = s.as_bytes();
            let len = bytes.len();
            match find_newline(bytes) {
                Some(pos) => {
                    proof {
                        encode_utf8_valid_utf8(s@);
                        lemma_boundary_after_ascii(bytes@, pos as int);
                    }
                    let (line, rest) = s.split_at(pos + 1);
                    proof {
                        lemma_split_text(s@, line@, rest@, pos + 1);
                        assert(line@.len() > 0) by {
                            if line@.len() == 0 {
                                assert(encode_utf8(line@) =~= Seq::<u8>::empty());
                            }
                        }
                        assert(done + (line@ + rest@) =~= (done + line@) + rest@);
                        assert(start + done + line@ =~= start + (done + line@));
                    }
                    self.push_str(line)?;
                    self.flush()?;
                    proof {
                        done = done + line@;
                    }
                    s = rest;
                },
                None => {
                    break ;
                },
            }
        }
        let res = self.push_str(s);
        proof {
            assert(start + done + s@ =~= start + whole);
        }
        res
    }
}

} // verus!
