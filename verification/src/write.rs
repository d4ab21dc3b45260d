//! The sink contract: where formatted text goes.

use vstd::prelude::*;
use vstd::string::*;
use vstd::utf8::*;

verus! {

/// Continuation-byte tag of a multi-byte encoding.
pub const TAG_CONT: u8 = 0b1000_0000;

/// Leading-byte tag of a two-byte encoding.
pub const TAG_TWO_B: u8 = 0b1100_0000;

/// Leading-byte tag of a three-byte encoding.
pub const TAG_THREE_B: u8 = 0b1110_0000;

/// Leading-byte tag of a four-byte encoding.
pub const TAG_FOUR_B: u8 = 0b1111_0000;

/// First code point that needs two bytes.
pub const MAX_ONE_B: u32 = 0x80;

/// First code point that needs three bytes.
pub const MAX_TWO_B: u32 = 0x800;

/// First code point that needs four bytes.
pub const MAX_THREE_B: u32 = 0x10000;

/// `core::str::Utf8Error`, the error of `core::str::from_utf8`. Nothing is
/// said of what it holds.
#[verifier::external_type_specification]
#[verifier::external_body]
pub struct ExUtf8Error(core::str::Utf8Error);

/// The characters that a sequence of ASCII bytes stands for, one per byte.
pub open spec fn ascii_text(bytes: Seq<u8>) -> Seq<char> {
    Seq::new(bytes.len(), |i: int| bytes[i] as char)
}

/// Calls `core::str::from_utf8`. Trusted: the call succeeds exactly on
/// well-formed UTF-8, and the string slice it returns covers the very bytes it
/// was given.
#[verifier::external_body]
fn from_utf8(bytes: &[u8]) -> (res: Result<&str, core::str::Utf8Error>)
    ensures
        res is Ok <==> valid_utf8(bytes@),
        res matches Ok(s) ==> s.spec_bytes() == bytes@,
{
    core::str::from_utf8(bytes)
}

/// Two strings with the same UTF-8 bytes hold the same characters.
proof fn lemma_bytes_determine_text(a: Seq<char>, b: Seq<char>)
    requires
        encode_utf8(a) == encode_utf8(b),
    ensures
        a == b,
{
    encode_utf8_decode_utf8(a);
    encode_utf8_decode_utf8(b);
}

/// Views a run of ASCII bytes as a string slice, without copying.
pub fn ascii_str(bytes: &[u8]) -> (s: &str)
    requires
        forall|i: int| 0 <= i < bytes@.len() ==> bytes@[i] < 0x80,
    ensures
        s@ == ascii_text(bytes@),
        s.len() == bytes.len(),
{
    let ghost text = ascii_text(bytes@);
    proof {
        assert(is_ascii_chars(text));
        is_ascii_chars_encode_utf8(text);
        assert(encode_utf8(text) =~= bytes@);
        encode_utf8_valid_utf8(text);
    }
    match from_utf8(bytes) {
        Ok(s) => {
            proof {
                lemma_bytes_determine_text(s@, text);
            }
            s
        },
        Err(_) => "",
    }
}

/// Number of bytes in the UTF-8 encoding of a code point.
pub fn len_utf8(code: u32) -> (len: usize)
    ensures
        1 <= len <= 4,
        len == 1 <==> code < 0x80,
        len == 2 <==> 0x80 <= code < 0x800,
        len == 3 <==> 0x800 <= code < 0x10000,
        len == 4 <==> 0x10000 <= code,
        is_scalar(code) ==> len == encode_scalar(code).len(),
{
    if code < MAX_ONE_B {
        1
    } else if code < MAX_TWO_B {
        2
    } else if code < MAX_THREE_B {
        3
    } else {
        4
    }
}

/// Encodes one Unicode scalar value as UTF-8 into `dst` and returns the
/// encoded character as a string slice over the bytes written.
pub fn encode_utf8_raw(code: u32, dst: &mut [u8; 4]) -> (s: &str)
    requires
        is_scalar(code),
    ensures
        s@ == seq![code as char],
        s.spec_bytes() == encode_scalar(code),
{
    let len = len_utf8(code);
    match len {
        1 => {
            dst[0] = code as u8;
            assert(code as u8 == leading_byte_width_1(code)) by (bit_vector)
                requires
                    code < 0x80,
            ;
        },
        2 => {
            dst[0] = (code >> 6 & 0x1F) as u8 | TAG_TWO_B;
            dst[1] = (code & 0x3F) as u8 | TAG_CONT;
            assert((code >> 6 & 0x1F) as u8 | 0b1100_0000u8 == leading_byte_width_2(code)) by (bit_vector);
            assert((code & 0x3F) as u8 | 0b1000_0000u8 == last_continuation_byte(code)) by (bit_vector);
        },
        3 => {
            dst[0] = (code >> 12 & 0x0F) as u8 | TAG_THREE_B;
            dst[1] = (code >> 6 & 0x3F) as u8 | TAG_CONT;
            dst[2] = (code & 0x3F) as u8 | TAG_CONT;
            assert((code >> 12 & 0x0F) as u8 | 0b1110_0000u8 == leading_byte_width_3(code)) by (bit_vector);
            assert((code >> 6 & 0x3F) as u8 | 0b1000_0000u8 == second_last_continuation_byte(code)) by (bit_vector);
            assert((code & 0x3F) as u8 | 0b1000_0000u8 == last_continuation_byte(code)) by (bit_vector);
        },
        _ => {
            dst[0] = (code >> 18 & 0x07) as u8 | TAG_FOUR_B;
            dst[1] = (code >> 12 & 0x3F) as u8 | TAG_CONT;
            dst[2] = (code >> 6 & 0x3F) as u8 | TAG_CONT;
            dst[3] = (code & 0x3F) as u8 | TAG_CONT;
            assert((code >> 18 & 0x07) as u8 | 0b1111_0000u8 == leading_byte_width_4(code)) by (bit_vector);
            assert((code >> 12 & 0x3F) as u8 | 0b1000_0000u8 == third_last_continuation_byte(code)) by (bit_vector);
            assert((code >> 6 & 0x3F) as u8 | 0b1000_0000u8 == second_last_continuation_byte(code)) by (bit_vector);
            assert((code & 0x3F) as u8 | 0b1000_0000u8 == last_continuation_byte(code)) by (bit_vector);
        },
    };
    let bytes = &dst[0..len];
    let ghost text = seq![code as char];
    proof {
        assert(bytes@ =~= encode_scalar(code));
        assert(text.drop_first() =~= Seq::<char>::empty());
        assert(encode_utf8(text.drop_first()) =~= Seq::<u8>::empty()) by {
            reveal_with_fuel(encode_utf8, 1);
        }
        assert(encode_utf8(text) =~= encode_scalar(code)) by {
            reveal_with_fuel(encode_utf8, 1);
        }
        encode_utf8_valid_utf8(text);
    }
    match from_utf8(bytes) {
        Ok(s) => {
            proof {
                lemma_bytes_determine_text(s@, text);
            }
            s
        },
        Err(_) => "",
    }
}

/// A destination for formatted text.
///
/// `written` is the sink's account of the text it has accepted so far, and
/// `refused` its account of the errors with which it has turned writes down.
/// A successful write appends the whole slice to the text and refuses
/// nothing; a failed write adds its error to the refusals, and what it leaves
/// of the text is up to the sink. A sink that defines neither leaves its
/// accounts open.
#[allow(non_camel_case_types)]
pub trait uWrite {
    /// The error associated to this writer.
    type Error;

    /// The text this writer has accepted so far.
    closed spec fn written(&self) -> Seq<char> {
        arbitrary()
    }

    /// The errors with which this writer has refused a write so far.
    closed spec fn refused(&self) -> Seq<Self::Error> {
        arbitrary()
    }

    /// Writes a string slice into this writer. The write succeeds only if the
    /// entire slice was written.
    fn write_str(&mut self, s: &str) -> (res: Result<(), Self::Error>)
        ensures
            res is Ok ==> final(self).written() == old(self).written() + s@,
            res is Ok ==> final(self).refused() == old(self).refused(),
            res matches Err(e) ==> final(self).refused() == old(self).refused().push(e)
                && final(self).refused().len() == old(self).refused().len() + 1,
    ;

    /// Writes a `char` into this writer, by encoding it as UTF-8 and writing
    /// the encoded bytes as one slice.
    fn write_char(&mut self, c: char) -> (res: Result<(), Self::Error>)
        ensures
            res is Ok ==> final(self).written() == old(self).written().push(c),
            res is Ok ==> final(self).refused() == old(self).refused(),
            res matches Err(e) ==> final(self).refused() == old(self).refused().push(e)
                && final(self).refused().len() == old(self).refused().len() + 1,
    {
        let mut buf: [u8; 4] = [0; 4];
        proof {
            char_is_scalar(c);
        }
        let encoded = encode_utf8_raw(c as u32, &mut buf);
        let res = self.write_str(encoded);
        proof {
            char_u32_cast(c, c as u32);
            assert(old(self).written() + seq![c] =~= old(self).written().push(c));
        }
        res
    }
}

impl uWrite for String {
    type Error = core::convert::Infallible;

    open spec fn written(&self) -> Seq<char> {
        self@
    }

    open spec fn refused(&self) -> Seq<core::convert::Infallible> {
        Seq::empty()
    }

    fn write_str(&mut self, s: &str) -> (res: Result<(), core::convert::Infallible>)
        ensures
            res is Ok,
    {
        self.append(s);
        Ok(())
    }
}

} // verus!
