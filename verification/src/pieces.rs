//! The format-string language: literal text with `{{` and `}}` for braces,
//! and the placeholders `{}`, `{:?}`, `{:#?}`, `{:x}`, `{:X}` and `{:.N}`
//! with their prefix, padding and width options.

use vstd::prelude::*;
use vstd::string::*;
use crate::ascii::{SPACE, ZERO};
use crate::digits::{decimal_text, digit_value, lemma_decimal_widths, number};
use crate::impls::uxx::u64 as encode_u64;

verus! {

/// One step of a format string: literal text, or how to format the next
/// argument.
#[derive(Debug, PartialEq)]
pub enum Piece {
    /// `{:?}` or, pretty, `{:#?}`.
    Debug { pretty: bool },
    /// `{}`.
    Display,
    /// Literal text, with escaped braces resolved.
    Str(String),
    /// `{:x}` or `{:X}`, with a `0x` prefix for `#` and padding to a width.
    Hex { upper_case: bool, pad_char: u8, pad_length: usize, prefix: bool },
    /// `{:.N}`, with space padding to a width.
    Float { decimal_places: usize, pad_length: usize },
}

/// What a piece stands for.
pub enum PieceView {
    Debug { pretty: bool },
    Display,
    Str(Seq<char>),
    Hex { upper_case: bool, pad_char: u8, pad_length: usize, prefix: bool },
    Float { decimal_places: usize, pad_length: usize },
}

impl View for Piece {
    type V = PieceView;

    open spec fn view(&self) -> PieceView {
        match self {
            Piece::Debug { pretty } => PieceView::Debug { pretty: *pretty },
            Piece::Display => PieceView::Display,
            Piece::Str(s) => PieceView::Str(s@),
            Piece::Hex { upper_case, pad_char, pad_length, prefix } => PieceView::Hex {
                upper_case: *upper_case,
                pad_char: *pad_char,
                pad_length: *pad_length,
                prefix: *prefix,
            },
            Piece::Float { decimal_places, pad_length } => PieceView::Float {
                decimal_places: *decimal_places,
                pad_length: *pad_length,
            },
        }
    }
}

impl Piece {
    /// Whether the piece is literal text, which takes no argument.
    pub fn is_str(&self) -> (res: bool)
        ensures
            res == (self@ is Str),
    {
        matches!(self, Piece::Str(_))
    }
}

/// Why a format string was refused.
#[derive(Debug, PartialEq, Eq, Clone, Copy)]
pub enum ParseError {
    /// A `}` that is not part of `}}` stands in literal text.
    UnmatchedRightBrace,
    /// A `{` is followed by something that is not a placeholder.
    InvalidFormatString,
}

/// The views of a sequence of pieces.
pub open spec fn piece_views(pieces: Seq<Piece>) -> Seq<PieceView> {
    pieces.map_values(|p: Piece| p@)
}

/// Literal text with every `}}` replaced by `}`; `None` if a `}` stands
/// alone.
pub open spec fn unescaped(s: Seq<char>) -> Option<Seq<char>>
    decreases s.len(),
{
    if s.len() == 0 {
        Some(Seq::empty())
    } else if s[0] != '}' {
        match unescaped(s.skip(1)) {
            Some(t) => Some(seq![s[0]] + t),
            None => None,
        }
    } else if s.len() >= 2 && s[1] == '}' {
        match unescaped(s.skip(2)) {
            Some(t) => Some(seq!['}'] + t),
            None => None,
        }
    } else {
        None
    }
}

/// The number of characters before the first `c` in `s`, all of them if
/// there is none.
pub open spec fn index_of(s: Seq<char>, c: char) -> int
    decreases s.len(),
{
    if s.len() == 0 || s[0] == c {
        0
    } else {
        1 + index_of(s.skip(1), c)
    }
}

/// Whether a character is one of `0` to `9`.
pub open spec fn is_digit(c: char) -> bool {
    '0' <= c <= '9'
}

/// The number of decimal digits that `s` starts with.
pub open spec fn digit_run(s: Seq<char>) -> int
    decreases s.len(),
{
    if s.len() == 0 || !is_digit(s[0]) {
        0
    } else {
        1 + digit_run(s.skip(1))
    }
}

/// The placeholder that follows `{:`, with the number of characters it takes
/// up to and including the closing `}`: an optional `#`, an optional `0`, a
/// width, one of `x`, `X` and `.`, a number of decimal places, and `}`.
/// `None` if `s` does not start this way, if a number does not fit the
/// machine word, or if `.` comes with `#`, with `0` or with more than six
/// places.
pub open spec fn colon_piece(s: Seq<char>) -> Option<(PieceView, int)> {
    let prefix = s.len() > 0 && s[0] == '#';
    let a: int = if prefix {
        1
    } else {
        0
    };
    let zero = s.len() > a && s[a] == '0';
    let b: int = if zero {
        a + 1
    } else {
        a
    };
    let c = b + digit_run(s.skip(b));
    let d = c + 1;
    let e = d + digit_run(s.skip(d));
    if b >= s.len() || e >= s.len() || s[e] != '}' {
        None
    } else {
        let pad_length = number(s.subrange(b, c), 10);
        let decimal_places = number(s.subrange(d, e), 10);
        let pad_char = if zero {
            ZERO
        } else {
            SPACE
        };
        if pad_length > usize::MAX || decimal_places > usize::MAX {
            None
        } else if s[c] == 'x' || s[c] == 'X' {
            Some(
                (
                    PieceView::Hex {
                        upper_case: s[c] == 'X',
                        pad_char,
                        pad_length: pad_length as usize,
                        prefix,
                    },
                    e + 1,
                ),
            )
        } else if s[c] == '.' && !zero && !prefix && decimal_places < 7 {
            Some(
                (
                    PieceView::Float {
                        decimal_places: decimal_places as usize,
                        pad_length: pad_length as usize,
                    },
                    e + 1,
                ),
            )
        } else {
            None
        }
    }
}

/// Literal text as pieces: none if it is empty.
pub open spec fn text_piece(text: Seq<char>) -> Seq<PieceView> {
    if text.len() == 0 {
        Seq::empty()
    } else {
        seq![PieceView::Str(text)]
    }
}

/// The pieces of the format string `s`, read after the literal text
/// `pending`, which is part of the first piece.
///
/// Up to the first `{` the string is literal text. A `{{` is a brace of the
/// text. A `{` before `}` or `:` starts a placeholder, which ends the text. A
/// `{` before anything else is an error, and so is a `}` in the text that is
/// not doubled.
#[verifier::opaque]
pub open spec fn pieces_after(s: Seq<char>, pending: Seq<char>) -> Result<
    Seq<PieceView>,
    ParseError,
>
    decreases s.len(),
{
    let i = index_of(s, '{');
    if !(0 <= i < s.len()) {
        match unescaped(s) {
            None => Err(ParseError::UnmatchedRightBrace),
            Some(text) => Ok(text_piece(pending + text)),
        }
    } else {
        let head = s.take(i);
        let tail = s.skip(i + 1);
        if tail.len() > 0 && tail[0] == '{' {
            match unescaped(head) {
                None => Err(ParseError::UnmatchedRightBrace),
                Some(text) => pieces_after(tail.skip(1), pending + text + seq!['{']),
            }
        } else if tail.len() > 0 && (tail[0] == '}' || tail[0] == ':') {
            match unescaped(head) {
                None => Err(ParseError::UnmatchedRightBrace),
                Some(text) => match placeholder(tail) {
                    None => Err(ParseError::InvalidFormatString),
                    Some((piece, used)) => if 0 < used <= tail.len() {
                        match pieces_after(tail.skip(used), Seq::empty()) {
                            Err(e) => Err(e),
                            Ok(rest) => Ok(text_piece(pending + text) + seq![piece] + rest),
                        }
                    } else {
                        Err(ParseError::InvalidFormatString)
                    },
                },
            }
        } else {
            Err(ParseError::InvalidFormatString)
        }
    }
}

/// The placeholder that follows a `{`, with the number of characters it
/// takes up to and including the closing `}`.
pub open spec fn placeholder(tail: Seq<char>) -> Option<(PieceView, int)> {
    if tail.len() >= 3 && tail.take(3) == seq![':', '?', '}'] {
        Some((PieceView::Debug { pretty: false }, 3))
    } else if tail.len() >= 4 && tail.take(4) == seq![':', '#', '?', '}'] {
        Some((PieceView::Debug { pretty: true }, 4))
    } else if tail.len() >= 1 && tail[0] == ':' {
        match colon_piece(tail.skip(1)) {
            Some((piece, used)) => Some((piece, used + 1)),
            None => None,
        }
    } else if tail.len() >= 1 && tail[0] == '}' {
        Some((PieceView::Display, 1))
    } else {
        None
    }
}

/// The pieces of a format string.
pub open spec fn pieces_of(s: Seq<char>) -> Result<Seq<PieceView>, ParseError> {
    pieces_after(s, Seq::empty())
}

/// `prefix` before the pieces that `rest` gives, if it gives any.
pub open spec fn joined(prefix: Seq<PieceView>, rest: Result<Seq<PieceView>, ParseError>) -> Result<
    Seq<PieceView>,
    ParseError,
> {
    match rest {
        Ok(pieces) => Ok(prefix + pieces),
        Err(e) => Err(e),
    }
}

/// `prefix` before what `rest` unescapes to, if it can be unescaped.
pub open spec fn prepended(prefix: Seq<char>, rest: Option<Seq<char>>) -> Option<Seq<char>> {
    match rest {
        Some(text) => Some(prefix + text),
        None => None,
    }
}

/// Where the first `c` stands, given that it does not stand before `k`.
pub proof fn lemma_index_of(s: Seq<char>, c: char, k: int)
    requires
        0 <= k <= s.len(),
        forall|j: int| 0 <= j < k ==> s[j] != c,
        k == s.len() || s[k] == c,
    ensures
        index_of(s, c) == k,
    decreases k,
{
    if k > 0 {
        lemma_index_of(s.skip(1), c, k - 1);
    }
}

/// Where a run of digits ends, given that it does not end before `k`.
pub proof fn lemma_digit_run(s: Seq<char>, k: int)
    requires
        0 <= k <= s.len(),
        forall|j: int| 0 <= j < k ==> is_digit(s[j]),
        k == s.len() || !is_digit(s[k]),
    ensures
        digit_run(s) == k,
    decreases k,
{
    if k > 0 {
        lemma_digit_run(s.skip(1), k - 1);
    }
}

/// A run of digits has a length.
pub proof fn lemma_digit_run_bound(s: Seq<char>)
    ensures
        0 <= digit_run(s),
    decreases s.len(),
{
    if s.len() != 0 && is_digit(s[0]) {
        lemma_digit_run_bound(s.skip(1));
    }
}

/// How a format string without a `{` is read.
pub proof fn lemma_pieces_end(s: Seq<char>, pending: Seq<char>)
    requires
        index_of(s, '{') == s.len(),
    ensures
        pieces_after(s, pending) == match unescaped(s) {
            None => Err::<Seq<PieceView>, ParseError>(ParseError::UnmatchedRightBrace),
            Some(text) => Ok(text_piece(pending + text)),
        },
{
    reveal(pieces_after);
}

/// How a format string is read up to an escaped brace.
pub proof fn lemma_pieces_brace(s: Seq<char>, pending: Seq<char>, i: int)
    requires
        index_of(s, '{') == i,
        0 <= i,
        i + 1 < s.len(),
        s[i + 1] == '{',
    ensures
        pieces_after(s, pending) == match unescaped(s.take(i)) {
            None => Err::<Seq<PieceView>, ParseError>(ParseError::UnmatchedRightBrace),
            Some(text) => pieces_after(s.skip(i + 2), pending + text + seq!['{']),
        },
{
    reveal(pieces_after);
    assert(s.skip(i + 1).skip(1) =~= s.skip(i + 2));
}

/// How a format string is read up to a placeholder.
pub proof fn lemma_pieces_placeholder(s: Seq<char>, pending: Seq<char>, i: int)
    requires
        index_of(s, '{') == i,
        0 <= i,
        i + 1 < s.len(),
        s[i + 1] == '}' || s[i + 1] == ':',
    ensures
        pieces_after(s, pending) == match unescaped(s.take(i)) {
            None => Err::<Seq<PieceView>, ParseError>(ParseError::UnmatchedRightBrace),
            Some(text) => match placeholder(s.skip(i + 1)) {
                None => Err(ParseError::InvalidFormatString),
                Some((piece, used)) => if 0 < used <= s.len() - (i + 1) {
                    joined(
                        text_piece(pending + text) + seq![piece],
                        pieces_after(s.skip(i + 1 + used), Seq::empty()),
                    )
                } else {
                    Err(ParseError::InvalidFormatString)
                },
            },
        },
{
    reveal(pieces_after);
    match placeholder(s.skip(i + 1)) {
        Some((piece, used)) => {
            if 0 < used <= s.len() - (i + 1) {
                assert(s.skip(i + 1).skip(used) =~= s.skip(i + 1 + used));
            }
        },
        None => {},
    }
}

/// How a format string is read when a `{` starts nothing.
pub proof fn lemma_pieces_invalid(s: Seq<char>, pending: Seq<char>, i: int)
    requires
        index_of(s, '{') == i,
        0 <= i < s.len(),
        i + 1 == s.len() || (s[i + 1] != '{' && s[i + 1] != '}' && s[i + 1] != ':'),
    ensures
        pieces_after(s, pending) == Err::<Seq<PieceView>, ParseError>(
            ParseError::InvalidFormatString,
        ),
{
    reveal(pieces_after);
}

/// Text without a `}` in its first `k` characters keeps them as they are.
pub proof fn lemma_unescaped_plain(s: Seq<char>, k: int)
    requires
        0 <= k <= s.len(),
        forall|j: int| 0 <= j < k ==> s[j] != '}',
    ensures
        unescaped(s) == prepended(s.take(k), unescaped(s.skip(k))),
    decreases k,
{
    if k == 0 {
        assert(s.skip(0) =~= s);
        assert(s.take(0) =~= Seq::<char>::empty());
        match unescaped(s) {
            Some(t) => {
                assert(Seq::<char>::empty() + t =~= t);
            },
            None => {},
        }
    } else {
        lemma_unescaped_plain(s.skip(1), k - 1);
        assert(s.skip(1).skip(k - 1) =~= s.skip(k));
        match unescaped(s.skip(k)) {
            Some(t) => {
                assert(seq![s[0]] + (s.skip(1).take(k - 1) + t) =~= s.take(k) + t);
            },
            None => {},
        }
    }
}

/// The index of the first `c` of `s` at or after `from`, `n` if there is
/// none.
fn find(s: &str, n: usize, from: usize, c: char) -> (i: usize)
    requires
        n == s@.len(),
        from <= n,
    ensures
        from <= i <= n,
        i - from == index_of(s@.skip(from as int), c),
{
    let mut i = from;
    while i < n && s.get_char(i) != c
        invariant
            from <= i <= n,
            n == s@.len(),
            forall|j: int| from <= j < i ==> s@[j] != c,
        decreases n - i,
    {
        i += 1;
    }
    proof {
        lemma_index_of(s@.skip(from as int), c, i - from);
    }
    i
}

/// Reads a run of decimal digits that starts at `from`: where it ends, and
/// the number it denotes if that fits the machine word.
fn read_number(s: &str, n: usize, from: usize) -> (res: (usize, Option<usize>))
    requires
        n == s@.len(),
        from <= n,
    ensures
        from <= res.0 <= n,
        res.0 - from == digit_run(s@.skip(from as int)),
        match res.1 {
            Some(v) => v == number(s@.subrange(from as int, res.0 as int), 10),
            None => number(s@.subrange(from as int, res.0 as int), 10) > usize::MAX,
        },
{
    let mut i = from;
    let mut value: Option<usize> = Some(0);
    assert(s@.subrange(from as int, from as int) =~= Seq::<char>::empty());
    while i < n && is_ascii_digit(s.get_char(i))
        invariant
            from <= i <= n,
            n == s@.len(),
            forall|j: int| from <= j < i ==> is_digit(s@[j]),
            match value {
                Some(v) => v == number(s@.subrange(from as int, i as int), 10),
                None => number(s@.subrange(from as int, i as int), 10) > usize::MAX,
            },
        decreases n - i,
    {
        let digit = (s.get_char(i) as u32 - 0x30) as usize;
        proof {
            let run = s@.subrange(from as int, i + 1);
            assert(run.drop_last() =~= s@.subrange(from as int, i as int));
            assert(run.last() == s@[i as int]);
            assert(digit == digit_value(s@[i as int]));
        }
        value = match value {
            Some(v) => match v.checked_mul(10) {
                Some(w) => w.checked_add(digit),
                None => None,
            },
            None => None,
        };
        i += 1;
    }
    proof {
        lemma_digit_run(s@.skip(from as int), i - from);
    }
    (i, value)
}

/// Whether a character is one of `0` to `9`.
fn is_ascii_digit(c: char) -> (res: bool)
    ensures
        res == is_digit(c),
{
    let code = c as u32;
    0x30 <= code && code <= 0x39
}

/// Appends to `buf` the characters of `literal` from `from` to `to`, with
/// every `}}` replaced by `}`.
fn unescape_into(literal: &str, n: usize, from: usize, to: usize, buf: &mut String) -> (res: Result<
    (),
    ParseError,
>)
    requires
        n == literal@.len(),
        from <= to <= n,
    ensures
        match unescaped(literal@.subrange(from as int, to as int)) {
            Some(text) => res is Ok && final(buf)@ == old(buf)@ + text,
            None => res matches Err(e) && e == ParseError::UnmatchedRightBrace,
        },
{
    let ghost whole = literal@.subrange(from as int, to as int);
    let ghost mut done = Seq::<char>::empty();
    let mut start = from;
    let mut i = from;
    proof {
        assert(old(buf)@ + done =~= old(buf)@);
        assert(literal@.subrange(from as int, from as int) =~= Seq::<char>::empty());
        assert(done + Seq::<char>::empty() =~= done);
        match unescaped(whole) {
            Some(t) => {
                assert(Seq::<char>::empty() + t =~= t);
            },
            None => {},
        }
    }
    while i < to
        invariant
            from <= start <= i <= to <= n,
            n == literal@.len(),
            whole == literal@.subrange(from as int, to as int),
            buf@ == old(buf)@ + done,
            forall|j: int| start <= j < i ==> literal@[j] != '}',
            unescaped(whole) == prepended(
                done,
                unescaped(literal@.subrange(start as int, to as int)),
            ),
        decreases to - i,
    {
        if literal.get_char(i) == '}' {
            let ghost rest = literal@.subrange(start as int, to as int);
            let ghost at = rest.skip(i - start);
            proof {
                lemma_unescaped_plain(rest, i - start);
                assert(at =~= literal@.subrange(i as int, to as int));
                assert(rest.take(i - start) =~= literal@.subrange(start as int, i as int));
            }
            if i + 1 < to && literal.get_char(i + 1) == '}' {
                buf.append(literal.substring_char(start, i));
                buf.append("}");
                proof {
                    reveal_strlit("}");
                    let run = literal@.subrange(start as int, i as int);
                    let after = literal@.subrange(i + 2, to as int);
                    assert(at.skip(2) =~= after);
                    assert("}"@ =~= seq!['}']);
                    let next = done + run + seq!['}'];
                    assert(buf@ =~= old(buf)@ + next);
                    match unescaped(after) {
                        Some(t) => {
                            assert(done + (run + (seq!['}'] + t)) =~= next + t);
                        },
                        None => {},
                    }
                    done = next;
                }
                i += 2;
                start = i;
            } else {
                return Err(ParseError::UnmatchedRightBrace);
            }
        } else {
            i += 1;
        }
    }
    buf.append(literal.substring_char(start, to));
    proof {
        let rest = literal@.subrange(start as int, to as int);
        lemma_unescaped_plain(rest, to - start);
        assert(rest.take(to - start) =~= rest);
        assert(rest.skip(to - start) =~= Seq::<char>::empty());
        assert(rest + Seq::<char>::empty() =~= rest);
        assert(old(buf)@ + done + rest =~= old(buf)@ + (done + rest));
    }
    Ok(())
}

/// Replaces every `}}` of literal text by `}`. A `}` that stands alone is an
/// error.
pub fn unescape(literal: &str) -> (res: Result<String, ParseError>)
    ensures
        match unescaped(literal@) {
            Some(text) => res matches Ok(s) && s@ == text,
            None => res matches Err(e) && e == ParseError::UnmatchedRightBrace,
        },
{
    let n = literal.unicode_len();
    let mut buf = String::new();
    proof {
        assert(literal@.subrange(0, n as int) =~= literal@);
    }
    match unescape_into(literal, n, 0, n, &mut buf) {
        Ok(()) => {
            proof {
                assert(Seq::<char>::empty() + unescaped(literal@)->0 =~= unescaped(literal@)->0);
            }
            Ok(buf)
        },
        Err(e) => Err(e),
    }
}

/// Parses what follows a `{:` into a piece and the rest of the string, which
/// is what comes after the closing `}`.
pub fn parse_colon(format: &str) -> (res: Result<(Piece, &str), ParseError>)
    ensures
        match colon_piece(format@) {
            Some((piece, used)) => res matches Ok((p, rest)) && p@ == piece && rest@
                == format@.skip(used) && 0 < used <= format@.len(),
            None => res matches Err(e) && e == ParseError::InvalidFormatString,
        },
{
    let n = format.unicode_len();
    let mut at: usize = 0;
    let prefix = n > 0 && format.get_char(0) == '#';
    if prefix {
        at = 1;
    }
    let zero = n > at && format.get_char(at) == '0';
    if zero {
        at += 1;
    }
    if at >= n {
        return Err(ParseError::InvalidFormatString);
    }
    let pad_char = if zero {
        ZERO
    } else {
        SPACE
    };
    let ghost b = at as int;

    let (width_end, width) = read_number(format, n, at);
    proof {
        lemma_digit_run_bound(format@.skip(width_end + 1));
    }
    if width_end >= n {
        return Err(ParseError::InvalidFormatString);
    }
    let cmd = format.get_char(width_end);

    let (places_end, places) = read_number(format, n, width_end + 1);
    if places_end >= n || format.get_char(places_end) != '}' {
        return Err(ParseError::InvalidFormatString);
    }
    let pad_length = match width {
        Some(v) => v,
        None => {
            return Err(ParseError::InvalidFormatString);
        },
    };
    let decimal_places = match places {
        Some(v) => v,
        None => {
            return Err(ParseError::InvalidFormatString);
        },
    };
    let rest = format.substring_char(places_end + 1, n);
    proof {
        assert(rest@ =~= format@.skip(places_end + 1));
    }
    if cmd == 'x' {
        Ok((Piece::Hex { upper_case: false, pad_char, pad_length, prefix }, rest))
    } else if cmd == 'X' {
        Ok((Piece::Hex { upper_case: true, pad_char, pad_length, prefix }, rest))
    } else if cmd == '.' {
        if pad_char == SPACE && prefix == false && decimal_places < 7 {
            Ok((Piece::Float { decimal_places, pad_length }, rest))
        } else {
            Err(ParseError::InvalidFormatString)
        }
    } else {
        Err(ParseError::InvalidFormatString)
    }
}

/// Parses the placeholder that follows a `{`: the piece, and how many
/// characters it takes up to and including the closing `}`.
fn parse_placeholder(s: &str, n: usize, at: usize) -> (res: Result<(Piece, usize), ParseError>)
    requires
        n == s@.len(),
        at < n,
        s@[at as int] == '}' || s@[at as int] == ':',
    ensures
        match placeholder(s@.skip(at as int)) {
            Some((piece, used)) => res matches Ok((p, u)) && p@ == piece && u == used && 0 < u
                <= n - at,
            None => res matches Err(e) && e == ParseError::InvalidFormatString,
        },
{
    let ghost tail = s@.skip(at as int);
    let c = s.get_char(at);
    assert(tail[0] == c);
    if c == '}' {
        proof {
            if tail.len() >= 3 && tail.take(3) == seq![':', '?', '}'] {
                assert(tail.take(3)[0] == tail[0]);
            }
            if tail.len() >= 4 && tail.take(4) == seq![':', '#', '?', '}'] {
                assert(tail.take(4)[0] == tail[0]);
            }
        }
        Ok((Piece::Display, 1))
    } else if n - at > 2 && s.get_char(at + 1) == '?' && s.get_char(at + 2) == '}' {
        proof {
            assert(tail.take(3) =~= seq![':', '?', '}']);
        }
        Ok((Piece::Debug { pretty: false }, 3))
    } else if n - at > 3 && s.get_char(at + 1) == '#' && s.get_char(at + 2) == '?' && s.get_char(
        at + 3,
    ) == '}' {
        proof {
            assert(tail.take(4) =~= seq![':', '#', '?', '}']);
            if tail.len() >= 3 && tail.take(3) == seq![':', '?', '}'] {
                assert(tail.take(3)[1] == tail[1]);
            }
        }
        Ok((Piece::Debug { pretty: true }, 4))
    } else {
        proof {
            if tail.len() >= 3 && tail.take(3) == seq![':', '?', '}'] {
                assert(tail.take(3)[1] == tail[1]);
                assert(tail.take(3)[2] == tail[2]);
            }
            if tail.len() >= 4 && tail.take(4) == seq![':', '#', '?', '}'] {
                assert(tail.take(4)[1] == tail[1]);
                assert(tail.take(4)[2] == tail[2]);
                assert(tail.take(4)[3] == tail[3]);
            }
        }
        let after = s.substring_char(at + 1, n);
        proof {
            assert(after@ =~= tail.skip(1));
        }
        match parse_colon(after) {
            Ok((piece, remainder)) => {
                let left = remainder.unicode_len();
                Ok((piece, n - at - left))
            },
            Err(e) => Err(e),
        }
    }
}

/// Moves the pending literal text, if there is any, to the pieces.
fn flush(pieces: &mut Vec<Piece>, buf: String)
    ensures
        piece_views(final(pieces)@) == piece_views(old(pieces)@) + text_piece(buf@),
{
    if !buf.as_str().is_empty() {
        pieces.push(Piece::Str(buf));
    }
    assert(piece_views(pieces@) =~= piece_views(old(pieces)@) + text_piece(buf@));
}

/// Parses a format string into its pieces.
pub fn parse(literal: &str) -> (res: Result<Vec<Piece>, ParseError>)
    ensures
        match pieces_of(literal@) {
            Ok(pieces) => res matches Ok(v) && piece_views(v@) == pieces,
            Err(e) => res matches Err(f) && f == e,
        },
{
    let mut pieces: Vec<Piece> = Vec::new();
    let mut buf = String::new();
    let mut rest = literal;
    proof {
        assert(piece_views(pieces@) =~= Seq::<PieceView>::empty());
        match pieces_after(rest@, buf@) {
            Ok(ps) => {
                assert(Seq::<PieceView>::empty() + ps =~= ps);
            },
            Err(_) => {},
        }
    }
    loop
        invariant
            pieces_of(literal@) == joined(piece_views(pieces@), pieces_after(rest@, buf@)),
        decreases rest@.len(),
    {
        let n = rest.unicode_len();
        let ghost pending = buf@;
        let ghost before = piece_views(pieces@);
        let i = find(rest, n, 0, '{');
        proof {
            assert(rest@.skip(0) =~= rest@);
            assert(rest@.subrange(0, i as int) =~= rest@.take(i as int));
            assert(rest@.subrange(0, n as int) =~= rest@);
        }
        if i >= n {
            // end of the string literal
            proof {
                lemma_pieces_end(rest@, pending);
            }
            match unescape_into(rest, n, 0, n, &mut buf) {
                Ok(()) => {},
                Err(e) => {
                    return Err(e);
                },
            }
            flush(&mut pieces, buf);
            return Ok(pieces);
        }
        if n - i <= 1 {
            proof {
                lemma_pieces_invalid(rest@, pending, i as int);
            }
            return Err(ParseError::InvalidFormatString);
        }
        let c = rest.get_char(i + 1);
        if c == '{' {
            // an escaped brace
            proof {
                lemma_pieces_brace(rest@, pending, i as int);
            }
            match unescape_into(rest, n, 0, i, &mut buf) {
                Ok(()) => {},
                Err(e) => {
                    return Err(e);
                },
            }
            buf.append("{");
            proof {
                reveal_strlit("{");
                assert("{"@ =~= seq!['{']);
            }
            let ghost next = rest@.skip(i + 2);
            rest = rest.substring_char(i + 2, n);
            proof {
                assert(rest@ =~= next);
            }
        } else if c == '}' || c == ':' {
            proof {
                lemma_pieces_placeholder(rest@, pending, i as int);
            }
            match unescape_into(rest, n, 0, i, &mut buf) {
                Ok(()) => {},
                Err(e) => {
                    return Err(e);
                },
            }
            flush(&mut pieces, buf);
            buf = String::new();
            let ghost lit = piece_views(pieces@);
            match parse_placeholder(rest, n, i + 1) {
                Ok((piece, used)) => {
                    let ghost view = piece@;
                    pieces.push(piece);
                    let ghost next = rest@.skip(i + 1 + used);
                    proof {
                        assert(piece_views(pieces@) =~= lit + seq![view]);
                        match pieces_after(next, Seq::empty()) {
                            Ok(more) => {
                                assert(before + (text_piece(buf_text(pending, rest@, i as int))
                                    + seq![view] + more) =~= piece_views(pieces@) + more);
                            },
                            Err(_) => {},
                        }
                    }
                    rest = rest.substring_char(i + 1 + used, n);
                    proof {
                        assert(rest@ =~= next);
                    }
                },
                Err(e) => {
                    return Err(e);
                },
            }
        } else {
            proof {
                lemma_pieces_invalid(rest@, pending, i as int);
            }
            return Err(ParseError::InvalidFormatString);
        }
    }
}

/// The literal text that is pending once the characters of `s` before `i`
/// have been unescaped after it.
pub open spec fn buf_text(pending: Seq<char>, s: Seq<char>, i: int) -> Seq<char> {
    pending + unescaped(s.take(i))->0
}

/// Why the arguments supplied with a format string were refused.
#[derive(Debug, PartialEq, Eq, Clone, Copy)]
pub enum ArgumentError {
    /// The format string has more placeholders than arguments were supplied.
    Missing { required: usize, supplied: usize },
    /// More arguments were supplied than the format string has placeholders;
    /// `index` is the first argument that no placeholder uses.
    NeverUsed { index: usize },
}

/// How many arguments a sequence of pieces takes: one for each piece that is
/// not literal text.
pub open spec fn arguments_required(pieces: Seq<PieceView>) -> nat
    decreases pieces.len(),
{
    if pieces.len() == 0 {
        0
    } else if pieces.last() is Str {
        arguments_required(pieces.drop_last())
    } else {
        arguments_required(pieces.drop_last()) + 1
    }
}

/// No more arguments are taken than there are pieces.
pub proof fn lemma_arguments_bound(pieces: Seq<PieceView>)
    ensures
        arguments_required(pieces) <= pieces.len(),
    decreases pieces.len(),
{
    if pieces.len() > 0 {
        lemma_arguments_bound(pieces.drop_last());
    }
}

/// Counts the arguments that the pieces take.
pub fn required_args(pieces: &Vec<Piece>) -> (required: usize)
    ensures
        required == arguments_required(piece_views(pieces@)),
{
    let mut required: usize = 0;
    let mut i: usize = 0;
    let ghost views = piece_views(pieces@);
    assert(views.take(0) =~= Seq::<PieceView>::empty());
    while i < pieces.len()
        invariant
            i <= pieces@.len(),
            views == piece_views(pieces@),
            required == arguments_required(views.take(i as int)),
        decreases pieces@.len() - i,
    {
        proof {
            lemma_arguments_bound(views.take(i as int));
            assert(views.take(i + 1).drop_last() =~= views.take(i as int));
            assert(views.take(i + 1).last() == pieces@[i as int]@);
        }
        if !pieces[i].is_str() {
            required += 1;
        }
        i += 1;
    }
    assert(views.take(i as int) =~= views);
    required
}

/// Holds the number of supplied arguments against the pieces: each
/// placeholder takes exactly one argument, in order.
pub fn check_args(pieces: &Vec<Piece>, supplied_args: usize) -> (res: Result<(), ArgumentError>)
    ensures
        ({
            let required = arguments_required(piece_views(pieces@));
            if supplied_args < required {
                res matches Err(e) && e == (ArgumentError::Missing {
                    required: required as usize,
                    supplied: supplied_args,
                })
            } else if supplied_args > required {
                res matches Err(e) && e == (ArgumentError::NeverUsed { index: required as usize })
            } else {
                res is Ok
            }
        }),
{
    let required_args = required_args(pieces);
    if supplied_args < required_args {
        Err(ArgumentError::Missing { required: required_args, supplied: supplied_args })
    } else if supplied_args > required_args {
        Err(ArgumentError::NeverUsed { index: required_args })
    } else {
        Ok(())
    }
}

impl ParseError {
    /// What the error says.
    pub open spec fn message_text(&self) -> Seq<char> {
        match self {
            ParseError::UnmatchedRightBrace => "format string contains an unmatched right brace"@,
            ParseError::InvalidFormatString => "invalid format string: expected `{{`, `{}`, `{:?}`, `{:#?}`, '{:x}' or '{:.<0..6>}'"@,
        }
    }

    /// What the error says.
    pub fn message(&self) -> (text: &'static str)
        ensures
            text@ == self.message_text(),
    {
        match self {
            ParseError::UnmatchedRightBrace => "format string contains an unmatched right brace",
            ParseError::InvalidFormatString => "invalid format string: expected `{{`, `{}`, `{:?}`, `{:#?}`, '{:x}' or '{:.<0..6>}'",
        }
    }
}

impl ArgumentError {
    /// What the error says.
    pub open spec fn message_text(&self) -> Seq<char> {
        match self {
            ArgumentError::Missing { required, supplied } => "format string requires "@
                + decimal_text(*required as int) + " arguments but "@ + decimal_text(
                *supplied as int,
            ) + (if *supplied == 1 {
                " was"@
            } else {
                " were"@
            }) + " supplied"@,
            ArgumentError::NeverUsed { index } => "argument never used"@,
        }
    }

    /// What the error says.
    pub fn message(&self) -> (text: String)
        ensures
            text@ == self.message_text(),
    {
        match self {
            ArgumentError::Missing { required, supplied } => {
                let mut text = String::from_str("format string requires ");
                let mut buf = [0u8; 20];
                proof {
                    lemma_decimal_widths(*required as nat);
                    lemma_decimal_widths(*supplied as nat);
                }
                text.append(encode_u64(*required as u64, &mut buf));
                text.append(" arguments but ");
                let mut buf = [0u8; 20];
                text.append(encode_u64(*supplied as u64, &mut buf));
                text.append(
                    if *supplied == 1 {
                        " was"
                    } else {
                        " were"
                    },
                );
                text.append(" supplied");
                text
            },
            ArgumentError::NeverUsed { index } => String::from_str("argument never used"),
        }
    }
}

} // verus!
