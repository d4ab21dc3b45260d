//! What holds of every rendering.

use vstd::prelude::*;
use crate::digits::{
    decimal_text, decimal_value, digit_char, digits, lemma_decimal_widths, lemma_digit_value,
    lemma_digits_len_lower, lemma_digits_shape, lemma_digits_step, lemma_number_of_digits, number,
    power,
};
use crate::impls::float::{fixed_text, lemma_fraction_len};
use crate::formatter::{indent_text, Formatter};
use crate::helpers::{lemma_items_push, struct_opener, struct_text, tuple_opener, tuple_text};
use crate::write::uWrite;
use crate::{uDebug, uDisplay, uDisplayHex};

verus! {

/// Reading back the decimal rendering of an integer gives the integer, for
/// every integer: so for every value of every integer type, the least of
/// each signed type among them.
pub proof fn law_decimal_round_trip(n: int)
    ensures
        decimal_value(decimal_text(n)) == n,
{
    let magnitude: nat = if n < 0 {
        (-n) as nat
    } else {
        n as nat
    };
    lemma_number_of_digits(magnitude, 10, false);
    lemma_digits_shape(magnitude, 10, false);
    let d = choose|d: nat| d < 10 && digits(magnitude, 10, false)[0] == digit_char(d, false);
    lemma_digit_value(d, false);
    if n < 0 {
        let text = decimal_text(n);
        assert(text.subrange(1, text.len() as int) =~= digits(magnitude, 10, false));
    }
}

/// The decimal rendering of an unsigned number consists of digits only, and
/// starts with a `0` only if the number is zero, which is rendered as `0`.
pub proof fn law_decimal_shape(n: nat)
    ensures
        decimal_text(n as int).len() >= 1,
        forall|i: int|
            0 <= i < decimal_text(n as int).len() ==> '0' <= #[trigger] decimal_text(
                n as int,
            )[i] <= '9',
        decimal_text(n as int)[0] == '0' <==> n == 0,
        n == 0 ==> decimal_text(n as int) == seq!['0'],
{
    lemma_digits_shape(n, 10, false);
    lemma_digits_step(n, 10, false);
    let text = digits(n, 10, false);
    assert forall|i: int| 0 <= i < text.len() implies '0' <= #[trigger] text[i] <= '9' by {
        let d = choose|d: nat| d < 10 && text[i] == digit_char(d, false);
        lemma_digit_value(d, false);
    }
}

/// A signed number is rendered as its magnitude, after a `-` if it is
/// negative; no `+` is ever written.
pub proof fn law_decimal_sign(n: int)
    ensures
        n < 0 ==> decimal_text(n) == seq!['-'] + decimal_text(-n),
        n >= 0 ==> decimal_text(n)[0] != '-' && decimal_text(n)[0] != '+',
{
    if n >= 0 {
        lemma_digits_shape(n as nat, 10, false);
        let d = choose|d: nat| d < 10 && digits(n as nat, 10, false)[0] == digit_char(d, false);
        lemma_digit_value(d, false);
    }
}

/// The widths for which the encoders make room: no decimal rendering of a
/// value of a type is longer than the buffer of the type.
pub proof fn law_decimal_widths(
    a: u8,
    b: u16,
    c: u32,
    d: u64,
    e: u128,
    f: usize,
    g: i8,
    h: i16,
    i: i32,
    j: i64,
    k: i128,
    l: isize,
)
    ensures
        a.display_text().len() <= 3,
        b.display_text().len() <= 5,
        c.display_text().len() <= 10,
        d.display_text().len() <= 20,
        e.display_text().len() <= 39,
        f.display_text().len() <= 20,
        g.display_text().len() <= 4,
        h.display_text().len() <= 6,
        i.display_text().len() <= 11,
        j.display_text().len() <= 20,
        k.display_text().len() <= 40,
        l.display_text().len() <= 20,
{
    lemma_decimal_widths(a as nat);
    lemma_decimal_widths(b as nat);
    lemma_decimal_widths(c as nat);
    lemma_decimal_widths(d as nat);
    lemma_decimal_widths(e as nat);
    lemma_decimal_widths(f as nat);
    lemma_decimal_widths(magnitude(g as int));
    lemma_decimal_widths(magnitude(h as int));
    lemma_decimal_widths(magnitude(i as int));
    lemma_decimal_widths(magnitude(j as int));
    lemma_decimal_widths(magnitude(k as int));
    lemma_decimal_widths(magnitude(l as int));
}

/// The buffers are no larger than they must be: the widest value of each
/// type fills the buffer of the type.
pub proof fn law_decimal_widths_reached()
    ensures
        u8::MAX.display_text().len() == 3,
        u16::MAX.display_text().len() == 5,
        u32::MAX.display_text().len() == 10,
        u64::MAX.display_text().len() == 20,
        u128::MAX.display_text().len() == 39,
        i8::MIN.display_text().len() == 4,
        i16::MIN.display_text().len() == 6,
        i32::MIN.display_text().len() == 11,
        i64::MIN.display_text().len() == 20,
        i128::MIN.display_text().len() == 40,
{
    law_decimal_widths(
        u8::MAX,
        u16::MAX,
        u32::MAX,
        u64::MAX,
        u128::MAX,
        0,
        i8::MIN,
        i16::MIN,
        i32::MIN,
        i64::MIN,
        i128::MIN,
        0,
    );
    reveal_with_fuel(power, 40);
    lemma_digits_len_lower(u8::MAX as nat, 10, false, 2);
    lemma_digits_len_lower(u16::MAX as nat, 10, false, 4);
    lemma_digits_len_lower(u32::MAX as nat, 10, false, 9);
    lemma_digits_len_lower(u64::MAX as nat, 10, false, 19);
    lemma_digits_len_lower(u128::MAX as nat, 10, false, 38);
    lemma_digits_len_lower(magnitude(i8::MIN as int), 10, false, 2);
    lemma_digits_len_lower(magnitude(i16::MIN as int), 10, false, 4);
    lemma_digits_len_lower(magnitude(i32::MIN as int), 10, false, 9);
    lemma_digits_len_lower(magnitude(i64::MIN as int), 10, false, 18);
    lemma_digits_len_lower(magnitude(i128::MIN as int), 10, false, 38);
}

/// The magnitude of an integer.
pub open spec fn magnitude(n: int) -> nat {
    if n < 0 {
        (-n) as nat
    } else {
        n as nat
    }
}

/// A fixed-precision rendering of up to six decimal places fits the 18
/// bytes that are set aside for it: a sign, ten digits, a point and six
/// digits.
pub proof fn law_fixed_width(left: u32, right: u32, places: nat, is_neg: bool)
    requires
        places <= 6,
    ensures
        1 <= fixed_text(left as nat, right as nat, places, is_neg).len() <= 18,
{
    lemma_decimal_widths(left as nat);
    lemma_fraction_len(right as nat, places);
}

/// What the unsigned integer types display as round-trips.
pub proof fn law_unsigned_display_round_trip(a: u8, b: u16, c: u32, d: u64, e: u128, f: usize)
    ensures
        decimal_value(a.display_text()) == a,
        decimal_value(b.display_text()) == b,
        decimal_value(c.display_text()) == c,
        decimal_value(d.display_text()) == d,
        decimal_value(e.display_text()) == e,
        decimal_value(f.display_text()) == f,
{
    law_decimal_round_trip(a as int);
    law_decimal_round_trip(b as int);
    law_decimal_round_trip(c as int);
    law_decimal_round_trip(d as int);
    law_decimal_round_trip(e as int);
    law_decimal_round_trip(f as int);
}

/// What the signed integer types display as round-trips.
pub proof fn law_signed_display_round_trip(a: i8, b: i16, c: i32, d: i64, e: i128, f: isize)
    ensures
        decimal_value(a.display_text()) == a,
        decimal_value(b.display_text()) == b,
        decimal_value(c.display_text()) == c,
        decimal_value(d.display_text()) == d,
        decimal_value(e.display_text()) == e,
        decimal_value(f.display_text()) == f,
{
    law_decimal_round_trip(a as int);
    law_decimal_round_trip(b as int);
    law_decimal_round_trip(c as int);
    law_decimal_round_trip(d as int);
    law_decimal_round_trip(e as int);
    law_decimal_round_trip(f as int);
}

/// The hexadecimal digits of a number never hold a sign, and reading them
/// back gives the number.
pub proof fn law_hex_digits(n: nat, upper_case: bool)
    ensures
        number(digits(n, 16, upper_case), 16) == n,
        forall|i: int|
            0 <= i < digits(n, 16, upper_case).len() ==> #[trigger] digits(n, 16, upper_case)[i]
                != '-',
{
    lemma_number_of_digits(n, 16, upper_case);
    lemma_digits_shape(n, 16, upper_case);
    let text = digits(n, 16, upper_case);
    assert forall|i: int| 0 <= i < text.len() implies #[trigger] text[i] != '-' by {
        let d = choose|d: nat| d < 16 && text[i] == digit_char(d, upper_case);
        lemma_digit_value(d, upper_case);
    }
}

/// A signed integer is written in hexadecimal as the unsigned integer with
/// the same bits: a negative one as itself plus two to the width.
pub proof fn law_hex_of_signed(a: i8, b: i16, c: i32, d: i64, e: i128)
    ensures
        a.hex_value() == (a as u8).hex_value(),
        b.hex_value() == (b as u16).hex_value(),
        c.hex_value() == (c as u32).hex_value(),
        d.hex_value() == (d as u64).hex_value(),
        e.hex_value() == (e as u128).hex_value(),
        a.hex_value() == if a < 0 { a + 0x100 } else { a as int },
        b.hex_value() == if b < 0 { b + 0x1_0000 } else { b as int },
        c.hex_value() == if c < 0 { c + 0x1_0000_0000 } else { c as int },
        d.hex_value() == if d < 0 { d + 0x1_0000_0000_0000_0000 } else { d as int },
        e.hex_value() == if e < 0 {
            e + 0x1_0000_0000_0000_0000_0000_0000_0000_0000
        } else {
            e as int
        },
{
    assert(a < 0 ==> (a as u8) as int == a + 0x100) by (bit_vector);
    assert(a >= 0 ==> (a as u8) as int == a as int) by (bit_vector);
    assert(b < 0 ==> (b as u16) as int == b + 0x1_0000) by (bit_vector);
    assert(b >= 0 ==> (b as u16) as int == b as int) by (bit_vector);
    assert(c < 0 ==> (c as u32) as int == c + 0x1_0000_0000) by (bit_vector);
    assert(c >= 0 ==> (c as u32) as int == c as int) by (bit_vector);
    assert(d < 0 ==> (d as u64) as int == d + 0x1_0000_0000_0000_0000) by (bit_vector);
    assert(d >= 0 ==> (d as u64) as int == d as int) by (bit_vector);
    assert(e < 0 ==> (e as u128) as int == e + 0x1_0000_0000_0000_0000_0000_0000_0000_0000)
        by (bit_vector);
    assert(e >= 0 ==> (e as u128) as int == e as int) by (bit_vector);
}

/// Formatting a value twice, with formatters in the same mode and at the
/// same depth, sends the same text to both sinks, whatever the sinks are.
pub proof fn law_debug_twice<T, V, W>(
    value: &T,
    first: Formatter<'_, V>,
    first_done: Formatter<'_, V>,
    second: Formatter<'_, W>,
    second_done: Formatter<'_, W>,
) where T: uDebug + ?Sized, V: uWrite + ?Sized, W: uWrite + ?Sized
    requires
        first.is_pretty() == second.is_pretty(),
        first.level() == second.level(),
        first_done.extends(&first, value.debug_text(first.is_pretty(), first.level())),
        second_done.extends(&second, value.debug_text(second.is_pretty(), second.level())),
    ensures
        first_done.written().skip(first.written().len() as int) == second_done.written().skip(
            second.written().len() as int,
        ),
        first.written() == second.written() ==> first_done.written() == second_done.written(),
{
    let text = value.debug_text(first.is_pretty(), first.level());
    assert((first.written() + text).skip(first.written().len() as int) =~= text);
    assert((second.written() + text).skip(second.written().len() as int) =~= text);
}

/// Displaying a value twice sends the same text to both sinks, whatever the
/// sinks and the state of the formatters are.
pub proof fn law_display_twice<T, V, W>(
    value: &T,
    first: Formatter<'_, V>,
    first_done: Formatter<'_, V>,
    second: Formatter<'_, W>,
    second_done: Formatter<'_, W>,
) where T: uDisplay + ?Sized, V: uWrite + ?Sized, W: uWrite + ?Sized
    requires
        first_done.extends(&first, value.display_text()),
        second_done.extends(&second, value.display_text()),
    ensures
        first_done.written().skip(first.written().len() as int) == second_done.written().skip(
            second.written().len() as int,
        ),
        first.written() == second.written() ==> first_done.written() == second_done.written(),
{
    let text = value.display_text();
    assert((first.written() + text).skip(first.written().len() as int) =~= text);
    assert((second.written() + text).skip(second.written().len() as int) =~= text);
}

/// A struct or a tuple without fields is rendered as its name alone, in
/// either mode: no braces, no parentheses.
pub proof fn law_no_fields(name: Seq<char>, pretty: bool, level: nat)
    ensures
        struct_text(name, Seq::empty(), pretty, level) == name,
        tuple_text(name, Seq::empty(), pretty, level) == name,
{
    assert(struct_text(name, Seq::empty(), pretty, level) =~= name);
    assert(tuple_text(name, Seq::empty(), pretty, level) =~= name);
}

/// A struct of two fields in compact mode: the fields, each a name and a
/// value, between `{` and `}`, separated by a comma and a space.
pub proof fn law_struct_of_two_compact(name: Seq<char>, x: Seq<char>, y: Seq<char>, level: nat)
    ensures
        struct_text(name, seq![x, y], false, level) == name + " { "@ + x + ", "@ + y + " }"@,
{
    reveal_strlit(" { ");
    reveal_strlit(" {");
    reveal_strlit(" ");
    reveal_strlit(" }");
    reveal_strlit("}");
    let opener = struct_opener(false);
    lemma_items_push(opener, true, false, level, Seq::empty(), x);
    lemma_items_push(opener, true, false, level, seq![x], y);
    assert(Seq::<Seq<char>>::empty().push(x) =~= seq![x]);
    assert(seq![x].push(y) =~= seq![x, y]);
    assert(opener =~= " { "@);
    assert(" "@ + "}"@ =~= " }"@);
    assert(struct_text(name, seq![x, y], false, level) =~= name + " { "@ + x + ", "@ + y
        + " }"@);
}

/// A struct of two fields in pretty mode: each field on a line of its own,
/// one level deeper than the struct and followed by a comma; the closing
/// brace on a line of its own, at the level of the struct.
pub proof fn law_struct_of_two_pretty(name: Seq<char>, x: Seq<char>, y: Seq<char>, level: nat)
    ensures
        struct_text(name, seq![x, y], true, level) == name + " {\n"@ + indent_text(level + 1) + x
            + ",\n"@ + indent_text(level + 1) + y + ",\n"@ + indent_text(level) + "}"@,
{
    reveal_strlit(" {\n");
    reveal_strlit(" {");
    reveal_strlit("\n");
    let opener = struct_opener(true);
    lemma_items_push(opener, true, true, level + 1, Seq::empty(), x);
    lemma_items_push(opener, true, true, level + 1, seq![x], y);
    assert(Seq::<Seq<char>>::empty().push(x) =~= seq![x]);
    assert(seq![x].push(y) =~= seq![x, y]);
    assert(opener =~= " {\n"@);
    assert(struct_text(name, seq![x, y], true, level) =~= name + " {\n"@ + indent_text(
        level + 1,
    ) + x + ",\n"@ + indent_text(level + 1) + y + ",\n"@ + indent_text(level) + "}"@);
}

/// A tuple without a name in compact mode: one field keeps a trailing
/// comma, two fields are separated by a comma and a space and keep none.
pub proof fn law_tuple_compact(x: Seq<char>, y: Seq<char>, level: nat)
    ensures
        tuple_text(Seq::empty(), seq![x], false, level) == "("@ + x + ",)"@,
        tuple_text(Seq::empty(), seq![x, y], false, level) == "("@ + x + ", "@ + y + ")"@,
{
    reveal_strlit("(");
    reveal_strlit(",)");
    reveal_strlit(",");
    reveal_strlit(")");
    let opener = tuple_opener(false);
    lemma_items_push(opener, true, false, level, Seq::empty(), x);
    lemma_items_push(opener, true, false, level, seq![x], y);
    assert(Seq::<Seq<char>>::empty().push(x) =~= seq![x]);
    assert(seq![x].push(y) =~= seq![x, y]);
    assert(opener =~= "("@);
    assert(","@ + ")"@ =~= ",)"@);
    assert(tuple_text(Seq::empty(), seq![x], false, level) =~= "("@ + x + ",)"@);
    assert(tuple_text(Seq::empty(), seq![x, y], false, level) =~= "("@ + x + ", "@ + y + ")"@);
}

} // verus!
