use ufmt::impls::float::{write_as_float_str, FloatParts};
use ufmt::impls::hex::hex_digit;
use ufmt::impls::bin::bin_digit;
use ufmt::impls::ixx::{i128 as encode_i128, i64 as encode_i64, isize as encode_isize};
use ufmt::impls::ptr::hex as address_digits;
use ufmt::pieces::{ArgumentError, ParseError};
use ufmt::impls::uxx::{u128 as encode_u128, u64 as encode_u64, usize as encode_usize};
use ufmt::write::{encode_utf8_raw, len_utf8};
use ufmt::{
    uDebug, uDisplay, uDisplayBin, uDisplayHex, uWrite, BinOptions, Formatter, HexOptions,
    UnstableDoAsFormatter,
};

fn debug<T: uDebug + ?Sized>(value: &T) -> String {
    let mut s = String::new();
    s.do_as_formatter(|f| uDebug::fmt(value, f)).unwrap();
    s
}

fn pretty<T: uDebug + ?Sized>(value: &T) -> String {
    let mut s = String::new();
    s.do_as_formatter(|f| f.pretty(|f| uDebug::fmt(value, f))).unwrap();
    s
}

fn display<T: uDisplay + ?Sized>(value: &T) -> String {
    let mut s = String::new();
    s.do_as_formatter(|f| uDisplay::fmt(value, f)).unwrap();
    s
}

fn hex<T: uDisplayHex>(value: &T, upper_case: bool, prefix: bool, pad_char: u8, pad_length: usize) -> String {
    let mut s = String::new();
    let options = HexOptions { upper_case, pad_char, pad_length, ox_prefix: prefix };
    s.do_as_formatter(|f| uDisplayHex::fmt_hex(value, f, options)).unwrap();
    s
}

fn bin<T: uDisplayBin>(value: &T, prefix: bool, pad_char: u8, pad_length: usize) -> String {
    let mut s = String::new();
    let options = BinOptions { upper_case: false, pad_char, pad_length, ob_prefix: prefix };
    s.do_as_formatter(|f| uDisplayBin::fmt_bin(value, f, options)).unwrap();
    s
}

struct Pair {
    x: i32,
    y: i32,
}

impl uDebug for Pair {
    fn fmt<W>(&self, f: &mut Formatter<'_, W>) -> Result<(), W::Error>
    where
        W: uWrite + ?Sized,
    {
        f.debug_struct("Pair")?.field("x", &self.x)?.field("y", &self.y)?.finish()
    }
}

struct Braces {}

impl uDebug for Braces {
    fn fmt<W>(&self, f: &mut Formatter<'_, W>) -> Result<(), W::Error>
    where
        W: uWrite + ?Sized,
    {
        f.debug_struct("Braces")?.finish()
    }
}

struct Parens();

impl uDebug for Parens {
    fn fmt<W>(&self, f: &mut Formatter<'_, W>) -> Result<(), W::Error>
    where
        W: uWrite + ?Sized,
    {
        f.debug_tuple("Parens")?.finish()
    }
}

struct Table(Vec<(i32, i32)>);

impl uDebug for Table {
    fn fmt<W>(&self, f: &mut Formatter<'_, W>) -> Result<(), W::Error>
    where
        W: uWrite + ?Sized,
    {
        f.debug_map()?.entries(&self.0)?.finish()
    }
}

struct Members(Vec<i32>);

impl uDebug for Members {
    fn fmt<W>(&self, f: &mut Formatter<'_, W>) -> Result<(), W::Error>
    where
        W: uWrite + ?Sized,
    {
        f.debug_set()?.entries(&self.0)?.finish()
    }
}

struct Holder {
    table: Table,
    members: Members,
    list: Vec<i32>,
    empty: Vec<i32>,
}

impl uDebug for Holder {
    fn fmt<W>(&self, f: &mut Formatter<'_, W>) -> Result<(), W::Error>
    where
        W: uWrite + ?Sized,
    {
        f.debug_struct("Holder")?
            .field("table", &self.table)?
            .field("members", &self.members)?
            .field("list", &self.list)?
            .field("empty", &self.empty)?
            .finish()
    }
}

#[test]
fn decimal_round_trips_for_unsigned() {
    for n in [0u64, 1, 9, 10, 11, 99, 100, 101, 12345, 4294967295, 4294967296, u64::MAX] {
        let text = display(&n);
        assert_eq!(text.parse::<u64>().unwrap(), n);
        assert!(text == "0" || !text.starts_with('0'));
    }
    for n in 0..=u8::MAX {
        assert_eq!(display(&n).parse::<u8>().unwrap(), n);
    }
    for n in [0u16, 7, 65535] {
        assert_eq!(display(&n).parse::<u16>().unwrap(), n);
    }
    for n in [0u32, 1000000, u32::MAX] {
        assert_eq!(display(&n).parse::<u32>().unwrap(), n);
    }
    for n in [0u128, 10u128.pow(38), u128::MAX] {
        assert_eq!(display(&n).parse::<u128>().unwrap(), n);
    }
    for n in [0usize, 42, usize::MAX] {
        assert_eq!(display(&n).parse::<usize>().unwrap(), n);
    }
    assert_eq!(display(&0u8), "0");
    assert_eq!(display(&u128::MAX), "340282366920938463463374607431768211455");
}

#[test]
fn decimal_round_trips_for_signed() {
    for n in i8::MIN..=i8::MAX {
        assert_eq!(display(&n).parse::<i8>().unwrap(), n);
    }
    for n in [i16::MIN, -1, 0, 1, i16::MAX] {
        assert_eq!(display(&n).parse::<i16>().unwrap(), n);
    }
    for n in [i32::MIN, -1000, 0, 1000, i32::MAX] {
        assert_eq!(display(&n).parse::<i32>().unwrap(), n);
    }
    for n in [i64::MIN, -1, 0, 1, i64::MAX] {
        assert_eq!(display(&n).parse::<i64>().unwrap(), n);
    }
    for n in [i128::MIN, -1, 0, 1, i128::MAX] {
        assert_eq!(display(&n).parse::<i128>().unwrap(), n);
    }
    for n in [isize::MIN, -1, 0, 1, isize::MAX] {
        assert_eq!(display(&n).parse::<isize>().unwrap(), n);
    }
    assert_eq!(display(&i8::MIN), "-128");
    assert_eq!(display(&i32::MIN), "-2147483648");
    assert_eq!(debug(&i128::MIN), "-170141183460469231731687303715884105728");
    assert_eq!(debug(&-7i64), "-7");
}

#[test]
fn encoders_fill_the_end_of_the_buffer() {
    let mut buf = [0u8; 20];
    assert_eq!(encode_usize(1234, &mut buf), "1234");
    let mut buf = [0u8; 20];
    assert_eq!(encode_u64(u64::MAX, &mut buf), "18446744073709551615");
    let mut buf = [0u8; 39];
    assert_eq!(encode_u128(0, &mut buf), "0");
    let mut buf = [0u8; 20];
    assert_eq!(encode_isize(-1234, &mut buf), "-1234");
    let mut buf = [0u8; 20];
    assert_eq!(encode_i64(i64::MIN, &mut buf), "-9223372036854775808");
    let mut buf = [0u8; 40];
    assert_eq!(encode_i128(i128::MAX, &mut buf), "170141183460469231731687303715884105727");
    let mut buf = [b'#'; 8];
    let start = address_digits(0xbeef, &mut buf);
    assert_eq!(start, 2);
    assert_eq!(&buf[start..], b"0xbeef");
    assert_eq!(&buf[..start], b"##");
}

#[test]
fn hex_never_has_a_sign() {
    assert_eq!(hex(&-10000i32, false, false, b' ', 0), format!("{:x}", -10000i32 as u32));
    assert_eq!(hex(&-10000i32, false, false, b' ', 0), "ffffd8f0");
    assert_eq!(hex(&-1i8, false, false, b' ', 0), "ff");
    assert_eq!(hex(&-1i64, true, false, b' ', 0), "FFFFFFFFFFFFFFFF");
    assert_eq!(hex(&i128::MIN, false, false, b' ', 0), format!("{:x}", i128::MIN));
    assert_eq!(hex(&-1isize, false, false, b' ', 0), format!("{:x}", -1isize));
    assert_eq!(hex(&0u8, false, false, b' ', 0), "0");
    assert_eq!(hex(&u128::MAX, false, false, b' ', 0), "ffffffffffffffffffffffffffffffff");
    assert_eq!(hex(&0xabcdefu32, true, false, b' ', 0), "ABCDEF");
    assert_eq!(hex(&usize::MAX, false, false, b' ', 0), format!("{:x}", usize::MAX));
}

#[test]
fn hex_prefix_and_padding() {
    assert_eq!(hex(&33, false, true, b'0', 9), "0x0000021");
    assert_eq!(hex(&33, false, true, b'0', 10), "0x00000021");
    assert_eq!(hex(&33, false, true, b'0', 3), "0x21");
    assert_eq!(hex(&33, false, true, b' ', 9), "     0x21");
    assert_eq!(hex(&33, false, false, b' ', 4), "  21");
    assert_eq!(hex(&33, false, false, b'0', 4), "0021");
    assert_eq!(hex(&0x42, false, true, b'0', 6), "0x0042");
    assert_eq!(hex(&71, true, true, b' ', 0), "0X47");
    assert_eq!(hex(&255u8, true, true, b'0', 6), "0X00FF");
    assert_eq!(hex(&89001, false, false, b' ', 4), "15ba9");
    assert_eq!(hex(&1u8, false, false, b'.', 3), "..1");
}

#[test]
fn with_stuff_counts_bytes() {
    let mut s = String::new();
    let options = HexOptions { upper_case: false, pad_char: b' ', pad_length: 5, ox_prefix: false };
    s.do_as_formatter(|f| options.with_stuff(f, "é")).unwrap();
    assert_eq!(s, "   é");
    let mut s = String::new();
    let options = HexOptions { upper_case: false, pad_char: b'0', pad_length: usize::MAX, ox_prefix: true };
    let mut count = 0;
    s.do_as_formatter(|f| {
        count += 1;
        let short = HexOptions { pad_length: 4, ..options };
        short.with_stuff(f, "abcdef")
    })
    .unwrap();
    assert_eq!(count, 1);
    assert_eq!(s, "0xabcdef");
}

#[test]
fn binary_digits() {
    assert_eq!(bin(&5u8, false, b' ', 0), format!("{:b}", 5u8));
    assert_eq!(bin(&0u32, false, b' ', 0), "0");
    assert_eq!(bin(&u8::MAX, false, b' ', 0), "11111111");
    assert_eq!(bin(&-1i8, false, b' ', 0), "11111111");
    assert_eq!(bin(&i16::MIN, false, b' ', 0), format!("{:b}", i16::MIN));
    assert_eq!(bin(&u64::MAX, false, b' ', 0), format!("{:b}", u64::MAX));
    assert_eq!(bin(&u128::MAX, false, b' ', 0), format!("{:b}", u128::MAX));
    assert_eq!(bin(&i128::MIN, false, b' ', 0), format!("{:b}", i128::MIN));
    assert_eq!(bin(&usize::MAX, false, b' ', 0), format!("{:b}", usize::MAX));
    assert_eq!(bin(&-2isize, false, b' ', 0), format!("{:b}", -2isize));
    assert_eq!(bin(&5u8, true, b'0', 10), format!("{:#010b}", 5u8));
    assert_eq!(bin(&5u8, true, b' ', 10), format!("{:#10b}", 5u8));
    assert_eq!(bin(&5u8, false, b' ', 6), "   101");
}

#[test]
fn digit_characters() {
    assert_eq!(hex_digit(0, false), b'0');
    assert_eq!(hex_digit(9, true), b'9');
    assert_eq!(hex_digit(10, false), b'a');
    assert_eq!(hex_digit(15, false), b'f');
    assert_eq!(hex_digit(10, true), b'A');
    assert_eq!(hex_digit(15, true), b'F');
    assert_eq!(bin_digit(0, false), b'0');
    assert_eq!(bin_digit(1, true), b'1');
}

#[test]
fn struct_compact_and_pretty() {
    let pair = Pair { x: 1, y: 2 };
    assert_eq!(debug(&pair), "Pair { x: 1, y: 2 }");
    assert_eq!(pretty(&pair), "Pair {\n    x: 1,\n    y: 2,\n}");
}

#[test]
fn no_fields_is_just_the_name() {
    assert_eq!(debug(&Braces {}), "Braces");
    assert_eq!(pretty(&Braces {}), "Braces");
    assert_eq!(debug(&Parens()), "Parens");
    assert_eq!(pretty(&Parens()), "Parens");
}

#[test]
fn tuple_commas() {
    assert_eq!(debug(&()), "()");
    assert_eq!(debug(&(1,)), "(1,)");
    assert_eq!(debug(&(1, 2)), "(1, 2)");
    assert_eq!(pretty(&(1,)), "(\n    1,\n)");
    assert_eq!(pretty(&(1, 2)), "(\n    1,\n    2,\n)");
    assert_eq!(debug(&Some((1,))), "Some((1,))");
    assert_eq!(debug(&((1, 2), (3,), ())), "((1, 2), (3,), ())");
}

#[test]
fn maps_and_sets() {
    let table = Table(vec![(1, 2), (3, 4)]);
    assert_eq!(debug(&table), "{1: 2, 3: 4}");
    assert_eq!(pretty(&table), "{\n    1: 2,\n    3: 4,\n}");
    assert_eq!(debug(&Table(vec![])), "{}");
    assert_eq!(pretty(&Table(vec![])), "{}");
    let members = Members(vec![1, 3]);
    assert_eq!(debug(&members), "{1, 3}");
    assert_eq!(pretty(&members), "{\n    1,\n    3,\n}");
    assert_eq!(debug(&Members(vec![])), "{}");
    assert_eq!(pretty(&Members(vec![])), "{}");
}

#[test]
fn nesting_keeps_the_indentation() {
    let holder = Holder {
        table: Table(vec![(1, 2)]),
        members: Members(vec![7]),
        list: vec![8, 9],
        empty: vec![],
    };
    assert_eq!(debug(&holder), "Holder { table: {1: 2}, members: {7}, list: [8, 9], empty: [] }");
    assert_eq!(
        pretty(&holder),
        "Holder {\n    table: {\n        1: 2,\n    },\n    members: {\n        7,\n    },\n    list: [\n        8,\n        9,\n    ],\n    empty: [],\n}"
    );
    let nested = vec![vec![Some(1), None], vec![]];
    assert_eq!(debug(&nested), format!("{:?}", nested));
    assert_eq!(pretty(&nested), format!("{:#?}", nested));
    let boxed = Box::new((1u8, [2u16, 3]));
    assert_eq!(debug(&boxed), format!("{:?}", boxed));
    assert_eq!(pretty(&boxed), format!("{:#?}", boxed));
}

#[test]
fn entry_by_entry() {
    let mut s = String::new();
    s.do_as_formatter(|f| {
        let mut list = f.debug_list()?;
        list.entry(&1)?;
        list.entry(&2)?.entry(&3)?;
        list.finish()
    })
    .unwrap();
    assert_eq!(s, "[1, 2, 3]");

    let mut s = String::new();
    s.do_as_formatter(|f| f.debug_set()?.entry(&1)?.entry(&2)?.finish()).unwrap();
    assert_eq!(s, "{1, 2}");

    let mut s = String::new();
    s.do_as_formatter(|f| f.debug_map()?.entry(&1, &true)?.entry(&2, &false)?.finish()).unwrap();
    assert_eq!(s, "{1: true, 2: false}");
}

#[test]
fn formatting_twice_gives_the_same_text() {
    let value = (Some(Pair { x: -1, y: 2 }), [1u8, 2, 3], "text");
    assert_eq!(debug(&value), debug(&value));
    assert_eq!(pretty(&value), pretty(&value));
    assert_eq!(display(&12345), display(&12345));
    let mut prefixed = String::from("before: ");
    prefixed.do_as_formatter(|f| uDebug::fmt(&value, f)).unwrap();
    assert_eq!(prefixed, format!("before: {}", debug(&value)));
}

#[test]
fn booleans_characters_and_strings() {
    assert_eq!(debug(&true), "true");
    assert_eq!(display(&false), "false");
    assert_eq!(display(&'x'), "x");
    assert_eq!(display(&'é'), "é");
    assert_eq!(display(&'€'), "€");
    assert_eq!(display(&'😀'), "😀");
    assert_eq!(display("héllo"), "héllo");
    assert_eq!(display(&String::from("owned")), "owned");
    assert_eq!(display(&&&7u8), "7");
    assert_eq!(debug(&&mut 7u8), "7");
}

#[test]
fn strings_are_quoted_and_escaped() {
    for text in ["", "plain", "a\nb", "tab\tquote\"back\\slash", "é€😀", "\u{0}\u{7f}\u{301}"] {
        assert_eq!(debug(text), format!("{:?}", text));
        assert_eq!(pretty(text), format!("{:#?}", text));
    }
    assert_eq!(debug("a\nb"), "\"a\\nb\"");
    // every character is escaped as a character is, an apostrophe too
    assert_eq!(debug("it's"), "\"it\\'s\"");
    assert_eq!(debug(&["x", "y\"z"][..]), format!("{:?}", ["x", "y\"z"]));
}

#[test]
fn utf8_encoding_of_one_character() {
    for c in ['a', '\u{7f}', '\u{80}', 'é', '\u{7ff}', '\u{800}', '€', '\u{ffff}', '\u{10000}', '😀', '\u{10ffff}'] {
        let mut buf = [0u8; 4];
        let mut expected = [0u8; 4];
        assert_eq!(encode_utf8_raw(c as u32, &mut buf), c.encode_utf8(&mut expected));
        assert_eq!(len_utf8(c as u32), c.len_utf8());
    }
    assert_eq!(len_utf8(0), 1);
    assert_eq!(len_utf8(0x7f), 1);
    assert_eq!(len_utf8(0x80), 2);
    assert_eq!(len_utf8(0x7ff), 2);
    assert_eq!(len_utf8(0x800), 3);
    assert_eq!(len_utf8(0xffff), 3);
    assert_eq!(len_utf8(0x10000), 4);
}

#[test]
fn fixed_point_parts() {
    let text = |left: u32, right: u32, places: usize, is_neg: bool, pad: usize| {
        let mut s = String::new();
        s.do_as_formatter(|f| write_as_float_str(f, left, right, places, is_neg, pad)).unwrap();
        s
    };
    assert_eq!(text(0, 0, 0, false, 0), "0");
    assert_eq!(text(0, 0, 1, false, 0), "0.0");
    assert_eq!(text(0, 0, 6, false, 0), "0.000000");
    assert_eq!(text(0, 2, 6, false, 0), "0.000002");
    assert_eq!(text(123, 457, 3, false, 0), "123.457");
    assert_eq!(text(123, 457, 3, false, 10), "   123.457");
    assert_eq!(text(123, 457, 3, true, 10), "  -123.457");
    assert_eq!(text(u32::MAX, 999999, 6, true, 0), "-4294967295.999999");
    assert_eq!(text(1, 1234567, 3, false, 0), "1.567");
    assert_eq!(text(7, 5, 0, false, 3), "  7");
}

#[test]
fn test_u64_to_str() {
    let f_str = |left: u32, right: u32, dp: usize, is_neg: bool, pad_length: usize| {
        let mut s = String::new();
        let mut fmt = Formatter::new(&mut s);
        write_as_float_str(&mut fmt, left, right, dp, is_neg, pad_length).unwrap();
        s
    };
    assert_eq!(f_str(0, 0, 0, false, 0), "0");
    assert_eq!(f_str(0, 0, 1, false, 0), "0.0");
    assert_eq!(f_str(0, 0, 6, false, 0), "0.000000");
    assert_eq!(f_str(0, 2, 6, false, 0), "0.000002");
    assert_eq!(f_str(123, 457, 3, false, 0), "123.457");
    assert_eq!(f_str(123, 457, 3, false, 10), "   123.457");
}

#[test]
fn what_is_not_a_number_in_range() {
    let text = |parts: FloatParts, places: usize, pad: usize| {
        let mut s = String::new();
        s.do_as_formatter(|f| parts.fmt_float(f, places, pad)).unwrap();
        s
    };
    assert_eq!(text(FloatParts::Nan, 3, 10), "NaN");
    assert_eq!(text(FloatParts::Overflow, 3, 10), "ovfl");
    assert_eq!(text(FloatParts::Underflow, 0, 0), "uflw");
    assert_eq!(text(FloatParts::Finite { is_neg: false, left: 1, right: 0 }, 0, 0), "1");
    assert_eq!(text(FloatParts::Finite { is_neg: true, left: 3, right: 140 }, 3, 8), "  -3.140");
}

#[test]
fn the_library_formats_its_own_records() {
    assert_eq!(debug(&ParseError::UnmatchedRightBrace), "UnmatchedRightBrace");
    assert_eq!(pretty(&ParseError::InvalidFormatString), "InvalidFormatString");
    assert_eq!(
        debug(&ArgumentError::Missing { required: 2, supplied: 1 }),
        "Missing { required: 2, supplied: 1 }"
    );
    assert_eq!(pretty(&ArgumentError::NeverUsed { index: 3 }), "NeverUsed {\n    index: 3,\n}");
    let options = HexOptions { upper_case: true, pad_char: b'0', pad_length: 8, ox_prefix: false };
    assert_eq!(
        debug(&options),
        "HexOptions { upper_case: true, pad_char: 48, pad_length: 8, ox_prefix: false }"
    );
    assert_eq!(
        pretty(&Some(options)),
        "Some(\n    HexOptions {\n        upper_case: true,\n        pad_char: 48,\n        pad_length: 8,\n        ox_prefix: false,\n    },\n)"
    );
}
