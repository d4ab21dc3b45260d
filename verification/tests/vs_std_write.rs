use std::collections::{BTreeMap, BTreeSet};

use ufmt::impls::float::FloatParts;
use ufmt::impls::collections::{MapEntries, SetEntries};
use ufmt::impls::ptr::fmt_address;
use ufmt::{uDebug, uDisplay, uDisplayHex, uWrite, Formatter, HexOptions, UnstableDoAsFormatter};

fn debug<T: uDebug + ?Sized>(value: &T) -> String {
    let mut s = String::new();
    s.do_as_formatter(|f| uDebug::fmt(value, f)).unwrap();
    s
}

fn pretty<T: uDebug + ?Sized>(value: &T) -> String {
    let mut s = String::new();
    s.do_as_formatter(|f| f.pretty(|f| uDebug::fmt(value, f))).unwrap();
    s
}

fn display<T: uDisplay + ?Sized>(value: &T) -> String {
    let mut s = String::new();
    s.do_as_formatter(|f| uDisplay::fmt(value, f)).unwrap();
    s
}

fn hex_with<T: uDisplayHex>(value: &T, prefix: bool, pad_char: u8, pad_length: usize) -> String {
    let mut s = String::new();
    let options = HexOptions { upper_case: false, pad_char, pad_length, ox_prefix: prefix };
    s.do_as_formatter(|f| uDisplayHex::fmt_hex(value, f, options)).unwrap();
    s
}

fn lower_hex<T: uDisplayHex>(value: &T) -> String {
    hex_with(value, false, b' ', 0)
}

fn address(address: usize) -> String {
    let mut s = String::new();
    s.do_as_formatter(|f| fmt_address(address, f)).unwrap();
    s
}

fn parts_f32(x: f32, decimal_places: usize) -> FloatParts {
    const MUL_TAB: [f32; 7] = [1.0, 10.0, 100.0, 1_000.0, 10_000.0, 100_000.0, 1_000_000.0];
    const ADD_TAB: [f32; 7] = [0.5, 0.05, 0.005, 0.000_5, 0.000_05, 0.000_005, 0.000_000_5];
    if x.is_nan() {
        return FloatParts::Nan;
    }
    if x > 8388608.0 {
        return FloatParts::Overflow;
    }
    if x < -8388608.0 {
        return FloatParts::Underflow;
    }
    let (f, is_neg) = if x.is_sign_negative() {
        ((-x) + ADD_TAB[decimal_places], true)
    } else {
        (x + ADD_TAB[decimal_places], false)
    };
    let left = f as u32;
    let right = ((f - (left as f32)) * MUL_TAB[decimal_places]) as u32;
    FloatParts::Finite { is_neg, left, right }
}

fn parts_f64(x: f64, decimal_places: usize) -> FloatParts {
    const MUL_TAB: [f64; 7] = [1.0, 10.0, 100.0, 1_000.0, 10_000.0, 100_000.0, 1_000_000.0];
    const ADD_TAB: [f64; 7] = [0.5, 0.05, 0.005, 0.000_5, 0.000_05, 0.000_005, 0.000_000_5];
    if x.is_nan() {
        return FloatParts::Nan;
    }
    if x > 4_294_967_295.0 {
        return FloatParts::Overflow;
    }
    if x < -4_294_967_295.0 {
        return FloatParts::Underflow;
    }
    let (f, is_neg) = if x.is_sign_negative() {
        ((-x) + ADD_TAB[decimal_places], true)
    } else {
        (x + ADD_TAB[decimal_places], false)
    };
    let left = f as u32;
    let right = ((f - (left as f64)) * MUL_TAB[decimal_places]) as u32;
    FloatParts::Finite { is_neg, left, right }
}

fn float32(x: f32, decimal_places: usize, pad_length: usize) -> String {
    let mut s = String::new();
    let parts = parts_f32(x, decimal_places);
    s.do_as_formatter(|f| parts.fmt_float(f, decimal_places, pad_length)).unwrap();
    s
}

fn float64(x: f64, decimal_places: usize, pad_length: usize) -> String {
    let mut s = String::new();
    let parts = parts_f64(x, decimal_places);
    s.do_as_formatter(|f| parts.fmt_float(f, decimal_places, pad_length)).unwrap();
    s
}

struct Node {
    value: i32,
    next: Option<Box<Node>>,
}

impl uDebug for Node {
    fn fmt<W>(&self, f: &mut Formatter<'_, W>) -> Result<(), W::Error>
    where
        W: uWrite + ?Sized,
    {
        f.debug_struct("Node")?.field("value", &self.value)?.field("next", &self.next)?.finish()
    }
}

impl std::fmt::Debug for Node {
    fn fmt(&self, f: &mut std::fmt::Formatter<'_>) -> std::fmt::Result {
        f.debug_struct("Node").field("value", &self.value).field("next", &self.next).finish()
    }
}

#[derive(Debug)]
struct Braces {}

impl uDebug for Braces {
    fn fmt<W>(&self, f: &mut Formatter<'_, W>) -> Result<(), W::Error>
    where
        W: uWrite + ?Sized,
    {
        f.debug_struct("Braces")?.finish()
    }
}

#[derive(Debug)]
struct Parens();

impl uDebug for Parens {
    fn fmt<W>(&self, f: &mut Formatter<'_, W>) -> Result<(), W::Error>
    where
        W: uWrite + ?Sized,
    {
        f.debug_tuple("Parens")?.finish()
    }
}

#[derive(Debug, Default)]
struct I32(i32);

impl uDebug for I32 {
    fn fmt<W>(&self, f: &mut Formatter<'_, W>) -> Result<(), W::Error>
    where
        W: uWrite + ?Sized,
    {
        f.debug_tuple("I32")?.field(&self.0)?.finish()
    }
}

#[derive(Debug, Default)]
struct Tuple(i32, i32);

impl uDebug for Tuple {
    fn fmt<W>(&self, f: &mut Formatter<'_, W>) -> Result<(), W::Error>
    where
        W: uWrite + ?Sized,
    {
        f.debug_tuple("Tuple")?.field(&self.0)?.field(&self.1)?.finish()
    }
}

#[derive(Debug, Default)]
struct Pair {
    x: i32,
    y: i32,
}

impl uDebug for Pair {
    fn fmt<W>(&self, f: &mut Formatter<'_, W>) -> Result<(), W::Error>
    where
        W: uWrite + ?Sized,
    {
        f.debug_struct("Pair")?.field("x", &self.x)?.field("y", &self.y)?.finish()
    }
}

#[derive(Debug, Default)]
struct Nested {
    first: Pair,
    second: Pair,
}

impl uDebug for Nested {
    fn fmt<W>(&self, f: &mut Formatter<'_, W>) -> Result<(), W::Error>
    where
        W: uWrite + ?Sized,
    {
        f.debug_struct("Nested")?.field("first", &self.first)?.field("second", &self.second)?.finish()
    }
}

#[derive(Debug)]
enum X {
    A,
    B(u8, u16),
    C { x: u8, y: u16 },
}

impl uDebug for X {
    fn fmt<W>(&self, f: &mut Formatter<'_, W>) -> Result<(), W::Error>
    where
        W: uWrite + ?Sized,
    {
        match self {
            X::A => f.write_str("A"),
            X::B(_0, _1) => f.debug_tuple("B")?.field(_0)?.field(_1)?.finish(),
            X::C { x, y } => f.debug_struct("C")?.field("x", x)?.field("y", y)?.finish(),
        }
    }
}

fn node() -> Node {
    let tail = Node { value: 0, next: None };
    Node { value: 1, next: Some(Box::new(tail)) }
}

fn map_text<K: Copy + uDebug, V: Copy + uDebug>(m: &BTreeMap<K, V>, pretty_mode: bool) -> String {
    let entries: Vec<(K, V)> = m.iter().map(|(k, v)| (*k, *v)).collect();
    if pretty_mode {
        pretty(&MapEntries(&entries))
    } else {
        debug(&MapEntries(&entries))
    }
}

fn set_text<T: Copy + uDebug>(s: &BTreeSet<T>, pretty_mode: bool) -> String {
    let members: Vec<T> = s.iter().copied().collect();
    if pretty_mode {
        pretty(&SetEntries(&members))
    } else {
        debug(&SetEntries(&members))
    }
}

fn sample_map() -> BTreeMap<i32, i32> {
    let mut m = BTreeMap::new();
    m.insert(1, 2);
    m.insert(3, 4);
    m
}

fn sample_set() -> BTreeSet<i32> {
    let mut m = BTreeSet::new();
    m.insert(1);
    m.insert(3);
    m
}

#[test]
fn vs_std_write_core() {
    assert_eq!(debug(&None::<i32>), format!("{:?}", None::<i32>));
    assert_eq!(pretty(&None::<i32>), format!("{:#?}", None::<i32>));

    assert_eq!(debug(&Some(0)), format!("{:?}", Some(0)));
    assert_eq!(pretty(&Some(0)), format!("{:#?}", Some(0)));

    assert_eq!(debug(&Ok::<_, ()>(1)), format!("{:?}", Ok::<_, ()>(1)));
    assert_eq!(pretty(&Ok::<_, ()>(1)), format!("{:#?}", Ok::<_, ()>(1)));

    assert_eq!(debug(&Err::<(), _>(2)), format!("{:?}", Err::<(), _>(2)));
    assert_eq!(pretty(&Err::<(), _>(2)), format!("{:#?}", Err::<(), _>(2)));
}

#[test]
fn vs_std_write_uxx() {
    assert_eq!(display(&0u8), format!("{}", 0u8));
    assert_eq!(display(&10u8), format!("{}", 10u8));
    assert_eq!(display(&100u8), format!("{}", 100u8));

    // extreme values
    assert_eq!(display(&u8::max_value()), format!("{}", u8::max_value()));
    assert_eq!(display(&u16::max_value()), format!("{}", u16::max_value()));
    assert_eq!(display(&u32::max_value()), format!("{}", u32::max_value()));
    assert_eq!(display(&u64::max_value()), format!("{}", u64::max_value()));
    assert_eq!(display(&u128::max_value()), format!("{}", u128::max_value()));
    assert_eq!(display(&usize::max_value()), format!("{}", usize::max_value()));
}

#[test]
fn vs_std_write_ixx() {
    // sanity check
    assert_eq!(display(&0i8), format!("{}", 0i8));
    assert_eq!(display(&10i8), format!("{}", 10i8));
    assert_eq!(display(&100i8), format!("{}", 100i8));

    // extreme values
    assert_eq!(display(&i8::min_value()), format!("{}", i8::min_value()));
    assert_eq!(display(&i8::max_value()), format!("{}", i8::max_value()));
    assert_eq!(display(&i16::min_value()), format!("{}", i16::min_value()));
    assert_eq!(display(&i16::max_value()), format!("{}", i16::max_value()));
    assert_eq!(display(&i32::min_value()), format!("{}", i32::min_value()));
    assert_eq!(display(&i32::max_value()), format!("{}", i32::max_value()));
    assert_eq!(display(&i64::min_value()), format!("{}", i64::min_value()));
    assert_eq!(display(&i64::max_value()), format!("{}", i64::max_value()));
    assert_eq!(display(&i128::min_value()), format!("{}", i128::min_value()));
    assert_eq!(display(&i128::max_value()), format!("{}", i128::max_value()));
    assert_eq!(display(&isize::min_value()), format!("{}", isize::min_value()));
    assert_eq!(display(&isize::max_value()), format!("{}", isize::max_value()));
}

#[test]
fn vs_std_write_fmt() {
    let mut s = String::new();
    s.do_as_formatter(|f| {
        f.write_str("Hello, world!")?;
        Ok(())
    })
    .unwrap();
    assert_eq!(s, format!("Hello, world!"));

    let mut s = String::new();
    s.do_as_formatter(|f| {
        f.write_str("The answer is ")?;
        uDisplay::fmt(&42, f)?;
        Ok(())
    })
    .unwrap();
    assert_eq!(s, format!("The answer is {}", 42));
}

#[test]
fn vs_std_write_ptr() {
    assert_eq!(address(1), "0x1");
    assert_eq!(address(0xf), "0xf");
    assert_eq!(address(0xff), "0xff");
    assert_eq!(address(0xfff), "0xfff");
    assert_eq!(address(0xffff), "0xffff");
    assert_eq!(address(0xfffff), "0xfffff");
    assert_eq!(address(0xffffff), "0xffffff");
    assert_eq!(address(0xfffffff), "0xfffffff");
    assert_eq!(address(0xffffffff), "0xffffffff");
    assert_eq!(address(0xfffffffff_u64 as usize), "0xfffffffff");
}

#[test]
fn vs_std_write_tuples() {
    assert_eq!(debug(&()), format!("{:?}", ()));
    assert_eq!(debug(&(1,)), format!("{:?}", (1,)));
    assert_eq!(debug(&(1, 2)), format!("{:?}", (1, 2)));
    assert_eq!(debug(&(1, 2, 3)), format!("{:?}", (1, 2, 3)));
    assert_eq!(debug(&(1, 2, 3, 4)), format!("{:?}", (1, 2, 3, 4)));
    assert_eq!(debug(&(1, 2, 3, 4, 5)), format!("{:?}", (1, 2, 3, 4, 5)));
    assert_eq!(debug(&(1, 2, 3, 4, 5, 6)), format!("{:?}", (1, 2, 3, 4, 5, 6)));
    assert_eq!(debug(&(1, 2, 3, 4, 5, 6, 7)), format!("{:?}", (1, 2, 3, 4, 5, 6, 7)));
    assert_eq!(debug(&(1, 2, 3, 4, 5, 6, 7, 8)), format!("{:?}", (1, 2, 3, 4, 5, 6, 7, 8)));
    assert_eq!(debug(&(1, 2, 3, 4, 5, 6, 7, 8, 9)), format!("{:?}", (1, 2, 3, 4, 5, 6, 7, 8, 9)));
    assert_eq!(
        debug(&(1, 2, 3, 4, 5, 6, 7, 8, 9, 10)),
        format!("{:?}", (1, 2, 3, 4, 5, 6, 7, 8, 9, 10))
    );
    assert_eq!(
        debug(&(1, 2, 3, 4, 5, 6, 7, 8, 9, 10, 11)),
        format!("{:?}", (1, 2, 3, 4, 5, 6, 7, 8, 9, 10, 11))
    );
    assert_eq!(
        debug(&(1, 2, 3, 4, 5, 6, 7, 8, 9, 10, 11, 12)),
        format!("{:?}", (1, 2, 3, 4, 5, 6, 7, 8, 9, 10, 11, 12))
    );

    assert_eq!(pretty(&()), format!("{:#?}", ()));
    assert_eq!(pretty(&(1,)), format!("{:#?}", (1,)));
    assert_eq!(pretty(&(1, 2)), format!("{:#?}", (1, 2)));
}

#[test]
fn vs_std_write_slice() {
    assert_eq!(debug(&[0; 0]), format!("{:?}", [0; 0]));
    assert_eq!(debug(&[0]), format!("{:?}", [0]));
    assert_eq!(debug(&[0, 1]), format!("{:?}", [0, 1]));

    assert_eq!(pretty(&[0; 0]), format!("{:#?}", [0; 0]));
    assert_eq!(pretty(&[0]), format!("{:#?}", [0]));
    assert_eq!(pretty(&[0, 1]), format!("{:#?}", [0, 1]));
}

#[test]
fn hex() {
    assert_eq!(lower_hex(&771u32), format!("{:x}", 771u32));
    assert_eq!(lower_hex(&-10000), format!("{:x}", -10000));
    assert_eq!(hex_with(&33, false, b' ', 4), format!("{:4x}", 33));
    assert_eq!(hex_with(&89001, false, b' ', 4), format!("{:4x}", 89001));
    assert_eq!(hex_with(&33, false, b'0', 4), format!("{:04x}", 33));
    assert_eq!(hex_with(&33, true, b'0', 3), format!("{:#03x}", 33));
    assert_eq!(hex_with(&33, true, b'0', 9), format!("{:#09x}", 33));
    assert_eq!(hex_with(&71, true, b' ', 0), format!("{:#x}", 71));

    // extreme values
    assert_eq!(lower_hex(&i8::min_value()), format!("{:x}", i8::min_value()));
    assert_eq!(lower_hex(&i8::max_value()), format!("{:x}", i8::max_value()));
    assert_eq!(lower_hex(&i16::min_value()), format!("{:x}", i16::min_value()));
    assert_eq!(lower_hex(&i16::max_value()), format!("{:x}", i16::max_value()));
    assert_eq!(lower_hex(&i32::min_value()), format!("{:x}", i32::min_value()));
    assert_eq!(lower_hex(&i32::max_value()), format!("{:x}", i32::max_value()));
    assert_eq!(lower_hex(&i64::min_value()), format!("{:x}", i64::min_value()));
    assert_eq!(lower_hex(&i64::max_value()), format!("{:x}", i64::max_value()));
    assert_eq!(lower_hex(&i128::min_value()), format!("{:x}", i128::min_value()));
    assert_eq!(lower_hex(&i128::max_value()), format!("{:x}", i128::max_value()));
    assert_eq!(lower_hex(&isize::min_value()), format!("{:x}", isize::min_value()));
    assert_eq!(lower_hex(&isize::max_value()), format!("{:x}", isize::max_value()));
}

#[test]
fn f32() {
    assert_eq!(float32(3.14_f32, 3, 10), format!("{:10.3}", 3.14_f32));

    assert_eq!(float32(1.1_f32, 0, 0), format!("{:.0}", 1.1_f32));
    assert_eq!(float32(0.7_f32, 0, 0), format!("{:.0}", 0.7_f32));
    assert_eq!(float32(0.0_f32, 0, 0), format!("{:.0}", 0.0_f32));
    assert_eq!(float32(-0.7_f32, 0, 0), format!("{:.0}", -0.7_f32));
    assert_eq!(float32(-1.1_f32, 0, 0), format!("{:.0}", -1.1_f32));
    assert_eq!(float32(1.1_f32, 1, 0), format!("{:.1}", 1.1_f32));
    assert_eq!(float32(0.7_f32, 1, 0), format!("{:.1}", 0.7_f32));
    assert_eq!(float32(0.0_f32, 1, 0), format!("{:.1}", 0.0_f32));
    assert_eq!(float32(-0.7_f32, 1, 0), format!("{:.1}", -0.7_f32));
    assert_eq!(float32(-1.1_f32, 1, 0), format!("{:.1}", -1.1_f32));
    assert_eq!(float32(1.10234_f32, 3, 0), format!("{:.3}", 1.10234_f32));
    assert_eq!(float32(0.70555_f32, 3, 0), format!("{:.3}", 0.70555_f32));
    assert_eq!(float32(0.0_f32, 3, 0), format!("{:.3}", 0.0_f32));
    assert_eq!(float32(-0.70234_f32, 3, 0), format!("{:.3}", -0.70234_f32));
    assert_eq!(float32(-1.10555_f32, 3, 0), format!("{:.3}", -1.10555_f32));
    assert_eq!(float32(1.10234_f32, 5, 0), format!("{:.5}", 1.10234_f32));
    assert_eq!(float32(0.70555_f32, 5, 0), format!("{:.5}", 0.70555_f32));
    assert_eq!(float32(0.0_f32, 5, 0), format!("{:.5}", 0.0_f32));
    assert_eq!(float32(-0.70234_f32, 5, 0), format!("{:.5}", -0.70234_f32));
    assert_eq!(float32(-1.10555_f32, 5, 0), format!("{:.5}", -1.10555_f32));
    assert_eq!(float32(-0.702341234_f32, 6, 0), format!("{:.6}", -0.702341234_f32));
    assert_eq!(float32(-1.105554321_f32, 6, 0), format!("{:.6}", -1.105554321_f32));

    const F_MAX32: f32 = 8388608.0; // 2**23
    assert_eq!(float32(F_MAX32 - 1.0_f32, 0, 0), format!("{:.0}", F_MAX32 - 1.0_f32));
    assert_eq!(float32(F_MAX32, 0, 0), format!("{:.0}", F_MAX32));
    assert_eq!(float32(-F_MAX32, 0, 0), format!("{:.0}", -F_MAX32));
    assert_eq!(float32(-F_MAX32 + 1.0_f32, 0, 0), format!("{:.0}", -F_MAX32 + 1.0_f32));
    assert_eq!(float32(f32::NAN, 3, 0), format!("{:.3}", f32::NAN));
    assert_eq!(float32(f32::EPSILON, 3, 0), format!("{:.3}", f32::EPSILON));
    assert_eq!(float32(f32::MIN_POSITIVE, 3, 0), format!("{:.3}", f32::MIN_POSITIVE));
    assert_eq!(float32(8388607.1234567_f32, 6, 0), format!("{:.6}", 8388607.1234567_f32));

    assert_eq!(
        float32(F_MAX32 + 1.0_f32, 3, 0),
        String::from("ovfl") // std::format "8388609.000"
    );
    assert_eq!(
        float32(-F_MAX32 - 1.0_f32, 3, 0),
        String::from("uflw") // std::format "-8388609.000"
    );
    assert_eq!(
        float32(f32::INFINITY, 3, 0),
        String::from("ovfl") // std::format "inf"
    );
    assert_eq!(
        float32(f32::NEG_INFINITY, 3, 0),
        String::from("uflw") // std::format "-inf"
    );
    assert_eq!(
        float32(321.123456_f32, 3, 0),
        String::from("321.123") // std::format "321.12344"
    );
    assert_eq!(
        float32(321.0_f32, 3, 0),
        String::from("321.000") // std::format "321"
    );
}

#[test]
fn f64() {
    assert_eq!(float64(3.14_f64, 3, 10), format!("{:10.3}", 3.14_f64));

    assert_eq!(float64(1.1_f64, 0, 0), format!("{:.0}", 1.1_f64));
    assert_eq!(float64(0.7_f64, 0, 0), format!("{:.0}", 0.7_f64));
    assert_eq!(float64(0.0_f64, 0, 0), format!("{:.0}", 0.0_f64));
    assert_eq!(float64(-0.7_f64, 0, 0), format!("{:.0}", -0.7_f64));
    assert_eq!(float64(-1.1_f64, 0, 0), format!("{:.0}", -1.1_f64));
    assert_eq!(float64(1.1_f64, 1, 0), format!("{:.1}", 1.1_f64));
    assert_eq!(float64(0.7_f64, 1, 0), format!("{:.1}", 0.7_f64));
    assert_eq!(float64(0.0_f64, 1, 0), format!("{:.1}", 0.0_f64));
    assert_eq!(float64(-0.7_f64, 1, 0), format!("{:.1}", -0.7_f64));
    assert_eq!(float64(-1.1_f64, 1, 0), format!("{:.1}", -1.1_f64));
    assert_eq!(float64(1.10234_f64, 3, 0), format!("{:.3}", 1.10234_f64));
    assert_eq!(float64(0.70555_f64, 3, 0), format!("{:.3}", 0.70555_f64));
    assert_eq!(float64(0.0_f64, 3, 0), format!("{:.3}", 0.0_f64));
    assert_eq!(float64(-0.70234_f64, 3, 0), format!("{:.3}", -0.70234_f64));
    assert_eq!(float64(-1.10555_f64, 3, 0), format!("{:.3}", -1.10555_f64));
    assert_eq!(float64(1.10234_f64, 5, 0), format!("{:.5}", 1.10234_f64));
    assert_eq!(float64(0.70555_f64, 5, 0), format!("{:.5}", 0.70555_f64));
    assert_eq!(float64(0.0_f64, 5, 0), format!("{:.5}", 0.0_f64));
    assert_eq!(float64(-0.70234_f64, 5, 0), format!("{:.5}", -0.70234_f64));
    assert_eq!(float64(-1.10555_f64, 5, 0), format!("{:.5}", -1.10555_f64));
    assert_eq!(float64(-0.702341234_f64, 6, 0), format!("{:.6}", -0.702341234_f64));
    assert_eq!(float64(-1.105554321_f64, 6, 0), format!("{:.6}", -1.105554321_f64));
    assert_eq!(float64(4_294_967_294.123456_f64, 6, 0), format!("{:.6}", 4_294_967_294.123456_f64));

    const F_MAX64: f64 = 4_294_967_295.0; // 2**64 / 10
    assert_eq!(float64(F_MAX64 - 1.0_f64, 0, 0), format!("{:.0}", F_MAX64 - 1.0_f64));
    assert_eq!(float64(F_MAX64, 0, 0), format!("{:.0}", F_MAX64));
    assert_eq!(float64(-F_MAX64, 0, 0), format!("{:.0}", -F_MAX64));
    assert_eq!(float64(-F_MAX64 + 1.0_f64, 0, 0), format!("{:.0}", -F_MAX64 + 1.0_f64));
    assert_eq!(float64(f64::NAN, 3, 0), format!("{:.3}", f64::NAN));
    assert_eq!(float64(f64::EPSILON, 3, 0), format!("{:.3}", f64::EPSILON));
    assert_eq!(float64(f64::MIN_POSITIVE, 3, 0), format!("{:.3}", f64::MIN_POSITIVE));

    assert_eq!(
        float64(F_MAX64 + 1.0_f64, 3, 0),
        String::from("ovfl") // std::format "1844674407371.000"
    );
    assert_eq!(
        float64(-F_MAX64 - 1.0_f64, 3, 0),
        String::from("uflw") // std::format "-1844674407371.000"
    );
    assert_eq!(
        float64(f64::INFINITY, 3, 0),
        String::from("ovfl") // std::format "inf"
    );
    assert_eq!(
        float64(f64::NEG_INFINITY, 3, 0),
        String::from("uflw") // std::format "-inf"
    );
    assert_eq!(
        float64(321.123456_f64, 3, 0),
        String::from("321.123") // std::format "321.123456"
    );
    assert_eq!(
        float64(321.0_f64, 3, 0),
        String::from("321.000") // std::format "321"
    );
}

#[test]
fn vs_std_write_recursion() {
    assert_eq!(debug(&node()), format!("{:?}", node()));
    assert_eq!(pretty(&node()), format!("{:#?}", node()));
}

#[test]
fn vs_std_write_struct_() {
    assert_eq!(debug(&Braces {}), format!("{:?}", Braces {}));
    assert_eq!(debug(&Parens()), format!("{:?}", Parens()));
    assert_eq!(debug(&I32::default()), format!("{:?}", I32::default()));
    assert_eq!(debug(&Tuple::default()), format!("{:?}", Tuple::default()));
    assert_eq!(debug(&Pair::default()), format!("{:?}", Pair::default()));
    assert_eq!(debug(&Nested::default()), format!("{:?}", Nested::default()));

    assert_eq!(pretty(&Braces {}), format!("{:#?}", Braces {}));
    assert_eq!(pretty(&Parens()), format!("{:#?}", Parens()));
    assert_eq!(pretty(&I32::default()), format!("{:#?}", I32::default()));
    assert_eq!(pretty(&Tuple::default()), format!("{:#?}", Tuple::default()));
    assert_eq!(pretty(&Pair::default()), format!("{:#?}", Pair::default()));
    assert_eq!(pretty(&Nested::default()), format!("{:#?}", Nested::default()));
}

#[test]
fn vs_std_write_enum_() {
    assert_eq!(debug(&X::A), format!("{:?}", X::A));
    assert_eq!(debug(&X::B(0, 1)), format!("{:?}", X::B(0, 1)));
    assert_eq!(debug(&X::C { x: 0, y: 1 }), format!("{:?}", X::C { x: 0, y: 1 }));

    assert_eq!(pretty(&X::A), format!("{:#?}", X::A));
    assert_eq!(pretty(&X::B(0, 1)), format!("{:#?}", X::B(0, 1)));
    assert_eq!(pretty(&X::C { x: 0, y: 1 }), format!("{:#?}", X::C { x: 0, y: 1 }));
}

#[test]
fn vs_std_write_uwriteln() {
    let mut s = String::new();
    s.do_as_formatter(|f| {
        f.write_str("Hello\n")?;
        Ok(())
    })
    .unwrap();
    s.do_as_formatter(|f| {
        f.write_str("World\n")?;
        Ok(())
    })
    .unwrap();
    assert_eq!(s, "Hello\nWorld\n");
}

struct Unit;

impl uDebug for Unit {
    fn fmt<W>(&self, f: &mut Formatter<'_, W>) -> Result<(), W::Error>
    where
        W: uWrite + ?Sized,
    {
        f.write_str("X")
    }
}

struct Y;

impl uDebug for Y {
    fn fmt<W>(&self, f: &mut Formatter<'_, W>) -> Result<(), W::Error>
    where
        W: uWrite + ?Sized,
    {
        f.do_as_formatter(|f| {
            uDebug::fmt(&Unit, f)?;
            Ok(())
        })
    }
}

#[test]
fn formatter_uwrite() {
    assert_eq!(debug(&Y), "X")
}

#[derive(Debug)]
struct Wrapped<T>(T);

impl<T: uDebug> uDebug for Wrapped<T> {
    fn fmt<W>(&self, f: &mut Formatter<'_, W>) -> Result<(), W::Error>
    where
        W: uWrite + ?Sized,
    {
        f.debug_tuple("Wrapped")?.field(&self.0)?.finish()
    }
}

#[derive(Debug)]
enum Choice<T> {
    Z(T),
}

impl<T: uDebug> uDebug for Choice<T> {
    fn fmt<W>(&self, f: &mut Formatter<'_, W>) -> Result<(), W::Error>
    where
        W: uWrite + ?Sized,
    {
        match self {
            Choice::Z(_0) => f.debug_tuple("Z")?.field(_0)?.finish(),
        }
    }
}

#[test]
fn generic() {
    assert_eq!(debug(&Wrapped(0)), format!("{:?}", Wrapped(0)));

    assert_eq!(debug(&Choice::Z(0)), format!("{:?}", Choice::Z(0)));
}

struct Cursor<B>
where
    B: ?Sized,
{
    pos: usize,
    buffer: B,
}

impl<B> Cursor<B> {
    fn new(buffer: B) -> Self {
        Cursor { pos: 0, buffer }
    }
}

impl uWrite for Cursor<[u8]> {
    type Error = core::convert::Infallible;

    fn write_str(&mut self, s: &str) -> Result<(), core::convert::Infallible> {
        let bytes = s.as_bytes();
        let len = bytes.len();
        let start = self.pos;
        if let Some(buffer) = self.buffer.get_mut(start..start + len) {
            buffer.copy_from_slice(bytes);
            self.pos += len;
        }

        Ok(())
    }
}

// test dynamically sized writer
#[test]
fn dst() {
    let mut cursor = Cursor::new([0; 256]);
    let cursor: &mut Cursor<[u8]> = &mut cursor;

    cursor
        .do_as_formatter(|f| {
            f.write_str("The answer is ")?;
            uDisplay::fmt(&42, f)?;
            Ok(())
        })
        .ok();

    let msg = b"The answer is 42";
    assert_eq!(&cursor.buffer[..msg.len()], msg);
}

#[test]
fn vs_std_write_map() {
    assert_eq!(map_text(&BTreeMap::<(), ()>::new(), false), format!("{:?}", BTreeMap::<(), ()>::new()));
    assert_eq!(map_text(&sample_map(), false), format!("{:?}", sample_map()));

    assert_eq!(map_text(&BTreeMap::<(), ()>::new(), true), format!("{:#?}", BTreeMap::<(), ()>::new()));
    assert_eq!(map_text(&sample_map(), true), format!("{:#?}", sample_map()));
}

#[test]
fn vs_std_write_set() {
    assert_eq!(set_text(&BTreeSet::<()>::new(), false), format!("{:?}", BTreeSet::<()>::new()));
    assert_eq!(set_text(&sample_set(), false), format!("{:?}", sample_set()));

    assert_eq!(set_text(&BTreeSet::<()>::new(), true), format!("{:#?}", BTreeSet::<()>::new()));
    assert_eq!(set_text(&sample_set(), true), format!("{:#?}", sample_set()));
}
