use std::collections::{BTreeMap, BTreeSet};

use ufmt::impls::collections::{MapEntries, SetEntries};
use ufmt::impls::ptr::fmt_address;
use ufmt::{uDebug, uDisplay, uWrite, Formatter, UnstableDoAsFormatter};

fn debug<T: uDebug + ?Sized>(value: &T) -> String {
    let mut s = String::new();
    s.do_as_formatter(|f| uDebug::fmt(value, f)).unwrap();
    s
}

fn pretty<T: uDebug + ?Sized>(value: &T) -> String {
    let mut s = String::new();
    s.do_as_formatter(|f| f.pretty(|f| uDebug::fmt(value, f))).unwrap();
    s
}

fn display<T: uDisplay + ?Sized>(value: &T) -> String {
    let mut s = String::new();
    s.do_as_formatter(|f| uDisplay::fmt(value, f)).unwrap();
    s
}

fn address(address: usize) -> String {
    let mut s = String::new();
    s.do_as_formatter(|f| fmt_address(address, f)).unwrap();
    s
}

struct Node {
    value: i32,
    next: Option<Box<Node>>,
}

impl uDebug for Node {
    fn fmt<W>(&self, f: &mut Formatter<'_, W>) -> Result<(), W::Error>
    where
        W: uWrite + ?Sized,
    {
        f.debug_struct("Node")?.field("value", &self.value)?.field("next", &self.next)?.finish()
    }
}

impl std::fmt::Debug for Node {
    fn fmt(&self, f: &mut std::fmt::Formatter<'_>) -> std::fmt::Result {
        f.debug_struct("Node").field("value", &self.value).field("next", &self.next).finish()
    }
}

#[derive(Debug)]
struct Braces {}

impl uDebug for Braces {
    fn fmt<W>(&self, f: &mut Formatter<'_, W>) -> Result<(), W::Error>
    where
        W: uWrite + ?Sized,
    {
        f.debug_struct("Braces")?.finish()
    }
}

#[derive(Debug)]
struct Parens();

impl uDebug for Parens {
    fn fmt<W>(&self, f: &mut Formatter<'_, W>) -> Result<(), W::Error>
    where
        W: uWrite + ?Sized,
    {
        f.debug_tuple("Parens")?.finish()
    }
}

#[derive(Debug, Default)]
struct I32(i32);

impl uDebug for I32 {
    fn fmt<W>(&self, f: &mut Formatter<'_, W>) -> Result<(), W::Error>
    where
        W: uWrite + ?Sized,
    {
        f.debug_tuple("I32")?.field(&self.0)?.finish()
    }
}

#[derive(Debug, Default)]
struct Tuple(i32, i32);

impl uDebug for Tuple {
    fn fmt<W>(&self, f: &mut Formatter<'_, W>) -> Result<(), W::Error>
    where
        W: uWrite + ?Sized,
    {
        f.debug_tuple("Tuple")?.field(&self.0)?.field(&self.1)?.finish()
    }
}

#[derive(Debug, Default)]
struct Pair {
    x: i32,
    y: i32,
}

impl uDebug for Pair {
    fn fmt<W>(&self, f: &mut Formatter<'_, W>) -> Result<(), W::Error>
    where
        W: uWrite + ?Sized,
    {
        f.debug_struct("Pair")?.field("x", &self.x)?.field("y", &self.y)?.finish()
    }
}

#[derive(Debug, Default)]
struct Nested {
    first: Pair,
    second: Pair,
}

impl uDebug for Nested {
    fn fmt<W>(&self, f: &mut Formatter<'_, W>) -> Result<(), W::Error>
    where
        W: uWrite + ?Sized,
    {
        f.debug_struct("Nested")?.field("first", &self.first)?.field("second", &self.second)?.finish()
    }
}

#[derive(Debug)]
enum X {
    A,
    B(u8, u16),
    C { x: u8, y: u16 },
}

impl uDebug for X {
    fn fmt<W>(&self, f: &mut Formatter<'_, W>) -> Result<(), W::Error>
    where
        W: uWrite + ?Sized,
    {
        match self {
            X::A => f.write_str("A"),
            X::B(_0, _1) => f.debug_tuple("B")?.field(_0)?.field(_1)?.finish(),
            X::C { x, y } => f.debug_struct("C")?.field("x", x)?.field("y", y)?.finish(),
        }
    }
}

fn node() -> Node {
    let tail = Node { value: 0, next: None };
    Node { value: 1, next: Some(Box::new(tail)) }
}

fn map_text<K: Copy + uDebug, V: Copy + uDebug>(m: &BTreeMap<K, V>, pretty_mode: bool) -> String {
    let entries: Vec<(K, V)> = m.iter().map(|(k, v)| (*k, *v)).collect();
    if pretty_mode {
        pretty(&MapEntries(&entries))
    } else {
        debug(&MapEntries(&entries))
    }
}

fn set_text<T: Copy + uDebug>(s: &BTreeSet<T>, pretty_mode: bool) -> String {
    let members: Vec<T> = s.iter().copied().collect();
    if pretty_mode {
        pretty(&SetEntries(&members))
    } else {
        debug(&SetEntries(&members))
    }
}

fn sample_map() -> BTreeMap<i32, i32> {
    let mut m = BTreeMap::new();
    m.insert(1, 2);
    m.insert(3, 4);
    m
}

fn sample_set() -> BTreeSet<i32> {
    let mut m = BTreeSet::new();
    m.insert(1);
    m.insert(3);
    m
}

#[test]
fn tests_core() {
    assert_eq!(debug(&None::<i32>), format!("{:?}", None::<i32>));
    assert_eq!(pretty(&None::<i32>), format!("{:#?}", None::<i32>));

    assert_eq!(debug(&Some(0)), format!("{:?}", Some(0)));
    assert_eq!(pretty(&Some(0)), format!("{:#?}", Some(0)));

    assert_eq!(debug(&Ok::<_, ()>(1)), format!("{:?}", Ok::<_, ()>(1)));
    assert_eq!(pretty(&Ok::<_, ()>(1)), format!("{:#?}", Ok::<_, ()>(1)));

    assert_eq!(debug(&Err::<(), _>(2)), format!("{:?}", Err::<(), _>(2)));
    assert_eq!(pretty(&Err::<(), _>(2)), format!("{:#?}", Err::<(), _>(2)));
}

#[test]
fn tests_uxx() {
    assert_eq!(display(&0u8), format!("{}", 0u8));
    assert_eq!(display(&10u8), format!("{}", 10u8));
    assert_eq!(display(&100u8), format!("{}", 100u8));

    // extreme values
    assert_eq!(display(&u8::max_value()), format!("{}", u8::max_value()));
    assert_eq!(display(&u16::max_value()), format!("{}", u16::max_value()));
    assert_eq!(display(&u32::max_value()), format!("{}", u32::max_value()));
    assert_eq!(display(&u64::max_value()), format!("{}", u64::max_value()));
    assert_eq!(display(&u128::max_value()), format!("{}", u128::max_value()));
    assert_eq!(display(&usize::max_value()), format!("{}", usize::max_value()));
}

#[test]
fn tests_ixx() {
    // sanity check
    assert_eq!(display(&0i8), format!("{}", 0i8));
    assert_eq!(display(&10i8), format!("{}", 10i8));
    assert_eq!(display(&100i8), format!("{}", 100i8));

    // extreme values
    assert_eq!(display(&i8::min_value()), format!("{}", i8::min_value()));
    assert_eq!(display(&i8::max_value()), format!("{}", i8::max_value()));
    assert_eq!(display(&i16::min_value()), format!("{}", i16::min_value()));
    assert_eq!(display(&i16::max_value()), format!("{}", i16::max_value()));
    assert_eq!(display(&i32::min_value()), format!("{}", i32::min_value()));
    assert_eq!(display(&i32::max_value()), format!("{}", i32::max_value()));
    assert_eq!(display(&i64::min_value()), format!("{}", i64::min_value()));
    assert_eq!(display(&i64::max_value()), format!("{}", i64::max_value()));
    assert_eq!(display(&i128::min_value()), format!("{}", i128::min_value()));
    assert_eq!(display(&i128::max_value()), format!("{}", i128::max_value()));
    assert_eq!(display(&isize::min_value()), format!("{}", isize::min_value()));
    assert_eq!(display(&isize::max_value()), format!("{}", isize::max_value()));
}

#[test]
fn tests_fmt() {
    let mut s = String::new();
    s.do_as_formatter(|f| {
        f.write_str("Hello, world!")?;
        Ok(())
    })
    .unwrap();
    assert_eq!(s, format!("Hello, world!"));

    let mut s = String::new();
    s.do_as_formatter(|f| {
        f.write_str("The answer is ")?;
        uDisplay::fmt(&42, f)?;
        Ok(())
    })
    .unwrap();
    assert_eq!(s, format!("The answer is {}", 42));
}

#[test]
fn tests_ptr() {
    assert_eq!(address(1), "0x1");
    assert_eq!(address(0xf), "0xf");
    assert_eq!(address(0xff), "0xff");
    assert_eq!(address(0xfff), "0xfff");
    assert_eq!(address(0xffff), "0xffff");
    assert_eq!(address(0xfffff), "0xfffff");
    assert_eq!(address(0xffffff), "0xffffff");
    assert_eq!(address(0xfffffff), "0xfffffff");
    assert_eq!(address(0xffffffff), "0xffffffff");
    assert_eq!(address(0xfffffffff_u64 as usize), "0xfffffffff");
}

#[test]
fn tests_tuples() {
    assert_eq!(debug(&()), format!("{:?}", ()));
    assert_eq!(debug(&(1,)), format!("{:?}", (1,)));
    assert_eq!(debug(&(1, 2)), format!("{:?}", (1, 2)));
    assert_eq!(debug(&(1, 2, 3)), format!("{:?}", (1, 2, 3)));
    assert_eq!(debug(&(1, 2, 3, 4)), format!("{:?}", (1, 2, 3, 4)));
    assert_eq!(debug(&(1, 2, 3, 4, 5)), format!("{:?}", (1, 2, 3, 4, 5)));
    assert_eq!(debug(&(1, 2, 3, 4, 5, 6)), format!("{:?}", (1, 2, 3, 4, 5, 6)));
    assert_eq!(debug(&(1, 2, 3, 4, 5, 6, 7)), format!("{:?}", (1, 2, 3, 4, 5, 6, 7)));
    assert_eq!(debug(&(1, 2, 3, 4, 5, 6, 7, 8)), format!("{:?}", (1, 2, 3, 4, 5, 6, 7, 8)));
    assert_eq!(debug(&(1, 2, 3, 4, 5, 6, 7, 8, 9)), format!("{:?}", (1, 2, 3, 4, 5, 6, 7, 8, 9)));
    assert_eq!(
        debug(&(1, 2, 3, 4, 5, 6, 7, 8, 9, 10)),
        format!("{:?}", (1, 2, 3, 4, 5, 6, 7, 8, 9, 10))
    );
    assert_eq!(
        debug(&(1, 2, 3, 4, 5, 6, 7, 8, 9, 10, 11)),
        format!("{:?}", (1, 2, 3, 4, 5, 6, 7, 8, 9, 10, 11))
    );
    assert_eq!(
        debug(&(1, 2, 3, 4, 5, 6, 7, 8, 9, 10, 11, 12)),
        format!("{:?}", (1, 2, 3, 4, 5, 6, 7, 8, 9, 10, 11, 12))
    );

    assert_eq!(pretty(&()), format!("{:#?}", ()));
    assert_eq!(pretty(&(1,)), format!("{:#?}", (1,)));
    assert_eq!(pretty(&(1, 2)), format!("{:#?}", (1, 2)));
}

#[test]
fn tests_slice() {
    assert_eq!(debug(&[0; 0]), format!("{:?}", [0; 0]));
    assert_eq!(debug(&[0]), format!("{:?}", [0]));
    assert_eq!(debug(&[0, 1]), format!("{:?}", [0, 1]));

    assert_eq!(pretty(&[0; 0]), format!("{:#?}", [0; 0]));
    assert_eq!(pretty(&[0]), format!("{:#?}", [0]));
    assert_eq!(pretty(&[0, 1]), format!("{:#?}", [0, 1]));
}

#[test]
fn tests_recursion() {
    assert_eq!(debug(&node()), format!("{:?}", node()));
    assert_eq!(pretty(&node()), format!("{:#?}", node()));
}

#[test]
fn tests_struct_() {
    assert_eq!(debug(&Braces {}), format!("{:?}", Braces {}));
    assert_eq!(debug(&Parens()), format!("{:?}", Parens()));
    assert_eq!(debug(&I32::default()), format!("{:?}", I32::default()));
    assert_eq!(debug(&Tuple::default()), format!("{:?}", Tuple::default()));
    assert_eq!(debug(&Pair::default()), format!("{:?}", Pair::default()));
    assert_eq!(debug(&Nested::default()), format!("{:?}", Nested::default()));

    assert_eq!(pretty(&Braces {}), format!("{:#?}", Braces {}));
    assert_eq!(pretty(&Parens()), format!("{:#?}", Parens()));
    assert_eq!(pretty(&I32::default()), format!("{:#?}", I32::default()));
    assert_eq!(pretty(&Tuple::default()), format!("{:#?}", Tuple::default()));
    assert_eq!(pretty(&Pair::default()), format!("{:#?}", Pair::default()));
    assert_eq!(pretty(&Nested::default()), format!("{:#?}", Nested::default()));
}

#[test]
fn tests_enum_() {
    assert_eq!(debug(&X::A), format!("{:?}", X::A));
    assert_eq!(debug(&X::B(0, 1)), format!("{:?}", X::B(0, 1)));
    assert_eq!(debug(&X::C { x: 0, y: 1 }), format!("{:?}", X::C { x: 0, y: 1 }));

    assert_eq!(pretty(&X::A), format!("{:#?}", X::A));
    assert_eq!(pretty(&X::B(0, 1)), format!("{:#?}", X::B(0, 1)));
    assert_eq!(pretty(&X::C { x: 0, y: 1 }), format!("{:#?}", X::C { x: 0, y: 1 }));
}

#[test]
fn tests_uwriteln() {
    let mut s = String::new();
    s.do_as_formatter(|f| {
        f.write_str("Hello\n")?;
        Ok(())
    })
    .unwrap();
    s.do_as_formatter(|f| {
        f.write_str("World\n")?;
        Ok(())
    })
    .unwrap();
    assert_eq!(s, "Hello\nWorld\n");
}

#[test]
fn tests_map() {
    assert_eq!(map_text(&BTreeMap::<(), ()>::new(), false), format!("{:?}", BTreeMap::<(), ()>::new()));
    assert_eq!(map_text(&sample_map(), false), format!("{:?}", sample_map()));

    assert_eq!(map_text(&BTreeMap::<(), ()>::new(), true), format!("{:#?}", BTreeMap::<(), ()>::new()));
    assert_eq!(map_text(&sample_map(), true), format!("{:#?}", sample_map()));
}

#[test]
fn tests_set() {
    assert_eq!(set_text(&BTreeSet::<()>::new(), false), format!("{:?}", BTreeSet::<()>::new()));
    assert_eq!(set_text(&sample_set(), false), format!("{:?}", sample_set()));

    assert_eq!(set_text(&BTreeSet::<()>::new(), true), format!("{:#?}", BTreeSet::<()>::new()));
    assert_eq!(set_text(&sample_set(), true), format!("{:#?}", sample_set()));
}
