use ufmt::{uDebug, uWrite, Formatter, UnstableDoAsFormatter};

struct Pair {
    x: u32,
    y: u32,
}

impl uDebug for Pair {
    fn fmt<W>(&self, f: &mut Formatter<'_, W>) -> core::result::Result<(), W::Error>
    where
        W: uWrite + ?Sized,
    {
        f.debug_struct("Pair")?.field("x", &self.x)?.field("y", &self.y)?.finish()
    }
}

#[test]
fn uwrite() {
    let mut s = String::new();
    let pair = Pair { x: 1, y: 2 };

    s.do_as_formatter(|f| {
        uDebug::fmt(&pair, f)?;
        core::result::Result::Ok(())
    })
    .unwrap();
    assert_eq!(s, "Pair { x: 1, y: 2 }");
}

#[test]
fn gh36_uwriteln() {
    let mut s = String::new();
    let pair = Pair { x: 1, y: 2 };

    s.do_as_formatter(|f| {
        uDebug::fmt(&pair, f)?;
        f.write_str("\n")?;
        core::result::Result::Ok(())
    })
    .unwrap();
    assert_eq!(s, "Pair { x: 1, y: 2 }\n");
}
