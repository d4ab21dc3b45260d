use ufmt::utils::{Ignore, LineBuffered, W};
use ufmt::{uDebug, uDisplay, uWrite, Formatter, UnstableDoAsFormatter};

/// Records every write, and fails when it has taken as many as it may.
struct Recorder {
    writes: Vec<String>,
    limit: usize,
}

impl Recorder {
    fn new(limit: usize) -> Self {
        Recorder { writes: Vec::new(), limit }
    }
}

impl uWrite for Recorder {
    type Error = usize;

    fn write_str(&mut self, s: &str) -> Result<(), usize> {
        if self.writes.len() >= self.limit {
            return Err(self.writes.len());
        }
        self.writes.push(s.to_string());
        Ok(())
    }
}

struct Pair {
    x: i32,
    y: i32,
}

impl uDebug for Pair {
    fn fmt<W>(&self, f: &mut Formatter<'_, W>) -> Result<(), W::Error>
    where
        W: uWrite + ?Sized,
    {
        f.debug_struct("Pair")?.field("x", &self.x)?.field("y", &self.y)?.finish()
    }
}

#[test]
fn the_first_failure_ends_the_call() {
    let mut sink = Recorder::new(3);
    let res = sink.do_as_formatter(|f| uDebug::fmt(&Pair { x: 1, y: 2 }, f));
    assert_eq!(res, Err(3));
    assert_eq!(sink.writes, vec!["Pair", " {", " "]);

    let mut sink = Recorder::new(0);
    assert_eq!(sink.do_as_formatter(|f| uDisplay::fmt(&5u8, f)), Err(0));
    assert!(sink.writes.is_empty());
}

#[test]
fn pretty_is_restored_after_a_failure() {
    let mut sink = Recorder::new(1);
    let mut f = Formatter::new(&mut sink);
    assert_eq!(f.pretty(|f| uDebug::fmt(&Pair { x: 1, y: 2 }, f)), Err(1));
    drop(f);
    sink.limit = 100;
    sink.writes.clear();
    let mut f = Formatter::new(&mut sink);
    assert_eq!(f.pretty(|f| f.write_str("in")), Ok(()));
    uDebug::fmt(&(1,), &mut f).unwrap();
    drop(f);
    assert_eq!(sink.writes.concat(), "in(1,)");

    let mut sink = Recorder::new(1);
    let mut f = Formatter::new(&mut sink);
    assert_eq!(f.pretty(|f| uDebug::fmt(&Pair { x: 1, y: 2 }, f)), Err(1));
    assert_eq!(uDebug::fmt(&(1,), &mut f), Err(1));
}

#[test]
fn a_character_is_written_as_one_slice() {
    let mut sink = Recorder::new(10);
    sink.write_char('€').unwrap();
    sink.write_char('a').unwrap();
    assert_eq!(sink.writes, vec!["€", "a"]);
    let mut s = String::new();
    s.write_char('😀').unwrap();
    s.write_str("!").unwrap();
    assert_eq!(s, "😀!");
}

#[test]
fn ignore_swallows_errors() {
    let mut ignore = Ignore::new(Recorder::new(1));
    assert!(ignore.write_str("kept").is_ok());
    assert!(ignore.write_str("lost").is_ok());
    assert!(ignore.do_as_formatter(|f| uDisplay::fmt(&1u8, f)).is_ok());
    let inner = ignore.free();
    assert_eq!(inner.writes, vec!["kept"]);
}

#[test]
fn the_discarding_sink_takes_anything() {
    let mut w = W::new();
    assert!(w.write_str("anything").is_ok());
    assert!(w.do_as_formatter(|f| uDebug::fmt(&Pair { x: 1, y: 2 }, f)).is_ok());
}

#[test]
fn lines_are_flushed_as_they_end() {
    let mut buffered: LineBuffered<Recorder, 8> = LineBuffered::new(Recorder::new(100));
    buffered.write_str("ab").unwrap();
    buffered.write_str("cd").unwrap();
    buffered.write_str("\n").unwrap();
    buffered.write_str("one\ntwo\nthr").unwrap();
    buffered.write_str("ee").unwrap();
    buffered.flush().unwrap();
    buffered.write_str("lost").unwrap();
    let inner = buffered.free();
    assert_eq!(inner.writes, vec!["abcd\n", "one\n", "two\n", "three"]);
}

#[test]
fn what_does_not_fit_is_flushed_or_written_through() {
    let mut buffered: LineBuffered<Recorder, 4> = LineBuffered::new(Recorder::new(100));
    buffered.write_str("abc").unwrap();
    buffered.write_str("de").unwrap();
    buffered.write_str("0123456789").unwrap();
    buffered.write_str("é€").unwrap();
    buffered.write_str("x").unwrap();
    buffered.flush().unwrap();
    let inner = buffered.free();
    assert_eq!(inner.writes, vec!["abc", "de", "0123456789", "", "é€", "x"]);
}

#[test]
fn line_buffering_passes_errors_on() {
    let mut buffered: LineBuffered<Recorder, 8> = LineBuffered::new(Recorder::new(1));
    assert_eq!(buffered.write_str("a\n"), Ok(()));
    assert_eq!(buffered.write_str("b"), Ok(()));
    assert_eq!(buffered.write_str("c\n"), Err(1));
    assert_eq!(buffered.flush(), Err(1));
    let mut through: LineBuffered<Recorder, 8> = LineBuffered::new(Recorder::new(100));
    through.do_as_formatter(|f| uDebug::fmt(&Pair { x: 1, y: 2 }, f)).unwrap();
    through.flush().unwrap();
    assert_eq!(through.free().writes.concat(), "Pair { x: 1, y: 2 }");
}
