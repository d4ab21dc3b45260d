//! Formatting of boxes, strings and vectors.

use vstd::prelude::*;
use crate::formatter::Formatter;
use crate::helpers::{all_debug_fit, debug_texts, inner_level, list_text};
use crate::write::uWrite;
use crate::{uDebug, uDisplay};

verus! {

impl<T> uDebug for Box<T> where T: uDebug {
    open spec fn debug_text(&self, pretty: bool, level: nat) -> Seq<char> {
        (**self).debug_text(pretty, level)
    }

    open spec fn debug_fits(&self, level: nat) -> bool {
        (**self).debug_fits(level)
    }

    fn fmt<W>(&self, f: &mut Formatter<'_, W>) -> (res: Result<(), W::Error>) where
        W: uWrite + ?Sized,
    {
        <T as uDebug>::fmt(self, f)
    }
}

impl<T> uDisplay for Box<T> where T: uDisplay {
    open spec fn display_text(&self) -> Seq<char> {
        (**self).display_text()
    }

    fn fmt<W>(&self, f: &mut Formatter<'_, W>) -> (res: Result<(), W::Error>) where
        W: uWrite + ?Sized,
    {
        <T as uDisplay>::fmt(self, f)
    }
}

impl uDisplay for String {
    open spec fn display_text(&self) -> Seq<char> {
        self@
    }

    fn fmt<W>(&self, f: &mut Formatter<'_, W>) -> (res: Result<(), W::Error>) where
        W: uWrite + ?Sized,
    {
        <str as uDisplay>::fmt(self.as_str(), f)
    }
}

impl<T> uDebug for Vec<T> where T: uDebug {
    open spec fn debug_text(&self, pretty: bool, level: nat) -> Seq<char> {
        list_text(debug_texts(self@, pretty, inner_level(pretty, level)), pretty, level)
    }

    open spec fn debug_fits(&self, level: nat) -> bool {
        level < u8::MAX && all_debug_fit(self@, level + 1)
    }

    fn fmt<W>(&self, f: &mut Formatter<'_, W>) -> (res: Result<(), W::Error>) where
        W: uWrite + ?Sized,
    {
        <[T] as uDebug>::fmt(self.as_slice(), f)
    }
}

} // verus!
