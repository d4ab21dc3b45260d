//! Formatting of arrays.

use vstd::prelude::*;
use crate::formatter::Formatter;
use crate::helpers::{all_debug_fit, debug_texts, inner_level, list_text};
use crate::write::uWrite;
use crate::uDebug;

verus! {

impl<T, const N: usize> uDebug for [T; N] where T: uDebug {
    open spec fn debug_text(&self, pretty: bool, level: nat) -> Seq<char> {
        list_text(debug_texts(self@, pretty, inner_level(pretty, level)), pretty, level)
    }

    open spec fn debug_fits(&self, level: nat) -> bool {
        level < u8::MAX && all_debug_fit(self@, level + 1)
    }

    fn fmt<W>(&self, f: &mut Formatter<'_, W>) -> (res: Result<(), W::Error>) where
        W: uWrite + ?Sized,
    {
        <[T] as uDebug>::fmt(self.as_slice(), f)
    }
}

} // verus!
