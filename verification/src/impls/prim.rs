//! Formatting of booleans, characters, strings, references, options, results
//! and slices.

use vstd::prelude::*;
use crate::formatter::Formatter;
use crate::helpers::{
    all_debug_fit, debug_texts, inner_level, item_text, items_text, lemma_items_push,
    list_closer, list_opener, list_text, tuple_closer, tuple_opener, tuple_text,
};
use crate::write::uWrite;
use crate::{uDebug, uDisplay};

verus! {

broadcast use {crate::helpers::lemma_list_resolved, crate::helpers::lemma_tuple_resolved};

impl uDebug for bool {
    open spec fn debug_text(&self, pretty: bool, level: nat) -> Seq<char> {
        if *self {
            "true"@
        } else {
            "false"@
        }
    }

    open spec fn debug_fits(&self, level: nat) -> bool {
        true
    }

    fn fmt<W>(&self, f: &mut Formatter<'_, W>) -> (res: Result<(), W::Error>) where
        W: uWrite + ?Sized,
    {
        if *self {
            f.write_str("true")
        } else {
            f.write_str("false")
        }
    }
}

impl uDisplay for bool {
    open spec fn display_text(&self) -> Seq<char> {
        if *self {
            "true"@
        } else {
            "false"@
        }
    }

    #[inline(always)]
    fn fmt<W>(&self, f: &mut Formatter<'_, W>) -> (res: Result<(), W::Error>) where
        W: uWrite + ?Sized,
    {
        <bool as uDebug>::fmt(self, f)
    }
}

impl uDisplay for char {
    open spec fn display_text(&self) -> Seq<char> {
        seq![*self]
    }

    #[inline(always)]
    fn fmt<W>(&self, f: &mut Formatter<'_, W>) -> (res: Result<(), W::Error>) where
        W: uWrite + ?Sized,
    {
        f.write_char(*self)
    }
}

impl uDisplay for str {
    open spec fn display_text(&self) -> Seq<char> {
        self@
    }

    #[inline(always)]
    fn fmt<W>(&self, f: &mut Formatter<'_, W>) -> (res: Result<(), W::Error>) where
        W: uWrite + ?Sized,
    {
        f.write_str(self)
    }
}

impl<T> uDebug for &'_ T where T: uDebug + ?Sized {
    open spec fn debug_text(&self, pretty: bool, level: nat) -> Seq<char> {
        (**self).debug_text(pretty, level)
    }

    open spec fn debug_fits(&self, level: nat) -> bool {
        (**self).debug_fits(level)
    }

    #[inline(always)]
    fn fmt<W>(&self, f: &mut Formatter<'_, W>) -> (res: Result<(), W::Error>) where
        W: uWrite + ?Sized,
    {
        <T as uDebug>::fmt(self, f)
    }
}

impl<T> uDisplay for &'_ T where T: uDisplay + ?Sized {
    open spec fn display_text(&self) -> Seq<char> {
        (**self).display_text()
    }

    #[inline(always)]
    fn fmt<W>(&self, f: &mut Formatter<'_, W>) -> (res: Result<(), W::Error>) where
        W: uWrite + ?Sized,
    {
        <T as uDisplay>::fmt(self, f)
    }
}

impl<T> uDebug for &'_ mut T where T: uDebug + ?Sized {
    open spec fn debug_text(&self, pretty: bool, level: nat) -> Seq<char> {
        (**self).debug_text(pretty, level)
    }

    open spec fn debug_fits(&self, level: nat) -> bool {
        (**self).debug_fits(level)
    }

    #[inline(always)]
    fn fmt<W>(&self, f: &mut Formatter<'_, W>) -> (res: Result<(), W::Error>) where
        W: uWrite + ?Sized,
    {
        <T as uDebug>::fmt(self, f)
    }
}

impl<T> uDisplay for &'_ mut T where T: uDisplay + ?Sized {
    open spec fn display_text(&self) -> Seq<char> {
        (**self).display_text()
    }

    #[inline(always)]
    fn fmt<W>(&self, f: &mut Formatter<'_, W>) -> (res: Result<(), W::Error>) where
        W: uWrite + ?Sized,
    {
        <T as uDisplay>::fmt(self, f)
    }
}

/// A tuple of one field, as the builder writes it and as `tuple_text`
/// states it.
pub proof fn lemma_tuple_of_one(name: Seq<char>, body: Seq<char>, pretty: bool, level: nat)
    ensures
        tuple_text(name, seq![body], pretty, level) == name + item_text(
            tuple_opener(pretty),
            true,
            pretty,
            inner_level(pretty, level),
            body,
        ) + tuple_closer(false, pretty, inner_level(pretty, level), name.len() == 0, 1),
{
    lemma_items_push(
        tuple_opener(pretty),
        true,
        pretty,
        inner_level(pretty, level),
        Seq::empty(),
        body,
    );
    assert(Seq::<Seq<char>>::empty().push(body) =~= seq![body]);
    assert(items_text(
        tuple_opener(pretty),
        true,
        pretty,
        inner_level(pretty, level),
        Seq::empty(),
    ) + item_text(tuple_opener(pretty), true, pretty, inner_level(pretty, level), body)
        =~= item_text(tuple_opener(pretty), true, pretty, inner_level(pretty, level), body));
}

impl<T> uDebug for Option<T> where T: uDebug {
    open spec fn debug_text(&self, pretty: bool, level: nat) -> Seq<char> {
        match self {
            None => "None"@,
            Some(x) => tuple_text(
                "Some"@,
                seq![x.debug_text(pretty, inner_level(pretty, level))],
                pretty,
                level,
            ),
        }
    }

    open spec fn debug_fits(&self, level: nat) -> bool {
        match self {
            None => true,
            Some(x) => level < u8::MAX && x.debug_fits(level + 1),
        }
    }

    fn fmt<W>(&self, f: &mut Formatter<'_, W>) -> (res: Result<(), W::Error>) where
        W: uWrite + ?Sized,
    {
        match self {
            None => f.write_str("None"),
            Some(x) => {
                let ghost start = f.written();
                let ghost pretty = f.is_pretty();
                let ghost level = f.level();
                let res = f.debug_tuple("Some")?.field(x)?.finish();
                proof {
                    let body = x.debug_text(pretty, inner_level(pretty, level));
                    lemma_tuple_of_one("Some"@, body, pretty, level);
                    assert(start + "Some"@ + item_text(
                        tuple_opener(pretty),
                        true,
                        pretty,
                        inner_level(pretty, level),
                        body,
                    ) + tuple_closer(
                        false,
                        pretty,
                        inner_level(pretty, level),
                        "Some"@.len() == 0,
                        1,
                    ) =~= start + tuple_text("Some"@, seq![body], pretty, level));
                }
                res
            },
        }
    }
}

impl<T, E> uDebug for Result<T, E> where T: uDebug, E: uDebug {
    open spec fn debug_text(&self, pretty: bool, level: nat) -> Seq<char> {
        match self {
            Err(e) => tuple_text(
                "Err"@,
                seq![e.debug_text(pretty, inner_level(pretty, level))],
                pretty,
                level,
            ),
            Ok(x) => tuple_text(
                "Ok"@,
                seq![x.debug_text(pretty, inner_level(pretty, level))],
                pretty,
                level,
            ),
        }
    }

    open spec fn debug_fits(&self, level: nat) -> bool {
        match self {
            Err(e) => level < u8::MAX && e.debug_fits(level + 1),
            Ok(x) => level < u8::MAX && x.debug_fits(level + 1),
        }
    }

    fn fmt<W>(&self, f: &mut Formatter<'_, W>) -> (res: Result<(), W::Error>) where
        W: uWrite + ?Sized,
    {
        let ghost start = f.written();
        let ghost pretty = f.is_pretty();
        let ghost level = f.level();
        match self {
            Err(e) => {
                let res = f.debug_tuple("Err")?.field(e)?.finish();
                proof {
                    let body = e.debug_text(pretty, inner_level(pretty, level));
                    lemma_tuple_of_one("Err"@, body, pretty, level);
                    assert(start + "Err"@ + item_text(
                        tuple_opener(pretty),
                        true,
                        pretty,
                        inner_level(pretty, level),
                        body,
                    ) + tuple_closer(false, pretty, inner_level(pretty, level), "Err"@.len() == 0, 1)
                        =~= start + tuple_text("Err"@, seq![body], pretty, level));
                }
                res
            },
            Ok(x) => {
                let res = f.debug_tuple("Ok")?.field(x)?.finish();
                proof {
                    let body = x.debug_text(pretty, inner_level(pretty, level));
                    lemma_tuple_of_one("Ok"@, body, pretty, level);
                    assert(start + "Ok"@ + item_text(
                        tuple_opener(pretty),
                        true,
                        pretty,
                        inner_level(pretty, level),
                        body,
                    ) + tuple_closer(false, pretty, inner_level(pretty, level), "Ok"@.len() == 0, 1)
                        =~= start + tuple_text("Ok"@, seq![body], pretty, level));
                }
                res
            },
        }
    }
}

impl<T> uDebug for [T] where T: uDebug {
    open spec fn debug_text(&self, pretty: bool, level: nat) -> Seq<char> {
        list_text(debug_texts(self@, pretty, inner_level(pretty, level)), pretty, level)
    }

    open spec fn debug_fits(&self, level: nat) -> bool {
        level < u8::MAX && all_debug_fit(self@, level + 1)
    }

    fn fmt<W>(&self, f: &mut Formatter<'_, W>) -> (res: Result<(), W::Error>) where
        W: uWrite + ?Sized,
    {
        let ghost start = f.written();
        let mut list = f.debug_list()?;
        list.entries(self)?;
        let res = list.finish();
        proof {
            let pretty = list.is_pretty();
            let level = old(f).level();
            assert(start + "["@ + items_text(
                list_opener(pretty),
                true,
                pretty,
                inner_level(pretty, level),
                debug_texts(self@, pretty, inner_level(pretty, level)),
            ) + list_closer(self@.len() == 0, pretty, inner_level(pretty, level), "]"@)
                =~= start + self.debug_text(
                pretty,
                level,
            ));
        }
        res
    }
}

} // verus!
