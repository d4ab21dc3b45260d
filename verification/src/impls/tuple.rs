//! Formatting of tuples.

use vstd::prelude::*;
use crate::formatter::Formatter;
use crate::helpers::{
    inner_level, lemma_items_start, lemma_items_step, lemma_tuple_close, tuple_opener, tuple_text,
};
use crate::write::uWrite;
use crate::uDebug;

verus! {

broadcast use crate::helpers::lemma_tuple_resolved;

impl uDebug for () {
    open spec fn debug_text(&self, pretty: bool, level: nat) -> Seq<char> {
        "()"@
    }

    open spec fn debug_fits(&self, level: nat) -> bool {
        true
    }

    fn fmt<W>(&self, f: &mut Formatter<'_, W>) -> (res: Result<(), W::Error>) where
        W: uWrite + ?Sized,
    {
        f.write_str("()")
    }
}

impl<A> uDebug for (A,) where A: uDebug {
    open spec fn debug_text(&self, pretty: bool, level: nat) -> Seq<char> {
        tuple_text(
            Seq::empty(),
            seq![
                self.0.debug_text(pretty, inner_level(pretty, level)),
            ],
            pretty,
            level,
        )
    }

    open spec fn debug_fits(&self, level: nat) -> bool {
        level < u8::MAX && self.0.debug_fits(level + 1)
    }

    fn fmt<W>(&self, f: &mut Formatter<'_, W>) -> (res: Result<(), W::Error>) where
        W: uWrite + ?Sized,
    {
        let ghost start = f.written();
        let ghost pretty = f.is_pretty();
        let ghost level = f.level();
        let ghost inner = inner_level(pretty, level);
        let ghost opener = tuple_opener(pretty);
        let ghost bodies = seq![
            self.0.debug_text(pretty, inner),
        ];
        let mut tuple = f.debug_tuple("")?;
        let ghost prefix = start + ""@;
        let ghost mut text = tuple.written();
        proof {
            reveal_strlit("");
            assert(""@ =~= Seq::<char>::empty());
            lemma_items_start(prefix, opener, pretty, inner, bodies);
        }
        tuple.field(&self.0)?;
        proof {
            lemma_items_step(prefix, opener, pretty, inner, bodies, 0, text, tuple.written());
            text = tuple.written();
        }
        let res = tuple.finish();
        proof {
            if res is Ok {
                lemma_tuple_close(start, ""@, bodies, pretty, level, text, tuple.written());
            }
        }
        res
    }
}

impl<A, B> uDebug for (A, B,) where A: uDebug, B: uDebug {
    open spec fn debug_text(&self, pretty: bool, level: nat) -> Seq<char> {
        tuple_text(
            Seq::empty(),
            seq![
                self.0.debug_text(pretty, inner_level(pretty, level)),
                self.1.debug_text(pretty, inner_level(pretty, level)),
            ],
            pretty,
            level,
        )
    }

    open spec fn debug_fits(&self, level: nat) -> bool {
        level < u8::MAX && self.0.debug_fits(level + 1)
            && self.1.debug_fits(level + 1)
    }

    fn fmt<W>(&self, f: &mut Formatter<'_, W>) -> (res: Result<(), W::Error>) where
        W: uWrite + ?Sized,
    {
        let ghost start = f.written();
        let ghost pretty = f.is_pretty();
        let ghost level = f.level();
        let ghost inner = inner_level(pretty, level);
        let ghost opener = tuple_opener(pretty);
        let ghost bodies = seq![
            self.0.debug_text(pretty, inner),
            self.1.debug_text(pretty, inner),
        ];
        let mut tuple = f.debug_tuple("")?;
        let ghost prefix = start + ""@;
        let ghost mut text = tuple.written();
        proof {
            reveal_strlit("");
            assert(""@ =~= Seq::<char>::empty());
            lemma_items_start(prefix, opener, pretty, inner, bodies);
        }
        tuple.field(&self.0)?;
        proof {
            lemma_items_step(prefix, opener, pretty, inner, bodies, 0, text, tuple.written());
            text = tuple.written();
        }
        tuple.field(&self.1)?;
        proof {
            lemma_items_step(prefix, opener, pretty, inner, bodies, 1, text, tuple.written());
            text = tuple.written();
        }
        let res = tuple.finish();
        proof {
            if res is Ok {
                lemma_tuple_close(start, ""@, bodies, pretty, level, text, tuple.written());
            }
        }
        res
    }
}

impl<A, B, C> uDebug for (A, B, C,) where A: uDebug, B: uDebug, C: uDebug {
    open spec fn debug_text(&self, pretty: bool, level: nat) -> Seq<char> {
        tuple_text(
            Seq::empty(),
            seq![
                self.0.debug_text(pretty, inner_level(pretty, level)),
                self.1.debug_text(pretty, inner_level(pretty, level)),
                self.2.debug_text(pretty, inner_level(pretty, level)),
            ],
            pretty,
            level,
        )
    }

    open spec fn debug_fits(&self, level: nat) -> bool {
        level < u8::MAX && self.0.debug_fits(level + 1)
            && self.1.debug_fits(level + 1)
            && self.2.debug_fits(level + 1)
    }

    fn fmt<W>(&self, f: &mut Formatter<'_, W>) -> (res: Result<(), W::Error>) where
        W: uWrite + ?Sized,
    {
        let ghost start = f.written();
        let ghost pretty = f.is_pretty();
        let ghost level = f.level();
        let ghost inner = inner_level(pretty, level);
        let ghost opener = tuple_opener(pretty);
        let ghost bodies = seq![
            self.0.debug_text(pretty, inner),
            self.1.debug_text(pretty, inner),
            self.2.debug_text(pretty, inner),
        ];
        let mut tuple = f.debug_tuple("")?;
        let ghost prefix = start + ""@;
        let ghost mut text = tuple.written();
        proof {
            reveal_strlit("");
            assert(""@ =~= Seq::<char>::empty());
            lemma_items_start(prefix, opener, pretty, inner, bodies);
        }
        tuple.field(&self.0)?;
        proof {
            lemma_items_step(prefix, opener, pretty, inner, bodies, 0, text, tuple.written());
            text = tuple.written();
        }
        tuple.field(&self.1)?;
        proof {
            lemma_items_step(prefix, opener, pretty, inner, bodies, 1, text, tuple.written());
            text = tuple.written();
        }
        tuple.field(&self.2)?;
        proof {
            lemma_items_step(prefix, opener, pretty, inner, bodies, 2, text, tuple.written());
            text = tuple.written();
        }
        let res = tuple.finish();
        proof {
            if res is Ok {
                lemma_tuple_close(start, ""@, bodies, pretty, level, text, tuple.written());
            }
        }
        res
    }
}

impl<A, B, C, D> uDebug for (A, B, C, D,) where A: uDebug, B: uDebug, C: uDebug, D: uDebug {
    open spec fn debug_text(&self, pretty: bool, level: nat) -> Seq<char> {
        tuple_text(
            Seq::empty(),
            seq![
                self.0.debug_text(pretty, inner_level(pretty, level)),
                self.1.debug_text(pretty, inner_level(pretty, level)),
                self.2.debug_text(pretty, inner_level(pretty, level)),
                self.3.debug_text(pretty, inner_level(pretty, level)),
            ],
            pretty,
            level,
        )
    }

    open spec fn debug_fits(&self, level: nat) -> bool {
        level < u8::MAX && self.0.debug_fits(level + 1)
            && self.1.debug_fits(level + 1)
            && self.2.debug_fits(level + 1)
            && self.3.debug_fits(level + 1)
    }

    fn fmt<W>(&self, f: &mut Formatter<'_, W>) -> (res: Result<(), W::Error>) where
        W: uWrite + ?Sized,
    {
        let ghost start = f.written();
        let ghost pretty = f.is_pretty();
        let ghost level = f.level();
        let ghost inner = inner_level(pretty, level);
        let ghost opener = tuple_opener(pretty);
        let ghost bodies = seq![
            self.0.debug_text(pretty, inner),
            self.1.debug_text(pretty, inner),
            self.2.debug_text(pretty, inner),
            self.3.debug_text(pretty, inner),
        ];
        let mut tuple = f.debug_tuple("")?;
        let ghost prefix = start + ""@;
        let ghost mut text = tuple.written();
        proof {
            reveal_strlit("");
            assert(""@ =~= Seq::<char>::empty());
            lemma_items_start(prefix, opener, pretty, inner, bodies);
        }
        tuple.field(&self.0)?;
        proof {
            lemma_items_step(prefix, opener, pretty, inner, bodies, 0, text, tuple.written());
            text = tuple.written();
        }
        tuple.field(&self.1)?;
        proof {
            lemma_items_step(prefix, opener, pretty, inner, bodies, 1, text, tuple.written());
            text = tuple.written();
        }
        tuple.field(&self.2)?;
        proof {
            lemma_items_step(prefix, opener, pretty, inner, bodies, 2, text, tuple.written());
            text = tuple.written();
        }
        tuple.field(&self.3)?;
        proof {
            lemma_items_step(prefix, opener, pretty, inner, bodies, 3, text, tuple.written());
            text = tuple.written();
        }
        let res = tuple.finish();
        proof {
            if res is Ok {
                lemma_tuple_close(start, ""@, bodies, pretty, level, text, tuple.written());
            }
        }
        res
    }
}

impl<A, B, C, D, E> uDebug for (A, B, C, D, E,) where A: uDebug, B: uDebug, C: uDebug, D: uDebug, E: uDebug {
    open spec fn debug_text(&self, pretty: bool, level: nat) -> Seq<char> {
        tuple_text(
            Seq::empty(),
            seq![
                self.0.debug_text(pretty, inner_level(pretty, level)),
                self.1.debug_text(pretty, inner_level(pretty, level)),
                self.2.debug_text(pretty, inner_level(pretty, level)),
                self.3.debug_text(pretty, inner_level(pretty, level)),
                self.4.debug_text(pretty, inner_level(pretty, level)),
            ],
            pretty,
            level,
        )
    }

    open spec fn debug_fits(&self, level: nat) -> bool {
        level < u8::MAX && self.0.debug_fits(level + 1)
            && self.1.debug_fits(level + 1)
            && self.2.debug_fits(level + 1)
            && self.3.debug_fits(level + 1)
            && self.4.debug_fits(level + 1)
    }

    fn fmt<W>(&self, f: &mut Formatter<'_, W>) -> (res: Result<(), W::Error>) where
        W: uWrite + ?Sized,
    {
        let ghost start = f.written();
        let ghost pretty = f.is_pretty();
        let ghost level = f.level();
        let ghost inner = inner_level(pretty, level);
        let ghost opener = tuple_opener(pretty);
        let ghost bodies = seq![
            self.0.debug_text(pretty, inner),
            self.1.debug_text(pretty, inner),
            self.2.debug_text(pretty, inner),
            self.3.debug_text(pretty, inner),
            self.4.debug_text(pretty, inner),
        ];
        let mut tuple = f.debug_tuple("")?;
        let ghost prefix = start + ""@;
        let ghost mut text = tuple.written();
        proof {
            reveal_strlit("");
            assert(""@ =~= Seq::<char>::empty());
            lemma_items_start(prefix, opener, pretty, inner, bodies);
        }
        tuple.field(&self.0)?;
        proof {
            lemma_items_step(prefix, opener, pretty, inner, bodies, 0, text, tuple.written());
            text = tuple.written();
        }
        tuple.field(&self.1)?;
        proof {
            lemma_items_step(prefix, opener, pretty, inner, bodies, 1, text, tuple.written());
            text = tuple.written();
        }
        tuple.field(&self.2)?;
        proof {
            lemma_items_step(prefix, opener, pretty, inner, bodies, 2, text, tuple.written());
            text = tuple.written();
        }
        tuple.field(&self.3)?;
        proof {
            lemma_items_step(prefix, opener, pretty, inner, bodies, 3, text, tuple.written());
            text = tuple.written();
        }
        tuple.field(&self.4)?;
        proof {
            lemma_items_step(prefix, opener, pretty, inner, bodies, 4, text, tuple.written());
            text = tuple.written();
        }
        let res = tuple.finish();
        proof {
            if res is Ok {
                lemma_tuple_close(start, ""@, bodies, pretty, level, text, tuple.written());
            }
        }
        res
    }
}

impl<A, B, C, D, E, F> uDebug for (A, B, C, D, E, F,) where A: uDebug, B: uDebug, C: uDebug, D: uDebug, E: uDebug, F: uDebug {
    open spec fn debug_text(&self, pretty: bool, level: nat) -> Seq<char> {
        tuple_text(
            Seq::empty(),
            seq![
                self.0.debug_text(pretty, inner_level(pretty, level)),
                self.1.debug_text(pretty, inner_level(pretty, level)),
                self.2.debug_text(pretty, inner_level(pretty, level)),
                self.3.debug_text(pretty, inner_level(pretty, level)),
                self.4.debug_text(pretty, inner_level(pretty, level)),
                self.5.debug_text(pretty, inner_level(pretty, level)),
            ],
            pretty,
            level,
        )
    }

    open spec fn debug_fits(&self, level: nat) -> bool {
        level < u8::MAX && self.0.debug_fits(level + 1)
            && self.1.debug_fits(level + 1)
            && self.2.debug_fits(level + 1)
            && self.3.debug_fits(level + 1)
            && self.4.debug_fits(level + 1)
            && self.5.debug_fits(level + 1)
    }

    fn fmt<W>(&self, f: &mut Formatter<'_, W>) -> (res: Result<(), W::Error>) where
        W: uWrite + ?Sized,
    {
        let ghost start = f.written();
        let ghost pretty = f.is_pretty();
        let ghost level = f.level();
        let ghost inner = inner_level(pretty, level);
        let ghost opener = tuple_opener(pretty);
        let ghost bodies = seq![
            self.0.debug_text(pretty, inner),
            self.1.debug_text(pretty, inner),
            self.2.debug_text(pretty, inner),
            self.3.debug_text(pretty, inner),
            self.4.debug_text(pretty, inner),
            self.5.debug_text(pretty, inner),
        ];
        let mut tuple = f.debug_tuple("")?;
        let ghost prefix = start + ""@;
        let ghost mut text = tuple.written();
        proof {
            reveal_strlit("");
            assert(""@ =~= Seq::<char>::empty());
            lemma_items_start(prefix, opener, pretty, inner, bodies);
        }
        tuple.field(&self.0)?;
        proof {
            lemma_items_step(prefix, opener, pretty, inner, bodies, 0, text, tuple.written());
            text = tuple.written();
        }
        tuple.field(&self.1)?;
        proof {
            lemma_items_step(prefix, opener, pretty, inner, bodies, 1, text, tuple.written());
            text = tuple.written();
        }
        tuple.field(&self.2)?;
        proof {
            lemma_items_step(prefix, opener, pretty, inner, bodies, 2, text, tuple.written());
            text = tuple.written();
        }
        tuple.field(&self.3)?;
        proof {
            lemma_items_step(prefix, opener, pretty, inner, bodies, 3, text, tuple.written());
            text = tuple.written();
        }
        tuple.field(&self.4)?;
        proof {
            lemma_items_step(prefix, opener, pretty, inner, bodies, 4, text, tuple.written());
            text = tuple.written();
        }
        tuple.field(&self.5)?;
        proof {
            lemma_items_step(prefix, opener, pretty, inner, bodies, 5, text, tuple.written());
            text = tuple.written();
        }
        let res = tuple.finish();
        proof {
            if res is Ok {
                lemma_tuple_close(start, ""@, bodies, pretty, level, text, tuple.written());
            }
        }
        res
    }
}

impl<A, B, C, D, E, F, G> uDebug for (A, B, C, D, E, F, G,) where A: uDebug, B: uDebug, C: uDebug, D: uDebug, E: uDebug, F: uDebug, G: uDebug {
    open spec fn debug_text(&self, pretty: bool, level: nat) -> Seq<char> {
        tuple_text(
            Seq::empty(),
            seq![
                self.0.debug_text(pretty, inner_level(pretty, level)),
                self.1.debug_text(pretty, inner_level(pretty, level)),
                self.2.debug_text(pretty, inner_level(pretty, level)),
                self.3.debug_text(pretty, inner_level(pretty, level)),
                self.4.debug_text(pretty, inner_level(pretty, level)),
                self.5.debug_text(pretty, inner_level(pretty, level)),
                self.6.debug_text(pretty, inner_level(pretty, level)),
            ],
            pretty,
            level,
        )
    }

    open spec fn debug_fits(&self, level: nat) -> bool {
        level < u8::MAX && self.0.debug_fits(level + 1)
            && self.1.debug_fits(level + 1)
            && self.2.debug_fits(level + 1)
            && self.3.debug_fits(level + 1)
            && self.4.debug_fits(level + 1)
            && self.5.debug_fits(level + 1)
            && self.6.debug_fits(level + 1)
    }

    fn fmt<W>(&self, f: &mut Formatter<'_, W>) -> (res: Result<(), W::Error>) where
        W: uWrite + ?Sized,
    {
        let ghost start = f.written();
        let ghost pretty = f.is_pretty();
        let ghost level = f.level();
        let ghost inner = inner_level(pretty, level);
        let ghost opener = tuple_opener(pretty);
        let ghost bodies = seq![
            self.0.debug_text(pretty, inner),
            self.1.debug_text(pretty, inner),
            self.2.debug_text(pretty, inner),
            self.3.debug_text(pretty, inner),
            self.4.debug_text(pretty, inner),
            self.5.debug_text(pretty, inner),
            self.6.debug_text(pretty, inner),
        ];
        let mut tuple = f.debug_tuple("")?;
        let ghost prefix = start + ""@;
        let ghost mut text = tuple.written();
        proof {
            reveal_strlit("");
            assert(""@ =~= Seq::<char>::empty());
            lemma_items_start(prefix, opener, pretty, inner, bodies);
        }
        tuple.field(&self.0)?;
        proof {
            lemma_items_step(prefix, opener, pretty, inner, bodies, 0, text, tuple.written());
            text = tuple.written();
        }
        tuple.field(&self.1)?;
        proof {
            lemma_items_step(prefix, opener, pretty, inner, bodies, 1, text, tuple.written());
            text = tuple.written();
        }
        tuple.field(&self.2)?;
        proof {
            lemma_items_step(prefix, opener, pretty, inner, bodies, 2, text, tuple.written());
            text = tuple.written();
        }
        tuple.field(&self.3)?;
        proof {
            lemma_items_step(prefix, opener, pretty, inner, bodies, 3, text, tuple.written());
            text = tuple.written();
        }
        tuple.field(&self.4)?;
        proof {
            lemma_items_step(prefix, opener, pretty, inner, bodies, 4, text, tuple.written());
            text = tuple.written();
        }
        tuple.field(&self.5)?;
        proof {
            lemma_items_step(prefix, opener, pretty, inner, bodies, 5, text, tuple.written());
            text = tuple.written();
        }
        tuple.field(&self.6)?;
        proof {
            lemma_items_step(prefix, opener, pretty, inner, bodies, 6, text, tuple.written());
            text = tuple.written();
        }
        let res = tuple.finish();
        proof {
            if res is Ok {
                lemma_tuple_close(start, ""@, bodies, pretty, level, text, tuple.written());
            }
        }
        res
    }
}

impl<A, B, C, D, E, F, G, H> uDebug for (A, B, C, D, E, F, G, H,) where A: uDebug, B: uDebug, C: uDebug, D: uDebug, E: uDebug, F: uDebug, G: uDebug, H: uDebug {
    open spec fn debug_text(&self, pretty: bool, level: nat) -> Seq<char> {
        tuple_text(
            Seq::empty(),
            seq![
                self.0.debug_text(pretty, inner_level(pretty, level)),
                self.1.debug_text(pretty, inner_level(pretty, level)),
                self.2.debug_text(pretty, inner_level(pretty, level)),
                self.3.debug_text(pretty, inner_level(pretty, level)),
                self.4.debug_text(pretty, inner_level(pretty, level)),
                self.5.debug_text(pretty, inner_level(pretty, level)),
                self.6.debug_text(pretty, inner_level(pretty, level)),
                self.7.debug_text(pretty, inner_level(pretty, level)),
            ],
            pretty,
            level,
        )
    }

    open spec fn debug_fits(&self, level: nat) -> bool {
        level < u8::MAX && self.0.debug_fits(level + 1)
            && self.1.debug_fits(level + 1)
            && self.2.debug_fits(level + 1)
            && self.3.debug_fits(level + 1)
            && self.4.debug_fits(level + 1)
            && self.5.debug_fits(level + 1)
            && self.6.debug_fits(level + 1)
            && self.7.debug_fits(level + 1)
    }

    fn fmt<W>(&self, f: &mut Formatter<'_, W>) -> (res: Result<(), W::Error>) where
        W: uWrite + ?Sized,
    {
        let ghost start = f.written();
        let ghost pretty = f.is_pretty();
        let ghost level = f.level();
        let ghost inner = inner_level(pretty, level);
        let ghost opener = tuple_opener(pretty);
        let ghost bodies = seq![
            self.0.debug_text(pretty, inner),
            self.1.debug_text(pretty, inner),
            self.2.debug_text(pretty, inner),
            self.3.debug_text(pretty, inner),
            self.4.debug_text(pretty, inner),
            self.5.debug_text(pretty, inner),
            self.6.debug_text(pretty, inner),
            self.7.debug_text(pretty, inner),
        ];
        let mut tuple = f.debug_tuple("")?;
        let ghost prefix = start + ""@;
        let ghost mut text = tuple.written();
        proof {
            reveal_strlit("");
            assert(""@ =~= Seq::<char>::empty());
            lemma_items_start(prefix, opener, pretty, inner, bodies);
        }
        tuple.field(&self.0)?;
        proof {
            lemma_items_step(prefix, opener, pretty, inner, bodies, 0, text, tuple.written());
            text = tuple.written();
        }
        tuple.field(&self.1)?;
        proof {
            lemma_items_step(prefix, opener, pretty, inner, bodies, 1, text, tuple.written());
            text = tuple.written();
        }
        tuple.field(&self.2)?;
        proof {
            lemma_items_step(prefix, opener, pretty, inner, bodies, 2, text, tuple.written());
            text = tuple.written();
        }
        tuple.field(&self.3)?;
        proof {
            lemma_items_step(prefix, opener, pretty, inner, bodies, 3, text, tuple.written());
            text = tuple.written();
        }
        tuple.field(&self.4)?;
        proof {
            lemma_items_step(prefix, opener, pretty, inner, bodies, 4, text, tuple.written());
            text = tuple.written();
        }
        tuple.field(&self.5)?;
        proof {
            lemma_items_step(prefix, opener, pretty, inner, bodies, 5, text, tuple.written());
            text = tuple.written();
        }
        tuple.field(&self.6)?;
        proof {
            lemma_items_step(prefix, opener, pretty, inner, bodies, 6, text, tuple.written());
            text = tuple.written();
        }
        tuple.field(&self.7)?;
        proof {
            lemma_items_step(prefix, opener, pretty, inner, bodies, 7, text, tuple.written());
            text = tuple.written();
        }
        let res = tuple.finish();
        proof {
            if res is Ok {
                lemma_tuple_close(start, ""@, bodies, pretty, level, text, tuple.written());
            }
        }
        res
    }
}

impl<A, B, C, D, E, F, G, H, I> uDebug for (A, B, C, D, E, F, G, H, I,) where A: uDebug, B: uDebug, C: uDebug, D: uDebug, E: uDebug, F: uDebug, G: uDebug, H: uDebug, I: uDebug {
    open spec fn debug_text(&self, pretty: bool, level: nat) -> Seq<char> {
        tuple_text(
            Seq::empty(),
            seq![
                self.0.debug_text(pretty, inner_level(pretty, level)),
                self.1.debug_text(pretty, inner_level(pretty, level)),
                self.2.debug_text(pretty, inner_level(pretty, level)),
                self.3.debug_text(pretty, inner_level(pretty, level)),
                self.4.debug_text(pretty, inner_level(pretty, level)),
                self.5.debug_text(pretty, inner_level(pretty, level)),
                self.6.debug_text(pretty, inner_level(pretty, level)),
                self.7.debug_text(pretty, inner_level(pretty, level)),
                self.8.debug_text(pretty, inner_level(pretty, level)),
            ],
            pretty,
            level,
        )
    }

    open spec fn debug_fits(&self, level: nat) -> bool {
        level < u8::MAX && self.0.debug_fits(level + 1)
            && self.1.debug_fits(level + 1)
            && self.2.debug_fits(level + 1)
            && self.3.debug_fits(level + 1)
            && self.4.debug_fits(level + 1)
            && self.5.debug_fits(level + 1)
            && self.6.debug_fits(level + 1)
            && self.7.debug_fits(level + 1)
            && self.8.debug_fits(level + 1)
    }

    fn fmt<W>(&self, f: &mut Formatter<'_, W>) -> (res: Result<(), W::Error>) where
        W: uWrite + ?Sized,
    {
        let ghost start = f.written();
        let ghost pretty = f.is_pretty();
        let ghost level = f.level();
        let ghost inner = inner_level(pretty, level);
        let ghost opener = tuple_opener(pretty);
        let ghost bodies = seq![
            self.0.debug_text(pretty, inner),
            self.1.debug_text(pretty, inner),
            self.2.debug_text(pretty, inner),
            self.3.debug_text(pretty, inner),
            self.4.debug_text(pretty, inner),
            self.5.debug_text(pretty, inner),
            self.6.debug_text(pretty, inner),
            self.7.debug_text(pretty, inner),
            self.8.debug_text(pretty, inner),
        ];
        let mut tuple = f.debug_tuple("")?;
        let ghost prefix = start + ""@;
        let ghost mut text = tuple.written();
        proof {
            reveal_strlit("");
            assert(""@ =~= Seq::<char>::empty());
            lemma_items_start(prefix, opener, pretty, inner, bodies);
        }
        tuple.field(&self.0)?;
        proof {
            lemma_items_step(prefix, opener, pretty, inner, bodies, 0, text, tuple.written());
            text = tuple.written();
        }
        tuple.field(&self.1)?;
        proof {
            lemma_items_step(prefix, opener, pretty, inner, bodies, 1, text, tuple.written());
            text = tuple.written();
        }
        tuple.field(&self.2)?;
        proof {
            lemma_items_step(prefix, opener, pretty, inner, bodies, 2, text, tuple.written());
            text = tuple.written();
        }
        tuple.field(&self.3)?;
        proof {
            lemma_items_step(prefix, opener, pretty, inner, bodies, 3, text, tuple.written());
            text = tuple.written();
        }
        tuple.field(&self.4)?;
        proof {
            lemma_items_step(prefix, opener, pretty, inner, bodies, 4, text, tuple.written());
            text = tuple.written();
        }
        tuple.field(&self.5)?;
        proof {
            lemma_items_step(prefix, opener, pretty, inner, bodies, 5, text, tuple.written());
            text = tuple.written();
        }
        tuple.field(&self.6)?;
        proof {
            lemma_items_step(prefix, opener, pretty, inner, bodies, 6, text, tuple.written());
            text = tuple.written();
        }
        tuple.field(&self.7)?;
        proof {
            lemma_items_step(prefix, opener, pretty, inner, bodies, 7, text, tuple.written());
            text = tuple.written();
        }
        tuple.field(&self.8)?;
        proof {
            lemma_items_step(prefix, opener, pretty, inner, bodies, 8, text, tuple.written());
            text = tuple.written();
        }
        let res = tuple.finish();
        proof {
            if res is Ok {
                lemma_tuple_close(start, ""@, bodies, pretty, level, text, tuple.written());
            }
        }
        res
    }
}

impl<A, B, C, D, E, F, G, H, I, J> uDebug for (A, B, C, D, E, F, G, H, I, J,) where A: uDebug, B: uDebug, C: uDebug, D: uDebug, E: uDebug, F: uDebug, G: uDebug, H: uDebug, I: uDebug, J: uDebug {
    open spec fn debug_text(&self, pretty: bool, level: nat) -> Seq<char> {
        tuple_text(
            Seq::empty(),
            seq![
                self.0.debug_text(pretty, inner_level(pretty, level)),
                self.1.debug_text(pretty, inner_level(pretty, level)),
                self.2.debug_text(pretty, inner_level(pretty, level)),
                self.3.debug_text(pretty, inner_level(pretty, level)),
                self.4.debug_text(pretty, inner_level(pretty, level)),
                self.5.debug_text(pretty, inner_level(pretty, level)),
                self.6.debug_text(pretty, inner_level(pretty, level)),
                self.7.debug_text(pretty, inner_level(pretty, level)),
                self.8.debug_text(pretty, inner_level(pretty, level)),
                self.9.debug_text(pretty, inner_level(pretty, level)),
            ],
            pretty,
            level,
        )
    }

    open spec fn debug_fits(&self, level: nat) -> bool {
        level < u8::MAX && self.0.debug_fits(level + 1)
            && self.1.debug_fits(level + 1)
            && self.2.debug_fits(level + 1)
            && self.3.debug_fits(level + 1)
            && self.4.debug_fits(level + 1)
            && self.5.debug_fits(level + 1)
            && self.6.debug_fits(level + 1)
            && self.7.debug_fits(level + 1)
            && self.8.debug_fits(level + 1)
            && self.9.debug_fits(level + 1)
    }

    fn fmt<W>(&self, f: &mut Formatter<'_, W>) -> (res: Result<(), W::Error>) where
        W: uWrite + ?Sized,
    {
        let ghost start = f.written();
        let ghost pretty = f.is_pretty();
        let ghost level = f.level();
        let ghost inner = inner_level(pretty, level);
        let ghost opener = tuple_opener(pretty);
        let ghost bodies = seq![
            self.0.debug_text(pretty, inner),
            self.1.debug_text(pretty, inner),
            self.2.debug_text(pretty, inner),
            self.3.debug_text(pretty, inner),
            self.4.debug_text(pretty, inner),
            self.5.debug_text(pretty, inner),
            self.6.debug_text(pretty, inner),
            self.7.debug_text(pretty, inner),
            self.8.debug_text(pretty, inner),
            self.9.debug_text(pretty, inner),
        ];
        let mut tuple = f.debug_tuple("")?;
        let ghost prefix = start + ""@;
        let ghost mut text = tuple.written();
        proof {
            reveal_strlit("");
            assert(""@ =~= Seq::<char>::empty());
            lemma_items_start(prefix, opener, pretty, inner, bodies);
        }
        tuple.field(&self.0)?;
        proof {
            lemma_items_step(prefix, opener, pretty, inner, bodies, 0, text, tuple.written());
            text = tuple.written();
        }
        tuple.field(&self.1)?;
        proof {
            lemma_items_step(prefix, opener, pretty, inner, bodies, 1, text, tuple.written());
            text = tuple.written();
        }
        tuple.field(&self.2)?;
        proof {
            lemma_items_step(prefix, opener, pretty, inner, bodies, 2, text, tuple.written());
            text = tuple.written();
        }
        tuple.field(&self.3)?;
        proof {
            lemma_items_step(prefix, opener, pretty, inner, bodies, 3, text, tuple.written());
            text = tuple.written();
        }
        tuple.field(&self.4)?;
        proof {
            lemma_items_step(prefix, opener, pretty, inner, bodies, 4, text, tuple.written());
            text = tuple.written();
        }
        tuple.field(&self.5)?;
        proof {
            lemma_items_step(prefix, opener, pretty, inner, bodies, 5, text, tuple.written());
            text = tuple.written();
        }
        tuple.field(&self.6)?;
        proof {
            lemma_items_step(prefix, opener, pretty, inner, bodies, 6, text, tuple.written());
            text = tuple.written();
        }
        tuple.field(&self.7)?;
        proof {
            lemma_items_step(prefix, opener, pretty, inner, bodies, 7, text, tuple.written());
            text = tuple.written();
        }
        tuple.field(&self.8)?;
        proof {
            lemma_items_step(prefix, opener, pretty, inner, bodies, 8, text, tuple.written());
            text = tuple.written();
        }
        tuple.field(&self.9)?;
        proof {
            lemma_items_step(prefix, opener, pretty, inner, bodies, 9, text, tuple.written());
            text = tuple.written();
        }
        let res = tuple.finish();
        proof {
            if res is Ok {
                lemma_tuple_close(start, ""@, bodies, pretty, level, text, tuple.written());
            }
        }
        res
    }
}

impl<A, B, C, D, E, F, G, H, I, J, K> uDebug for (A, B, C, D, E, F, G, H, I, J, K,) where A: uDebug, B: uDebug, C: uDebug, D: uDebug, E: uDebug, F: uDebug, G: uDebug, H: uDebug, I: uDebug, J: uDebug, K: uDebug {
    open spec fn debug_text(&self, pretty: bool, level: nat) -> Seq<char> {
        tuple_text(
            Seq::empty(),
            seq![
                self.0.debug_text(pretty, inner_level(pretty, level)),
                self.1.debug_text(pretty, inner_level(pretty, level)),
                self.2.debug_text(pretty, inner_level(pretty, level)),
                self.3.debug_text(pretty, inner_level(pretty, level)),
                self.4.debug_text(pretty, inner_level(pretty, level)),
                self.5.debug_text(pretty, inner_level(pretty, level)),
                self.6.debug_text(pretty, inner_level(pretty, level)),
                self.7.debug_text(pretty, inner_level(pretty, level)),
                self.8.debug_text(pretty, inner_level(pretty, level)),
                self.9.debug_text(pretty, inner_level(pretty, level)),
                self.10.debug_text(pretty, inner_level(pretty, level)),
            ],
            pretty,
            level,
        )
    }

    open spec fn debug_fits(&self, level: nat) -> bool {
        level < u8::MAX && self.0.debug_fits(level + 1)
            && self.1.debug_fits(level + 1)
            && self.2.debug_fits(level + 1)
            && self.3.debug_fits(level + 1)
            && self.4.debug_fits(level + 1)
            && self.5.debug_fits(level + 1)
            && self.6.debug_fits(level + 1)
            && self.7.debug_fits(level + 1)
            && self.8.debug_fits(level + 1)
            && self.9.debug_fits(level + 1)
            && self.10.debug_fits(level + 1)
    }

    fn fmt<W>(&self, f: &mut Formatter<'_, W>) -> (res: Result<(), W::Error>) where
        W: uWrite + ?Sized,
    {
        let ghost start = f.written();
        let ghost pretty = f.is_pretty();
        let ghost level = f.level();
        let ghost inner = inner_level(pretty, level);
        let ghost opener = tuple_opener(pretty);
        let ghost bodies = seq![
            self.0.debug_text(pretty, inner),
            self.1.debug_text(pretty, inner),
            self.2.debug_text(pretty, inner),
            self.3.debug_text(pretty, inner),
            self.4.debug_text(pretty, inner),
            self.5.debug_text(pretty, inner),
            self.6.debug_text(pretty, inner),
            self.7.debug_text(pretty, inner),
            self.8.debug_text(pretty, inner),
            self.9.debug_text(pretty, inner),
            self.10.debug_text(pretty, inner),
        ];
        let mut tuple = f.debug_tuple("")?;
        let ghost prefix = start + ""@;
        let ghost mut text = tuple.written();
        proof {
            reveal_strlit("");
            assert(""@ =~= Seq::<char>::empty());
            lemma_items_start(prefix, opener, pretty, inner, bodies);
        }
        tuple.field(&self.0)?;
        proof {
            lemma_items_step(prefix, opener, pretty, inner, bodies, 0, text, tuple.written());
            text = tuple.written();
        }
        tuple.field(&self.1)?;
        proof {
            lemma_items_step(prefix, opener, pretty, inner, bodies, 1, text, tuple.written());
            text = tuple.written();
        }
        tuple.field(&self.2)?;
        proof {
            lemma_items_step(prefix, opener, pretty, inner, bodies, 2, text, tuple.written());
            text = tuple.written();
        }
        tuple.field(&self.3)?;
        proof {
            lemma_items_step(prefix, opener, pretty, inner, bodies, 3, text, tuple.written());
            text = tuple.written();
        }
        tuple.field(&self.4)?;
        proof {
            lemma_items_step(prefix, opener, pretty, inner, bodies, 4, text, tuple.written());
            text = tuple.written();
        }
        tuple.field(&self.5)?;
        proof {
            lemma_items_step(prefix, opener, pretty, inner, bodies, 5, text, tuple.written());
            text = tuple.written();
        }
        tuple.field(&self.6)?;
        proof {
            lemma_items_step(prefix, opener, pretty, inner, bodies, 6, text, tuple.written());
            text = tuple.written();
        }
        tuple.field(&self.7)?;
        proof {
            lemma_items_step(prefix, opener, pretty, inner, bodies, 7, text, tuple.written());
            text = tuple.written();
        }
        tuple.field(&self.8)?;
        proof {
            lemma_items_step(prefix, opener, pretty, inner, bodies, 8, text, tuple.written());
            text = tuple.written();
        }
        tuple.field(&self.9)?;
        proof {
            lemma_items_step(prefix, opener, pretty, inner, bodies, 9, text, tuple.written());
            text = tuple.written();
        }
        tuple.field(&self.10)?;
        proof {
            lemma_items_step(prefix, opener, pretty, inner, bodies, 10, text, tuple.written());
            text = tuple.written();
        }
        let res = tuple.finish();
        proof {
            if res is Ok {
                lemma_tuple_close(start, ""@, bodies, pretty, level, text, tuple.written());
            }
        }
        res
    }
}

impl<A, B, C, D, E, F, G, H, I, J, K, L> uDebug for (A, B, C, D, E, F, G, H, I, J, K, L,) where A: uDebug, B: uDebug, C: uDebug, D: uDebug, E: uDebug, F: uDebug, G: uDebug, H: uDebug, I: uDebug, J: uDebug, K: uDebug, L: uDebug {
    open spec fn debug_text(&self, pretty: bool, level: nat) -> Seq<char> {
        tuple_text(
            Seq::empty(),
            seq![
                self.0.debug_text(pretty, inner_level(pretty, level)),
                self.1.debug_text(pretty, inner_level(pretty, level)),
                self.2.debug_text(pretty, inner_level(pretty, level)),
                self.3.debug_text(pretty, inner_level(pretty, level)),
                self.4.debug_text(pretty, inner_level(pretty, level)),
                self.5.debug_text(pretty, inner_level(pretty, level)),
                self.6.debug_text(pretty, inner_level(pretty, level)),
                self.7.debug_text(pretty, inner_level(pretty, level)),
                self.8.debug_text(pretty, inner_level(pretty, level)),
                self.9.debug_text(pretty, inner_level(pretty, level)),
                self.10.debug_text(pretty, inner_level(pretty, level)),
                self.11.debug_text(pretty, inner_level(pretty, level)),
            ],
            pretty,
            level,
        )
    }

    open spec fn debug_fits(&self, level: nat) -> bool {
        level < u8::MAX && self.0.debug_fits(level + 1)
            && self.1.debug_fits(level + 1)
            && self.2.debug_fits(level + 1)
            && self.3.debug_fits(level + 1)
            && self.4.debug_fits(level + 1)
            && self.5.debug_fits(level + 1)
            && self.6.debug_fits(level + 1)
            && self.7.debug_fits(level + 1)
            && self.8.debug_fits(level + 1)
            && self.9.debug_fits(level + 1)
            && self.10.debug_fits(level + 1)
            && self.11.debug_fits(level + 1)
    }

    fn fmt<W>(&self, f: &mut Formatter<'_, W>) -> (res: Result<(), W::Error>) where
        W: uWrite + ?Sized,
    {
        let ghost start = f.written();
        let ghost pretty = f.is_pretty();
        let ghost level = f.level();
        let ghost inner = inner_level(pretty, level);
        let ghost opener = tuple_opener(pretty);
        let ghost bodies = seq![
            self.0.debug_text(pretty, inner),
            self.1.debug_text(pretty, inner),
            self.2.debug_text(pretty, inner),
            self.3.debug_text(pretty, inner),
            self.4.debug_text(pretty, inner),
            self.5.debug_text(pretty, inner),
            self.6.debug_text(pretty, inner),
            self.7.debug_text(pretty, inner),
            self.8.debug_text(pretty, inner),
            self.9.debug_text(pretty, inner),
            self.10.debug_text(pretty, inner),
            self.11.debug_text(pretty, inner),
        ];
        let mut tuple = f.debug_tuple("")?;
        let ghost prefix = start + ""@;
        let ghost mut text = tuple.written();
        proof {
            reveal_strlit("");
            assert(""@ =~= Seq::<char>::empty());
            lemma_items_start(prefix, opener, pretty, inner, bodies);
        }
        tuple.field(&self.0)?;
        proof {
            lemma_items_step(prefix, opener, pretty, inner, bodies, 0, text, tuple.written());
            text = tuple.written();
        }
        tuple.field(&self.1)?;
        proof {
            lemma_items_step(prefix, opener, pretty, inner, bodies, 1, text, tuple.written());
            text = tuple.written();
        }
        tuple.field(&self.2)?;
        proof {
            lemma_items_step(prefix, opener, pretty, inner, bodies, 2, text, tuple.written());
            text = tuple.written();
        }
        tuple.field(&self.3)?;
        proof {
            lemma_items_step(prefix, opener, pretty, inner, bodies, 3, text, tuple.written());
            text = tuple.written();
        }
        tuple.field(&self.4)?;
        proof {
            lemma_items_step(prefix, opener, pretty, inner, bodies, 4, text, tuple.written());
            text = tuple.written();
        }
        tuple.field(&self.5)?;
        proof {
            lemma_items_step(prefix, opener, pretty, inner, bodies, 5, text, tuple.written());
            text = tuple.written();
        }
        tuple.field(&self.6)?;
        proof {
            lemma_items_step(prefix, opener, pretty, inner, bodies, 6, text, tuple.written());
            text = tuple.written();
        }
        tuple.field(&self.7)?;
        proof {
            lemma_items_step(prefix, opener, pretty, inner, bodies, 7, text, tuple.written());
            text = tuple.written();
        }
        tuple.field(&self.8)?;
        proof {
            lemma_items_step(prefix, opener, pretty, inner, bodies, 8, text, tuple.written());
            text = tuple.written();
        }
        tuple.field(&self.9)?;
        proof {
            lemma_items_step(prefix, opener, pretty, inner, bodies, 9, text, tuple.written());
            text = tuple.written();
        }
        tuple.field(&self.10)?;
        proof {
            lemma_items_step(prefix, opener, pretty, inner, bodies, 10, text, tuple.written());
            text = tuple.written();
        }
        tuple.field(&self.11)?;
        proof {
            lemma_items_step(prefix, opener, pretty, inner, bodies, 11, text, tuple.written());
            text = tuple.written();
        }
        let res = tuple.finish();
        proof {
            if res is Ok {
                lemma_tuple_close(start, ""@, bodies, pretty, level, text, tuple.written());
            }
        }
        res
    }
}

} // verus!
