//! Formatting of slices as maps and as sets: for any collection whose
//! entries can be laid out in a slice.

use vstd::prelude::*;
use crate::formatter::Formatter;
use crate::helpers::{
    all_debug_fit, all_debug_pairs_fit, debug_pair_texts, debug_texts, inner_level, items_text,
    list_closer, list_opener, map_text, set_text,
};
use crate::write::uWrite;
use crate::uDebug;

verus! {

broadcast use {crate::helpers::lemma_map_resolved, crate::helpers::lemma_set_resolved};

/// Key-value pairs that are formatted as a map, in the order of the slice.
pub struct MapEntries<'a, K, V>(pub &'a [(K, V)]);

/// Values that are formatted as a set, in the order of the slice.
pub struct SetEntries<'a, T>(pub &'a [T]);

impl<K, V> uDebug for MapEntries<'_, K, V> where K: uDebug, V: uDebug {
    open spec fn debug_text(&self, pretty: bool, level: nat) -> Seq<char> {
        map_text(debug_pair_texts(self.0@, pretty, inner_level(pretty, level)), pretty, level)
    }

    open spec fn debug_fits(&self, level: nat) -> bool {
        level < u8::MAX && all_debug_pairs_fit(self.0@, level + 1)
    }

    fn fmt<W>(&self, f: &mut Formatter<'_, W>) -> (res: Result<(), W::Error>) where
        W: uWrite + ?Sized,
    {
        let ghost start = f.written();
        let ghost pretty = f.is_pretty();
        let ghost inner = inner_level(pretty, f.level());
        let mut map = f.debug_map()?;
        map.entries(self.0)?;
        let res = map.finish();
        proof {
            assert(start + "{"@ + items_text(
                list_opener(pretty),
                true,
                pretty,
                inner,
                debug_pair_texts(self.0@, pretty, inner),
            ) + list_closer(self.0@.len() == 0, pretty, inner, "}"@) =~= start + self.debug_text(
                pretty,
                old(f).level(),
            ));
        }
        res
    }
}

impl<T> uDebug for SetEntries<'_, T> where T: uDebug {
    open spec fn debug_text(&self, pretty: bool, level: nat) -> Seq<char> {
        set_text(debug_texts(self.0@, pretty, inner_level(pretty, level)), pretty, level)
    }

    open spec fn debug_fits(&self, level: nat) -> bool {
        level < u8::MAX && all_debug_fit(self.0@, level + 1)
    }

    fn fmt<W>(&self, f: &mut Formatter<'_, W>) -> (res: Result<(), W::Error>) where
        W: uWrite + ?Sized,
    {
        let ghost start = f.written();
        let ghost pretty = f.is_pretty();
        let ghost inner = inner_level(pretty, f.level());
        let mut set = f.debug_set()?;
        set.entries(self.0)?;
        let res = set.finish();
        proof {
            assert(start + "{"@ + items_text(
                list_opener(pretty),
                true,
                pretty,
                inner,
                debug_texts(self.0@, pretty, inner),
            ) + list_closer(self.0@.len() == 0, pretty, inner, "}"@) =~= start + self.debug_text(
                pretty,
                old(f).level(),
            ));
        }
        res
    }
}

} // verus!
