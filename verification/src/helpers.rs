//! Builders that assemble structural output: structs, tuples, lists, maps
//! and sets.
//!
//! A builder is made by a method of [`Formatter`], which writes the opening
//! token. Each `field` or `entry` writes a separator as needed and then one
//! item; `finish` writes the closing token. In pretty mode every item stands
//! on a line of its own, indented one level deeper than the opening token and
//! followed by a comma.

use vstd::prelude::*;
use crate::formatter::{indent_text, Formatter};
use crate::write::uWrite;
use crate::uDebug;

verus! {

/// The nesting depth of the items of a structure that opens at `level`.
pub open spec fn inner_level(pretty: bool, level: nat) -> nat {
    if pretty {
        level + 1
    } else {
        level
    }
}

/// The nesting depth around a structure whose items stand at `level`.
pub open spec fn outer_level(pretty: bool, level: nat) -> nat {
    if pretty {
        (level - 1) as nat
    } else {
        level
    }
}

/// What one item adds to the output. `opener` is what precedes the first
/// item; a later item is preceded by `", "` in compact mode. In pretty mode
/// the item is indented to `level` and followed by a comma and a newline.
pub open spec fn item_text(
    opener: Seq<char>,
    first: bool,
    pretty: bool,
    level: nat,
    body: Seq<char>,
) -> Seq<char> {
    let lead = if first {
        opener
    } else if pretty {
        Seq::empty()
    } else {
        ", "@
    };
    if pretty {
        lead + indent_text(level) + body + ",\n"@
    } else {
        lead + body
    }
}

/// What a run of items adds to the output, the first of them being the
/// first item of the structure iff `first` holds.
pub open spec fn items_text(
    opener: Seq<char>,
    first: bool,
    pretty: bool,
    level: nat,
    bodies: Seq<Seq<char>>,
) -> Seq<char>
    decreases bodies.len(),
{
    if bodies.len() == 0 {
        Seq::empty()
    } else {
        items_text(opener, first, pretty, level, bodies.drop_last()) + item_text(
            opener,
            first && bodies.len() == 1,
            pretty,
            level,
            bodies.last(),
        )
    }
}

/// What precedes the first entry of a list, map or set.
pub open spec fn list_opener(pretty: bool) -> Seq<char> {
    if pretty {
        "\n"@
    } else {
        Seq::empty()
    }
}

/// What closes a list, map or set whose entries stand at `level`: the
/// closing token, which in pretty mode stands on a line of its own, indented
/// one level less than the entries, unless there are no entries.
pub open spec fn list_closer(first: bool, pretty: bool, level: nat, token: Seq<char>) -> Seq<
    char,
> {
    if pretty && !first {
        indent_text(outer_level(pretty, level)) + token
    } else {
        token
    }
}

/// The rendering of a list that opens at `level`, given the renderings of
/// its entries at the depth of the entries.
pub open spec fn list_text(entries: Seq<Seq<char>>, pretty: bool, level: nat) -> Seq<char> {
    "["@ + items_text(list_opener(pretty), true, pretty, inner_level(pretty, level), entries)
        + list_closer(entries.len() == 0, pretty, inner_level(pretty, level), "]"@)
}

/// The renderings of a sequence of values, all at one depth.
pub open spec fn debug_texts<T: uDebug>(items: Seq<T>, pretty: bool, level: nat) -> Seq<
    Seq<char>,
> {
    Seq::new(items.len(), |i: int| items[i].debug_text(pretty, level))
}

/// Whether the pretty rendering of every value can start at `level`.
pub open spec fn all_debug_fit<T: uDebug>(items: Seq<T>, level: nat) -> bool {
    forall|i: int| 0 <= i < items.len() ==> (#[trigger] items[i]).debug_fits(level)
}

/// A run of items followed by one more.
pub proof fn lemma_items_push(
    opener: Seq<char>,
    first: bool,
    pretty: bool,
    level: nat,
    bodies: Seq<Seq<char>>,
    body: Seq<char>,
)
    ensures
        items_text(opener, first, pretty, level, bodies.push(body)) == items_text(
            opener,
            first,
            pretty,
            level,
            bodies,
        ) + item_text(opener, first && bodies.len() == 0, pretty, level, body),
{
    assert(bodies.push(body).drop_last() =~= bodies);
}

/// What precedes the first field of a struct: the opening brace, then a
/// newline in pretty mode and a space otherwise.
pub open spec fn struct_opener(pretty: bool) -> Seq<char> {
    " {"@ + (if pretty {
        "\n"@
    } else {
        " "@
    })
}

/// What precedes the first field of a tuple: the opening parenthesis, then a
/// newline in pretty mode.
pub open spec fn tuple_opener(pretty: bool) -> Seq<char> {
    "("@ + list_opener(pretty)
}

/// What closes a struct whose fields stand at `level`. A struct without
/// fields is just its name: nothing closes it.
pub open spec fn struct_closer(first: bool, pretty: bool, level: nat) -> Seq<char> {
    if first {
        Seq::empty()
    } else if pretty {
        indent_text(outer_level(pretty, level)) + "}"@
    } else {
        " "@ + "}"@
    }
}

/// What closes a tuple whose fields stand at `level`. A tuple without fields
/// is just its name: nothing closes it. In compact mode a tuple without a
/// name that has exactly one field keeps a trailing comma.
pub open spec fn tuple_closer(
    first: bool,
    pretty: bool,
    level: nat,
    unnamed: bool,
    fields: nat,
) -> Seq<char> {
    if first {
        Seq::empty()
    } else if pretty {
        indent_text(outer_level(pretty, level)) + ")"@
    } else if unnamed && fields == 1 {
        ","@ + ")"@
    } else {
        ")"@
    }
}

/// A key and a value, or a field's name and its value, as one item.
pub open spec fn pair_text(key: Seq<char>, value: Seq<char>) -> Seq<char> {
    key + ": "@ + value
}

/// The renderings of a sequence of key-value pairs, all at one depth.
pub open spec fn debug_pair_texts<K: uDebug, V: uDebug>(
    items: Seq<(K, V)>,
    pretty: bool,
    level: nat,
) -> Seq<Seq<char>> {
    Seq::new(
        items.len(),
        |i: int| pair_text(items[i].0.debug_text(pretty, level), items[i].1.debug_text(pretty, level)),
    )
}

/// Whether the pretty rendering of every key and value can start at `level`.
pub open spec fn all_debug_pairs_fit<K: uDebug, V: uDebug>(items: Seq<(K, V)>, level: nat) -> bool {
    forall|i: int|
        0 <= i < items.len() ==> (#[trigger] items[i]).0.debug_fits(level) && items[i].1.debug_fits(
            level,
        )
}

/// The rendering of a set that opens at `level`, given the renderings of
/// its entries at the depth of the entries.
pub open spec fn set_text(entries: Seq<Seq<char>>, pretty: bool, level: nat) -> Seq<char> {
    "{"@ + items_text(list_opener(pretty), true, pretty, inner_level(pretty, level), entries)
        + list_closer(entries.len() == 0, pretty, inner_level(pretty, level), "}"@)
}

/// The rendering of a map that opens at `level`, given its entries, each the
/// `pair_text` of a key and a value rendered at the depth of the entries.
pub open spec fn map_text(entries: Seq<Seq<char>>, pretty: bool, level: nat) -> Seq<char> {
    set_text(entries, pretty, level)
}

/// The rendering of a struct that opens at `level`, given its fields, each
/// the `pair_text` of a name and a value rendered at the depth of the fields.
pub open spec fn struct_text(
    name: Seq<char>,
    fields: Seq<Seq<char>>,
    pretty: bool,
    level: nat,
) -> Seq<char> {
    name + items_text(struct_opener(pretty), true, pretty, inner_level(pretty, level), fields)
        + struct_closer(fields.len() == 0, pretty, inner_level(pretty, level))
}

/// The rendering of a tuple that opens at `level`, given the renderings of
/// its fields at the depth of the fields.
pub open spec fn tuple_text(
    name: Seq<char>,
    fields: Seq<Seq<char>>,
    pretty: bool,
    level: nat,
) -> Seq<char> {
    name + items_text(tuple_opener(pretty), true, pretty, inner_level(pretty, level), fields)
        + tuple_closer(
        fields.len() == 0,
        pretty,
        inner_level(pretty, level),
        name.len() == 0,
        fields.len(),
    )
}

/// The count of fields that a tuple builder keeps: exact up to the range of
/// its counter, where it stays.
pub open spec fn counted(fields: nat) -> nat {
    if fields < u8::MAX {
        fields + 1
    } else {
        fields
    }
}

/// Nothing has been added before the first item.
pub proof fn lemma_items_start(
    prefix: Seq<char>,
    opener: Seq<char>,
    pretty: bool,
    level: nat,
    bodies: Seq<Seq<char>>,
)
    ensures
        prefix == prefix + items_text(opener, true, pretty, level, bodies.take(0)),
{
    assert(prefix =~= prefix + items_text(opener, true, pretty, level, bodies.take(0)));
}

/// Writing item `k` after the first `k` items gives the first `k + 1` items.
pub proof fn lemma_items_step(
    prefix: Seq<char>,
    opener: Seq<char>,
    pretty: bool,
    level: nat,
    bodies: Seq<Seq<char>>,
    k: int,
    before: Seq<char>,
    after: Seq<char>,
)
    requires
        0 <= k < bodies.len(),
        before == prefix + items_text(opener, true, pretty, level, bodies.take(k)),
        after == before + item_text(opener, k == 0, pretty, level, bodies[k]),
    ensures
        after == prefix + items_text(opener, true, pretty, level, bodies.take(k + 1)),
{
    lemma_items_push(opener, true, pretty, level, bodies.take(k), bodies[k]);
    assert(bodies.take(k).push(bodies[k]) =~= bodies.take(k + 1));
    assert(after =~= prefix + items_text(opener, true, pretty, level, bodies.take(k + 1)));
}

/// Closing a tuple after all of its fields gives the tuple's rendering.
pub proof fn lemma_tuple_close(
    start: Seq<char>,
    name: Seq<char>,
    bodies: Seq<Seq<char>>,
    pretty: bool,
    level: nat,
    before: Seq<char>,
    after: Seq<char>,
)
    requires
        before == start + name + items_text(
            tuple_opener(pretty),
            true,
            pretty,
            inner_level(pretty, level),
            bodies.take(bodies.len() as int),
        ),
        after == before + tuple_closer(
            bodies.len() == 0,
            pretty,
            inner_level(pretty, level),
            name.len() == 0,
            bodies.len(),
        ),
    ensures
        after == start + tuple_text(name, bodies, pretty, level),
{
    assert(bodies.take(bodies.len() as int) =~= bodies);
    assert(after =~= start + tuple_text(name, bodies, pretty, level));
}

/// Closing a struct after all of its fields gives the struct's rendering.
pub proof fn lemma_struct_close(
    start: Seq<char>,
    name: Seq<char>,
    bodies: Seq<Seq<char>>,
    pretty: bool,
    level: nat,
    before: Seq<char>,
    after: Seq<char>,
)
    requires
        before == start + name + items_text(
            struct_opener(pretty),
            true,
            pretty,
            inner_level(pretty, level),
            bodies.take(bodies.len() as int),
        ),
        after == before + struct_closer(bodies.len() == 0, pretty, inner_level(pretty, level)),
    ensures
        after == start + struct_text(name, bodies, pretty, level),
{
    assert(bodies.take(bodies.len() as int) =~= bodies);
    assert(after =~= start + struct_text(name, bodies, pretty, level));
}

impl<'w, W> Formatter<'w, W> where W: uWrite + ?Sized {
    /// Creates a `DebugList` builder designed to assist with creation of
    /// `uDebug` implementations for list-like structures.
    pub fn debug_list(&mut self) -> (res: Result<DebugList<'_, 'w, W>, W::Error>)
        requires
            old(self).is_pretty() ==> old(self).level() < u8::MAX,
        ensures
            res matches Ok(b) ==> {
                &&& *final(b.formatter()) == *final(self)
                &&& &*final(b.formatter().sink()) == &*final(old(self).sink())
                &&& b.is_first()
                &&& b.is_pretty() == old(self).is_pretty()
                &&& b.level() == inner_level(old(self).is_pretty(), old(self).level())
                &&& b.refused() == old(self).refused()
                &&& b.written() == old(self).written() + "["@
            },
            res is Err ==> {
                &&& final(self).is_pretty() == old(self).is_pretty()
                &&& &*final(final(self).sink()) == &*final(old(self).sink())
            },
            res matches Err(e) ==> final(self).refused() == old(self).refused().push(e)
                && final(self).refused().len() == old(self).refused().len() + 1,
    {
        self.write_str("[")?;

        if self.pretty_mode() {
            self.nest();
        }
        Ok(DebugList { first: true, formatter: self })
    }

    /// Creates a `DebugMap` builder designed to assist with creation of
    /// `uDebug` implementations for map-like structures.
    pub fn debug_map(&mut self) -> (res: Result<DebugMap<'_, 'w, W>, W::Error>)
        requires
            old(self).is_pretty() ==> old(self).level() < u8::MAX,
        ensures
            res matches Ok(b) ==> {
                &&& *final(b.formatter()) == *final(self)
                &&& &*final(b.formatter().sink()) == &*final(old(self).sink())
                &&& b.is_first()
                &&& b.is_pretty() == old(self).is_pretty()
                &&& b.level() == inner_level(old(self).is_pretty(), old(self).level())
                &&& b.refused() == old(self).refused()
                &&& b.written() == old(self).written() + "{"@
            },
            res is Err ==> {
                &&& final(self).is_pretty() == old(self).is_pretty()
                &&& &*final(final(self).sink()) == &*final(old(self).sink())
            },
            res matches Err(e) ==> final(self).refused() == old(self).refused().push(e)
                && final(self).refused().len() == old(self).refused().len() + 1,
    {
        self.write_str("{")?;

        if self.pretty_mode() {
            self.nest();
        }
        Ok(DebugMap { first: true, formatter: self })
    }

    /// Creates a `DebugSet` builder designed to assist with creation of
    /// `uDebug` implementations for set-like structures.
    pub fn debug_set(&mut self) -> (res: Result<DebugSet<'_, 'w, W>, W::Error>)
        requires
            old(self).is_pretty() ==> old(self).level() < u8::MAX,
        ensures
            res matches Ok(b) ==> {
                &&& *final(b.formatter()) == *final(self)
                &&& &*final(b.formatter().sink()) == &*final(old(self).sink())
                &&& b.is_first()
                &&& b.is_pretty() == old(self).is_pretty()
                &&& b.level() == inner_level(old(self).is_pretty(), old(self).level())
                &&& b.refused() == old(self).refused()
                &&& b.written() == old(self).written() + "{"@
            },
            res is Err ==> {
                &&& final(self).is_pretty() == old(self).is_pretty()
                &&& &*final(final(self).sink()) == &*final(old(self).sink())
            },
            res matches Err(e) ==> final(self).refused() == old(self).refused().push(e)
                && final(self).refused().len() == old(self).refused().len() + 1,
    {
        self.write_str("{")?;

        if self.pretty_mode() {
            self.nest();
        }
        Ok(DebugSet { first: true, formatter: self })
    }

    /// Creates a `DebugStruct` builder designed to assist with creation of
    /// `uDebug` implementations for structs.
    pub fn debug_struct(&mut self, name: &str) -> (res: Result<DebugStruct<'_, 'w, W>, W::Error>)
        requires
            old(self).is_pretty() ==> old(self).level() < u8::MAX,
        ensures
            res matches Ok(b) ==> {
                &&& *final(b.formatter()) == *final(self)
                &&& &*final(b.formatter().sink()) == &*final(old(self).sink())
                &&& b.is_first()
                &&& b.is_pretty() == old(self).is_pretty()
                &&& b.level() == inner_level(old(self).is_pretty(), old(self).level())
                &&& b.refused() == old(self).refused()
                &&& b.written() == old(self).written() + name@
            },
            res is Err ==> {
                &&& final(self).is_pretty() == old(self).is_pretty()
                &&& &*final(final(self).sink()) == &*final(old(self).sink())
            },
            res matches Err(e) ==> final(self).refused() == old(self).refused().push(e)
                && final(self).refused().len() == old(self).refused().len() + 1,
    {
        self.write_str(name)?;

        if self.pretty_mode() {
            self.nest();
        }
        Ok(DebugStruct { first: true, formatter: self })
    }

    /// Creates a `DebugTuple` builder designed to assist with creation of
    /// `uDebug` implementations for tuple structs.
    pub fn debug_tuple(&mut self, name: &str) -> (res: Result<DebugTuple<'_, 'w, W>, W::Error>)
        requires
            old(self).is_pretty() ==> old(self).level() < u8::MAX,
        ensures
            res matches Ok(b) ==> {
                &&& *final(b.formatter()) == *final(self)
                &&& &*final(b.formatter().sink()) == &*final(old(self).sink())
                &&& b.is_first()
                &&& b.fields() == 0
                &&& b.is_unnamed() == (name@.len() == 0)
                &&& b.is_pretty() == old(self).is_pretty()
                &&& b.level() == inner_level(old(self).is_pretty(), old(self).level())
                &&& b.refused() == old(self).refused()
                &&& b.written() == old(self).written() + name@
            },
            res is Err ==> {
                &&& final(self).is_pretty() == old(self).is_pretty()
                &&& &*final(final(self).sink()) == &*final(old(self).sink())
            },
            res matches Err(e) ==> final(self).refused() == old(self).refused().push(e)
                && final(self).refused().len() == old(self).refused().len() + 1,
    {
        self.write_str(name)?;

        if self.pretty_mode() {
            self.nest();
        }
        Ok(DebugTuple { fields: 0, unnamed: name.is_empty(), first: true, formatter: self })
    }
}

/// A struct to help with `uDebug` implementations.
///
/// This is useful when you wish to output a formatted list of items as a part of your
/// `uDebug::fmt` implementation.
///
/// This can be constructed by the `Formatter::debug_list` method.
pub struct DebugList<'f, 'w, W> where W: uWrite + ?Sized {
    first: bool,
    formatter: &'f mut Formatter<'w, W>,
}

/// Once a list builder is no longer used, so is its borrow of the formatter.
pub broadcast proof fn lemma_list_resolved<'f, 'w, W>(b: DebugList<'f, 'w, W>) where
    W: uWrite + ?Sized,

    ensures
        #[trigger] has_resolved(b) ==> has_resolved(b.formatter()),
{
}

impl<'f, 'w, W> DebugList<'f, 'w, W> where W: uWrite + ?Sized {
    /// Whether no entry has been written yet.
    pub closed spec fn is_first(&self) -> bool {
        self.first
    }

    /// The borrow of the formatter that this builder writes to.
    pub closed spec fn formatter(&self) -> &'f mut Formatter<'w, W> {
        self.formatter
    }

    /// The text that the sink has accepted so far.
    pub open spec fn written(&self) -> Seq<char> {
        self.formatter().written()
    }

    /// The errors with which the sink has refused a write so far.
    pub open spec fn refused(&self) -> Seq<W::Error> {
        self.formatter().refused()
    }

    /// Whether pretty mode is on.
    pub open spec fn is_pretty(&self) -> bool {
        self.formatter().is_pretty()
    }

    /// The nesting depth of the entries.
    pub open spec fn level(&self) -> nat {
        self.formatter().level()
    }

    /// Adds a new entry to the list output.
    pub fn entry<T>(&mut self, entry: &T) -> (res: Result<&mut Self, W::Error>) where
        T: uDebug,

        requires
            old(self).is_pretty() ==> entry.debug_fits(old(self).level()),
        ensures
            res matches Ok(b) ==> {
                &&& *final(b) == *final(self)
                &&& *final(b.formatter()) == *final(old(self).formatter())
                &&& &*final(b.formatter().sink()) == &*final(old(self).formatter().sink())
                &&& !b.is_first()
                &&& b.is_pretty() == old(self).is_pretty()
                &&& b.level() == old(self).level()
                &&& b.refused() == old(self).refused()
                &&& b.written() == old(self).written() + item_text(
                    list_opener(old(self).is_pretty()),
                    old(self).is_first(),
                    old(self).is_pretty(),
                    old(self).level(),
                    entry.debug_text(old(self).is_pretty(), old(self).level()),
                )
            },
            res is Err ==> {
                &&& *final(final(self).formatter()) == *final(old(self).formatter())
                &&& &*final(final(self).formatter().sink())
                    == &*final(old(self).formatter().sink())
                &&& final(self).is_pretty() == old(self).is_pretty()
            },
            res matches Err(e) ==> final(self).refused() == old(self).refused().push(e)
                && final(self).refused().len() == old(self).refused().len() + 1,
    {
        let ghost w0 = self.written();
        let ghost pretty = self.is_pretty();
        let ghost level = self.level();
        let ghost was_first = self.first;
        let ghost body = entry.debug_text(pretty, level);
        if self.first {
            self.first = false;

            if self.formatter.pretty_mode() {
                self.formatter.write_str("\n")?;
            }
        } else if !self.formatter.pretty_mode() {
            self.formatter.write_str(", ")?;
        }
        let ghost w1 = self.written();

        if self.formatter.pretty_mode() {
            self.formatter.indent()?;
        }
        let ghost w2 = self.written();

        entry.fmt(self.formatter)?;
        assert(self.written() =~= w2 + body);

        if self.formatter.pretty_mode() {
            self.formatter.write_str(",\n")?;
        }
        proof {
            let opener = list_opener(pretty);
            let lead = if was_first {
                opener
            } else if pretty {
                Seq::empty()
            } else {
                ", "@
            };
            assert(w1 =~= w0 + lead);
            if pretty {
                assert(self.written() =~= w0 + (lead + indent_text(level) + body + ",\n"@));
            } else {
                assert(self.written() =~= w0 + (lead + body));
            }
        }
        Ok(self)
    }

    /// Adds the contents of a slice of entries to the list output.
    pub fn entries<T>(&mut self, entries: &[T]) -> (res: Result<&mut Self, W::Error>) where
        T: uDebug,

        requires
            old(self).is_pretty() ==> all_debug_fit(entries@, old(self).level()),
        ensures
            res matches Ok(b) ==> {
                &&& *final(b) == *final(self)
                &&& *final(b.formatter()) == *final(old(self).formatter())
                &&& &*final(b.formatter().sink()) == &*final(old(self).formatter().sink())
                &&& b.is_first() == (old(self).is_first() && entries@.len() == 0)
                &&& b.is_pretty() == old(self).is_pretty()
                &&& b.level() == old(self).level()
                &&& b.refused() == old(self).refused()
                &&& b.written() == old(self).written() + items_text(
                    list_opener(old(self).is_pretty()),
                    old(self).is_first(),
                    old(self).is_pretty(),
                    old(self).level(),
                    debug_texts(entries@, old(self).is_pretty(), old(self).level()),
                )
            },
            res is Err ==> {
                &&& *final(final(self).formatter()) == *final(old(self).formatter())
                &&& &*final(final(self).formatter().sink())
                    == &*final(old(self).formatter().sink())
                &&& final(self).is_pretty() == old(self).is_pretty()
            },
            res matches Err(e) ==> final(self).refused() == old(self).refused().push(e)
                && final(self).refused().len() == old(self).refused().len() + 1,
    {
        let ghost pretty = self.is_pretty();
        let ghost level = self.level();
        let ghost opener = list_opener(pretty);
        let ghost texts = debug_texts(entries@, pretty, level);
        let mut i: usize = 0;
        assert(old(self).written() + items_text(
            opener,
            old(self).is_first(),
            pretty,
            level,
            texts.take(0),
        ) =~= old(self).written());
        while i < entries.len()
            invariant
                i <= entries@.len(),
                pretty ==> all_debug_fit(entries@, level),
                texts == debug_texts(entries@, pretty, level),
                opener == list_opener(pretty),
                *final(self.formatter()) == *final(old(self).formatter()),
                &*final(self.formatter().sink()) == &*final(old(self).formatter().sink()),
                self.is_first() == (old(self).is_first() && i == 0),
                self.refused() == old(self).refused(),
                self.is_pretty() == pretty,
                self.level() == level,
                old(self).is_pretty() == pretty,
                old(self).level() == level,
                self.written() == old(self).written() + items_text(
                    opener,
                    old(self).is_first(),
                    pretty,
                    level,
                    texts.take(i as int),
                ),
            decreases entries@.len() - i,
        {
            self.entry(&entries[i])?;
            proof {
                lemma_items_push(
                    opener,
                    old(self).is_first(),
                    pretty,
                    level,
                    texts.take(i as int),
                    texts[i as int],
                );
                assert(texts.take(i as int).push(texts[i as int]) =~= texts.take(i + 1));
                assert(self.written() =~= old(self).written() + items_text(
                    opener,
                    old(self).is_first(),
                    pretty,
                    level,
                    texts.take(i + 1),
                ));
            }
            i += 1;
        }
        assert(texts.take(i as int) =~= texts);
        Ok(self)
    }

    /// Finishes output.
    pub fn finish(&mut self) -> (res: Result<(), W::Error>)
        requires
            old(self).is_pretty() ==> old(self).level() > 0,
        ensures
            *final(final(self).formatter()) == *final(old(self).formatter()),
            &*final(final(self).formatter().sink()) == &*final(old(self).formatter().sink()),
            final(self).is_pretty() == old(self).is_pretty(),
            res is Ok ==> {
                &&& final(self).level() == outer_level(old(self).is_pretty(), old(self).level())
                &&& final(self).refused() == old(self).refused()
                &&& final(self).written() == old(self).written() + list_closer(
                    old(self).is_first(),
                    old(self).is_pretty(),
                    old(self).level(),
                    "]"@,
                )
            },
            res matches Err(e) ==> final(self).refused() == old(self).refused().push(e)
                && final(self).refused().len() == old(self).refused().len() + 1,
    {
        let ghost w0 = self.written();
        let ghost pretty = self.is_pretty();
        let ghost level = self.level();
        if self.formatter.pretty_mode() {
            self.formatter.unnest();
            if !self.first {
                self.formatter.indent()?;
            }
        }
        let res = self.formatter.write_str("]");
        proof {
            if pretty && !self.first {
                assert(w0 + indent_text(outer_level(true, level)) + "]"@ =~= w0 + (indent_text(
                    outer_level(true, level),
                ) + "]"@));
            }
        }
        res
    }
}

/// A struct to help with `uDebug` implementations.
///
/// This is useful when you wish to output a formatted set of items as a part of your
/// `uDebug::fmt` implementation.
///
/// This can be constructed by the `Formatter::debug_set` method.
pub struct DebugSet<'f, 'w, W> where W: uWrite + ?Sized {
    first: bool,
    formatter: &'f mut Formatter<'w, W>,
}

/// Once a set builder is no longer used, so is its borrow of the formatter.
pub broadcast proof fn lemma_set_resolved<'f, 'w, W>(b: DebugSet<'f, 'w, W>) where
    W: uWrite + ?Sized,

    ensures
        #[trigger] has_resolved(b) ==> has_resolved(b.formatter()),
{
}

impl<'f, 'w, W> DebugSet<'f, 'w, W> where W: uWrite + ?Sized {
    /// Whether no entry has been written yet.
    pub closed spec fn is_first(&self) -> bool {
        self.first
    }

    /// The borrow of the formatter that this builder writes to.
    pub closed spec fn formatter(&self) -> &'f mut Formatter<'w, W> {
        self.formatter
    }

    /// The text that the sink has accepted so far.
    pub open spec fn written(&self) -> Seq<char> {
        self.formatter().written()
    }

    /// The errors with which the sink has refused a write so far.
    pub open spec fn refused(&self) -> Seq<W::Error> {
        self.formatter().refused()
    }

    /// Whether pretty mode is on.
    pub open spec fn is_pretty(&self) -> bool {
        self.formatter().is_pretty()
    }

    /// The nesting depth of the entries.
    pub open spec fn level(&self) -> nat {
        self.formatter().level()
    }

    /// Adds a new entry to the set output.
    pub fn entry<T>(&mut self, entry: &T) -> (res: Result<&mut Self, W::Error>) where
        T: uDebug,

        requires
            old(self).is_pretty() ==> entry.debug_fits(old(self).level()),
        ensures
            res matches Ok(b) ==> {
                &&& *final(b) == *final(self)
                &&& *final(b.formatter()) == *final(old(self).formatter())
                &&& &*final(b.formatter().sink()) == &*final(old(self).formatter().sink())
                &&& !b.is_first()
                &&& b.is_pretty() == old(self).is_pretty()
                &&& b.level() == old(self).level()
                &&& b.refused() == old(self).refused()
                &&& b.written() == old(self).written() + item_text(
                    list_opener(old(self).is_pretty()),
                    old(self).is_first(),
                    old(self).is_pretty(),
                    old(self).level(),
                    entry.debug_text(old(self).is_pretty(), old(self).level()),
                )
            },
            res is Err ==> {
                &&& *final(final(self).formatter()) == *final(old(self).formatter())
                &&& &*final(final(self).formatter().sink())
                    == &*final(old(self).formatter().sink())
                &&& final(self).is_pretty() == old(self).is_pretty()
            },
            res matches Err(e) ==> final(self).refused() == old(self).refused().push(e)
                && final(self).refused().len() == old(self).refused().len() + 1,
    {
        let ghost w0 = self.written();
        let ghost pretty = self.is_pretty();
        let ghost level = self.level();
        let ghost was_first = self.first;
        let ghost body = entry.debug_text(pretty, level);
        if self.first {
            self.first = false;

            if self.formatter.pretty_mode() {
                self.formatter.write_str("\n")?;
            }
        } else if !self.formatter.pretty_mode() {
            self.formatter.write_str(", ")?;
        }
        let ghost w1 = self.written();

        if self.formatter.pretty_mode() {
            self.formatter.indent()?;
        }
        let ghost w2 = self.written();

        entry.fmt(self.formatter)?;
        assert(self.written() =~= w2 + body);

        if self.formatter.pretty_mode() {
            self.formatter.write_str(",\n")?;
        }
        proof {
            let opener = list_opener(pretty);
            let lead = if was_first {
                opener
            } else if pretty {
                Seq::empty()
            } else {
                ", "@
            };
            assert(w1 =~= w0 + lead);
            if pretty {
                assert(self.written() =~= w0 + (lead + indent_text(level) + body + ",\n"@));
            } else {
                assert(self.written() =~= w0 + (lead + body));
            }
        }
        Ok(self)
    }

    /// Adds the contents of a slice of entries to the set output.
    pub fn entries<T>(&mut self, entries: &[T]) -> (res: Result<&mut Self, W::Error>) where
        T: uDebug,

        requires
            old(self).is_pretty() ==> all_debug_fit(entries@, old(self).level()),
        ensures
            res matches Ok(b) ==> {
                &&& *final(b) == *final(self)
                &&& *final(b.formatter()) == *final(old(self).formatter())
                &&& &*final(b.formatter().sink()) == &*final(old(self).formatter().sink())
                &&& b.is_first() == (old(self).is_first() && entries@.len() == 0)
                &&& b.is_pretty() == old(self).is_pretty()
                &&& b.level() == old(self).level()
                &&& b.refused() == old(self).refused()
                &&& b.written() == old(self).written() + items_text(
                    list_opener(old(self).is_pretty()),
                    old(self).is_first(),
                    old(self).is_pretty(),
                    old(self).level(),
                    debug_texts(entries@, old(self).is_pretty(), old(self).level()),
                )
            },
            res is Err ==> {
                &&& *final(final(self).formatter()) == *final(old(self).formatter())
                &&& &*final(final(self).formatter().sink())
                    == &*final(old(self).formatter().sink())
                &&& final(self).is_pretty() == old(self).is_pretty()
            },
            res matches Err(e) ==> final(self).refused() == old(self).refused().push(e)
                && final(self).refused().len() == old(self).refused().len() + 1,
    {
        let ghost pretty = self.is_pretty();
        let ghost level = self.level();
        let ghost opener = list_opener(pretty);
        let ghost texts = debug_texts(entries@, pretty, level);
        let mut i: usize = 0;
        assert(old(self).written() + items_text(
            opener,
            old(self).is_first(),
            pretty,
            level,
            texts.take(0),
        ) =~= old(self).written());
        while i < entries.len()
            invariant
                i <= entries@.len(),
                pretty ==> all_debug_fit(entries@, level),
                texts == debug_texts(entries@, pretty, level),
                opener == list_opener(pretty),
                *final(self.formatter()) == *final(old(self).formatter()),
                &*final(self.formatter().sink()) == &*final(old(self).formatter().sink()),
                self.is_first() == (old(self).is_first() && i == 0),
                self.refused() == old(self).refused(),
                self.is_pretty() == pretty,
                self.level() == level,
                old(self).is_pretty() == pretty,
                old(self).level() == level,
                self.written() == old(self).written() + items_text(
                    opener,
                    old(self).is_first(),
                    pretty,
                    level,
                    texts.take(i as int),
                ),
            decreases entries@.len() - i,
        {
            self.entry(&entries[i])?;
            proof {
                lemma_items_push(
                    opener,
                    old(self).is_first(),
                    pretty,
                    level,
                    texts.take(i as int),
                    texts[i as int],
                );
                assert(texts.take(i as int).push(texts[i as int]) =~= texts.take(i + 1));
                assert(self.written() =~= old(self).written() + items_text(
                    opener,
                    old(self).is_first(),
                    pretty,
                    level,
                    texts.take(i + 1),
                ));
            }
            i += 1;
        }
        assert(texts.take(i as int) =~= texts);
        Ok(self)
    }

    /// Finishes output.
    pub fn finish(&mut self) -> (res: Result<(), W::Error>)
        requires
            old(self).is_pretty() ==> old(self).level() > 0,
        ensures
            *final(final(self).formatter()) == *final(old(self).formatter()),
            &*final(final(self).formatter().sink()) == &*final(old(self).formatter().sink()),
            final(self).is_pretty() == old(self).is_pretty(),
            res is Ok ==> {
                &&& final(self).level() == outer_level(old(self).is_pretty(), old(self).level())
                &&& final(self).refused() == old(self).refused()
                &&& final(self).written() == old(self).written() + list_closer(
                    old(self).is_first(),
                    old(self).is_pretty(),
                    old(self).level(),
                    "}"@,
                )
            },
            res matches Err(e) ==> final(self).refused() == old(self).refused().push(e)
                && final(self).refused().len() == old(self).refused().len() + 1,
    {
        let ghost w0 = self.written();
        let ghost pretty = self.is_pretty();
        let ghost level = self.level();
        if self.formatter.pretty_mode() {
            self.formatter.unnest();
            if !self.first {
                self.formatter.indent()?;
            }
        }
        let res = self.formatter.write_str("}");
        proof {
            if pretty && !self.first {
                assert(w0 + indent_text(outer_level(true, level)) + "}"@ =~= w0 + (indent_text(
                    outer_level(true, level),
                ) + "}"@));
            }
        }
        res
    }
}

/// A struct to help with `uDebug` implementations.
///
/// This is useful when you wish to output a formatted map as a part of your
/// `uDebug::fmt` implementation.
///
/// This can be constructed by the `Formatter::debug_map` method.
pub struct DebugMap<'f, 'w, W> where W: uWrite + ?Sized {
    first: bool,
    formatter: &'f mut Formatter<'w, W>,
}

/// Once a map builder is no longer used, so is its borrow of the formatter.
pub broadcast proof fn lemma_map_resolved<'f, 'w, W>(b: DebugMap<'f, 'w, W>) where
    W: uWrite + ?Sized,

    ensures
        #[trigger] has_resolved(b) ==> has_resolved(b.formatter()),
{
}

impl<'f, 'w, W> DebugMap<'f, 'w, W> where W: uWrite + ?Sized {
    /// Whether no entry has been written yet.
    pub closed spec fn is_first(&self) -> bool {
        self.first
    }

    /// The borrow of the formatter that this builder writes to.
    pub closed spec fn formatter(&self) -> &'f mut Formatter<'w, W> {
        self.formatter
    }

    /// The text that the sink has accepted so far.
    pub open spec fn written(&self) -> Seq<char> {
        self.formatter().written()
    }

    /// The errors with which the sink has refused a write so far.
    pub open spec fn refused(&self) -> Seq<W::Error> {
        self.formatter().refused()
    }

    /// Whether pretty mode is on.
    pub open spec fn is_pretty(&self) -> bool {
        self.formatter().is_pretty()
    }

    /// The nesting depth of the entries.
    pub open spec fn level(&self) -> nat {
        self.formatter().level()
    }

    /// Adds a new entry to the map output.
    pub fn entry<K, V>(&mut self, key: &K, value: &V) -> (res: Result<&mut Self, W::Error>) where
        K: uDebug,
        V: uDebug,

        requires
            old(self).is_pretty() ==> key.debug_fits(old(self).level()) && value.debug_fits(
                old(self).level(),
            ),
        ensures
            res matches Ok(b) ==> {
                &&& *final(b) == *final(self)
                &&& *final(b.formatter()) == *final(old(self).formatter())
                &&& &*final(b.formatter().sink()) == &*final(old(self).formatter().sink())
                &&& !b.is_first()
                &&& b.is_pretty() == old(self).is_pretty()
                &&& b.level() == old(self).level()
                &&& b.refused() == old(self).refused()
                &&& b.written() == old(self).written() + item_text(
                    list_opener(old(self).is_pretty()),
                    old(self).is_first(),
                    old(self).is_pretty(),
                    old(self).level(),
                    pair_text(
                        key.debug_text(old(self).is_pretty(), old(self).level()),
                        value.debug_text(old(self).is_pretty(), old(self).level()),
                    ),
                )
            },
            res is Err ==> {
                &&& *final(final(self).formatter()) == *final(old(self).formatter())
                &&& &*final(final(self).formatter().sink())
                    == &*final(old(self).formatter().sink())
                &&& final(self).is_pretty() == old(self).is_pretty()
            },
            res matches Err(e) ==> final(self).refused() == old(self).refused().push(e)
                && final(self).refused().len() == old(self).refused().len() + 1,
    {
        let ghost w0 = self.written();
        let ghost pretty = self.is_pretty();
        let ghost level = self.level();
        let ghost was_first = self.first;
        let ghost body = pair_text(key.debug_text(pretty, level), value.debug_text(pretty, level));
        if self.first {
            self.first = false;

            if self.formatter.pretty_mode() {
                self.formatter.write_str("\n")?;
            }
        } else if !self.formatter.pretty_mode() {
            self.formatter.write_str(", ")?;
        }
        let ghost w1 = self.written();

        if self.formatter.pretty_mode() {
            self.formatter.indent()?;
        }
        let ghost w2 = self.written();

        key.fmt(self.formatter)?;
        self.formatter.write_str(": ")?;
        value.fmt(self.formatter)?;
        assert(self.written() =~= w2 + body);

        if self.formatter.pretty_mode() {
            self.formatter.write_str(",\n")?;
        }
        proof {
            let opener = list_opener(pretty);
            let lead = if was_first {
                opener
            } else if pretty {
                Seq::empty()
            } else {
                ", "@
            };
            assert(w1 =~= w0 + lead);
            if pretty {
                assert(self.written() =~= w0 + (lead + indent_text(level) + body + ",\n"@));
            } else {
                assert(self.written() =~= w0 + (lead + body));
            }
        }
        Ok(self)
    }

    /// Adds the contents of a slice of entries to the map output.
    pub fn entries<K, V>(&mut self, entries: &[(K, V)]) -> (res: Result<&mut Self, W::Error>) where
        K: uDebug,
        V: uDebug,

        requires
            old(self).is_pretty() ==> all_debug_pairs_fit(entries@, old(self).level()),
        ensures
            res matches Ok(b) ==> {
                &&& *final(b) == *final(self)
                &&& *final(b.formatter()) == *final(old(self).formatter())
                &&& &*final(b.formatter().sink()) == &*final(old(self).formatter().sink())
                &&& b.is_first() == (old(self).is_first() && entries@.len() == 0)
                &&& b.is_pretty() == old(self).is_pretty()
                &&& b.level() == old(self).level()
                &&& b.refused() == old(self).refused()
                &&& b.written() == old(self).written() + items_text(
                    list_opener(old(self).is_pretty()),
                    old(self).is_first(),
                    old(self).is_pretty(),
                    old(self).level(),
                    debug_pair_texts(entries@, old(self).is_pretty(), old(self).level()),
                )
            },
            res is Err ==> {
                &&& *final(final(self).formatter()) == *final(old(self).formatter())
                &&& &*final(final(self).formatter().sink())
                    == &*final(old(self).formatter().sink())
                &&& final(self).is_pretty() == old(self).is_pretty()
            },
            res matches Err(e) ==> final(self).refused() == old(self).refused().push(e)
                && final(self).refused().len() == old(self).refused().len() + 1,
    {
        let ghost pretty = self.is_pretty();
        let ghost level = self.level();
        let ghost opener = list_opener(pretty);
        let ghost texts = debug_pair_texts(entries@, pretty, level);
        let mut i: usize = 0;
        assert(old(self).written() + items_text(
            opener,
            old(self).is_first(),
            pretty,
            level,
            texts.take(0),
        ) =~= old(self).written());
        while i < entries.len()
            invariant
                i <= entries@.len(),
                pretty ==> all_debug_pairs_fit(entries@, level),
                texts == debug_pair_texts(entries@, pretty, level),
                opener == list_opener(pretty),
                *final(self.formatter()) == *final(old(self).formatter()),
                &*final(self.formatter().sink()) == &*final(old(self).formatter().sink()),
                self.is_first() == (old(self).is_first() && i == 0),
                self.refused() == old(self).refused(),
                self.is_pretty() == pretty,
                self.level() == level,
                old(self).is_pretty() == pretty,
                old(self).level() == level,
                self.written() == old(self).written() + items_text(
                    opener,
                    old(self).is_first(),
                    pretty,
                    level,
                    texts.take(i as int),
                ),
            decreases entries@.len() - i,
        {
            self.entry(&entries[i].0, &entries[i].1)?;
            proof {
                lemma_items_push(
                    opener,
                    old(self).is_first(),
                    pretty,
                    level,
                    texts.take(i as int),
                    texts[i as int],
                );
                assert(texts.take(i as int).push(texts[i as int]) =~= texts.take(i + 1));
                assert(self.written() =~= old(self).written() + items_text(
                    opener,
                    old(self).is_first(),
                    pretty,
                    level,
                    texts.take(i + 1),
                ));
            }
            i += 1;
        }
        assert(texts.take(i as int) =~= texts);
        Ok(self)
    }

    /// Finishes output.
    pub fn finish(&mut self) -> (res: Result<(), W::Error>)
        requires
            old(self).is_pretty() ==> old(self).level() > 0,
        ensures
            *final(final(self).formatter()) == *final(old(self).formatter()),
            &*final(final(self).formatter().sink()) == &*final(old(self).formatter().sink()),
            final(self).is_pretty() == old(self).is_pretty(),
            res is Ok ==> {
                &&& final(self).level() == outer_level(old(self).is_pretty(), old(self).level())
                &&& final(self).refused() == old(self).refused()
                &&& final(self).written() == old(self).written() + list_closer(
                    old(self).is_first(),
                    old(self).is_pretty(),
                    old(self).level(),
                    "}"@,
                )
            },
            res matches Err(e) ==> final(self).refused() == old(self).refused().push(e)
                && final(self).refused().len() == old(self).refused().len() + 1,
    {
        let ghost w0 = self.written();
        let ghost pretty = self.is_pretty();
        let ghost level = self.level();
        if self.formatter.pretty_mode() {
            self.formatter.unnest();
            if !self.first {
                self.formatter.indent()?;
            }
        }
        let res = self.formatter.write_str("}");
        proof {
            if pretty && !self.first {
                assert(w0 + indent_text(outer_level(true, level)) + "}"@ =~= w0 + (indent_text(
                    outer_level(true, level),
                ) + "}"@));
            }
        }
        res
    }
}

/// A struct to help with `uDebug` implementations.
///
/// This is useful when you wish to output a formatted struct as a part of your
/// `uDebug::fmt` implementation.
///
/// This can be constructed by the `Formatter::debug_struct` method.
pub struct DebugStruct<'f, 'w, W> where W: uWrite + ?Sized {
    first: bool,
    formatter: &'f mut Formatter<'w, W>,
}

/// Once a struct builder is no longer used, so is its borrow of the formatter.
pub broadcast proof fn lemma_struct_resolved<'f, 'w, W>(b: DebugStruct<'f, 'w, W>) where
    W: uWrite + ?Sized,

    ensures
        #[trigger] has_resolved(b) ==> has_resolved(b.formatter()),
{
}

impl<'f, 'w, W> DebugStruct<'f, 'w, W> where W: uWrite + ?Sized {
    /// Whether no field has been written yet.
    pub closed spec fn is_first(&self) -> bool {
        self.first
    }

    /// The borrow of the formatter that this builder writes to.
    pub closed spec fn formatter(&self) -> &'f mut Formatter<'w, W> {
        self.formatter
    }

    /// The text that the sink has accepted so far.
    pub open spec fn written(&self) -> Seq<char> {
        self.formatter().written()
    }

    /// The errors with which the sink has refused a write so far.
    pub open spec fn refused(&self) -> Seq<W::Error> {
        self.formatter().refused()
    }

    /// Whether pretty mode is on.
    pub open spec fn is_pretty(&self) -> bool {
        self.formatter().is_pretty()
    }

    /// The nesting depth of the fields.
    pub open spec fn level(&self) -> nat {
        self.formatter().level()
    }

    /// Adds a new field to the generated struct output.
    pub fn field<T>(&mut self, name: &str, value: &T) -> (res: Result<&mut Self, W::Error>) where
        T: uDebug,

        requires
            old(self).is_pretty() ==> value.debug_fits(old(self).level()),
        ensures
            res matches Ok(b) ==> {
                &&& *final(b) == *final(self)
                &&& *final(b.formatter()) == *final(old(self).formatter())
                &&& &*final(b.formatter().sink()) == &*final(old(self).formatter().sink())
                &&& !b.is_first()
                &&& b.is_pretty() == old(self).is_pretty()
                &&& b.level() == old(self).level()
                &&& b.refused() == old(self).refused()
                &&& b.written() == old(self).written() + item_text(
                    struct_opener(old(self).is_pretty()),
                    old(self).is_first(),
                    old(self).is_pretty(),
                    old(self).level(),
                    pair_text(name@, value.debug_text(old(self).is_pretty(), old(self).level())),
                )
            },
            res is Err ==> {
                &&& *final(final(self).formatter()) == *final(old(self).formatter())
                &&& &*final(final(self).formatter().sink())
                    == &*final(old(self).formatter().sink())
                &&& final(self).is_pretty() == old(self).is_pretty()
            },
            res matches Err(e) ==> final(self).refused() == old(self).refused().push(e)
                && final(self).refused().len() == old(self).refused().len() + 1,
    {
        let ghost w0 = self.written();
        let ghost pretty = self.is_pretty();
        let ghost level = self.level();
        let ghost was_first = self.first;
        let ghost body = pair_text(name@, value.debug_text(pretty, level));
        if self.first {
            self.first = false;

            self.formatter.write_str(" {")?;

            if self.formatter.pretty_mode() {
                self.formatter.write_str("\n")?;
            } else {
                self.formatter.write_str(" ")?;
            }
        } else if !self.formatter.pretty_mode() {
            self.formatter.write_str(", ")?;
        }
        let ghost w1 = self.written();

        if self.formatter.pretty_mode() {
            self.formatter.indent()?;
        }
        let ghost w2 = self.written();

        self.formatter.write_str(name)?;
        self.formatter.write_str(": ")?;
        value.fmt(self.formatter)?;
        assert(self.written() =~= w2 + body);

        if self.formatter.pretty_mode() {
            self.formatter.write_str(",\n")?;
        }
        proof {
            let opener = struct_opener(pretty);
            let lead = if was_first {
                opener
            } else if pretty {
                Seq::empty()
            } else {
                ", "@
            };
            assert(w1 =~= w0 + lead);
            if pretty {
                assert(self.written() =~= w0 + (lead + indent_text(level) + body + ",\n"@));
            } else {
                assert(self.written() =~= w0 + (lead + body));
            }
        }
        Ok(self)
    }

    /// Finishes output.
    pub fn finish(&mut self) -> (res: Result<(), W::Error>)
        requires
            old(self).is_pretty() ==> old(self).level() > 0,
        ensures
            *final(final(self).formatter()) == *final(old(self).formatter()),
            &*final(final(self).formatter().sink()) == &*final(old(self).formatter().sink()),
            final(self).is_pretty() == old(self).is_pretty(),
            res is Ok ==> {
                &&& final(self).level() == outer_level(old(self).is_pretty(), old(self).level())
                &&& final(self).refused() == old(self).refused()
                &&& final(self).written() == old(self).written() + struct_closer(
                    old(self).is_first(),
                    old(self).is_pretty(),
                    old(self).level(),
                )
            },
            res matches Err(e) ==> final(self).refused() == old(self).refused().push(e)
                && final(self).refused().len() == old(self).refused().len() + 1,
    {
        let ghost w0 = self.written();
        let ghost pretty = self.is_pretty();
        let ghost level = self.level();
        if self.formatter.pretty_mode() {
            self.formatter.unnest();
        }
        if !self.first {
            if self.formatter.pretty_mode() {
                self.formatter.indent()?;
            } else {
                self.formatter.write_str(" ")?;
            }

            self.formatter.write_str("}")?;
            proof {
                if pretty {
                    assert(self.written() =~= w0 + (indent_text(outer_level(true, level)) + "}"@));
                } else {
                    assert(self.written() =~= w0 + (" "@ + "}"@));
                }
            }
        } else {
            assert(w0 =~= w0 + Seq::<char>::empty());
        }

        Ok(())
    }
}

/// A struct to help with `uDebug` implementations.
///
/// This is useful when you wish to output a formatted tuple as a part of your
/// `uDebug::fmt` implementation.
///
/// This can be constructed by the `Formatter::debug_tuple` method.
pub struct DebugTuple<'f, 'w, W> where W: uWrite + ?Sized {
    fields: u8,
    unnamed: bool,
    first: bool,
    formatter: &'f mut Formatter<'w, W>,
}

/// Once a tuple builder is no longer used, so is its borrow of the formatter.
pub broadcast proof fn lemma_tuple_resolved<'f, 'w, W>(b: DebugTuple<'f, 'w, W>) where
    W: uWrite + ?Sized,

    ensures
        #[trigger] has_resolved(b) ==> has_resolved(b.formatter()),
{
}

impl<'f, 'w, W> DebugTuple<'f, 'w, W> where W: uWrite + ?Sized {
    /// Whether no field has been written yet.
    pub closed spec fn is_first(&self) -> bool {
        self.first
    }

    /// How many fields have been written, as far as the counter goes.
    pub closed spec fn fields(&self) -> nat {
        self.fields as nat
    }

    /// Whether the tuple has no name.
    pub closed spec fn is_unnamed(&self) -> bool {
        self.unnamed
    }

    /// The borrow of the formatter that this builder writes to.
    pub closed spec fn formatter(&self) -> &'f mut Formatter<'w, W> {
        self.formatter
    }

    /// The text that the sink has accepted so far.
    pub open spec fn written(&self) -> Seq<char> {
        self.formatter().written()
    }

    /// The errors with which the sink has refused a write so far.
    pub open spec fn refused(&self) -> Seq<W::Error> {
        self.formatter().refused()
    }

    /// Whether pretty mode is on.
    pub open spec fn is_pretty(&self) -> bool {
        self.formatter().is_pretty()
    }

    /// The nesting depth of the fields.
    pub open spec fn level(&self) -> nat {
        self.formatter().level()
    }

    /// Adds a new field to the generated tuple struct output.
    pub fn field<T>(&mut self, value: &T) -> (res: Result<&mut Self, W::Error>) where
        T: uDebug,

        requires
            old(self).is_pretty() ==> value.debug_fits(old(self).level()),
        ensures
            res matches Ok(b) ==> {
                &&& *final(b) == *final(self)
                &&& *final(b.formatter()) == *final(old(self).formatter())
                &&& &*final(b.formatter().sink()) == &*final(old(self).formatter().sink())
                &&& !b.is_first()
                &&& b.fields() == counted(old(self).fields())
                &&& b.is_unnamed() == old(self).is_unnamed()
                &&& b.is_pretty() == old(self).is_pretty()
                &&& b.level() == old(self).level()
                &&& b.refused() == old(self).refused()
                &&& b.written() == old(self).written() + item_text(
                    tuple_opener(old(self).is_pretty()),
                    old(self).is_first(),
                    old(self).is_pretty(),
                    old(self).level(),
                    value.debug_text(old(self).is_pretty(), old(self).level()),
                )
            },
            res is Err ==> {
                &&& *final(final(self).formatter()) == *final(old(self).formatter())
                &&& &*final(final(self).formatter().sink())
                    == &*final(old(self).formatter().sink())
                &&& final(self).is_pretty() == old(self).is_pretty()
            },
            res matches Err(e) ==> final(self).refused() == old(self).refused().push(e)
                && final(self).refused().len() == old(self).refused().len() + 1,
    {
        let ghost w0 = self.written();
        let ghost pretty = self.is_pretty();
        let ghost level = self.level();
        let ghost was_first = self.first;
        let ghost body = value.debug_text(pretty, level);
        if self.fields < u8::MAX {
            self.fields += 1;
        }

        if self.first {
            self.first = false;

            self.formatter.write_str("(")?;

            if self.formatter.pretty_mode() {
                self.formatter.write_str("\n")?;
            }
        } else if !self.formatter.pretty_mode() {
            self.formatter.write_str(", ")?;
        }
        let ghost w1 = self.written();

        if self.formatter.pretty_mode() {
            self.formatter.indent()?;
        }
        let ghost w2 = self.written();

        value.fmt(self.formatter)?;
        assert(self.written() =~= w2 + body);

        if self.formatter.pretty_mode() {
            self.formatter.write_str(",\n")?;
        }
        proof {
            let opener = tuple_opener(pretty);
            let lead = if was_first {
                opener
            } else if pretty {
                Seq::empty()
            } else {
                ", "@
            };
            assert(w1 =~= w0 + lead);
            if pretty {
                assert(self.written() =~= w0 + (lead + indent_text(level) + body + ",\n"@));
            } else {
                assert(self.written() =~= w0 + (lead + body));
            }
        }
        Ok(self)
    }

    /// Finishes output.
    pub fn finish(&mut self) -> (res: Result<(), W::Error>)
        requires
            old(self).is_pretty() ==> old(self).level() > 0,
        ensures
            *final(final(self).formatter()) == *final(old(self).formatter()),
            &*final(final(self).formatter().sink()) == &*final(old(self).formatter().sink()),
            final(self).is_pretty() == old(self).is_pretty(),
            res is Ok ==> {
                &&& final(self).level() == outer_level(old(self).is_pretty(), old(self).level())
                &&& final(self).refused() == old(self).refused()
                &&& final(self).written() == old(self).written() + tuple_closer(
                    old(self).is_first(),
                    old(self).is_pretty(),
                    old(self).level(),
                    old(self).is_unnamed(),
                    old(self).fields(),
                )
            },
            res matches Err(e) ==> final(self).refused() == old(self).refused().push(e)
                && final(self).refused().len() == old(self).refused().len() + 1,
    {
        let ghost w0 = self.written();
        let ghost pretty = self.is_pretty();
        let ghost level = self.level();
        if self.formatter.pretty_mode() {
            self.formatter.unnest();
        }
        if !self.first {
            if self.formatter.pretty_mode() {
                self.formatter.indent()?;
            } else if self.unnamed && self.fields == 1 {
                // this is a one-element tuple so we need a trailing comma
                self.formatter.write_str(",")?;
            }

            self.formatter.write_str(")")?;
            proof {
                if pretty {
                    assert(self.written() =~= w0 + (indent_text(outer_level(true, level)) + ")"@));
                } else if self.unnamed && self.fields == 1 {
                    assert(self.written() =~= w0 + (","@ + ")"@));
                }
            }
        } else {
            assert(w0 =~= w0 + Seq::<char>::empty());
        }

        Ok(())
    }
}

} // verus!
