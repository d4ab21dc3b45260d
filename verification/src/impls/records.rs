//! Formatting of this library's own errors and options.

use vstd::prelude::*;
use crate::formatter::Formatter;
use crate::helpers::{
    inner_level, lemma_items_start, lemma_items_step, lemma_struct_close, pair_text,
    struct_opener, struct_text,
};
use crate::pieces::{ArgumentError, ParseError};
use crate::write::uWrite;
use crate::{uDebug, HexOptions};

verus! {

broadcast use crate::helpers::lemma_struct_resolved;

impl uDebug for ParseError {
    open spec fn debug_text(&self, pretty: bool, level: nat) -> Seq<char> {
        match self {
            ParseError::UnmatchedRightBrace => "UnmatchedRightBrace"@,
            ParseError::InvalidFormatString => "InvalidFormatString"@,
        }
    }

    open spec fn debug_fits(&self, level: nat) -> bool {
        true
    }

    fn fmt<W>(&self, f: &mut Formatter<'_, W>) -> (res: Result<(), W::Error>) where
        W: uWrite + ?Sized,
    {
        match self {
            ParseError::UnmatchedRightBrace => f.write_str("UnmatchedRightBrace"),
            ParseError::InvalidFormatString => f.write_str("InvalidFormatString"),
        }
    }
}

impl uDebug for ArgumentError {
    open spec fn debug_text(&self, pretty: bool, level: nat) -> Seq<char> {
        let inner = inner_level(pretty, level);
        match self {
            ArgumentError::Missing { required, supplied } => struct_text(
                "Missing"@,
                seq![
                    pair_text("required"@, required.debug_text(pretty, inner)),
                    pair_text("supplied"@, supplied.debug_text(pretty, inner)),
                ],
                pretty,
                level,
            ),
            ArgumentError::NeverUsed { index } => struct_text(
                "NeverUsed"@,
                seq![pair_text("index"@, index.debug_text(pretty, inner))],
                pretty,
                level,
            ),
        }
    }

    open spec fn debug_fits(&self, level: nat) -> bool {
        level < u8::MAX
    }

    fn fmt<W>(&self, f: &mut Formatter<'_, W>) -> (res: Result<(), W::Error>) where
        W: uWrite + ?Sized,
    {
        let ghost start = f.written();
        let ghost pretty = f.is_pretty();
        let ghost level = f.level();
        let ghost inner = inner_level(pretty, level);
        let ghost opener = struct_opener(pretty);
        match self {
            ArgumentError::Missing { required, supplied } => {
                let ghost bodies = seq![
                    pair_text("required"@, required.debug_text(pretty, inner)),
                    pair_text("supplied"@, supplied.debug_text(pretty, inner)),
                ];
                let mut record = f.debug_struct("Missing")?;
                let ghost prefix = start + "Missing"@;
                let ghost mut text = record.written();
                proof {
                    lemma_items_start(prefix, opener, pretty, inner, bodies);
                }
                record.field("required", required)?;
                proof {
                    lemma_items_step(prefix, opener, pretty, inner, bodies, 0, text, record.written());
                    text = record.written();
                }
                record.field("supplied", supplied)?;
                proof {
                    lemma_items_step(prefix, opener, pretty, inner, bodies, 1, text, record.written());
                    text = record.written();
                }
                let res = record.finish();
                proof {
                    if res is Ok {
                        lemma_struct_close(
                            start,
                            "Missing"@,
                            bodies,
                            pretty,
                            level,
                            text,
                            record.written(),
                        );
                    }
                }
                res
            },
            ArgumentError::NeverUsed { index } => {
                let ghost bodies = seq![pair_text("index"@, index.debug_text(pretty, inner))];
                let mut record = f.debug_struct("NeverUsed")?;
                let ghost prefix = start + "NeverUsed"@;
                let ghost mut text = record.written();
                proof {
                    lemma_items_start(prefix, opener, pretty, inner, bodies);
                }
                record.field("index", index)?;
                proof {
                    lemma_items_step(prefix, opener, pretty, inner, bodies, 0, text, record.written());
                    text = record.written();
                }
                let res = record.finish();
                proof {
                    if res is Ok {
                        lemma_struct_close(
                            start,
                            "NeverUsed"@,
                            bodies,
                            pretty,
                            level,
                            text,
                            record.written(),
                        );
                    }
                }
                res
            },
        }
    }
}

impl uDebug for HexOptions {
    open spec fn debug_text(&self, pretty: bool, level: nat) -> Seq<char> {
        let inner = inner_level(pretty, level);
        struct_text(
            "HexOptions"@,
            seq![
                pair_text("upper_case"@, self.upper_case.debug_text(pretty, inner)),
                pair_text("pad_char"@, self.pad_char.debug_text(pretty, inner)),
                pair_text("pad_length"@, self.pad_length.debug_text(pretty, inner)),
                pair_text("ox_prefix"@, self.ox_prefix.debug_text(pretty, inner)),
            ],
            pretty,
            level,
        )
    }

    open spec fn debug_fits(&self, level: nat) -> bool {
        level < u8::MAX
    }

    fn fmt<W>(&self, f: &mut Formatter<'_, W>) -> (res: Result<(), W::Error>) where
        W: uWrite + ?Sized,
    {
        let ghost start = f.written();
        let ghost pretty = f.is_pretty();
        let ghost level = f.level();
        let ghost inner = inner_level(pretty, level);
        let ghost opener = struct_opener(pretty);
        let ghost bodies = seq![
            pair_text("upper_case"@, self.upper_case.debug_text(pretty, inner)),
            pair_text("pad_char"@, self.pad_char.debug_text(pretty, inner)),
            pair_text("pad_length"@, self.pad_length.debug_text(pretty, inner)),
            pair_text("ox_prefix"@, self.ox_prefix.debug_text(pretty, inner)),
        ];
        let mut record = f.debug_struct("HexOptions")?;
        let ghost prefix = start + "HexOptions"@;
        let ghost mut text = record.written();
        proof {
            lemma_items_start(prefix, opener, pretty, inner, bodies);
        }
        record.field("upper_case", &self.upper_case)?;
        proof {
            lemma_items_step(prefix, opener, pretty, inner, bodies, 0, text, record.written());
            text = record.written();
        }
        record.field("pad_char", &self.pad_char)?;
        proof {
            lemma_items_step(prefix, opener, pretty, inner, bodies, 1, text, record.written());
            text = record.written();
        }
        record.field("pad_length", &self.pad_length)?;
        proof {
            lemma_items_step(prefix, opener, pretty, inner, bodies, 2, text, record.written());
            text = record.written();
        }
        record.field("ox_prefix", &self.ox_prefix)?;
        proof {
            lemma_items_step(prefix, opener, pretty, inner, bodies, 3, text, record.written());
            text = record.written();
        }
        let res = record.finish();
        proof {
            if res is Ok {
                lemma_struct_close(start, "HexOptions"@, bodies, pretty, level, text, record.written());
            }
        }
        res
    }
}

} // verus!
