//! Building the language catalog from the Helix `languages.toml` document.
//! The TOML reading itself is the outside parser's work; the decisions
//! (how an indent block maps to a size and style, what counts as having a
//! formatter) are made here, over plain values.

use vstd::prelude::*;

use crate::model::{fts_view, FileType, FileTypeV, HelixLangCfg, HelixLangCfgV, IndentStyle};
use crate::tomlio::{
    catalog_fields, catalog_tables, parse_catalog_tables, read_file_types, read_formatter_hint,
    read_indent, read_name,
};

verus! {

/// The indent record an indent block's width and unit text denote: a width
/// that does not fit a `usize` is a fatal catalog fault; a unit that starts
/// with a space means spaces, anything else means tabs, exactly as the
/// target editor reads it.
pub open spec fn spec_indent_from_parts(w: int, unit: Seq<char>) -> Option<(usize, IndentStyle)> {
    if 0 <= w <= usize::MAX {
        Some(
            (
                w as usize,
                if unit.len() > 0 && unit[0] == ' ' {
                    IndentStyle::Space
                } else {
                    IndentStyle::Tab
                },
            ),
        )
    } else {
        None
    }
}

/// Assemble one catalog record from the plain values read out of its table.
/// `None` means the indent block is unusable, which the caller treats as a
/// fatal catalog fault.
pub fn lang_from_parts(
    name: String,
    file_types: Option<Vec<FileType>>,
    indent: Option<(i64, String)>,
    formatter_hint: bool,
    raw: toml_edit::Table,
) -> (r: Option<HelixLangCfg>)
    ensures
        (match indent {
            Some((w, _)) => r is Some <==> 0 <= w as int <= usize::MAX,
            None => r is Some,
        }),
        r matches Some(l) ==> l@ == (HelixLangCfgV {
            name: name@,
            indent: match indent {
                Some((w, u)) => spec_indent_from_parts(w as int, u@),
                None => None,
            },
            file_types: match file_types {
                Some(v) => Some(fts_view(v@)),
                None => None,
            },
            has_formatter: formatter_hint,
            raw_toml: raw,
        }),
{
    let ind: Option<(usize, IndentStyle)> = match &indent {
        Some((w, u)) => {
            if *w < 0 {
                return None;
            }
            let wu = *w as u64;
            if wu > usize::MAX as u64 {
                return None;
            }
            let style = if u.as_str().unicode_len() > 0 && u.as_str().get_char(0) == ' ' {
                IndentStyle::Space
            } else {
                IndentStyle::Tab
            };
            Some((wu as usize, style))
        },
        None => None,
    };
    Some(
        HelixLangCfg {
            name,
            indent: ind,
            file_types,
            has_formatter: formatter_hint,
            raw_toml: raw,
        },
    )
}

/// Whether a catalog record was read off its own table as the core reads
/// catalogs: the name, file patterns, indent and formatter hint all follow
/// the table the record carries.
pub open spec fn catalog_record_wf(l: HelixLangCfgV) -> bool {
    let f = catalog_fields(l.raw_toml);
    &&& f.name == Some(l.name)
    &&& (match f.file_types {
        None => l.file_types is None,
        Some(x) => x is Some && l.file_types == x,
    })
    &&& (match f.indent {
        None => l.indent is None,
        Some(x) => match x {
            None => false,
            Some((w, unit)) => l.indent == spec_indent_from_parts(w, unit) && l.indent is Some,
        },
    })
    &&& l.has_formatter == f.formatter_hint
}

/// Whether one catalog table can be read: it names its language, its file
/// patterns parse if present, and its indent block, if present, is complete
/// with a width a `usize` can hold.
pub open spec fn catalog_table_wf(t: toml_edit::Table) -> bool {
    let f = catalog_fields(t);
    &&& f.name is Some
    &&& (match f.file_types {
        Some(x) => x is Some,
        None => true,
    })
    &&& (match f.indent {
        None => true,
        Some(x) => match x {
            None => false,
            Some((w, _)) => 0 <= w <= usize::MAX,
        },
    })
}

/// Parse the Helix language catalog.  The result is `Some` exactly when
/// the document parses as a catalog and every one of its tables can be
/// read; it then holds one record per `[[language]]` table, in document
/// order, each carrying its own table and provably read off it.
pub fn languages(input: &str) -> (r: Option<Vec<HelixLangCfg>>)
    ensures
        r is Some <==> (catalog_tables(input@) is Some && (forall|i: int|
            0 <= i < catalog_tables(input@).unwrap().len() ==> catalog_table_wf(
                #[trigger] catalog_tables(input@).unwrap()[i],
            ))),
        r matches Some(v) ==> v@.len() == catalog_tables(input@).unwrap().len(),
        r matches Some(v) ==> forall|i: int|
            0 <= i < v@.len() ==> (#[trigger] v@[i])@.raw_toml == catalog_tables(
                input@,
            ).unwrap()[i] && catalog_record_wf(v@[i]@),
{
    let tables = match parse_catalog_tables(input) {
        Some(t) => t,
        None => {
            return None;
        },
    };
    let ghost ts = catalog_tables(input@).unwrap();
    proof {
        assert(ts == tables@);
    }
    let mut out: Vec<HelixLangCfg> = Vec::new();
    let mut i: usize = 0;
    while i < tables.len()
        invariant
            i <= tables@.len(),
            ts == tables@,
            catalog_tables(input@) == Some(ts),
            out@.len() == i,
            forall|j: int| 0 <= j < i ==> catalog_table_wf(#[trigger] ts[j]),
            forall|j: int|
                0 <= j < i ==> (#[trigger] out@[j])@.raw_toml == ts[j] && catalog_record_wf(
                    out@[j]@,
                ),
        decreases tables@.len() - i,
    {
        let t = tables[i].clone();
        proof {
            assert(t == ts[i as int]);
        }
        let name = match read_name(&t) {
            Some(n) => n,
            None => {
                proof {
                    assert(catalog_tables(input@).unwrap() == ts);
                    assert(!catalog_table_wf(catalog_tables(input@).unwrap()[i as int]));
                }
                return None;
            },
        };
        let fts = match read_file_types(&t) {
            None => None,
            Some(Some(v)) => Some(v),
            Some(None) => {
                proof {
                    assert(catalog_tables(input@).unwrap() == ts);
                    assert(!catalog_table_wf(catalog_tables(input@).unwrap()[i as int]));
                }
                return None;
            },
        };
        let ind = match read_indent(&t) {
            None => None,
            Some(Some(p)) => Some(p),
            Some(None) => {
                proof {
                    assert(catalog_tables(input@).unwrap() == ts);
                    assert(!catalog_table_wf(catalog_tables(input@).unwrap()[i as int]));
                }
                return None;
            },
        };
        let hint = read_formatter_hint(&t);
        let l = match lang_from_parts(name, fts, ind, hint, t) {
            Some(l) => l,
            None => {
                proof {
                    assert(catalog_tables(input@).unwrap() == ts);
                    assert(!catalog_table_wf(catalog_tables(input@).unwrap()[i as int]));
                }
                return None;
            },
        };
        proof {
            assert(catalog_table_wf(ts[i as int]));
            assert(l@.raw_toml == ts[i as int]);
            assert(catalog_record_wf(l@));
        }
        out.push(l);
        i = i + 1;
    }
    Some(out)
}

} // verus!
