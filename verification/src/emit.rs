//! Emission: the editor-wide settings record and its `config.toml` text,
//! and the entry list of one per-language `languages.toml` block.

use vstd::prelude::*;

use crate::model::{
    sec_view, spec_indent, spec_sec_get, spec_src_into, spec_src_is_some, EcValue, IndentStyle,
    Key, LangCfg, LangCfgV,
};
use crate::text::{dec_str, spaces, spec_dec, str_eq};
use crate::tomlio::{
    block_text, entries_view, plain_block_text, render_block, TomlAtom, TomlAtomV, TomlInner,
    TomlVal, TomlValV,
};
use crate::model::FileType;
use crate::model::FileTypeV;
use crate::model::fts_view;

verus! {

#[derive(Debug, Clone, Copy, PartialEq, Eq, Structural)]
pub enum LineEnding {
    Lf,
    Crlf,
}

/// The editor-wide settings the global section carries into `config.toml`.
#[derive(Debug, Clone, Copy)]
pub struct HxEditorCfg {
    pub default_line_ending: Option<LineEnding>,
    pub insert_final_newline: Option<bool>,
    pub max_line_length: Option<usize>,
}

/// The editor-wide settings a section denotes.
pub open spec fn spec_hx_editor_from(sec: Seq<(Key, Seq<char>)>) -> HxEditorCfg {
    HxEditorCfg {
        default_line_ending: match spec_sec_get(sec, Key::EndOfLine) {
            Some(v) => if v == "lf"@ {
                Some(LineEnding::Lf)
            } else if v == "crlf"@ {
                Some(LineEnding::Crlf)
            } else {
                None
            },
            None => None,
        },
        insert_final_newline: match spec_sec_get(sec, Key::InsertFinalNewline) {
            Some(v) => <bool as EcValue>::spec_parse(v),
            None => None,
        },
        max_line_length: match spec_sec_get(sec, Key::MaxLineLength) {
            Some(v) => <usize as EcValue>::spec_parse(v),
            None => None,
        },
    }
}

impl HxEditorCfg {
    pub fn new() -> (r: Self)
        ensures
            r.default_line_ending is None,
            r.insert_final_newline is None,
            r.max_line_length is None,
    {
        HxEditorCfg { default_line_ending: None, insert_final_newline: None, max_line_length: None }
    }

    pub fn from(section: &Vec<(Key, String)>) -> (r: Self)
        ensures
            r == spec_hx_editor_from(sec_view(section@)),
    {
        let default_line_ending = match crate::model::sec_get(section, Key::EndOfLine) {
            Some(v) => if str_eq(v.as_str(), "lf") {
                Some(LineEnding::Lf)
            } else if str_eq(v.as_str(), "crlf") {
                Some(LineEnding::Crlf)
            } else {
                None
            },
            None => None,
        };
        let insert_final_newline = match crate::model::sec_get(section, Key::InsertFinalNewline) {
            Some(v) => <bool as EcValue>::parse_ec(v.as_str()),
            None => None,
        };
        let max_line_length = match crate::model::sec_get(section, Key::MaxLineLength) {
            Some(v) => <usize as EcValue>::parse_ec(v.as_str()),
            None => None,
        };
        HxEditorCfg { default_line_ending, insert_final_newline, max_line_length }
    }
}

/// The `config.toml` text for the editor-wide settings.
pub open spec fn spec_config_toml(c: HxEditorCfg, rulers: bool) -> Seq<char> {
    (match c.default_line_ending {
        Some(LineEnding::Lf) => "editor.default-line-ending = \"lf\"\n"@,
        Some(LineEnding::Crlf) => "editor.default-line-ending = \"crlf\"\n"@,
        None => Seq::<char>::empty(),
    }) + (match c.insert_final_newline {
        Some(true) => "editor.insert-final-newline = true\n"@,
        Some(false) => "editor.insert-final-newline = false\n"@,
        None => Seq::<char>::empty(),
    }) + (match c.max_line_length {
        Some(m) => "editor.text-width = "@ + spec_dec(m as int) + "\n"@ + (if rulers {
            "editor.rulers = ["@ + spec_dec(m + 1) + "]\n"@
        } else {
            Seq::<char>::empty()
        }),
        None => Seq::<char>::empty(),
    })
}

impl HxEditorCfg {
    /// Write the editor-wide settings as `config.toml` text.
    #[verifier::rlimit(100)]
    pub fn to_config_toml(&self, rulers: bool) -> (r: String)
        requires
            self.max_line_length matches Some(m) ==> m < usize::MAX,
        ensures
            r@ == spec_config_toml(*self, rulers),
    {
        let ghost p1 = match self.default_line_ending {
            Some(LineEnding::Lf) => "editor.default-line-ending = \"lf\"\n"@,
            Some(LineEnding::Crlf) => "editor.default-line-ending = \"crlf\"\n"@,
            None => Seq::<char>::empty(),
        };
        let ghost p2 = match self.insert_final_newline {
            Some(true) => "editor.insert-final-newline = true\n"@,
            Some(false) => "editor.insert-final-newline = false\n"@,
            None => Seq::<char>::empty(),
        };
        let mut f = String::new();
        match self.default_line_ending {
            Some(LineEnding::Lf) => {
                f.append("editor.default-line-ending = \"lf\"\n");
            },
            Some(LineEnding::Crlf) => {
                f.append("editor.default-line-ending = \"crlf\"\n");
            },
            None => {},
        }
        proof {
            assert(f@ =~= p1);
        }
        match self.insert_final_newline {
            Some(true) => {
                f.append("editor.insert-final-newline = true\n");
            },
            Some(false) => {
                f.append("editor.insert-final-newline = false\n");
            },
            None => {},
        }
        proof {
            assert(f@ =~= p1 + p2);
        }
        match self.max_line_length {
            Some(m) => {
                f.append("editor.text-width = ");
                let d = dec_str(m);
                f.append(d.as_str());
                f.append("\n");
                proof {
                    assert(f@ =~= p1 + p2 + ("editor.text-width = "@ + spec_dec(m as int)
                        + "\n"@));
                }
                if rulers {
                    f.append("editor.rulers = [");
                    let d1 = dec_str(m + 1);
                    f.append(d1.as_str());
                    f.append("]\n");
                    proof {
                        assert(f@ =~= p1 + p2 + ("editor.text-width = "@ + spec_dec(m as int)
                            + "\n"@ + ("editor.rulers = ["@ + spec_dec(m + 1) + "]\n"@)));
                    }
                }
            },
            None => {},
        }
        proof {
            assert(f@ =~= spec_config_toml(*self, rulers));
        }
        f
    }
}

/// The TOML array element a file pattern becomes: a bare string for an
/// extension, an inline `glob` binding for a glob.
pub open spec fn spec_ft_atom(ft: FileTypeV) -> TomlAtomV {
    match ft {
        FileTypeV::Extension(s) => TomlAtomV::S(s),
        FileTypeV::Glob(g) => TomlAtomV::KV("glob"@, g),
    }
}

fn ft_atoms(fts: &Vec<FileType>) -> (r: Vec<TomlAtom>)
    ensures
        Seq::new(r@.len(), |i: int| r@[i]@) =~= Seq::new(
            fts@.len(),
            |i: int| spec_ft_atom(fts_view(fts@)[i]),
        ),
{
    let mut r: Vec<TomlAtom> = Vec::new();
    let mut i: usize = 0;
    while i < fts.len()
        invariant
            i <= fts@.len(),
            r@.len() == i,
            forall|j: int| 0 <= j < i ==> (#[trigger] r@[j])@ == spec_ft_atom(fts_view(fts@)[j]),
        decreases fts@.len() - i,
    {
        match &fts[i] {
            FileType::Extension(s) => {
                r.push(TomlAtom::S(s.clone()));
            },
            FileType::Glob(g) => {
                r.push(TomlAtom::KV("glob".to_owned(), g.clone()));
            },
        }
        i = i + 1;
    }
    r
}

/// The indent unit text: `size` spaces, or one tab.
pub open spec fn spec_unit_text(st: IndentStyle, w: usize) -> Seq<char> {
    match st {
        IndentStyle::Space => Seq::new(w as nat, |i: int| ' '),
        IndentStyle::Tab => "\t"@,
    }
}

/// Whether the configuration denotes any output at all: a block with no
/// indent, no line length and no trimming request is not emitted.
pub open spec fn spec_lang_cfg_emits(c: LangCfgV) -> bool {
    spec_indent(c.size, c.style, c.tab_width) is Some || spec_src_is_some(c.max_line_length)
        || spec_src_into(c.trim_trailing_whitespace) == Some(true)
}

/// The keys removed from a carried catalog table: a synthesized language
/// drops the catalog's injection regex before naming its real grammar.
pub open spec fn spec_lang_removals(c: LangCfgV) -> Seq<Seq<char>> {
    if c.grammar is Some && c.raw_toml is Some {
        seq!["injection-regex"@]
    } else {
        Seq::empty()
    }
}

/// The entries of one emitted language block, in the order they are
/// written: the inherited grammar, the name, the scope and file types of a
/// synthesized language, the indent, the line width and its ruler, and the
/// trimming formatter.
pub open spec fn spec_grammar_entries(c: LangCfgV) -> Seq<(Seq<char>, TomlValV)> {
    match c.grammar {
        Some(g) => seq![("grammar"@, TomlValV::S(g))],
        None => Seq::<(Seq<char>, TomlValV)>::empty(),
    }
}

pub open spec fn spec_ft_entries(c: LangCfgV) -> Seq<(Seq<char>, TomlValV)> {
    match c.file_types {
        Some(fts) => (if c.raw_toml is None {
            seq![("scope"@, TomlValV::S("text.plain"@))]
        } else {
            Seq::<(Seq<char>, TomlValV)>::empty()
        }) + seq![
            ("file-types"@, TomlValV::Arr(Seq::new(fts.len(), |i: int| spec_ft_atom(fts[i])))),
        ],
        None => Seq::<(Seq<char>, TomlValV)>::empty(),
    }
}

pub open spec fn spec_indent_entries(c: LangCfgV) -> Seq<(Seq<char>, TomlValV)> {
    match spec_indent(c.size, c.style, c.tab_width) {
        Some((st, w)) => seq![
            (
                "indent"@,
                TomlValV::Inline(
                    seq![
                        ("unit"@, TomlInnerV::S(spec_unit_text(st, w))),
                        ("tab-width"@, TomlInnerV::I(w as int)),
                    ],
                ),
            ),
        ],
        None => Seq::<(Seq<char>, TomlValV)>::empty(),
    }
}

pub open spec fn spec_width_entries(c: LangCfgV, rulers: bool) -> Seq<(Seq<char>, TomlValV)> {
    match spec_src_into(c.max_line_length) {
        Some(m) => seq![("text-width"@, TomlValV::I(m as int))] + (if rulers {
            seq![("rulers"@, TomlValV::Arr(seq![TomlAtomV::I(m + 1)]))]
        } else {
            Seq::<(Seq<char>, TomlValV)>::empty()
        }),
        None => Seq::<(Seq<char>, TomlValV)>::empty(),
    }
}

pub open spec fn spec_trim_entries(c: LangCfgV) -> Seq<(Seq<char>, TomlValV)> {
    if spec_src_into(c.trim_trailing_whitespace) == Some(true) {
        seq![
            (
                "formatter"@,
                TomlValV::Inline(
                    seq![
                        ("command"@, TomlInnerV::S("ec2hx"@)),
                        ("args"@, TomlInnerV::SArr(seq!["trim-trailing-whitespace"@])),
                    ],
                ),
            ),
            ("auto-format"@, TomlValV::B(true)),
        ]
    } else {
        Seq::<(Seq<char>, TomlValV)>::empty()
    }
}

pub open spec fn spec_lang_entries(
    name: Seq<char>,
    c: LangCfgV,
    rulers: bool,
) -> Seq<(Seq<char>, TomlValV)> {
    spec_grammar_entries(c) + seq![("name"@, TomlValV::S(name))] + spec_ft_entries(c)
        + spec_indent_entries(c) + spec_width_entries(c, rulers) + spec_trim_entries(c)
}

use crate::tomlio::TomlInnerV;

/// Whether every number the block would carry fits the emitted TOML.
pub open spec fn spec_lang_cfg_emittable(c: LangCfgV) -> bool {
    (match spec_indent(c.size, c.style, c.tab_width) {
        Some((_, w)) => w as int <= i64::MAX,
        None => true,
    }) && (match spec_src_into(c.max_line_length) {
        Some(m) => m as int + 1 <= i64::MAX && m < usize::MAX,
        None => true,
    })
}

/// The `languages.toml` block a configuration emits under `name`, if any.
pub open spec fn spec_lang_block(name: Seq<char>, c: LangCfgV, rulers: bool) -> Option<Seq<char>> {
    if !spec_lang_cfg_emits(c) {
        None
    } else {
        let rm = spec_lang_removals(c);
        let es = spec_lang_entries(name, c, rulers);
        Some(
            match c.raw_toml {
                Some(t) => block_text(t, "[[language]]"@, rm, es),
                None => plain_block_text("[[language]]"@, es),
            },
        )
    }
}

/// Emit the language block for `cfg` under `name`: the block text, or
/// nothing when the configuration asks for nothing.
#[verifier::rlimit(80)]
pub fn emit_lang_block(name: &str, cfg: &LangCfg, rulers: bool) -> (r: Option<String>)
    requires
        spec_lang_cfg_emittable(cfg@),
    ensures
        (match r {
            Some(s) => spec_lang_block(name@, cfg@, rulers) == Some(s@),
            None => spec_lang_block(name@, cfg@, rulers) is None,
        }),
{
    let indent = indent_of(cfg);
    let has_mll = cfg.max_line_length.is_some();
    let trim_on = matches!(cfg.trim_trailing_whitespace.into(), Some(true));
    if indent.is_none() && !has_mll && !trim_on {
        return None;
    }
    let mut removals: Vec<String> = Vec::new();
    if cfg.grammar.is_some() && cfg.raw_toml.is_some() {
        removals.push("injection-regex".to_owned());
    }
    proof {
        assert(crate::text::views_of(removals@) =~= spec_lang_removals(cfg@));
    }
    let mut entries: Vec<(String, TomlVal)> = Vec::new();
    match &cfg.grammar {
        Some(g) => {
            entries.push(("grammar".to_owned(), TomlVal::S(g.clone())));
        },
        None => {},
    }
    proof {
        assert(entries_view(entries@) =~= spec_grammar_entries(cfg@));
    }
    let ghost done = spec_grammar_entries(cfg@);
    entries.push(("name".to_owned(), TomlVal::S(name.to_owned())));
    proof {
        assert(entries_view(entries@) =~= done + seq![("name"@, TomlValV::S(name@))]);
    }
    let ghost done = done + seq![("name"@, TomlValV::S(name@))];
    match &cfg.file_types {
        Some(fts) => {
            if cfg.raw_toml.is_none() {
                entries.push(("scope".to_owned(), TomlVal::S("text.plain".to_owned())));
            }
            let atoms = ft_atoms(fts);
            let ghost before = entries_view(entries@);
            entries.push(("file-types".to_owned(), TomlVal::Arr(atoms)));
            proof {
                assert(entries_view(entries@) =~= before.push(
                    ("file-types"@, TomlValV::Arr(
                        Seq::new(cfg@.file_types.unwrap().len(), |i: int| spec_ft_atom(
                            cfg@.file_types.unwrap()[i],
                        )),
                    )),
                ));
                assert(entries_view(entries@) =~= done + spec_ft_entries(cfg@));
            }
        },
        None => {
            proof {
                assert(entries_view(entries@) =~= done + spec_ft_entries(cfg@));
            }
        },
    }
    let ghost done = done + spec_ft_entries(cfg@);
    match indent {
        Some((st, w)) => {
            let unit: String = match st {
                IndentStyle::Space => spaces(w),
                IndentStyle::Tab => "\t".to_owned(),
            };
            proof {
                assert(unit@ == spec_unit_text(st, w));
                assert(w as int <= i64::MAX);
            }
            let mut inner: Vec<(String, TomlInner)> = Vec::new();
            inner.push(("unit".to_owned(), TomlInner::S(unit)));
            inner.push(("tab-width".to_owned(), TomlInner::I(w as i64)));
            let ghost before = entries_view(entries@);
            proof {
                assert(Seq::new(inner@.len(), |i: int| (inner@[i].0@, inner@[i].1@)) =~= seq![
                    ("unit"@, TomlInnerV::S(spec_unit_text(st, w))),
                    ("tab-width"@, TomlInnerV::I(w as int)),
                ]);
            }
            entries.push(("indent".to_owned(), TomlVal::Inline(inner)));
            proof {
                assert(entries_view(entries@) =~= done + spec_indent_entries(cfg@));
            }
        },
        None => {
            proof {
                assert(entries_view(entries@) =~= done + spec_indent_entries(cfg@));
            }
        },
    }
    let ghost done = done + spec_indent_entries(cfg@);
    match cfg.max_line_length.into() {
        Some(m) => {
            proof {
                assert(m as int + 1 <= i64::MAX && m < usize::MAX);
            }
            entries.push(("text-width".to_owned(), TomlVal::I(m as i64)));
            if rulers {
                let mut atoms: Vec<TomlAtom> = Vec::new();
                atoms.push(TomlAtom::I((m + 1) as i64));
                proof {
                    assert(Seq::new(atoms@.len(), |i: int| atoms@[i]@) =~= seq![
                        TomlAtomV::I(m + 1),
                    ]);
                }
                entries.push(("rulers".to_owned(), TomlVal::Arr(atoms)));
            }
            proof {
                assert(entries_view(entries@) =~= done + spec_width_entries(cfg@, rulers));
            }
        },
        None => {
            proof {
                assert(entries_view(entries@) =~= done + spec_width_entries(cfg@, rulers));
            }
        },
    }
    let ghost done = done + spec_width_entries(cfg@, rulers);
    if trim_on {
        let mut inner: Vec<(String, TomlInner)> = Vec::new();
        inner.push(("command".to_owned(), TomlInner::S("ec2hx".to_owned())));
        let mut args: Vec<String> = Vec::new();
        args.push("trim-trailing-whitespace".to_owned());
        proof {
            assert(crate::text::views_of(args@) =~= seq!["trim-trailing-whitespace"@]);
        }
        inner.push(("args".to_owned(), TomlInner::SArr(args)));
        proof {
            assert(Seq::new(inner@.len(), |i: int| (inner@[i].0@, inner@[i].1@)) =~= seq![
                ("command"@, TomlInnerV::S("ec2hx"@)),
                ("args"@, TomlInnerV::SArr(seq!["trim-trailing-whitespace"@])),
            ]);
        }
        entries.push(("formatter".to_owned(), TomlVal::Inline(inner)));
        entries.push(("auto-format".to_owned(), TomlVal::B(true)));
    }
    proof {
        assert(entries_view(entries@) =~= done + spec_trim_entries(cfg@));
        assert(entries_view(entries@) =~= spec_lang_entries(name@, cfg@, rulers));
    }
    let text = render_block(cfg.raw_toml.as_ref(), "[[language]]", &removals, &entries);
    proof {
        assert(cfg.raw_toml matches Some(t) ==> cfg@.raw_toml == Some(t));
    }
    Some(text)
}

/// The indent the configuration resolves to.
fn indent_of(cfg: &LangCfg) -> (r: Option<(IndentStyle, usize)>)
    ensures
        r == spec_indent(cfg.size, cfg.style, cfg.tab_width),
{
    match cfg.style.into() {
        None => None,
        Some(st) => match st {
            IndentStyle::Space => match cfg.size.into() {
                Some(sz) => Some((IndentStyle::Space, sz)),
                None => None,
            },
            IndentStyle::Tab => match cfg.size.into() {
                Some(sz) => Some((IndentStyle::Tab, sz)),
                None => match cfg.tab_width.into() {
                    Some(tw) => Some((IndentStyle::Tab, tw)),
                    None => None,
                },
            },
        },
    }
}

} // verus!

verus! {

/// The text a configuration contributes to `languages.toml`: nothing when
/// it asks for nothing or its numbers cannot be written as TOML integers,
/// else its block.
pub open spec fn spec_block_or_empty(name: Seq<char>, c: LangCfgV, rulers: bool) -> Seq<char> {
    if !spec_lang_cfg_emittable(c) {
        Seq::empty()
    } else {
        match spec_lang_block(name, c, rulers) {
            Some(t) => t,
            None => Seq::empty(),
        }
    }
}

pub fn cfg_emittable(cfg: &LangCfg) -> (r: bool)
    ensures
        r == spec_lang_cfg_emittable(cfg@),
{
    let ind_ok = match indent_of(cfg) {
        Some((_, w)) => (w as u64) <= (i64::MAX as u64),
        None => true,
    };
    let mll_ok = match cfg.max_line_length.into() {
        Some(m) => m < usize::MAX && (m as u64) < (i64::MAX as u64),
        None => true,
    };
    ind_ok && mll_ok
}

/// Emit the block a configuration contributes, or nothing.
pub fn emit_block_or_empty(name: &str, cfg: &LangCfg, rulers: bool) -> (r: String)
    ensures
        r@ == spec_block_or_empty(name@, cfg@, rulers),
{
    if cfg_emittable(cfg) {
        match emit_lang_block(name, cfg, rulers) {
            Some(t) => t,
            None => {
                let r = String::new();
                proof {
                    assert(r@ =~= Seq::<char>::empty());
                }
                r
            },
        }
    } else {
        let r = String::new();
        proof {
            assert(r@ =~= Seq::<char>::empty());
        }
        r
    }
}

} // verus!
